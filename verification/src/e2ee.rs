//! The edge of the encryption engine: how what it produces is put on the wire and
//! kept, and how what comes back is read.

use vstd::prelude::*;
use vstd::string::*;
use vstd::utf8::*;

use crate::codec::{from_base64, read_json, text_of_bytes, to_base64, write_json};
use crate::error::{CoreError, CoreErrorView};
use crate::json::{object2, Json, JsonView};
use crate::session::{ks_delete, ks_get, ks_put, KeyStore, KeyStoreError, SESSION_KEY};
use crate::text::{join2, join3};

verus! {

/// The entry of the key store that holds the engine's state.
pub const MLS_STATE_KEY: &'static str = "pigeon.mls.state.v1";

/// How many key packages a device publishes.
pub const KEY_PACKAGE_COUNT: usize = 5;

/// Both halves of adding a member to a group, in base64: the welcome goes to the
/// new member, the commit to those who are there.
#[derive(Debug)]
pub struct AddOutcome {
    pub welcome: String,
    pub commit: String,
}

/// What bytes that came in base64 are. `what` names them in a complaint.
pub open spec fn wire_bytes(b64: Seq<char>, what: Seq<char>) -> Result<Seq<u8>, CoreErrorView> {
    match crate::codec::base64_bytes(b64) {
        Ok(b) => Ok(b),
        Err(why) => Err(CoreErrorView::Crypto(what + " is not valid base64: "@ + why)),
    }
}

/// Decodes bytes that came in base64. `what` names them in a complaint.
pub fn decode_wire(b64: &str, what: &str) -> (r: Result<Vec<u8>, CoreError>)
    ensures
        crate::error::core_outcome(r) == wire_bytes(b64@, what@),
{
    match from_base64(b64) {
        Ok(b) => Ok(b),
        Err(why) => Err(
            CoreError::Crypto { reason: join3(what, " is not valid base64: ", why.as_str()) },
        ),
    }
}

impl AddOutcome {
    /// Puts both halves of adding a member into base64.
    pub fn encode(welcome: &[u8], commit: &[u8]) -> (r: AddOutcome)
        requires
            welcome@.len() <= usize::MAX / 4,
            commit@.len() <= usize::MAX / 4,
        ensures
            r.welcome@ == crate::codec::base64_text(welcome@),
            r.commit@ == crate::codec::base64_text(commit@),
            wire_bytes(r.welcome@, "Welcome"@) == Ok::<Seq<u8>, CoreErrorView>(welcome@),
            wire_bytes(r.commit@, "commit"@) == Ok::<Seq<u8>, CoreErrorView>(commit@),
    {
        AddOutcome { welcome: to_base64(welcome), commit: to_base64(commit) }
    }
}

/// The complaint that this device holds no group for a room.
pub fn no_group(room_id: &str) -> (r: CoreError)
    ensures
        r@ == CoreErrorView::Crypto("no MLS group for "@ + room_id@),
{
    CoreError::Crypto { reason: join2("no MLS group for ", room_id) }
}

/// The complaint that there is no encryption engine.
pub fn no_engine() -> (r: CoreError)
    ensures
        r@ == CoreErrorView::Crypto("E2EE is not available for this session"@),
{
    CoreError::crypto("E2EE is not available for this session")
}

/// The text that decrypted bytes are, or what is wrong with them.
pub open spec fn text_outcome(bytes: Seq<u8>) -> Result<Seq<char>, CoreErrorView> {
    if valid_utf8(bytes) {
        Ok(decode_utf8(bytes))
    } else {
        Err(
            CoreErrorView::Crypto(
                "decrypted bytes are not UTF-8: "@ + crate::codec::utf8_fault(bytes),
            ),
        )
    }
}

/// The text that decrypted bytes are.
pub fn plaintext_of(bytes: Vec<u8>) -> (r: Result<String, CoreError>)
    ensures
        crate::error::core_outcome(r) == text_outcome(bytes@),
{
    match text_of_bytes(bytes) {
        Ok(s) => Ok(s),
        Err(why) => Err(
            CoreError::Crypto { reason: join2("decrypted bytes are not UTF-8: ", why.as_str()) },
        ),
    }
}

/// The members of an engine's state that is kept: its public key, and the opaque
/// state that it exports.
pub open spec fn state_members(pubkey: Seq<u8>, blob: Seq<u8>) -> Seq<(Seq<char>, JsonView)> {
    seq![
        ("pubkey"@, JsonView::Str(crate::codec::base64_text(pubkey))),
        ("blob"@, JsonView::Str(crate::codec::base64_text(blob))),
    ]
}

/// The bytes in which an engine's state is kept.
pub open spec fn state_bytes(pubkey: Seq<u8>, blob: Seq<u8>) -> Seq<u8> {
    encode_utf8(
        crate::codec::json_text(
            crate::codec::normal(JsonView::Object(state_members(pubkey, blob))),
        ),
    )
}

/// A field of an engine's state that was kept.
pub open spec fn state_field(v: JsonView, key: Seq<char>) -> Result<Seq<u8>, CoreErrorView> {
    match v.at(key).as_str() {
        None => Err(CoreErrorView::Storage("stored MLS state missing `"@ + key + "`"@)),
        Some(s) => match crate::codec::base64_bytes(s) {
            Ok(b) => Ok(b),
            Err(why) => Err(
                CoreErrorView::Storage(
                    "stored MLS `"@ + key + "` is not valid base64: "@ + why,
                ),
            ),
        },
    }
}

/// The public key and the opaque state that a value which was kept stands for.
pub open spec fn state_of(v: JsonView) -> Result<(Seq<u8>, Seq<u8>), CoreErrorView> {
    match state_field(v, "pubkey"@) {
        Err(e) => Err(e),
        Ok(pubkey) => match state_field(v, "blob"@) {
            Err(e) => Err(e),
            Ok(blob) => Ok((pubkey, blob)),
        },
    }
}

/// The public key and the opaque state that bytes which were kept stand for.
pub open spec fn kept_state(bytes: Seq<u8>) -> Result<(Seq<u8>, Seq<u8>), CoreErrorView> {
    match crate::codec::json_parse(bytes) {
        Err(why) => Err(CoreErrorView::Storage("corrupt stored MLS state: "@ + why)),
        Ok(v) => state_of(v),
    }
}

/// The view of an engine's state.
pub open spec fn state_outcome(r: Result<(Vec<u8>, Vec<u8>), CoreError>) -> Result<
    (Seq<u8>, Seq<u8>),
    CoreErrorView,
> {
    match r {
        Ok(pair) => Ok((pair.0@, pair.1@)),
        Err(e) => Err(e@),
    }
}

/// The view of an engine's state that may not be there.
pub open spec fn opt_state(state: Option<(Vec<u8>, Vec<u8>)>) -> Option<(Seq<u8>, Seq<u8>)> {
    match state {
        Some(pair) => Some((pair.0@, pair.1@)),
        None => None,
    }
}

/// The bytes in which an engine's state is kept. Reading them gives it back.
pub fn encode_state(pubkey: &[u8], blob: &[u8]) -> (r: Vec<u8>)
    requires
        pubkey@.len() <= usize::MAX / 4,
        blob@.len() <= usize::MAX / 4,
    ensures
        r@ == state_bytes(pubkey@, blob@),
        kept_state(r@) == Ok::<(Seq<u8>, Seq<u8>), CoreErrorView>((pubkey@, blob@)),
{
    let key_text = to_base64(pubkey);
    let blob_text = to_base64(blob);
    let j = object2(
        "pubkey",
        Json::string(key_text.as_str()),
        "blob",
        Json::string(blob_text.as_str()),
    );
    let text = write_json(&j);
    proof {
        reveal_strlit("pubkey");
        reveal_strlit("blob");
        assert("pubkey"@.len() == 6);
        assert("blob"@.len() == 4);
        let m = state_members(pubkey@, blob@);
        let v = crate::codec::normal(JsonView::Object(m));
        crate::codec::lemma_flat_object(m);
        reveal_with_fuel(crate::codec::last_member, 3);
        assert(v.field("pubkey"@) == Some(JsonView::Str(key_text@)));
        assert(v.field("blob"@) == Some(JsonView::Str(blob_text@)));
    }
    text.as_str().as_bytes_vec()
}

fn decode_field(v: &Json, key: &str) -> (r: Result<Vec<u8>, CoreError>)
    ensures
        crate::error::core_outcome(r) == state_field(v@, key@),
{
    match v.str_at(key) {
        None => Err(CoreError::Storage { reason: join3("stored MLS state missing `", key, "`") }),
        Some(s) => match from_base64(s) {
            Ok(b) => Ok(b),
            Err(why) => {
                let mut reason = join3("stored MLS `", key, "` is not valid base64: ");
                reason.append(why.as_str());
                Err(CoreError::Storage { reason })
            },
        },
    }
}

/// The public key and the opaque state that a value which was kept stands for.
pub fn read_state(v: &Json) -> (r: Result<(Vec<u8>, Vec<u8>), CoreError>)
    ensures
        state_outcome(r) == state_of(v@),
{
    let pubkey = match decode_field(v, "pubkey") {
        Ok(b) => b,
        Err(e) => return Err(e),
    };
    let blob = match decode_field(v, "blob") {
        Ok(b) => b,
        Err(e) => return Err(e),
    };
    Ok((pubkey, blob))
}

/// The public key and the opaque state that bytes which were kept stand for.
pub fn decode_state(bytes: &[u8]) -> (r: Result<(Vec<u8>, Vec<u8>), CoreError>)
    ensures
        state_outcome(r) == kept_state(bytes@),
{
    match read_json(bytes) {
        Ok(v) => read_state(&v),
        Err(why) => Err(
            CoreError::Storage { reason: join2("corrupt stored MLS state: ", why.as_str()) },
        ),
    }
}

/// What comes of keeping an engine's state in the key store. Without a key store
/// nothing is kept, and nothing fails.
pub open spec fn persisted<K: KeyStore>(
    keys: Option<&K>,
    pubkey: Seq<u8>,
    blob: Seq<u8>,
    outcome: Result<(), CoreErrorView>,
) -> bool {
    match keys {
        None => outcome is Ok,
        Some(s) => exists|k: String, v: Vec<u8>, answer: Result<(), KeyStoreError>|
            k@ == MLS_STATE_KEY@ && v@ == state_bytes(pubkey, blob) && #[trigger] call_ensures(
                K::put,
                (s, k, v),
                answer,
            ) && outcome == (match answer {
                Ok(_) => Ok(()),
                Err(e) => Err(crate::session::of_key_store(e)),
            }),
    }
}

/// Keeps an engine's state in the key store. Without a key store nothing is kept.
pub fn persist<K: KeyStore>(keys: Option<&K>, pubkey: &[u8], blob: &[u8]) -> (r: Result<
    (),
    CoreError,
>)
    requires
        pubkey@.len() <= usize::MAX / 4,
        blob@.len() <= usize::MAX / 4,
    ensures
        persisted(keys, pubkey@, blob@, crate::error::core_outcome(r)),
{
    let bytes = encode_state(pubkey, blob);
    match ks_put(keys, MLS_STATE_KEY, bytes) {
        Ok(_) => Ok(()),
        Err(e) => Err(e),
    }
}

/// Removes the session and the engine's state from the key store, the session
/// first. Stops where the key store fails.
pub fn clear_keys<K: KeyStore>(keys: Option<&K>) -> (r: Result<(), CoreError>)
    ensures
        match keys {
            None => r is Ok,
            Some(s) => exists|k: String, answer: Result<(), KeyStoreError>|
                k@ == SESSION_KEY@ && #[trigger] call_ensures(K::delete, (s, k), answer) && (
                match answer {
                    Err(e) => r is Err && r->Err_0@ == crate::session::of_key_store(e),
                    Ok(_) => exists|k2: String, answer2: Result<(), KeyStoreError>|
                        k2@ == MLS_STATE_KEY@ && #[trigger] call_ensures(
                            K::delete,
                            (s, k2),
                            answer2,
                        ) && (match answer2 {
                            Err(e) => r is Err && r->Err_0@ == crate::session::of_key_store(e),
                            Ok(_) => r is Ok,
                        }),
                }),
        },
{
    match ks_delete(keys, SESSION_KEY) {
        Err(e) => Err(e),
        Ok(_) => E2ee::clear(keys),
    }
}

/// What a device exports after each change of its state: its public key, and the
/// state itself, which is opaque.
#[derive(Debug)]
pub struct DeviceState {
    pub pubkey: Vec<u8>,
    pub blob: Vec<u8>,
}

impl DeviceState {
    /// The state is short enough to be written in base64.
    pub open spec fn fits(self) -> bool {
        &&& self.pubkey@.len() <= usize::MAX / 4
        &&& self.blob@.len() <= usize::MAX / 4
    }

    /// What comes of keeping this state.
    pub open spec fn kept<K: KeyStore>(
        self,
        keys: Option<&K>,
        outcome: Result<(), CoreErrorView>,
    ) -> bool {
        persisted(keys, self.pubkey@, self.blob@, outcome)
    }
}

/// What goes to the device for an operation on a room's group, where the operand
/// comes in base64. The group is looked for first.
pub open spec fn group_operand(
    room_id: Seq<char>,
    held: bool,
    b64: Seq<char>,
    what: Seq<char>,
) -> Result<Seq<u8>, CoreErrorView> {
    if held {
        wire_bytes(b64, what)
    } else {
        Err(CoreErrorView::Crypto("no MLS group for "@ + room_id))
    }
}

fn operand(room_id: &str, held: bool, b64: &str, what: &str) -> (r: Result<Vec<u8>, CoreError>)
    ensures
        crate::error::core_outcome(r) == group_operand(room_id@, held, b64@, what@),
{
    if held {
        decode_wire(b64, what)
    } else {
        Err(no_group(room_id))
    }
}

/// The operations of the encryption engine. Each comes in two halves, around the
/// work of the device: the first says what goes to the device, and the second,
/// named for what was done, keeps the device's state before anything is handed
/// out.
pub struct E2ee {}

impl E2ee {
    /// Reads an engine's state from the key store, where one is kept.
    pub fn restore<K: KeyStore>(keys: Option<&K>) -> (r: Result<
        Option<(Vec<u8>, Vec<u8>)>,
        CoreError,
    >)
        ensures
            match keys {
                None => r is Ok && r->Ok_0 is None,
                Some(s) => exists|k: String, answer: Result<Option<Vec<u8>>, KeyStoreError>|
                    k@ == MLS_STATE_KEY@ && #[trigger] call_ensures(K::get, (s, k), answer) && (
                    match answer {
                        Err(e) => r is Err && r->Err_0@ == crate::session::of_key_store(e),
                        Ok(None) => r is Ok && r->Ok_0 is None,
                        Ok(Some(bytes)) => match kept_state(bytes@) {
                            Ok(state) => r is Ok && opt_state(r->Ok_0) == Some(state),
                            Err(e) => r is Err && r->Err_0@ == e,
                        },
                    }),
            },
    {
        match ks_get(keys, MLS_STATE_KEY) {
            Err(e) => Err(e),
            Ok(None) => Ok(None),
            Ok(Some(bytes)) => match decode_state(bytes.as_slice()) {
                Ok(pair) => Ok(Some(pair)),
                Err(e) => Err(e),
            },
        }
    }

    /// Removes the engine's state from the key store.
    pub fn clear<K: KeyStore>(keys: Option<&K>) -> (r: Result<(), CoreError>)
        ensures
            match keys {
                None => r is Ok,
                Some(s) => exists|k: String, answer: Result<(), KeyStoreError>|
                    k@ == MLS_STATE_KEY@ && #[trigger] call_ensures(K::delete, (s, k), answer) && (
                    match answer {
                        Err(e) => r is Err && r->Err_0@ == crate::session::of_key_store(e),
                        Ok(_) => r is Ok,
                    }),
            },
    {
        ks_delete(keys, MLS_STATE_KEY)
    }

    /// Adds a member to a room's group: the key package that goes to the device.
    pub fn add_member(room_id: &str, held: bool, key_package_b64: &str) -> (r: Result<
        Vec<u8>,
        CoreError,
    >)
        ensures
            crate::error::core_outcome(r) == group_operand(
                room_id@,
                held,
                key_package_b64@,
                "KeyPackage"@,
            ),
    {
        operand(room_id, held, key_package_b64, "KeyPackage")
    }

    /// The device has added a member. Its state is kept, and both halves of the
    /// change are handed out.
    pub fn added<K: KeyStore>(
        keys: Option<&K>,
        state: &DeviceState,
        welcome: &[u8],
        commit: &[u8],
    ) -> (r: Result<AddOutcome, CoreError>)
        requires
            state.fits(),
            welcome@.len() <= usize::MAX / 4,
            commit@.len() <= usize::MAX / 4,
        ensures
            exists|outcome: Result<(), CoreErrorView>| #[trigger]
                state.kept(keys, outcome) && (match outcome {
                    Err(e) => r is Err && r->Err_0@ == e,
                    Ok(_) => r is Ok && r->Ok_0.welcome@ == crate::codec::base64_text(welcome@)
                        && r->Ok_0.commit@ == crate::codec::base64_text(commit@),
                }),
            r is Ok ==> wire_bytes(r->Ok_0.welcome@, "Welcome"@) == Ok::<Seq<u8>, CoreErrorView>(
                welcome@,
            ),
            r is Ok ==> wire_bytes(r->Ok_0.commit@, "commit"@) == Ok::<Seq<u8>, CoreErrorView>(
                commit@,
            ),
    {
        let kept = persist(keys, state.pubkey.as_slice(), state.blob.as_slice());
        assert(state.kept(keys, crate::error::core_outcome(kept)));
        match kept {
            Ok(_) => Ok(AddOutcome::encode(welcome, commit)),
            Err(e) => Err(e),
        }
    }

    /// Applies a change of a room's group: the commit that goes to the device.
    pub fn process_commit(room_id: &str, held: bool, commit_b64: &str) -> (r: Result<
        Vec<u8>,
        CoreError,
    >)
        ensures
            crate::error::core_outcome(r) == group_operand(room_id@, held, commit_b64@, "commit"@),
    {
        operand(room_id, held, commit_b64, "commit")
    }

    /// Joins a group: the welcome that goes to the device.
    pub fn join_from_welcome(welcome_b64: &str) -> (r: Result<Vec<u8>, CoreError>)
        ensures
            crate::error::core_outcome(r) == wire_bytes(welcome_b64@, "Welcome"@),
    {
        decode_wire(welcome_b64, "Welcome")
    }

    /// The device has changed, and nothing is to be handed out: it was made or
    /// restored, a group was created or joined, or a commit applied. Its state is
    /// kept.
    pub fn changed<K: KeyStore>(keys: Option<&K>, state: &DeviceState) -> (r: Result<
        (),
        CoreError,
    >)
        requires
            state.fits(),
        ensures
            state.kept(keys, crate::error::core_outcome(r)),
    {
        persist(keys, state.pubkey.as_slice(), state.blob.as_slice())
    }

    /// Encrypts a message for a room's group: the bytes that go to the device.
    pub fn encrypt(room_id: &str, held: bool, plaintext: &str) -> (r: Result<Vec<u8>, CoreError>)
        ensures
            crate::error::core_outcome(r) == (if held {
                Ok(encode_utf8(plaintext@))
            } else {
                Err(CoreErrorView::Crypto("no MLS group for "@ + room_id@))
            }),
    {
        if held {
            Ok(plaintext.as_bytes_vec())
        } else {
            Err(no_group(room_id))
        }
    }

    /// The device has encrypted a message. Its state is kept, and the ciphertext
    /// is handed out.
    pub fn encrypted<K: KeyStore>(
        keys: Option<&K>,
        state: &DeviceState,
        ciphertext: &[u8],
    ) -> (r: Result<String, CoreError>)
        requires
            state.fits(),
            ciphertext@.len() <= usize::MAX / 4,
        ensures
            exists|outcome: Result<(), CoreErrorView>| #[trigger]
                state.kept(keys, outcome) && crate::error::core_outcome(r) == (match outcome {
                    Err(e) => Err(e),
                    Ok(_) => Ok(crate::codec::base64_text(ciphertext@)),
                }),
            r is Ok ==> wire_bytes(r->Ok_0@, "ciphertext"@) == Ok::<Seq<u8>, CoreErrorView>(
                ciphertext@,
            ),
    {
        let kept = persist(keys, state.pubkey.as_slice(), state.blob.as_slice());
        assert(state.kept(keys, crate::error::core_outcome(kept)));
        match kept {
            Ok(_) => Ok(to_base64(ciphertext)),
            Err(e) => Err(e),
        }
    }

    /// Decrypts a message of a room's group: the ciphertext that goes to the
    /// device.
    pub fn decrypt(room_id: &str, held: bool, ciphertext_b64: &str) -> (r: Result<
        Vec<u8>,
        CoreError,
    >)
        ensures
            crate::error::core_outcome(r) == group_operand(
                room_id@,
                held,
                ciphertext_b64@,
                "ciphertext"@,
            ),
    {
        operand(room_id, held, ciphertext_b64, "ciphertext")
    }

    /// The device has decrypted a message. Its state is kept, also where the bytes
    /// are not text, and the text is handed out.
    pub fn decrypted<K: KeyStore>(
        keys: Option<&K>,
        state: &DeviceState,
        plaintext: Vec<u8>,
    ) -> (r: Result<String, CoreError>)
        requires
            state.fits(),
        ensures
            exists|outcome: Result<(), CoreErrorView>| #[trigger]
                state.kept(keys, outcome) && crate::error::core_outcome(r) == (match outcome {
                    Err(e) => Err(e),
                    Ok(_) => text_outcome(plaintext@),
                }),
    {
        let kept = persist(keys, state.pubkey.as_slice(), state.blob.as_slice());
        assert(state.kept(keys, crate::error::core_outcome(kept)));
        match kept {
            Ok(_) => plaintext_of(plaintext),
            Err(e) => Err(e),
        }
    }

    /// The device has made key packages. Its state is kept, since it holds their
    /// private halves, and they are handed out.
    pub fn key_packages<K: KeyStore>(
        keys: Option<&K>,
        state: &DeviceState,
        packages: &Vec<Vec<u8>>,
    ) -> (r: Result<Vec<String>, CoreError>)
        requires
            state.fits(),
            forall|i: int| 0 <= i < packages@.len() ==> (#[trigger] packages@[i])@.len()
                <= usize::MAX / 4,
        ensures
            exists|outcome: Result<(), CoreErrorView>| #[trigger]
                state.kept(keys, outcome) && (match outcome {
                    Err(e) => r is Err && r->Err_0@ == e,
                    Ok(_) => r is Ok && crate::store::summary::string_views(r->Ok_0@)
                        == package_texts(packages@),
                }),
    {
        let kept = persist(keys, state.pubkey.as_slice(), state.blob.as_slice());
        assert(state.kept(keys, crate::error::core_outcome(kept)));
        match kept {
            Err(e) => Err(e),
            Ok(_) => {
                let mut texts: Vec<String> = Vec::new();
                for i in 0..packages.len()
                    invariant
                        texts@.len() == i,
                        forall|j: int| 0 <= j < packages@.len() ==> (
                        #[trigger] packages@[j])@.len() <= usize::MAX / 4,
                        forall|j: int|
                            0 <= j < i ==> (#[trigger] texts@[j])@ == crate::codec::base64_text(
                                packages@[j]@,
                            ),
                {
                    texts.push(to_base64(packages[i].as_slice()));
                }
                assert(crate::store::summary::string_views(texts@) =~= package_texts(packages@));
                Ok(texts)
            },
        }
    }

    /// The device has made its last-resort key package. Its state is kept, since it
    /// holds the private half, and the package is handed out.
    pub fn last_resort_key_package<K: KeyStore>(
        keys: Option<&K>,
        state: &DeviceState,
        package: &[u8],
    ) -> (r: Result<String, CoreError>)
        requires
            state.fits(),
            package@.len() <= usize::MAX / 4,
        ensures
            exists|outcome: Result<(), CoreErrorView>| #[trigger]
                state.kept(keys, outcome) && crate::error::core_outcome(r) == (match outcome {
                    Err(e) => Err(e),
                    Ok(_) => Ok(crate::codec::base64_text(package@)),
                }),
    {
        let kept = persist(keys, state.pubkey.as_slice(), state.blob.as_slice());
        assert(state.kept(keys, crate::error::core_outcome(kept)));
        match kept {
            Ok(_) => Ok(to_base64(package)),
            Err(e) => Err(e),
        }
    }

    /// The key that the device publishes.
    pub fn signature_public_key_b64(state: &DeviceState) -> (r: String)
        requires
            state.fits(),
        ensures
            r@ == crate::codec::base64_text(state.pubkey@),
    {
        to_base64(state.pubkey.as_slice())
    }

    /// A file was encrypted under a fresh key. The key goes into an encrypted
    /// message, and the bytes to the server.
    pub fn encrypt_media(key: &[u8], ciphertext: Vec<u8>) -> (r: (String, Vec<u8>))
        requires
            key@.len() <= usize::MAX / 4,
        ensures
            r.0@ == crate::codec::base64_text(key@),
            r.1@ == ciphertext@,
            wire_bytes(r.0@, "media key"@) == Ok::<Seq<u8>, CoreErrorView>(key@),
    {
        (to_base64(key), ciphertext)
    }

    /// Decrypts a file: the key for it.
    pub fn decrypt_media(key_b64: &str) -> (r: Result<Vec<u8>, CoreError>)
        ensures
            crate::error::core_outcome(r) == wire_bytes(key_b64@, "media key"@),
    {
        decode_wire(key_b64, "media key")
    }

    /// A backup of the device was made: the recovery key, which is for the user
    /// alone, and the bytes that the server keeps.
    pub fn create_backup(recovery_key: &[u8], blob: &[u8]) -> (r: (String, String))
        requires
            recovery_key@.len() <= usize::MAX / 4,
            blob@.len() <= usize::MAX / 4,
        ensures
            r.0@ == crate::codec::base64_text(recovery_key@),
            r.1@ == crate::codec::base64_text(blob@),
            backup_operands(r.0@, r.1@) == Ok::<(Seq<u8>, Seq<u8>), CoreErrorView>(
                (recovery_key@, blob@),
            ),
    {
        (to_base64(recovery_key), to_base64(blob))
    }

    /// Restores a device from a backup: the recovery key and the backup that go to
    /// the device.
    pub fn restore_from_backup(recovery_key_b64: &str, blob_b64: &str) -> (r: Result<
        (Vec<u8>, Vec<u8>),
        CoreError,
    >)
        ensures
            state_outcome(r) == backup_operands(recovery_key_b64@, blob_b64@),
    {
        let recovery_key = match decode_wire(recovery_key_b64, "recovery key") {
            Ok(b) => b,
            Err(e) => return Err(e),
        };
        match decode_wire(blob_b64, "backup blob") {
            Ok(blob) => Ok((recovery_key, blob)),
            Err(e) => Err(e),
        }
    }
}

/// Key packages in base64.
pub open spec fn package_texts(packages: Seq<Vec<u8>>) -> Seq<Seq<char>> {
    Seq::new(packages.len(), |i: int| crate::codec::base64_text(packages[i]@))
}

/// The recovery key and the backup that were handed in, in base64.
pub open spec fn backup_operands(recovery_key: Seq<char>, blob: Seq<char>) -> Result<
    (Seq<u8>, Seq<u8>),
    CoreErrorView,
> {
    match wire_bytes(recovery_key, "recovery key"@) {
        Err(e) => Err(e),
        Ok(key) => match wire_bytes(blob, "backup blob"@) {
            Err(e) => Err(e),
            Ok(bytes) => Ok((key, bytes)),
        },
    }
}

/// Bytes that came in base64 are what the text decodes to, and where it does not decode
/// the complaint names them.
pub proof fn wire_bytes_are_what_is_decoded(b64: Seq<char>, what: Seq<char>)
    ensures
        crate::codec::base64_bytes(b64) matches Ok(bytes) ==> wire_bytes(b64, what) == Ok::<
            Seq<u8>,
            CoreErrorView,
        >(bytes),
        crate::codec::base64_bytes(b64) matches Err(why) ==> wire_bytes(b64, what) == Err::<
            Seq<u8>,
            CoreErrorView,
        >(CoreErrorView::Crypto(what + " is not valid base64: "@ + why)),
{
}

/// What goes to the device for an operation on a room's group is what the operand decodes
/// to, and nothing goes there where the group is not held: the complaint names the room.
pub proof fn operand_needs_its_group(
    room: Seq<char>,
    b64: Seq<char>,
    what: Seq<char>,
)
    ensures
        group_operand(room, true, b64, what) == wire_bytes(b64, what),
        group_operand(room, false, b64, what) == Err::<Seq<u8>, CoreErrorView>(
            CoreErrorView::Crypto("no MLS group for "@ + room),
        ),
{
}

/// Decrypted bytes are the text that they encode, and where they encode none that is said.
pub proof fn plaintext_is_what_the_bytes_encode(text: Seq<char>, bytes: Seq<u8>)
    ensures
        text_outcome(encode_utf8(text)) == Ok::<Seq<char>, CoreErrorView>(text),
        !valid_utf8(bytes) ==> text_outcome(bytes) is Err && text_outcome(bytes)->Err_0 is Crypto,
{
    encode_utf8_valid_utf8(text);
    encode_utf8_decode_utf8(text);
}

/// The state of an engine that was kept is read as it was kept: the public key and the
/// opaque state are what the members of their names decode to.
pub proof fn kept_engine_is_read_as_it_is(v: JsonView)
    ensures
        state_of(v) matches Ok((pubkey, blob)) ==> v.at("pubkey"@) is Str && v.at("blob"@) is Str
            && crate::codec::base64_bytes(v.at("pubkey"@)->Str_0) == Ok::<Seq<u8>, Seq<char>>(
            pubkey,
        ) && crate::codec::base64_bytes(v.at("blob"@)->Str_0) == Ok::<Seq<u8>, Seq<char>>(blob),
        v.at("pubkey"@) is Str && v.at("blob"@) is Str && crate::codec::base64_bytes(
            v.at("pubkey"@)->Str_0,
        ) is Ok && crate::codec::base64_bytes(v.at("blob"@)->Str_0) is Ok ==> state_of(v) is Ok,
        state_of(v) matches Err(e) ==> e is Storage,
{
}

/// What is restored from a backup is the recovery key and the backup, each decoded, and
/// neither where one of them does not decode.
pub proof fn backup_is_what_was_handed_in(recovery_key: Seq<char>, blob: Seq<char>)
    ensures
        backup_operands(recovery_key, blob) matches Ok((key, bytes)) ==> crate::codec::base64_bytes(
            recovery_key,
        ) == Ok::<Seq<u8>, Seq<char>>(key) && crate::codec::base64_bytes(blob) == Ok::<
            Seq<u8>,
            Seq<char>,
        >(bytes),
        crate::codec::base64_bytes(recovery_key) is Ok && crate::codec::base64_bytes(blob) is Ok
            ==> backup_operands(recovery_key, blob) is Ok,
{
}

/// Each key package is written in base64 at its own place.
pub proof fn packages_are_written_in_their_order(packages: Seq<Vec<u8>>, i: int)
    ensures
        package_texts(packages).len() == packages.len(),
        0 <= i < packages.len() ==> package_texts(packages)[i] == crate::codec::base64_text(
            packages[i]@,
        ),
{
}

/// What is kept of an engine is the JSON text of a value that holds the public key and the
/// opaque state, each in base64 under its own name.
pub proof fn kept_engine_holds_its_state(pubkey: Seq<u8>, blob: Seq<u8>) -> (kept: JsonView)
    ensures
        state_bytes(pubkey, blob) == encode_utf8(crate::codec::json_text(kept)),
        kept.at("pubkey"@) == JsonView::Str(crate::codec::base64_text(pubkey)),
        kept.at("blob"@) == JsonView::Str(crate::codec::base64_text(blob)),
{
    reveal_strlit("pubkey");
    reveal_strlit("blob");
    assert("pubkey"@.len() == 6);
    assert("blob"@.len() == 4);
    let m = state_members(pubkey, blob);
    crate::codec::lemma_flat_object(m);
    reveal_with_fuel(crate::codec::last_member, 3);
    let v = crate::codec::normal(JsonView::Object(m));
    assert(v.field("pubkey"@) == Some(m[0].1));
    assert(v.field("blob"@) == Some(m[1].1));
    v
}

} // verus!
