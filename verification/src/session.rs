//! Sessions: who is logged in, how that is kept in the host's key store, and what
//! launching the app makes of it.

use vstd::prelude::*;
use vstd::string::*;
use vstd::utf8::*;

use crate::api::{Api, ApiError, ApiErrorView, ApiView, AuthResponse, AuthView, ErrorCode, HttpRequest, RequestView};
use crate::codec::{read_json, write_json};
use crate::error::{CoreError, CoreErrorView};
use crate::json::{Json, JsonView};
use crate::text::{join2, join3};

verus! {

/// The entry of the key store that holds the session.
pub const SESSION_KEY: &'static str = "pigeon.session.v1";

/// Who is logged in, and where. It holds no secret.
#[derive(Debug)]
pub struct Session {
    pub user_id: String,
    pub device_id: String,
    pub server: String,
}

/// What a [`Session`] holds.
pub struct SessionView {
    pub user_id: Seq<char>,
    pub device_id: Seq<char>,
    pub server: Seq<char>,
}

impl View for Session {
    type V = SessionView;

    open spec fn view(&self) -> SessionView {
        SessionView { user_id: self.user_id@, device_id: self.device_id@, server: self.server@ }
    }
}

impl Clone for Session {
    fn clone(&self) -> (r: Session)
        ensures
            r@ == self@,
    {
        Session {
            user_id: self.user_id.clone(),
            device_id: self.device_id.clone(),
            server: self.server.clone(),
        }
    }
}

/// A failure of the host's key store.
#[derive(Debug)]
pub enum KeyStoreError {
    Backend { reason: String },
}

impl KeyStoreError {
    /// The error in words.
    pub fn describe(&self) -> (r: String)
        ensures
            match self {
                KeyStoreError::Backend { reason } => r@ == "key store backend error: "@ + reason@,
            },
    {
        match self {
            KeyStoreError::Backend { reason } => join2(
                "key store backend error: ",
                reason.as_str(),
            ),
        }
    }
}

/// The host's secure store for small secrets.
pub trait KeyStore: Send + Sync {
    /// Keeps `value` under `key`, in place of what is there.
    fn put(&self, key: String, value: Vec<u8>) -> Result<(), KeyStoreError>;

    /// What is kept under `key`, if anything is.
    fn get(&self, key: String) -> Result<Option<Vec<u8>>, KeyStoreError>;

    /// Removes what is kept under `key`, if anything is.
    fn delete(&self, key: String) -> Result<(), KeyStoreError>;
}

/// What a failure of the key store is reported as.
pub open spec fn of_key_store(e: KeyStoreError) -> CoreErrorView {
    match e {
        KeyStoreError::Backend { reason } => CoreErrorView::Storage(reason@),
    }
}

/// What keeping a value comes to, by what the key store answers.
pub open spec fn put_answered(
    answer: Result<(), KeyStoreError>,
    r: Result<bool, CoreError>,
) -> bool {
    match answer {
        Ok(_) => r is Ok && r->Ok_0,
        Err(e) => r is Err && r->Err_0@ == of_key_store(e),
    }
}

/// Keeps `value` under `key`. Without a key store nothing is kept, and `false` is
/// returned.
pub fn ks_put<K: KeyStore>(store: Option<&K>, key: &str, value: Vec<u8>) -> (r: Result<
    bool,
    CoreError,
>)
    ensures
        match store {
            None => r is Ok && !r->Ok_0,
            Some(s) => exists|k: String, answer: Result<(), KeyStoreError>|
                k@ == key@ && #[trigger] call_ensures(K::put, (s, k, value), answer)
                    && put_answered(answer, r),
        },
{
    match store {
        Some(s) => {
            let k = key.to_owned();
            let answer = s.put(k, value);
            assert(call_ensures(K::put, (s, k, value), answer));
            match answer {
                Ok(_) => Ok(true),
                Err(e) => Err(CoreError::from(e)),
            }
        },
        None => Ok(false),
    }
}

/// What is kept under `key`; nothing where there is no key store.
pub fn ks_get<K: KeyStore>(store: Option<&K>, key: &str) -> (r: Result<
    Option<Vec<u8>>,
    CoreError,
>)
    ensures
        match store {
            None => r is Ok && r->Ok_0 is None,
            Some(s) => exists|k: String, answer: Result<Option<Vec<u8>>, KeyStoreError>|
                k@ == key@ && #[trigger] call_ensures(K::get, (s, k), answer) && (match answer {
                    Ok(value) => r is Ok && r->Ok_0 == value,
                    Err(e) => r is Err && r->Err_0@ == of_key_store(e),
                }),
        },
{
    match store {
        Some(s) => {
            let k = key.to_owned();
            let answer = s.get(k);
            assert(call_ensures(K::get, (s, k), answer));
            match answer {
                Ok(value) => Ok(value),
                Err(e) => Err(CoreError::from(e)),
            }
        },
        None => Ok(None),
    }
}

/// Removes what is kept under `key`.
pub fn ks_delete<K: KeyStore>(store: Option<&K>, key: &str) -> (r: Result<(), CoreError>)
    ensures
        match store {
            None => r is Ok,
            Some(s) => exists|k: String, answer: Result<(), KeyStoreError>|
                k@ == key@ && #[trigger] call_ensures(K::delete, (s, k), answer) && (match answer {
                    Ok(_) => r is Ok,
                    Err(e) => r is Err && r->Err_0@ == of_key_store(e),
                }),
        },
{
    match store {
        Some(s) => {
            let k = key.to_owned();
            let answer = s.delete(k);
            assert(call_ensures(K::delete, (s, k), answer));
            match answer {
                Ok(_) => Ok(()),
                Err(e) => Err(CoreError::from(e)),
            }
        },
        None => Ok(()),
    }
}

/// The members of a session that is kept.
pub open spec fn session_members(session: SessionView, token: Seq<char>) -> Seq<
    (Seq<char>, JsonView),
> {
    seq![
        ("user_id"@, JsonView::Str(session.user_id)),
        ("device_id"@, JsonView::Str(session.device_id)),
        ("server"@, JsonView::Str(session.server)),
        ("access_token"@, JsonView::Str(token)),
    ]
}

/// The bytes in which a session is kept.
pub open spec fn session_bytes(session: SessionView, token: Seq<char>) -> Seq<u8> {
    encode_utf8(
        crate::codec::json_text(
            crate::codec::normal(JsonView::Object(session_members(session, token))),
        ),
    )
}

/// A field of a session that was kept.
pub open spec fn session_field(v: JsonView, key: Seq<char>) -> Result<Seq<char>, CoreErrorView> {
    match v.at(key).as_str() {
        Some(s) => Ok(s),
        None => Err(CoreErrorView::Storage("stored session missing `"@ + key + "`"@)),
    }
}

/// The session and the token that a value which was kept stands for, or the
/// complaint about the first field that it lacks.
pub open spec fn session_of(v: JsonView) -> Result<(SessionView, Seq<char>), CoreErrorView> {
    match session_field(v, "user_id"@) {
        Err(e) => Err(e),
        Ok(user_id) => match session_field(v, "device_id"@) {
            Err(e) => Err(e),
            Ok(device_id) => match session_field(v, "server"@) {
                Err(e) => Err(e),
                Ok(server) => match session_field(v, "access_token"@) {
                    Err(e) => Err(e),
                    Ok(token) => Ok((SessionView { user_id, device_id, server }, token)),
                },
            },
        },
    }
}

/// The session and the token that bytes which were kept stand for.
pub open spec fn kept_session(bytes: Seq<u8>) -> Result<(SessionView, Seq<char>), CoreErrorView> {
    match crate::codec::json_parse(bytes) {
        Err(why) => Err(CoreErrorView::Storage("corrupt stored session: "@ + why)),
        Ok(v) => session_of(v),
    }
}

/// The view of a session with its token.
pub open spec fn session_outcome(r: Result<(Session, String), CoreError>) -> Result<
    (SessionView, Seq<char>),
    CoreErrorView,
> {
    match r {
        Ok(pair) => Ok((pair.0@, pair.1@)),
        Err(e) => Err(e@),
    }
}

/// The bytes in which a session and its token are kept. Reading them gives both
/// back.
pub fn encode_session(session: &Session, token: &str) -> (r: Vec<u8>)
    ensures
        r@ == session_bytes(session@, token@),
        kept_session(r@) == Ok::<(SessionView, Seq<char>), CoreErrorView>((session@, token@)),
{
    let mut m: Vec<(String, Json)> = Vec::new();
    m.push(("user_id".to_owned(), Json::string(session.user_id.as_str())));
    m.push(("device_id".to_owned(), Json::string(session.device_id.as_str())));
    m.push(("server".to_owned(), Json::string(session.server.as_str())));
    m.push(("access_token".to_owned(), Json::string(token)));
    let j = Json::Object(m);
    assert(j@->Object_0 =~= session_members(session@, token@));
    let text = write_json(&j);
    proof {
        lemma_session_fields(session@, token@);
        crate::codec::lemma_flat_object(session_members(session@, token@));
    }
    text.as_str().as_bytes_vec()
}

/// The fields of a session that is kept are found as they are written.
proof fn lemma_session_fields(session: SessionView, token: Seq<char>)
    ensures
        session_of(crate::codec::normal(JsonView::Object(session_members(session, token)))) == Ok::<
            (SessionView, Seq<char>),
            CoreErrorView,
        >((session, token)),
{
    reveal_strlit("user_id");
    reveal_strlit("device_id");
    reveal_strlit("server");
    reveal_strlit("access_token");
    assert("user_id"@.len() == 7);
    assert("device_id"@.len() == 9);
    assert("server"@.len() == 6);
    assert("access_token"@.len() == 12);
    let m = session_members(session, token);
    let v = crate::codec::normal(JsonView::Object(m));
    crate::codec::lemma_flat_object(m);
    reveal_with_fuel(crate::codec::last_member, 5);
    assert(v.field("user_id"@) == Some(JsonView::Str(session.user_id)));
    assert(v.field("device_id"@) == Some(JsonView::Str(session.device_id)));
    assert(v.field("server"@) == Some(JsonView::Str(session.server)));
    assert(v.field("access_token"@) == Some(JsonView::Str(token)));
}

fn field_of(v: &Json, key: &str) -> (r: Result<String, CoreError>)
    ensures
        crate::error::core_outcome(r) == session_field(v@, key@),
{
    match v.string_at(key) {
        Some(s) => Ok(s),
        None => Err(CoreError::Storage { reason: join3("stored session missing `", key, "`") }),
    }
}

/// The session and the token that a value which was kept stands for.
pub fn read_session(v: &Json) -> (r: Result<(Session, String), CoreError>)
    ensures
        session_outcome(r) == session_of(v@),
{
    let user_id = match field_of(v, "user_id") {
        Ok(s) => s,
        Err(e) => return Err(e),
    };
    let device_id = match field_of(v, "device_id") {
        Ok(s) => s,
        Err(e) => return Err(e),
    };
    let server = match field_of(v, "server") {
        Ok(s) => s,
        Err(e) => return Err(e),
    };
    let token = match field_of(v, "access_token") {
        Ok(s) => s,
        Err(e) => return Err(e),
    };
    Ok((Session { user_id, device_id, server }, token))
}

/// The session and the token that bytes which were kept stand for.
pub fn decode_session(bytes: &[u8]) -> (r: Result<(Session, String), CoreError>)
    ensures
        session_outcome(r) == kept_session(bytes@),
{
    match read_json(bytes) {
        Ok(v) => read_session(&v),
        Err(why) => Err(
            CoreError::Storage { reason: join2("corrupt stored session: ", why.as_str()) },
        ),
    }
}

/// The API of a homeserver on which nobody is logged in yet.
pub open spec fn signed_out(server: Seq<char>) -> ApiView {
    ApiView { base: crate::api::trimmed(server), token: None }
}

/// Registering an account on a homeserver: its API, and the request.
pub fn register(server: &str, username: &str, password: &str) -> (r: (Api, HttpRequest))
    ensures
        r.0@ == signed_out(server@),
        r.1@ == signed_out(server@).post(
            "/_pigeon/client/v1/register"@,
            JsonView::Object(
                seq![
                    ("username"@, JsonView::Str(username@)),
                    ("password"@, JsonView::Str(password@)),
                ],
            ),
        ),
{
    let api = Api::new(server, None);
    let request = api.register(username, password);
    (api, request)
}

/// Logging into an account on a homeserver: its API, and the request.
pub fn login(server: &str, user: &str, password: &str) -> (r: (Api, HttpRequest))
    ensures
        r.0@ == signed_out(server@),
        r.1@ == signed_out(server@).post(
            "/_pigeon/client/v1/login"@,
            JsonView::Object(
                seq![
                    ("type"@, JsonView::Str("p.login.password"@)),
                    ("user"@, JsonView::Str(user@)),
                    ("password"@, JsonView::Str(password@)),
                ],
            ),
        ),
{
    let api = Api::new(server, None);
    let request = api.login(user, password);
    (api, request)
}

/// A login that is complete but for the store and the encryption engine.
pub struct LoggedIn {
    pub api: Api,
    pub session: Session,
    /// Whether the session will survive a restart.
    pub persisted: bool,
}

/// The session that a login on a server makes.
pub open spec fn new_session(server: Seq<char>, auth: AuthView) -> SessionView {
    SessionView { user_id: auth.user_id, device_id: auth.device_id, server }
}

/// Completes a login: keeps the session, with its token, in the key store, and
/// lets the token authorise further requests. Keeping comes first, so that a
/// session which is in use can be restored. Without a key store the session lasts
/// until the app ends.
pub fn finish_login<K: KeyStore>(
    keys: Option<&K>,
    server: String,
    api: Api,
    auth: AuthResponse,
) -> (r: Result<LoggedIn, CoreError>)
    ensures
        match r {
            Ok(l) => l.session@ == new_session(server@, auth@) && l.api@.base == api@.base
                && l.api@.token == Some(auth@.access_token) && l.persisted == (keys is Some),
            Err(_) => keys is Some,
        },
        match keys {
            None => true,
            Some(s) => exists|k: String, v: Vec<u8>, answer: Result<(), KeyStoreError>|
                k@ == SESSION_KEY@ && v@ == session_bytes(
                    new_session(server@, auth@),
                    auth@.access_token,
                ) && #[trigger] call_ensures(K::put, (s, k, v), answer) && (match answer {
                    Ok(_) => r is Ok,
                    Err(e) => r is Err && r->Err_0@ == of_key_store(e),
                }),
        },
{
    let session = Session { user_id: auth.user_id, device_id: auth.device_id, server };
    let token = auth.access_token;
    let blob = encode_session(&session, token.as_str());
    let kept = ks_put(keys, SESSION_KEY, blob);
    let persisted = match kept {
        Ok(p) => p,
        Err(e) => return Err(e),
    };
    let mut out = api;
    out.set_token(Some(token));
    Ok(LoggedIn { api: out, session, persisted })
}

/// A session that was kept, and the API that it stands for.
pub struct Restoring {
    pub session: Session,
    pub api: Api,
    /// Whether the server has just accepted the token.
    pub online: bool,
}

/// What a [`Restoring`] holds.
pub struct RestoringView {
    pub session: SessionView,
    pub api: ApiView,
    pub online: bool,
}

impl View for Restoring {
    type V = RestoringView;

    open spec fn view(&self) -> RestoringView {
        RestoringView { session: self.session@, api: self.api@, online: self.online }
    }
}

/// What became of loading the encryption engine from the key store.
#[derive(Debug, Clone, Copy, PartialEq, Eq, Structural)]
pub enum EngineLoad {
    Restored,
    /// None was kept.
    Absent,
    /// What was kept cannot be used.
    Unusable,
}

/// What has happened in the course of a restore.
pub enum RestoreEvent {
    /// The key store was read.
    Stored(Result<Option<Vec<u8>>, CoreError>),
    /// The server was asked whose token it is.
    Checked(Restoring, Result<Json, ApiError>),
    /// The encryption engine was loaded.
    EngineLoaded(Restoring, EngineLoad),
    /// A new encryption engine was made, or not.
    EngineMinted(Restoring, bool),
}

/// What is to be done next in the course of a restore.
pub enum RestoreAction {
    /// There is no session.
    NoSession,
    /// Ask the server whose token it is.
    Check(Restoring, HttpRequest),
    /// Remove the session from the key store. There is none any longer.
    Forget,
    /// Load the encryption engine from the key store.
    LoadEngine(Restoring),
    /// Make a new encryption engine.
    MintEngine(Restoring),
    /// Open the store. The session is restored.
    Open {
        session: Restoring,
        has_engine: bool,
        /// Whether the engine's keys have to be published.
        publish: bool,
    },
}

/// What a [`RestoreEvent`] says.
pub enum RestoreEventView {
    Stored(Result<Option<Seq<u8>>, CoreErrorView>),
    Checked(RestoringView, Result<JsonView, ApiErrorView>),
    EngineLoaded(RestoringView, EngineLoad),
    EngineMinted(RestoringView, bool),
}

/// What a [`RestoreAction`] says.
pub enum RestoreActionView {
    NoSession,
    Check(RestoringView, RequestView),
    Forget,
    LoadEngine(RestoringView),
    MintEngine(RestoringView),
    Open(RestoringView, bool, bool),
}

impl View for RestoreEvent {
    type V = RestoreEventView;

    open spec fn view(&self) -> RestoreEventView {
        match self {
            RestoreEvent::Stored(r) => RestoreEventView::Stored(
                match r {
                    Ok(Some(b)) => Ok(Some(b@)),
                    Ok(None) => Ok(None),
                    Err(e) => Err(e@),
                },
            ),
            RestoreEvent::Checked(s, reply) => RestoreEventView::Checked(
                s@,
                crate::api::api_outcome(*reply),
            ),
            RestoreEvent::EngineLoaded(s, load) => RestoreEventView::EngineLoaded(s@, *load),
            RestoreEvent::EngineMinted(s, made) => RestoreEventView::EngineMinted(s@, *made),
        }
    }
}

impl View for RestoreAction {
    type V = RestoreActionView;

    open spec fn view(&self) -> RestoreActionView {
        match self {
            RestoreAction::NoSession => RestoreActionView::NoSession,
            RestoreAction::Check(s, request) => RestoreActionView::Check(s@, request@),
            RestoreAction::Forget => RestoreActionView::Forget,
            RestoreAction::LoadEngine(s) => RestoreActionView::LoadEngine(s@),
            RestoreAction::MintEngine(s) => RestoreActionView::MintEngine(s@),
            RestoreAction::Open { session, has_engine, publish } => RestoreActionView::Open(
                session@,
                *has_engine,
                *publish,
            ),
        }
    }
}

/// Whether an error says that the token is dead.
pub open spec fn token_is_dead(e: ApiErrorView) -> bool {
    e matches ApiErrorView::Server(_, code, _) && (code is UnknownToken || code is MissingToken)
}

/// What follows in the course of a restore. A token that the server does not know
/// is forgotten. One that the server cannot be asked about is trusted. An engine
/// that was made anew has its keys published, once the server was reached.
pub open spec fn restore_step(event: RestoreEventView) -> Result<RestoreActionView, CoreErrorView> {
    match event {
        RestoreEventView::Stored(Err(e)) => Err(e),
        RestoreEventView::Stored(Ok(None)) => Ok(RestoreActionView::NoSession),
        RestoreEventView::Stored(Ok(Some(bytes))) => match kept_session(bytes) {
            Err(e) => Err(e),
            Ok((session, token)) => {
                let api = ApiView {
                    base: crate::api::trimmed(session.server),
                    token: Some(token),
                };
                Ok(
                    RestoreActionView::Check(
                        RestoringView { session, api, online: false },
                        api.get("/_pigeon/client/v1/account/whoami"@),
                    ),
                )
            },
        },
        RestoreEventView::Checked(s, Ok(_)) => Ok(
            RestoreActionView::LoadEngine(RestoringView { online: true, ..s }),
        ),
        RestoreEventView::Checked(s, Err(e)) => if token_is_dead(e) {
            Ok(RestoreActionView::Forget)
        } else if e is Network {
            Ok(RestoreActionView::LoadEngine(RestoringView { online: false, ..s }))
        } else {
            Err(crate::error::of_api(e))
        },
        RestoreEventView::EngineLoaded(s, EngineLoad::Restored) => Ok(
            RestoreActionView::Open(s, true, false),
        ),
        RestoreEventView::EngineLoaded(s, _) => Ok(RestoreActionView::MintEngine(s)),
        RestoreEventView::EngineMinted(s, made) => Ok(
            RestoreActionView::Open(s, made, made && s.online),
        ),
    }
}

/// One step of restoring a session on launch.
pub fn restore_session(event: RestoreEvent) -> (r: Result<RestoreAction, CoreError>)
    ensures
        crate::error::core_outcome(r) == restore_step(event@),
{
    match event {
        RestoreEvent::Stored(read) => match read {
            Err(e) => Err(e),
            Ok(None) => Ok(RestoreAction::NoSession),
            Ok(Some(bytes)) => match decode_session(bytes.as_slice()) {
                Err(e) => Err(e),
                Ok(pair) => {
                    let (session, token) = pair;
                    let api = Api::new(session.server.as_str(), Some(token));
                    let request = api.whoami();
                    Ok(RestoreAction::Check(Restoring { session, api, online: false }, request))
                },
            },
        },
        RestoreEvent::Checked(s, reply) => {
            let mut session = s;
            match reply {
                Ok(_) => {
                    session.online = true;
                    Ok(RestoreAction::LoadEngine(session))
                },
                Err(e) => match e {
                    ApiError::Network { reason } => {
                        session.online = false;
                        Ok(RestoreAction::LoadEngine(session))
                    },
                    ApiError::Malformed { reason } => Err(CoreError::Protocol { reason }),
                    ApiError::Server { status, code, message } => match code {
                        ErrorCode::UnknownToken => Ok(RestoreAction::Forget),
                        ErrorCode::MissingToken => Ok(RestoreAction::Forget),
                        _ => Err(CoreError::Api { code, reason: message }),
                    },
                },
            }
        },
        RestoreEvent::EngineLoaded(s, load) => match load {
            EngineLoad::Restored => Ok(
                RestoreAction::Open { session: s, has_engine: true, publish: false },
            ),
            _ => Ok(RestoreAction::MintEngine(s)),
        },
        RestoreEvent::EngineMinted(s, made) => {
            let publish = made && s.online;
            Ok(RestoreAction::Open { session: s, has_engine: made, publish })
        },
    }
}

/// Being offline never ends a session: where the server cannot be reached, the
/// session that was kept is restored and stays kept.
pub proof fn offline_restore_keeps_the_session(s: RestoringView, reason: Seq<char>)
    ensures
        restore_step(
            RestoreEventView::Checked(s, Err(ApiErrorView::Network(reason))),
        ) matches Ok(RestoreActionView::LoadEngine(kept)) && kept.session == s.session && kept.api
            == s.api && !kept.online,
{
}

/// A restore ends in removing the session exactly where the server says that its
/// token is dead.
pub proof fn only_a_dead_token_is_forgotten(event: RestoreEventView)
    ensures
        restore_step(event) == Ok::<RestoreActionView, CoreErrorView>(RestoreActionView::Forget)
            <==> (event matches RestoreEventView::Checked(_, Err(e)) && token_is_dead(e)),
{
}

/// Keys are published by a restore only where a new engine was made and the
/// server was reached.
pub proof fn restored_keys_are_not_published_again(event: RestoreEventView, s: RestoringView)
    requires
        restore_step(event) == Ok::<RestoreActionView, CoreErrorView>(
            RestoreActionView::Open(s, true, true),
        ),
    ensures
        event == RestoreEventView::EngineMinted(s, true),
        s.online,
{
}

/// A session that was kept is the one that a restore checks, against the server
/// that it belongs to and with its token.
pub proof fn kept_session_is_restored(bytes: Seq<u8>)
    ensures
        kept_session(bytes) matches Ok((session, token)) ==> (restore_step(
            RestoreEventView::Stored(Ok(Some(bytes))),
        ) matches Ok(RestoreActionView::Check(s, request)) && s.session == session && s.api.base
            == crate::api::trimmed(session.server) && s.api.token == Some(token) && request.bearer
            == Some(token)),
{
}

/// A session that is kept is read as it was kept: the user, the device, the server and the
/// token are the members of their names, and it is read exactly where all four are texts.
pub proof fn kept_value_is_read_as_it_is(v: JsonView)
    ensures
        session_of(v) is Ok <==> v.at("user_id"@) is Str && v.at("device_id"@) is Str && v.at(
            "server"@,
        ) is Str && v.at("access_token"@) is Str,
        session_of(v) matches Ok((session, token)) ==> v.at("user_id"@) == JsonView::Str(
            session.user_id,
        ) && v.at("device_id"@) == JsonView::Str(session.device_id) && v.at("server"@)
            == JsonView::Str(session.server) && v.at("access_token"@) == JsonView::Str(token),
        session_of(v) matches Err(e) ==> e is Storage,
{
}

/// A new session is that of the user and the device of the login, on the server that was
/// asked; and the API of a server on which nobody is logged in has no token.
pub proof fn new_session_is_that_of_the_login(server: Seq<char>, auth: AuthView)
    ensures
        new_session(server, auth).user_id == auth.user_id,
        new_session(server, auth).device_id == auth.device_id,
        new_session(server, auth).server == server,
        signed_out(server).token is None,
        signed_out(server).base == crate::api::trimmed(server),
{
}

/// A token is dead exactly where the server says that it does not know it, or that it
/// misses one.
pub proof fn dead_tokens_are_named(e: ApiErrorView)
    ensures
        token_is_dead(e) <==> (e matches ApiErrorView::Server(_, code, _) && (code.wire()
            == "P_UNKNOWN_TOKEN"@ || code.wire() == "P_MISSING_TOKEN"@) && !(code is Other)),
{
    if let ApiErrorView::Server(_, code, _) = e {
        if !(code is Other) {
            crate::api::codes_have_their_wire_forms(code.wire());
            assert(crate::api::code_of("P_UNKNOWN_TOKEN"@) is UnknownToken) by {
                crate::api::codes_have_their_wire_forms("P_UNKNOWN_TOKEN"@);
            }
            lemma_known_code(code);
        }
    }
}

proof fn lemma_known_code(code: crate::api::ErrorCodeView)
    requires
        !(code is Other),
    ensures
        crate::api::code_of(code.wire()) == code,
{
    crate::api::codes_have_their_wire_forms(code.wire());
}

/// What follows in the course of a restore, for each thing that may happen. What was kept
/// decides where to go on: nothing kept is no session, what cannot be read fails. The
/// session, its API and its token are never changed on the way. An answer of the server
/// means that it is online, one that was not reached that it is not, and any other refusal
/// but a dead token fails as it is.
pub proof fn restore_goes_on_by_what_happened(
    s: RestoringView,
    body: JsonView,
    e: ApiErrorView,
    why: CoreErrorView,
    made: bool,
)
    ensures
        restore_step(RestoreEventView::Stored(Err(why))) == Err::<
            RestoreActionView,
            CoreErrorView,
        >(why),
        restore_step(RestoreEventView::Stored(Ok(None))) == Ok::<
            RestoreActionView,
            CoreErrorView,
        >(RestoreActionView::NoSession),
        restore_step(RestoreEventView::Checked(s, Ok(body))) matches Ok(
            RestoreActionView::LoadEngine(kept),
        ) && kept.online && kept.session == s.session && kept.api == s.api,
        e is Malformed ==> restore_step(RestoreEventView::Checked(s, Err(e))) == Err::<
            RestoreActionView,
            CoreErrorView,
        >(crate::error::of_api(e)),
        e is Server && !(e->Server_1 is UnknownToken) && !(e->Server_1 is MissingToken)
            ==> restore_step(RestoreEventView::Checked(s, Err(e))) == Err::<
            RestoreActionView,
            CoreErrorView,
        >(crate::error::of_api(e)),
        e is Server && (e->Server_1 is UnknownToken || e->Server_1 is MissingToken)
            ==> restore_step(RestoreEventView::Checked(s, Err(e))) == Ok::<
            RestoreActionView,
            CoreErrorView,
        >(RestoreActionView::Forget),
        restore_step(RestoreEventView::EngineLoaded(s, EngineLoad::Restored)) == Ok::<
            RestoreActionView,
            CoreErrorView,
        >(RestoreActionView::Open(s, true, false)),
        restore_step(RestoreEventView::EngineLoaded(s, EngineLoad::Absent)) == Ok::<
            RestoreActionView,
            CoreErrorView,
        >(RestoreActionView::MintEngine(s)),
        restore_step(RestoreEventView::EngineLoaded(s, EngineLoad::Unusable)) == Ok::<
            RestoreActionView,
            CoreErrorView,
        >(RestoreActionView::MintEngine(s)),
        restore_step(RestoreEventView::EngineMinted(s, made)) matches Ok(
            RestoreActionView::Open(kept, has_engine, publish),
        ) && kept == s && has_engine == made && (publish <==> made && s.online),
{
}

/// The request by which a restore checks a session goes to the session's server, under
/// its token, and asks whose the token is; nothing is taken to be online before that.
pub proof fn restore_checks_the_token(bytes: Seq<u8>)
    ensures
        kept_session(bytes) matches Ok((session, token)) ==> (restore_step(
            RestoreEventView::Stored(Ok(Some(bytes))),
        ) matches Ok(RestoreActionView::Check(s, request)) && s.session == session && !s.online
            && s.api.token == Some(token) && s.api.base == crate::api::trimmed(session.server)
            && request.url == crate::api::trimmed(session.server)
            + "/_pigeon/client/v1/account/whoami"@ && request.bearer == Some(token)
            && request.verb == crate::api::Verb::Get),
        kept_session(bytes) matches Err(e) ==> restore_step(
            RestoreEventView::Stored(Ok(Some(bytes))),
        ) == Err::<RestoreActionView, CoreErrorView>(e),
{
}

/// A session shows its own fields.
pub proof fn sessions_show_their_fields(s: Session)
    ensures
        s@.user_id == s.user_id@,
        s@.device_id == s.device_id@,
        s@.server == s.server@,
{
}

/// What the key store complains of is a complaint of storage, in the key store's words.
pub proof fn key_store_faults_are_of_storage(e: KeyStoreError)
    ensures
        e matches KeyStoreError::Backend { reason } && of_key_store(e) == CoreErrorView::Storage(
            reason@,
        ),
{
}

/// What is kept of a session is the JSON text of a value that holds the user, the device,
/// the server and the token, each under its own name.
pub proof fn kept_session_holds_its_fields(session: SessionView, token: Seq<char>) -> (kept: JsonView)
    ensures
        session_bytes(session, token) == encode_utf8(crate::codec::json_text(kept)),
        kept.at("user_id"@) == JsonView::Str(session.user_id),
        kept.at("device_id"@) == JsonView::Str(session.device_id),
        kept.at("server"@) == JsonView::Str(session.server),
        kept.at("access_token"@) == JsonView::Str(token),
{
    lemma_session_fields(session, token);
    crate::codec::normal(JsonView::Object(session_members(session, token)))
}

} // verus!
