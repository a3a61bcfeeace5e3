use std::cell::RefCell;
use std::collections::HashMap;
use std::sync::{Arc, Mutex};

use pigeon_mobile_core::api::{
    Api, ApiError, Body, ErrorCode, HttpRequest, HttpResponse, Verb,
};
use pigeon_mobile_core::client::{found_backup, notify_connected, PigeonClient};
use pigeon_mobile_core::codec::{from_base64, read_json, to_base64, write_json};
use pigeon_mobile_core::e2ee::{
    clear_keys, decode_wire, no_engine, no_group, plaintext_of, AddOutcome, DeviceState, E2ee,
    MLS_STATE_KEY,
};
use pigeon_mobile_core::image::{ImageAction, ImageEvent, ImagePass};
use pigeon_mobile_core::inbound::{InboundAction, InboundEvent};
use pigeon_mobile_core::invite::{next_txn_id, InviteAction, InviteEvent};
use pigeon_mobile_core::json::Json;
use pigeon_mobile_core::keys::{claim_all_devices, ClaimAction, ClaimEvent, ClaimedKeyPackage};
use pigeon_mobile_core::reply::{auth_of, read_download, read_reply, text_of};
use pigeon_mobile_core::send::{FlushAction, FlushEvent, FlushPass};
use pigeon_mobile_core::session::{
    decode_session, encode_session, finish_login, ks_delete, ks_get, ks_put, login, register,
    restore_session, EngineLoad, KeyStore, KeyStoreError, RestoreAction, RestoreEvent, Session,
    SESSION_KEY,
};
use pigeon_mobile_core::store::{next_send_ids, SendState, Store};
use pigeon_mobile_core::sync::{
    apply_sync, find_welcomes, SyncAction, SyncEvent, SyncLoop, SyncObserver, WelcomeAction,
    WelcomeEvent, WelcomePass,
};
use pigeon_mobile_core::CoreError;

const OFFLINE: &str = "connection refused";

fn json(text: &str) -> Json {
    read_json(text.as_bytes()).unwrap_or_else(|why| panic!("{why}: {text}"))
}

/// A homeserver that answers from a list of routes, and remembers what it was
/// asked. A route matches where the path begins with what is given.
#[derive(Default)]
struct Server {
    routes: Vec<(Verb, String, u16, Vec<u8>)>,
    offline: bool,
    asked: RefCell<Vec<HttpRequest>>,
}

const BASE: &str = "http://hs.test";

/// The status of a route on which the server is not reached.
const UNREACHED: u16 = 0;

impl Server {
    fn on(mut self, verb: Verb, path: &str, status: u16, body: &str) -> Server {
        self.routes
            .push((verb, path.to_owned(), status, body.as_bytes().to_vec()));
        self
    }

    fn raw(&self, request: HttpRequest) -> Result<HttpResponse, String> {
        if self.offline {
            return Err(OFFLINE.to_owned());
        }
        let path = request
            .url
            .strip_prefix(BASE)
            .unwrap_or_else(|| panic!("a request to another server: {}", request.url))
            .to_owned();
        let verb = request.verb;
        self.asked.borrow_mut().push(request);
        for (v, prefix, status, body) in &self.routes {
            if *v == verb && path.starts_with(prefix.as_str()) {
                if *status == UNREACHED {
                    return Err(OFFLINE.to_owned());
                }
                return Ok(HttpResponse {
                    status: *status,
                    body: body.clone(),
                });
            }
        }
        Ok(HttpResponse {
            status: 404,
            body: Vec::new(),
        })
    }

    fn ask(&self, request: HttpRequest) -> Result<Json, ApiError> {
        read_reply(self.raw(request))
    }

    fn body_sent_to(&self, part: &str) -> String {
        let asked = self.asked.borrow();
        let request = asked
            .iter()
            .find(|r| r.url.contains(part))
            .unwrap_or_else(|| panic!("nothing was sent to {part}"));
        match &request.body {
            Body::Json(j) => write_json(j),
            _ => panic!("expected a JSON body"),
        }
    }

    fn was_asked(&self, part: &str) -> bool {
        self.times_asked(part) > 0
    }

    fn times_asked(&self, part: &str) -> usize {
        self.asked
            .borrow()
            .iter()
            .filter(|r| r.url.contains(part))
            .count()
    }
}

/// A stand-in for an encryption engine: it reverses bytes behind a mark.
#[derive(Default)]
struct Engine {
    groups: Vec<String>,
}

const MARK: u8 = 0xc7;

impl Engine {
    fn has_group(&self, room: &str) -> Result<bool, CoreError> {
        Ok(self.groups.iter().any(|g| g == room))
    }

    fn encrypt(&self, room: &str, text: &str) -> Result<String, CoreError> {
        if !self.has_group(room)? {
            return Err(no_group(room));
        }
        let mut bytes = vec![MARK];
        bytes.extend(text.bytes().rev());
        Ok(to_base64(&bytes))
    }

    fn decrypt(&self, room: &str, ciphertext: &str) -> Result<String, CoreError> {
        if !self.has_group(room)? {
            return Err(no_group(room));
        }
        let bytes = decode_wire(ciphertext, "ciphertext")?;
        if bytes.first() != Some(&MARK) {
            return Err(CoreError::crypto("not a message"));
        }
        plaintext_of(bytes[1..].iter().rev().copied().collect())
    }

    fn join(&mut self, welcome: &str) -> Result<(), CoreError> {
        let bytes = decode_wire(welcome, "Welcome")?;
        let room = plaintext_of(bytes)?;
        if !room.starts_with('!') {
            return Err(CoreError::crypto("not a Welcome"));
        }
        self.groups.push(room);
        Ok(())
    }

    fn add_member(&self, room: &str, _package: &str) -> Result<AddOutcome, CoreError> {
        Ok(AddOutcome::encode(room.as_bytes(), b"commit"))
    }

    /// The recovery key and the sealed groups.
    fn create_backup(&self) -> (String, String) {
        let key = [0x5a, 0x11, 0xe7];
        let blob = sealed(&key, self.groups.join("\n").as_bytes());
        E2ee::create_backup(&key, &blob)
    }

    fn restore_from_backup(recovery_key: &str, blob: &str) -> Result<Engine, CoreError> {
        let (key, bytes) = E2ee::restore_from_backup(recovery_key, blob)?;
        let groups = plaintext_of(sealed(&key, &bytes))?;
        Ok(Engine {
            groups: groups.split('\n').map(|g| g.to_owned()).collect(),
        })
    }
}

fn sealed(key: &[u8], bytes: &[u8]) -> Vec<u8> {
    bytes
        .iter()
        .zip(key.iter().cycle())
        .map(|(b, k)| b ^ k)
        .collect()
}

#[derive(Clone, Default)]
struct MockKeyStore {
    map: Arc<Mutex<HashMap<String, Vec<u8>>>>,
    broken: bool,
}

impl MockKeyStore {
    fn fault(&self) -> Result<(), KeyStoreError> {
        if self.broken {
            Err(KeyStoreError::Backend {
                reason: "locked".to_owned(),
            })
        } else {
            Ok(())
        }
    }

    fn has_session(&self) -> bool {
        self.map.lock().unwrap().contains_key(SESSION_KEY)
    }
}

impl KeyStore for MockKeyStore {
    fn put(&self, key: String, value: Vec<u8>) -> Result<(), KeyStoreError> {
        self.fault()?;
        self.map.lock().unwrap().insert(key, value);
        Ok(())
    }
    fn get(&self, key: String) -> Result<Option<Vec<u8>>, KeyStoreError> {
        self.fault()?;
        Ok(self.map.lock().unwrap().get(&key).cloned())
    }
    fn delete(&self, key: String) -> Result<(), KeyStoreError> {
        self.fault()?;
        self.map.lock().unwrap().remove(&key);
        Ok(())
    }
}

#[derive(Clone, Default)]
struct Recorder {
    changes: Arc<Mutex<u32>>,
    last_connected: Arc<Mutex<Option<bool>>>,
}

impl SyncObserver for Recorder {
    fn on_change(&self) {
        *self.changes.lock().unwrap() += 1;
    }
    fn on_status(&self, connected: bool) {
        *self.last_connected.lock().unwrap() = Some(connected);
    }
}

const AUTH: &str = "{\"user_id\":\"@alice:test.example\",\"device_id\":\"DEVICE1\",\"access_token\":\"secret-token\"}";

fn client(has_engine: bool) -> PigeonClient {
    PigeonClient {
        api: Api::new(BASE, Some("secret-token".to_owned())),
        session: Session {
            user_id: "@alice:test.example".to_owned(),
            device_id: "DEVICE1".to_owned(),
            server: BASE.to_owned(),
        },
        store: Store::open_in_memory().unwrap(),
        has_engine,
    }
}

fn msg(id: &str, room: &str, body: &str) -> String {
    format!(
        "{{\"event_id\":\"{id}\",\"room_id\":\"{room}\",\"sender\":\"@alice:test.example\",\
         \"type\":\"p.room.message\",\"origin_server_ts\":100,\"depth\":1,\
         \"content\":{{\"body\":\"{body}\",\"msgtype\":\"p.text\"}}}}"
    )
}

fn sync_body(next_batch: &str, room: &str, events: &[String]) -> String {
    format!(
        "{{\"next_batch\":\"{next_batch}\",\"rooms\":{{\"join\":{{\"{room}\":{{\"timeline\":\
         {{\"events\":[{}],\"limited\":false}}}}}}}},\"to_device\":{{\"events\":[]}}}}",
        events.join(",")
    )
}

fn mark_encrypted(client: &mut PigeonClient, room: &str) {
    let ev = json(&format!(
        "{{\"event_id\":\"$enc-{room}\",\"room_id\":\"{room}\",\"sender\":\"@a:s\",\
         \"type\":\"p.room.encryption\",\"state_key\":\"\",\"origin_server_ts\":1,\"depth\":1,\
         \"content\":{{\"algorithm\":\"p.mls.1\"}}}}"
    ));
    client.store.apply_events(&[ev]).unwrap();
}

fn flush(client: &mut PigeonClient, engine: &Engine, server: &Server) -> Result<bool, CoreError> {
    let mut pass = client.flush_pending()?;
    let mut event = FlushEvent::Begin;
    loop {
        event = match pass.next(&mut client.store, event)? {
            FlushAction::CheckGroup(send) => {
                let held = engine.has_group(&send.room_id);
                FlushEvent::Group(send, held)
            }
            FlushAction::Encrypt(send) => {
                let ciphertext = engine.encrypt(&send.room_id, &send.body);
                FlushEvent::Encrypted(send, ciphertext)
            }
            FlushAction::Send {
                send,
                event_type,
                content,
            } => {
                let request =
                    client
                        .api
                        .send_event(&send.room_id, &event_type, &send.txn_id, content);
                let reply = text_of(server.ask(request), "event_id");
                FlushEvent::Sent(send, reply)
            }
            FlushAction::Done { changed } => return Ok(changed),
        };
    }
}

fn process(client: &mut PigeonClient, engine: &Engine) -> Result<bool, CoreError> {
    let mut pass = client.process_inbound_mls()?;
    let mut event = InboundEvent::Begin;
    loop {
        event = match pass.next(&mut client.store, event)? {
            InboundAction::CheckGroup(item) => {
                let held = engine.has_group(&item.room_id);
                InboundEvent::Group(item, held)
            }
            InboundAction::Decrypt(item) => {
                let text = engine.decrypt(&item.room_id, &item.data_b64);
                InboundEvent::Decrypted(item, text)
            }
            InboundAction::Apply(item) => {
                let applied = decode_wire(&item.data_b64, "commit").map(|_| ());
                InboundEvent::Applied(item, applied)
            }
            InboundAction::Done { changed } => return Ok(changed),
        };
    }
}

fn take_up(mut pass: WelcomePass, engine: &mut Engine) -> bool {
    let mut event = WelcomeEvent::Begin;
    loop {
        event = match pass.next(event) {
            WelcomeAction::CheckGroup(w) => {
                let held = engine.has_group(w.room_id.as_deref().unwrap_or(""));
                WelcomeEvent::Group(w, held)
            }
            WelcomeAction::Join(w) => WelcomeEvent::Joined(engine.join(&w.welcome_b64)),
            WelcomeAction::Done { joined } => return joined,
        };
    }
}

/// Runs the sync loop until it has told the observer something `laps` times.
fn run_laps(
    client: &mut PigeonClient,
    engine: &mut Engine,
    server: &Server,
    observer: &Recorder,
    laps: usize,
) -> Result<Vec<u64>, CoreError> {
    let mut lap = SyncLoop::new();
    let mut event = SyncEvent::Ready;
    let mut waits = Vec::new();
    let mut told = 0;
    while told < laps {
        event = match client.run_sync(&mut lap, event)? {
            SyncAction::Poll(request) => SyncEvent::Polled(server.ask(request)),
            SyncAction::TakeUpWelcomes(pass) => SyncEvent::Welcomed(take_up(pass, engine)),
            SyncAction::ProcessInbound => SyncEvent::Processed(process(client, engine)),
            SyncAction::Flush => SyncEvent::Flushed(flush(client, engine, server)),
            SyncAction::Connected { changed } => {
                notify_connected(observer, changed);
                told += 1;
                SyncEvent::Ready
            }
            SyncAction::Disconnected { wait_ms } => {
                observer.on_status(false);
                waits.push(wait_ms);
                told += 1;
                SyncEvent::Ready
            }
        };
    }
    Ok(waits)
}

fn send(client: &mut PigeonClient, room: &str, body: &str, n: u64) {
    client
        .send_message(room, body, next_send_ids(1000, n), 1000)
        .unwrap();
}

// --- Logging in ---------------------------------------------------------------

fn log_in(keys: Option<&MockKeyStore>, server: &Server) -> Result<PigeonClient, CoreError> {
    let (api, request) = login(BASE, "alice", "hunter2");
    let auth = auth_of(server.ask(request))?;
    let done = finish_login(keys, BASE.to_owned(), api, auth)?;
    assert_eq!(done.persisted, keys.is_some());
    Ok(PigeonClient {
        api: done.api,
        session: done.session,
        store: Store::open_in_memory().unwrap(),
        has_engine: false,
    })
}

fn login_server() -> Server {
    Server::default().on(Verb::Post, "/_pigeon/client/v1/login", 200, AUTH)
}

#[test]
fn ffi_login_returns_session_without_token() {
    let server = login_server();
    let c = log_in(None, &server).unwrap_or_else(|e| panic!("{}", e.describe()));
    let s = c.session();
    assert_eq!(s.user_id, "@alice:test.example");
    assert_eq!(s.device_id, "DEVICE1");
    assert_eq!(s.server, BASE);
    assert_eq!(
        server.body_sent_to("/login"),
        "{\"password\":\"hunter2\",\"type\":\"p.login.password\",\"user\":\"alice\"}"
    );
}

#[test]
fn ffi_register_maps_server_error_to_core_error() {
    let server = Server::default().on(
        Verb::Post,
        "/_pigeon/client/v1/register",
        403,
        "{\"errcode\":\"P_USER_IN_USE\",\"error\":\"user already exists\"}",
    );
    let (_, request) = register(BASE, "alice", "hunter2");
    match auth_of(server.ask(request)).map_err(CoreError::from) {
        Err(CoreError::Api { code, reason }) => {
            assert_eq!(code, ErrorCode::UserInUse);
            assert_eq!(reason, "user already exists");
        }
        _ => panic!("expected CoreError::Api"),
    }
}

#[test]
fn ffi_login_network_failure_is_typed_network_error() {
    let server = Server {
        offline: true,
        ..login_server()
    };
    assert!(matches!(
        log_in(None, &server),
        Err(CoreError::Network { .. })
    ));
}

#[test]
fn login_persists_session_blob() {
    let store = MockKeyStore::default();
    log_in(Some(&store), &login_server()).unwrap_or_else(|e| panic!("{}", e.describe()));
    let bytes = store.map.lock().unwrap()[SESSION_KEY].clone();
    let blob = read_json(&bytes).unwrap();
    assert_eq!(blob.str_at("user_id"), Some("@alice:test.example"));
    assert_eq!(blob.str_at("device_id"), Some("DEVICE1"));
    assert_eq!(blob.str_at("server"), Some(BASE));
    assert_eq!(blob.str_at("access_token"), Some("secret-token"));
}

#[test]
fn a_broken_key_store_fails_the_login() {
    let store = MockKeyStore {
        broken: true,
        ..MockKeyStore::default()
    };
    match log_in(Some(&store), &login_server()) {
        Err(CoreError::Storage { reason }) => assert_eq!(reason, "locked"),
        _ => panic!("expected a storage error"),
    }
    assert!(ks_get(Some(&store), "x").is_err());
    assert!(ks_delete(Some(&store), "x").is_err());
    assert_eq!(
        KeyStoreError::Backend {
            reason: "locked".to_owned()
        }
        .describe(),
        "key store backend error: locked"
    );
}

#[test]
fn without_a_key_store_nothing_is_kept() {
    let none: Option<&MockKeyStore> = None;
    assert!(!ks_put(none, "k", vec![1]).unwrap());
    assert_eq!(ks_get(none, "k").unwrap(), None);
    assert!(ks_delete(none, "k").is_ok());
    let store = MockKeyStore::default();
    assert!(ks_put(Some(&store), "k", vec![1]).unwrap());
    assert_eq!(ks_get(Some(&store), "k").unwrap(), Some(vec![1]));
    ks_delete(Some(&store), "k").unwrap();
    assert_eq!(ks_get(Some(&store), "k").unwrap(), None);
}

#[test]
fn sessions_are_read_back() {
    let session = Session {
        user_id: "@al\"ice:s".to_owned(),
        device_id: "\u{1f54a}\n".to_owned(),
        server: "http://x".to_owned(),
    };
    let bytes = encode_session(&session, "t\\o");
    let (read, token) = decode_session(&bytes).unwrap_or_else(|e| panic!("{}", e.describe()));
    assert_eq!(read.user_id, session.user_id);
    assert_eq!(read.device_id, session.device_id);
    assert_eq!(read.server, session.server);
    assert_eq!(token, "t\\o");

    let why = |bytes: &[u8]| match decode_session(bytes) {
        Err(CoreError::Storage { reason }) => reason,
        _ => panic!("expected a storage error"),
    };
    assert_eq!(
        why(b"nope"),
        "corrupt stored session: expected ident at line 1 column 2"
    );
    assert_eq!(why(b"{}"), "stored session missing `user_id`");
    assert_eq!(
        why(b"{\"user_id\":\"a\",\"device_id\":\"b\",\"server\":\"c\"}"),
        "stored session missing `access_token`"
    );
}

// --- Restoring ------------------------------------------------------------------

/// What a restore comes to: the session, and whether keys are to be published.
fn restore(
    keys: &MockKeyStore,
    server: &Server,
    engine: EngineLoad,
) -> Result<Option<(Session, bool, bool)>, CoreError> {
    let mut event = RestoreEvent::Stored(ks_get(Some(keys), SESSION_KEY));
    loop {
        event = match restore_session(event)? {
            RestoreAction::NoSession => return Ok(None),
            RestoreAction::Check(s, request) => {
                assert_eq!(request.bearer.as_deref(), Some("secret-token"));
                RestoreEvent::Checked(s, server.ask(request))
            }
            RestoreAction::Forget => {
                ks_delete(Some(keys), SESSION_KEY)?;
                return Ok(None);
            }
            RestoreAction::LoadEngine(s) => RestoreEvent::EngineLoaded(s, engine),
            RestoreAction::MintEngine(s) => RestoreEvent::EngineMinted(s, true),
            RestoreAction::Open {
                session,
                has_engine,
                publish,
            } => return Ok(Some((session.session, has_engine, publish))),
        };
    }
}

fn whoami(server: Server) -> Server {
    server.on(
        Verb::Get,
        "/_pigeon/client/v1/account/whoami",
        200,
        "{\"user_id\":\"@alice:test.example\",\"device_id\":\"DEVICE1\"}",
    )
}

#[test]
fn restore_validates_token_and_returns_session() {
    let store = MockKeyStore::default();
    let server = whoami(login_server());
    log_in(Some(&store), &server).unwrap_or_else(|e| panic!("{}", e.describe()));
    let (session, has_engine, publish) = restore(&store, &server, EngineLoad::Restored)
        .unwrap()
        .expect("a session was restored");
    assert_eq!(session.user_id, "@alice:test.example");
    assert_eq!(session.server, BASE);
    assert!(has_engine && !publish);
}

#[test]
fn a_new_engine_is_published_once_online() {
    let store = MockKeyStore::default();
    let server = whoami(login_server());
    log_in(Some(&store), &server).unwrap_or_else(|e| panic!("{}", e.describe()));
    for load in [EngineLoad::Absent, EngineLoad::Unusable] {
        let (_, has_engine, publish) = restore(&store, &server, load).unwrap().unwrap();
        assert!(has_engine && publish);
    }
    let offline = Server {
        offline: true,
        ..Server::default()
    };
    let (_, has_engine, publish) = restore(&store, &offline, EngineLoad::Absent)
        .unwrap()
        .unwrap();
    assert!(has_engine && !publish);
}

#[test]
fn restore_clears_revoked_token() {
    let store = MockKeyStore::default();
    for code in ["P_UNKNOWN_TOKEN", "P_MISSING_TOKEN"] {
        let server = login_server().on(
            Verb::Get,
            "/_pigeon/client/v1/account/whoami",
            401,
            &format!("{{\"errcode\":\"{code}\",\"error\":\"access token is not recognised\"}}"),
        );
        log_in(Some(&store), &server).unwrap_or_else(|e| panic!("{}", e.describe()));
        assert!(store.has_session(), "login persisted a session");
        assert!(restore(&store, &server, EngineLoad::Restored)
            .unwrap()
            .is_none());
        assert!(!store.has_session(), "the dead session was cleared");
    }
}

#[test]
fn restore_is_optimistic_when_offline() {
    let store = MockKeyStore::default();
    log_in(Some(&store), &login_server()).unwrap_or_else(|e| panic!("{}", e.describe()));
    let offline = Server {
        offline: true,
        ..Server::default()
    };
    assert!(restore(&store, &offline, EngineLoad::Restored)
        .unwrap()
        .is_some());
    assert!(store.has_session(), "the session was not cleared while offline");
}

#[test]
fn restore_with_no_stored_session_is_none() {
    let store = MockKeyStore::default();
    assert!(restore(&store, &Server::default(), EngineLoad::Restored)
        .unwrap()
        .is_none());
}

#[test]
fn restore_passes_other_refusals_on() {
    let store = MockKeyStore::default();
    let server = login_server().on(Verb::Get, "/_pigeon/client/v1/account/whoami", 500, "");
    log_in(Some(&store), &server).unwrap_or_else(|e| panic!("{}", e.describe()));
    match restore(&store, &server, EngineLoad::Restored) {
        Err(CoreError::Api {
            code: ErrorCode::Unknown,
            ..
        }) => {}
        _ => panic!("expected the refusal"),
    }
    assert!(store.has_session());
}

#[test]
fn logout_revokes_token_and_clears_session() {
    let store = MockKeyStore::default();
    let server = login_server().on(Verb::Post, "/_pigeon/client/v1/logout", 200, "{}");
    let c = log_in(Some(&store), &server).unwrap_or_else(|e| panic!("{}", e.describe()));
    assert!(store.has_session(), "login persisted a session");
    let request = c.logout();
    assert_eq!(request.bearer.as_deref(), Some("secret-token"));
    assert!(server.ask(request).is_ok());
    clear_keys(Some(&store)).unwrap();
    assert!(!store.has_session(), "logout cleared the local session");
}

#[test]
fn logout_clears_session_even_when_server_revoke_fails() {
    let store = MockKeyStore::default();
    let server = login_server();
    let c = log_in(Some(&store), &server).unwrap_or_else(|e| panic!("{}", e.describe()));
    assert!(server.ask(c.logout()).is_err());
    clear_keys(Some(&store)).unwrap();
    assert!(!store.has_session());
    assert!(restore(&store, &server, EngineLoad::Restored)
        .unwrap()
        .is_none());
}

// --- The engine's state ---------------------------------------------------------

#[test]
fn restore_with_no_state_is_none() {
    assert!(E2ee::restore(Some(&MockKeyStore::default())).unwrap().is_none());
    let none: Option<&MockKeyStore> = None;
    assert!(E2ee::restore(none).unwrap().is_none());
}

#[test]
fn restore_rejects_corrupt_state() {
    let store = MockKeyStore::default();
    store
        .map
        .lock()
        .unwrap()
        .insert(MLS_STATE_KEY.into(), b"not json".to_vec());
    match E2ee::restore(Some(&store)) {
        Err(CoreError::Storage { reason }) => {
            assert!(reason.starts_with("corrupt stored MLS state: "))
        }
        Ok(_) => panic!("expected Storage error, got Ok"),
        Err(other) => panic!("expected Storage error, got {other:?}"),
    }
    let why = |text: &str| {
        store
            .map
            .lock()
            .unwrap()
            .insert(MLS_STATE_KEY.into(), text.as_bytes().to_vec());
        E2ee::restore(Some(&store)).unwrap_err().describe()
    };
    assert_eq!(
        why("{\"blob\":\"\"}"),
        "storage error: stored MLS state missing `pubkey`"
    );
    assert_eq!(
        why("{\"pubkey\":\"AA==\",\"blob\":\"!\"}"),
        "storage error: stored MLS `blob` is not valid base64: Invalid symbol 33, offset 0."
    );
}

#[test]
fn clear_removes_persisted_state() {
    let store = MockKeyStore::default();
    E2ee::changed(
        Some(&store),
        &DeviceState {
            pubkey: vec![1, 2, 3],
            blob: b"\x00state\xff".to_vec(),
        },
    )
    .unwrap();
    assert_eq!(
        E2ee::restore(Some(&store)).unwrap(),
        Some((vec![1, 2, 3], b"\x00state\xff".to_vec()))
    );
    E2ee::clear(Some(&store)).unwrap();
    assert!(E2ee::restore(Some(&store)).unwrap().is_none());
}

#[test]
fn the_engine_keeps_its_state_before_it_hands_out() {
    let state = || DeviceState {
        pubkey: vec![7; 32],
        blob: b"epoch".to_vec(),
    };
    let store = MockKeyStore::default();
    let added = E2ee::added(Some(&store), &state(), b"w", b"c").unwrap();
    assert_eq!((added.welcome.as_str(), added.commit.as_str()), ("dw==", "Yw=="));
    assert_eq!(
        E2ee::restore(Some(&store)).unwrap(),
        Some((vec![7; 32], b"epoch".to_vec()))
    );
    let ciphertext = E2ee::encrypted(Some(&store), &state(), b"\x00\x01").unwrap();
    assert_eq!(
        E2ee::decrypt("!r:s", true, &ciphertext).unwrap(),
        b"\x00\x01"
    );
    assert_eq!(
        E2ee::decrypted(Some(&store), &state(), b"hi".to_vec()).unwrap(),
        "hi"
    );
    assert_eq!(
        E2ee::key_packages(Some(&store), &state(), &vec![vec![0], vec![255, 1]]).unwrap(),
        vec!["AA==", "/wE="]
    );
    assert_eq!(
        E2ee::last_resort_key_package(Some(&store), &state(), &[255, 1]).unwrap(),
        "/wE="
    );
    assert_eq!(
        E2ee::signature_public_key_b64(&state()),
        to_base64(&[7u8; 32])
    );

    // What is not text is an error, but the state has moved on and is kept.
    let fresh = MockKeyStore::default();
    assert!(E2ee::decrypted(Some(&fresh), &state(), vec![0xff]).is_err());
    assert!(E2ee::restore(Some(&fresh)).unwrap().is_some());

    // Where the state cannot be kept, nothing is handed out.
    let broken = MockKeyStore {
        broken: true,
        ..MockKeyStore::default()
    };
    assert!(E2ee::encrypted(Some(&broken), &state(), b"x").is_err());
    assert!(E2ee::added(Some(&broken), &state(), b"x", b"y").is_err());
    assert!(E2ee::key_packages(Some(&broken), &state(), &Vec::new()).is_err());
    assert!(E2ee::last_resort_key_package(Some(&broken), &state(), b"x").is_err());
}

#[test]
fn without_a_group_nothing_goes_to_the_device() {
    let why = |r: Result<Vec<u8>, CoreError>| r.unwrap_err().describe();
    let none = "crypto error: no MLS group for !r:s";
    assert_eq!(why(E2ee::add_member("!r:s", false, "AAAA")), none);
    assert_eq!(why(E2ee::process_commit("!r:s", false, "!!")), none);
    assert_eq!(why(E2ee::encrypt("!r:s", false, "x")), none);
    assert_eq!(why(E2ee::decrypt("!r:s", false, "!!")), none);
    assert_eq!(E2ee::encrypt("!r:s", true, "h\u{e9}").unwrap(), b"h\xc3\xa9");
    assert_eq!(E2ee::add_member("!r:s", true, "AAAA").unwrap(), vec![0; 3]);
    assert_eq!(
        why(E2ee::process_commit("!r:s", true, "A")),
        "crypto error: commit is not valid base64: Invalid input length: 1"
    );
    assert!(E2ee::join_from_welcome("!!!not base64!!!").is_err());
}

#[test]
fn media_keys_and_backups_come_back() {
    let (key, bytes) = E2ee::encrypt_media(&[1, 2, 255], b"ct".to_vec());
    assert_eq!(E2ee::decrypt_media(&key).unwrap(), vec![1, 2, 255]);
    assert_eq!(bytes, b"ct");
    let (recovery, blob) = E2ee::create_backup(b"key", b"sealed");
    assert_eq!(
        E2ee::restore_from_backup(&recovery, &blob).unwrap(),
        (b"key".to_vec(), b"sealed".to_vec())
    );
    assert_eq!(
        E2ee::restore_from_backup("nope!", &blob)
            .unwrap_err()
            .describe(),
        "crypto error: recovery key is not valid base64: Invalid symbol 33, offset 4."
    );
    assert_eq!(
        E2ee::restore_from_backup(&recovery, "!")
            .unwrap_err()
            .describe(),
        "crypto error: backup blob is not valid base64: Invalid symbol 33, offset 0."
    );
}

#[test]
fn join_from_garbage_welcome_fails_cleanly() {
    let mut bob = Engine::default();
    match bob.join("!!!not base64!!!") {
        Err(CoreError::Crypto { reason }) => assert_eq!(
            reason,
            "Welcome is not valid base64: Invalid symbol 33, offset 0."
        ),
        other => panic!("expected Crypto error, got {other:?}"),
    }
    match bob.join(&to_base64(b"garbage")) {
        Err(CoreError::Crypto { .. }) => {}
        other => panic!("expected Crypto error, got {other:?}"),
    }
}

#[test]
fn wire_material_is_base64() {
    let outcome = AddOutcome::encode(b"\x00\xff", b"x");
    assert_eq!(outcome.welcome, "AP8=");
    assert_eq!(outcome.commit, "eA==");
    assert_eq!(from_base64("AP8=").unwrap(), vec![0, 255]);
    assert_eq!(
        plaintext_of(vec![0xff]).unwrap_err().describe(),
        "crypto error: decrypted bytes are not UTF-8: invalid utf-8 sequence of 1 bytes from index 0"
    );
    assert_eq!(plaintext_of(b"\xc3\xa9".to_vec()).unwrap(), "\u{e9}");
    assert_eq!(
        no_engine().describe(),
        "crypto error: E2EE is not available for this session"
    );
    assert_eq!(
        no_group("!r:s").describe(),
        "crypto error: no MLS group for !r:s"
    );
}

// --- Sync -----------------------------------------------------------------------

fn sync_msg(id: &str, depth: i64, body: &str) -> String {
    msg(id, "!r:s", body).replace("\"depth\":1", &format!("\"depth\":{depth}"))
}

#[test]
fn apply_sync_folds_events_and_advances_token() {
    let mut store = Store::open_in_memory().unwrap();
    let resp = json(&sync_body(
        "10_0",
        "!r:s",
        &[sync_msg("$a", 1, "hi"), sync_msg("$b", 2, "there")],
    ));
    assert!(apply_sync(&mut store, &resp).unwrap());
    assert_eq!(store.load_sync_token().unwrap().as_deref(), Some("10_0"));
    assert_eq!(store.timeline("!r:s", 10, None).unwrap().len(), 2);
}

#[test]
fn apply_sync_is_idempotent_and_reports_no_change_on_replay() {
    let mut store = Store::open_in_memory().unwrap();
    let resp = json(&sync_body("5_0", "!r:s", &[sync_msg("$a", 1, "hi")]));
    assert!(apply_sync(&mut store, &resp).unwrap());
    assert!(!apply_sync(&mut store, &resp).unwrap());
    assert_eq!(store.timeline("!r:s", 10, None).unwrap().len(), 1);
}

#[test]
fn apply_sync_advances_token_on_empty_batch() {
    let mut store = Store::open_in_memory().unwrap();
    let empty = json("{\"next_batch\":\"7_2\",\"rooms\":{\"join\":{}}}");
    assert!(!apply_sync(&mut store, &empty).unwrap());
    assert_eq!(store.load_sync_token().unwrap().as_deref(), Some("7_2"));
    assert!(!apply_sync(&mut store, &json("[]")).unwrap());
    assert_eq!(store.load_sync_token().unwrap().as_deref(), Some("7_2"));
}

#[test]
fn apply_sync_refuses_a_malformed_event_whole() {
    let mut store = Store::open_in_memory().unwrap();
    let resp = json(&sync_body(
        "9_9",
        "!r:s",
        &[sync_msg("$a", 1, "hi"), "{}".to_owned()],
    ));
    match apply_sync(&mut store, &resp) {
        Err(CoreError::Storage { reason }) => assert_eq!(
            reason,
            "malformed event: event missing string field `event_id`"
        ),
        _ => panic!("expected a storage error"),
    }
    assert_eq!(store.load_sync_token().unwrap(), None);
    assert!(store.timeline("!r:s", 10, None).unwrap().is_empty());
}

fn welcome_response(welcome: &str) -> Json {
    json(&format!(
        "{{\"next_batch\":\"1_1\",\"rooms\":{{\"join\":{{}}}},\"to_device\":{{\"events\":[\
         {{\"sender\":\"@alice:s\",\"type\":\"p.mls.welcome\",\
         \"content\":{{\"welcome\":\"{welcome}\",\"room_id\":\"!enc:s\"}}}}]}}}}"
    ))
}

#[test]
fn to_device_welcome_joins_group_and_is_idempotent() {
    let mut bob = Engine::default();
    let resp = welcome_response(&to_base64(b"!enc:s"));
    assert!(!bob.has_group("!enc:s").unwrap());
    assert!(take_up(WelcomePass::new(&resp, true), &mut bob));
    assert!(bob.has_group("!enc:s").unwrap());
    assert!(!take_up(WelcomePass::new(&resp, true), &mut bob));
    assert_eq!(bob.groups.len(), 1);
    // Without an engine nothing is taken up.
    let mut none = Engine::default();
    assert!(!take_up(WelcomePass::new(&resp, false), &mut none));
    assert!(none.groups.is_empty());
}

#[test]
fn to_device_ignores_non_welcome_and_bad_welcomes() {
    let mut bob = Engine::default();
    let resp = json(
        "{\"next_batch\":\"1_1\",\"to_device\":{\"events\":[\
         {\"sender\":\"@x:s\",\"type\":\"p.other\",\"content\":{}},\
         {\"sender\":\"@x:s\",\"type\":\"p.mls.welcome\",\
          \"content\":{\"welcome\":\"!!not base64!!\",\"room_id\":\"!enc:s\"}}]}}",
    );
    assert!(!take_up(WelcomePass::new(&resp, true), &mut bob));
    assert!(!bob.has_group("!enc:s").unwrap());
}

#[test]
fn a_bad_welcome_does_not_stop_the_others() {
    let good = to_base64(b"!two:s");
    let resp = json(&format!(
        "{{\"to_device\":{{\"events\":[\
         {{\"type\":\"p.mls.welcome\",\"content\":{{\"welcome\":\"???\",\"room_id\":\"!one:s\"}}}},\
         {{\"type\":\"p.mls.welcome\",\"content\":{{}}}},\
         {{\"type\":\"p.mls.welcome\",\"content\":{{\"welcome\":\"{good}\"}}}}]}}}}"
    ));
    assert_eq!(find_welcomes(&resp).len(), 2);
    let mut bob = Engine::default();
    assert!(take_up(WelcomePass::new(&resp, true), &mut bob));
    assert_eq!(bob.groups, vec!["!two:s"]);
    // One of which it cannot be said whether its group is held is passed over.
    let mut pass = WelcomePass::new(&resp, true);
    let w = match pass.next(WelcomeEvent::Begin) {
        WelcomeAction::CheckGroup(w) => w,
        _ => panic!("expected a question"),
    };
    assert!(matches!(
        pass.next(WelcomeEvent::Group(w, Err(no_engine()))),
        WelcomeAction::Join(_)
    ));
    assert!(matches!(
        pass.next(WelcomeEvent::Joined(Err(no_engine()))),
        WelcomeAction::Done { joined: false }
    ));
}

#[test]
fn run_sync_applies_a_batch_and_notifies_then_cancels() {
    let server = Server::default().on(
        Verb::Get,
        "/_pigeon/client/v1/sync",
        200,
        &sync_body(
            "1_0",
            "!r:test.example",
            &[msg("$a", "!r:test.example", "hello")],
        ),
    );
    let mut c = client(false);
    let rec = Recorder::default();
    run_laps(&mut c, &mut Engine::default(), &server, &rec, 3).unwrap();
    assert_eq!(c.session().user_id, "@alice:test.example");
    assert_eq!(*rec.changes.lock().unwrap(), 1, "one real change, replays no-op");
    assert_eq!(*rec.last_connected.lock().unwrap(), Some(true));
    let asked = server.asked.borrow();
    assert_eq!(asked[0].query.len(), 2);
    assert_eq!(asked[1].query[2], ("since".to_owned(), "1_0".to_owned()));
    assert_eq!(asked[0].timeout_ms, Some(45_000));
}

#[test]
fn a_round_reports_what_was_delivered_in_it() {
    let server = ack_server("p.room.message", "$one").on(
        Verb::Get,
        "/_pigeon/client/v1/sync",
        200,
        "{\"next_batch\":\"3_3\"}",
    );
    let mut c = client(false);
    let rec = Recorder::default();
    let mut engine = Engine::default();
    run_laps(&mut c, &mut engine, &server, &rec, 1).unwrap();
    assert_eq!(*rec.changes.lock().unwrap(), 0);
    assert_eq!(c.store.load_sync_token().unwrap().as_deref(), Some("3_3"));
    send(&mut c, "!r:test.example", "one", 0);
    run_laps(&mut c, &mut engine, &server, &rec, 2).unwrap();
    assert_eq!(*rec.changes.lock().unwrap(), 1);
    assert!(c.store.pending_sends().unwrap().is_empty());
}

#[test]
fn the_token_waits_until_all_is_done() {
    let mut c = client(true);
    let mut lap = SyncLoop::new();
    let resp = json(&sync_body("8_8", "!r:s", &[sync_msg("$a", 1, "hi")]));
    assert!(matches!(
        c.run_sync(&mut lap, SyncEvent::Polled(Ok(resp))).unwrap(),
        SyncAction::TakeUpWelcomes(_)
    ));
    assert_eq!(c.store.load_sync_token().unwrap(), None);
    assert!(matches!(
        c.run_sync(&mut lap, SyncEvent::Welcomed(true)).unwrap(),
        SyncAction::ProcessInbound
    ));
    assert!(matches!(
        c.run_sync(&mut lap, SyncEvent::Processed(Ok(false))).unwrap(),
        SyncAction::Flush
    ));
    assert_eq!(c.store.load_sync_token().unwrap(), None);
    assert!(matches!(
        c.run_sync(&mut lap, SyncEvent::Flushed(Ok(false))).unwrap(),
        SyncAction::Connected { changed: true }
    ));
    assert_eq!(c.store.load_sync_token().unwrap().as_deref(), Some("8_8"));
    // A failure on the way ends the loop and keeps no token.
    assert!(c
        .run_sync(&mut lap, SyncEvent::Processed(Err(no_engine())))
        .is_err());
    assert!(c
        .run_sync(&mut lap, SyncEvent::Flushed(Err(no_engine())))
        .is_err());
}

#[test]
fn the_sync_loop_backs_off_and_recovers() {
    let mut c = client(false);
    let rec = Recorder::default();
    let offline = Server {
        offline: true,
        ..Server::default()
    };
    let waits = run_laps(&mut c, &mut Engine::default(), &offline, &rec, 7).unwrap();
    assert_eq!(waits, vec![1000, 2000, 4000, 8000, 16000, 30000, 30000]);
    assert_eq!(*rec.last_connected.lock().unwrap(), Some(false));
    assert_eq!(*rec.changes.lock().unwrap(), 0);

    let mut lap = SyncLoop::new();
    let down = || {
        Err(ApiError::Network {
            reason: OFFLINE.to_owned(),
        })
    };
    c.run_sync(&mut lap, SyncEvent::Polled(down())).unwrap();
    c.run_sync(&mut lap, SyncEvent::Flushed(Ok(false))).unwrap();
    assert!(matches!(
        c.run_sync(&mut lap, SyncEvent::Polled(down())).unwrap(),
        SyncAction::Disconnected { wait_ms: 1000 }
    ));
}

#[test]
fn a_refusal_ends_the_sync_loop() {
    let server = Server::default().on(
        Verb::Get,
        "/_pigeon/client/v1/sync",
        401,
        "{\"errcode\":\"P_UNKNOWN_TOKEN\",\"error\":\"gone\"}",
    );
    let mut c = client(false);
    match run_laps(
        &mut c,
        &mut Engine::default(),
        &server,
        &Recorder::default(),
        1,
    ) {
        Err(CoreError::Api {
            code: ErrorCode::UnknownToken,
            ..
        }) => {}
        _ => panic!("expected the refusal"),
    }
}

// --- Keys -----------------------------------------------------------------------

fn claim_all(server: &Server, user: &str) -> Result<Vec<ClaimedKeyPackage>, CoreError> {
    let api = Api::new(BASE, Some("tok".to_owned()));
    let (mut pass, request) = claim_all_devices(&api, user);
    let mut event = ClaimEvent::Queried(server.ask(request));
    loop {
        event = match pass.next(&api, event)? {
            ClaimAction::Claim(device, request) => {
                // The body tells which device is asked.
                let reply = match &request.body {
                    Body::Json(j) if write_json(j).contains("DEV2") => {
                        read_reply(Ok(HttpResponse {
                            status: 200,
                            body: b"{\"one_time_keys\":{\"@bob:test.example\":{}}}".to_vec(),
                        }))
                    }
                    _ => server.ask(request),
                };
                ClaimEvent::Claimed(device, reply)
            }
            ClaimAction::Done(claimed) => return Ok(claimed),
        };
    }
}

#[test]
fn claims_a_key_package_from_each_published_device() {
    let server = Server::default()
        .on(
            Verb::Post,
            "/_pigeon/client/v1/keys/query",
            200,
            "{\"device_keys\":{\"@bob:test.example\":{\"DEV1\":{\"user_id\":\"@bob:test.example\"},\
             \"DEV2\":{\"user_id\":\"@bob:test.example\"}}}}",
        )
        .on(
            Verb::Post,
            "/_pigeon/client/v1/keys/claim",
            200,
            "{\"one_time_keys\":{\"@bob:test.example\":{\"DEV1\":{\"key_id\":\"kp-0\",\
             \"package\":\"AAAA\"}}}}",
        );
    let claimed = claim_all(&server, "@bob:test.example").unwrap();
    assert_eq!(claimed.len(), 1);
    assert_eq!(claimed[0].device_id, "DEV1");
    assert_eq!(claimed[0].key_package_b64, "AAAA");
    assert_eq!(
        server.body_sent_to("/keys/query"),
        "{\"device_keys\":{\"@bob:test.example\":[]}}"
    );
    assert_eq!(
        server.body_sent_to("/keys/claim"),
        "{\"one_time_keys\":{\"@bob:test.example\":[\"DEV1\"]}}"
    );
}

#[test]
fn no_published_keys_yields_empty() {
    let server = Server::default().on(
        Verb::Post,
        "/_pigeon/client/v1/keys/query",
        200,
        "{\"device_keys\":{}}",
    );
    assert!(claim_all(&server, "@nobody:test.example")
        .unwrap()
        .is_empty());
    assert!(claim_all(&Server::default(), "@nobody:test.example").is_err());
}

// --- Rooms ----------------------------------------------------------------------

#[test]
fn create_encrypted_room_posts_encryption_flag() {
    let server = Server::default().on(
        Verb::Post,
        "/_pigeon/client/v1/createRoom",
        200,
        "{\"room_id\":\"!enc:test.example\"}",
    );
    let request = client(true)
        .create_encrypted_room(Some("Secret"), None)
        .unwrap();
    assert_eq!(request.bearer.as_deref(), Some("secret-token"));
    assert_eq!(
        text_of(server.ask(request), "room_id").unwrap(),
        "!enc:test.example"
    );
    assert_eq!(
        server.body_sent_to("/createRoom"),
        "{\"encryption\":true,\"name\":\"Secret\"}"
    );
    assert_eq!(
        client(false)
            .create_encrypted_room(None, None)
            .unwrap_err()
            .describe(),
        "crypto error: E2EE is unavailable for this session; cannot create an encrypted room"
    );
}

#[test]
fn plain_rooms_are_created_and_joined() {
    let c = client(false);
    let server = Server::default();
    let _ = server.ask(c.create_room(Some("General"), Some("chatter")));
    assert_eq!(
        server.body_sent_to("/createRoom"),
        "{\"name\":\"General\",\"topic\":\"chatter\"}"
    );
    let _ = server.ask(c.join_room("!r:test.example"));
    assert_eq!(server.body_sent_to("/rooms/!r:test.example/join"), "{}");
}

#[test]
fn fetch_messages_pulls_chunk_and_persists_new_events() {
    let mut c = client(false);
    let server = Server::default().on(
        Verb::Get,
        "/_pigeon/client/v1/rooms/!r:test.example/messages",
        200,
        &format!(
            "{{\"chunk\":[{},{}]}}",
            msg("$a", "!r:test.example", "one"),
            msg("$b", "!r:test.example", "two")
        ),
    );
    let mut fetch = |c: &mut PigeonClient| {
        let request = c.fetch_messages("!r:test.example", 50);
        assert_eq!(request.query, vec![("limit".to_owned(), "50".to_owned())]);
        let resp = server.ask(request).unwrap_or_else(|e| panic!("{}", e.describe()));
        c.apply_messages(&resp).unwrap()
    };
    assert_eq!(fetch(&mut c), 2);
    assert_eq!(fetch(&mut c), 0);
    let tl = c.timeline("!r:test.example", 10, None).unwrap();
    assert_eq!(tl.len(), 2);
    assert_eq!(tl[0].body.as_deref(), Some("one"));
    assert_eq!(tl[1].body.as_deref(), Some("two"));
    assert_eq!(c.apply_messages(&json("{}")).unwrap(), 0);
    assert_eq!(c.apply_messages(&json("{\"chunk\":7}")).unwrap(), 0);
    assert!(c.apply_messages(&json("{\"chunk\":[{}]}")).is_err());
}

#[test]
fn the_client_lists_its_rooms() {
    let mut c = client(false);
    mark_encrypted(&mut c, "!e:s");
    let rooms = c.list_rooms().unwrap();
    assert_eq!(rooms.len(), 1);
    assert_eq!(rooms[0].room_id, "!e:s");
    assert!(rooms[0].encrypted);
}

// --- Sending --------------------------------------------------------------------

fn ack_server(kind: &str, event_id: &str) -> Server {
    Server::default().on(
        Verb::Put,
        &format!("/_pigeon/client/v1/rooms/!r:test.example/send/{kind}/"),
        200,
        &format!("{{\"event_id\":\"{event_id}\"}}"),
    )
}

#[test]
fn send_message_echoes_then_confirms_on_ack() {
    let server = ack_server("p.room.message", "$server");
    let mut c = client(false);
    send(&mut c, "!r:test.example", "hi there", 0);
    assert!(c.timeline("!r:test.example", 10, None).unwrap()[0].pending);
    assert!(flush(&mut c, &Engine::default(), &server).unwrap());
    assert_eq!(
        server.body_sent_to("/send/p.room.message/m1000-0"),
        "{\"body\":\"hi there\",\"msgtype\":\"p.text\"}"
    );
    let tl = c.timeline("!r:test.example", 10, None).unwrap();
    assert_eq!(tl.len(), 1);
    assert_eq!(tl[0].event_id, "$server");
    assert_eq!(tl[0].body.as_deref(), Some("hi there"));
    assert!(!tl[0].pending && !tl[0].failed);
    assert!(!flush(&mut c, &Engine::default(), &server).unwrap());
}

#[test]
fn send_message_marks_echo_failed_on_server_rejection() {
    let mut c = client(false);
    send(&mut c, "!r:test.example", "queued", 0);
    assert!(flush(&mut c, &Engine::default(), &Server::default()).unwrap());
    let tl = c.timeline("!r:test.example", 10, None).unwrap();
    assert_eq!(tl.len(), 1);
    assert_eq!(tl[0].body.as_deref(), Some("queued"));
    assert!(tl[0].failed, "a server rejection flags the echo failed");
    assert!(!tl[0].pending);
}

#[test]
fn an_unreached_server_keeps_the_queue() {
    let mut c = client(false);
    send(&mut c, "!r:test.example", "one", 0);
    send(&mut c, "!r:test.example", "two", 1);
    let offline = Server {
        offline: true,
        ..Server::default()
    };
    assert!(!flush(&mut c, &Engine::default(), &offline).unwrap());
    assert_eq!(c.store.pending_sends().unwrap().len(), 2);
    assert!(c
        .timeline("!r:test.example", 10, None)
        .unwrap()
        .iter()
        .all(|e| e.pending));
    let server = ack_server("p.room.message", "$one");
    assert!(flush(&mut c, &Engine::default(), &server).unwrap());
    assert!(c.store.pending_sends().unwrap().is_empty());
}

#[test]
fn a_pass_stops_at_the_first_message_that_does_not_get_through() {
    let mut c = client(false);
    mark_encrypted(&mut c, "!held:s");
    for (n, room) in ["!a:s", "!held:s", "!b:s", "!c:s", "!d:s"].iter().enumerate() {
        send(&mut c, room, "hi", n as u64);
    }
    let path = |room: &str| format!("/_pigeon/client/v1/rooms/{room}/send/p.room.message/");
    let server = Server::default()
        .on(Verb::Put, &path("!a:s"), 200, "{\"event_id\":\"$a\"}")
        .on(Verb::Put, &path("!b:s"), 403, "{\"errcode\":\"P_FORBIDDEN\",\"error\":\"no\"}")
        .on(Verb::Put, &path("!c:s"), UNREACHED, "")
        .on(Verb::Put, &path("!d:s"), 200, "{\"event_id\":\"$d\"}");
    let engine = Engine::default();

    // The first is delivered and the third refused; the second is held back.
    assert!(flush(&mut c, &engine, &server).unwrap());
    let asked: Vec<String> = server.asked.borrow().iter().map(|r| r.url.clone()).collect();
    assert_eq!(asked.len(), 3);
    assert!(asked[0].contains("!a:s") && asked[1].contains("!b:s") && asked[2].contains("!c:s"));
    let left: Vec<String> = c
        .store
        .pending_sends()
        .unwrap()
        .into_iter()
        .map(|p| p.room_id)
        .collect();
    assert_eq!(left, ["!held:s", "!c:s", "!d:s"]);
    assert!(!c.timeline("!a:s", 10, None).unwrap()[0].pending);
    assert!(c.timeline("!b:s", 10, None).unwrap()[0].failed);
    assert!(c.timeline("!d:s", 10, None).unwrap()[0].pending);

    // Nothing is settled by the next pass, and it says so.
    assert!(!flush(&mut c, &engine, &server).unwrap());
    assert_eq!(server.asked.borrow().len(), 4);
}

#[test]
fn send_in_encrypted_room_puts_p_room_encrypted_ciphertext() {
    let server = Server::default().on(
        Verb::Put,
        "/_pigeon/client/v1/rooms/!enc:test.example/send/p.room.encrypted/",
        200,
        "{\"event_id\":\"$enc1\"}",
    );
    let engine = Engine {
        groups: vec!["!enc:test.example".to_owned()],
    };
    let mut c = client(true);
    send(&mut c, "!enc:test.example", "top secret", 0);
    assert!(flush(&mut c, &engine, &server).unwrap());
    let body = server.body_sent_to("/send/p.room.encrypted/");
    assert!(body.contains("ciphertext"), "carries ciphertext");
    assert!(body.contains("\"algorithm\":\"p.mls.1\""));
    assert!(
        !body.contains("top secret"),
        "the plaintext body must never be sent"
    );
    let tl = c.timeline("!enc:test.example", 10, None).unwrap();
    assert_eq!(tl.last().unwrap().body.as_deref(), Some("top secret"));
}

#[test]
fn a_message_for_an_encrypted_room_waits_for_its_group() {
    let server = ack_server("p.room.encrypted", "$enc");
    for has_engine in [false, true] {
        let mut c = client(has_engine);
        mark_encrypted(&mut c, "!r:test.example");
        send(&mut c, "!r:test.example", "secret", 0);
        assert!(!flush(&mut c, &Engine::default(), &server).unwrap());
        assert!(!server.was_asked("/send/"));
        assert_eq!(c.store.pending_sends().unwrap().len(), 1);
    }
    let mut c = client(true);
    mark_encrypted(&mut c, "!r:test.example");
    send(&mut c, "!r:test.example", "secret", 0);
    let engine = Engine {
        groups: vec!["!r:test.example".to_owned()],
    };
    assert!(flush(&mut c, &engine, &server).unwrap());
    assert!(server.was_asked("/send/p.room.encrypted/"));
}

#[test]
fn a_message_that_cannot_be_encrypted_is_given_up() {
    let mut c = client(true);
    send(&mut c, "!r:s", "x", 0);
    send(&mut c, "!r:s", "y", 1);
    let mut pass = FlushPass::new(c.store.pending_sends().unwrap(), true);
    let first = match pass.next(&mut c.store, FlushEvent::Begin).unwrap() {
        FlushAction::CheckGroup(s) => s,
        _ => panic!("expected a question"),
    };
    let second = match pass
        .next(&mut c.store, FlushEvent::Group(first, Err(no_engine())))
        .unwrap()
    {
        FlushAction::CheckGroup(s) => s,
        _ => panic!("expected a question"),
    };
    assert_eq!(second.txn_id, "m1000-1");
    match pass
        .next(&mut c.store, FlushEvent::Encrypted(second, Err(no_engine())))
        .unwrap()
    {
        FlushAction::Done { changed } => assert!(changed),
        _ => panic!("expected the end"),
    }
    assert!(c.store.pending_sends().unwrap().is_empty());
    let tl = c.store.timeline("!r:s", 10, None).unwrap();
    assert!(tl.iter().all(|e| e.send_state == SendState::Failed));
}

// --- Receiving ------------------------------------------------------------------

fn encrypted(id: &str, depth: i64, ciphertext: &str) -> Json {
    json(&format!(
        "{{\"event_id\":\"{id}\",\"room_id\":\"!enc:s\",\"sender\":\"@alice:s\",\
         \"type\":\"p.room.encrypted\",\"origin_server_ts\":100,\"depth\":{depth},\
         \"content\":{{\"algorithm\":\"p.mls.1\",\"ciphertext\":\"{ciphertext}\"}}}}"
    ))
}

fn commit(id: &str, depth: i64, sender: &str) -> Json {
    json(&format!(
        "{{\"event_id\":\"{id}\",\"room_id\":\"!enc:s\",\"sender\":\"{sender}\",\
         \"type\":\"p.mls.commit\",\"origin_server_ts\":100,\"depth\":{depth},\
         \"content\":{{\"commit\":\"AAAA\"}}}}"
    ))
}

#[test]
fn decrypt_pending_decrypts_inbound_and_caches_plaintext() {
    let engine = Engine {
        groups: vec!["!enc:s".to_owned()],
    };
    let mut bob = client(true);
    let ct = engine.encrypt("!enc:s", "secret hi").unwrap();
    bob.store.apply_events(&[encrypted("$e1", 1, &ct)]).unwrap();
    assert_eq!(bob.timeline("!enc:s", 10, None).unwrap()[0].body, None);
    assert!(process(&mut bob, &engine).unwrap());
    let tl = bob.timeline("!enc:s", 10, None).unwrap();
    assert_eq!(tl[0].body.as_deref(), Some("secret hi"));
    assert!(!process(&mut bob, &engine).unwrap());
}

#[test]
fn decrypt_pending_marks_undecryptable_events_failed() {
    let engine = Engine {
        groups: vec!["!enc:s".to_owned()],
    };
    let mut bob = client(true);
    bob.store
        .apply_events(&[encrypted("$bad", 1, "AAAA")])
        .unwrap();
    assert!(process(&mut bob, &engine).unwrap());
    let tl = bob.timeline("!enc:s", 10, None).unwrap();
    assert_eq!(tl[0].body, None);
    assert!(tl[0]
        .system_text
        .as_deref()
        .unwrap()
        .contains("Unable to decrypt"));
}

#[test]
fn a_second_inbound_pass_finds_nothing_to_do() {
    let engine = Engine {
        groups: vec!["!enc:s".to_owned()],
    };
    let ct = engine.encrypt("!enc:s", "once").unwrap();
    let elsewhere = json(&write_json(&encrypted("$e", 4, &ct)).replace("!enc:s", "!none:s"));
    let mut bob = client(true);
    bob.store
        .apply_events(&[
            encrypted("$good", 2, &ct),
            encrypted("$bad", 3, "AAAA"),
            commit("$theirs", 1, "@carol:s"),
            elsewhere,
        ])
        .unwrap();
    assert!(process(&mut bob, &engine).unwrap());
    bob.store.take_changes();
    assert_eq!(bob.store.pending_mls().unwrap().len(), 1);
    assert!(!process(&mut bob, &engine).unwrap());
    assert!(bob.store.take_changes().is_empty());
    assert_eq!(bob.store.pending_mls().unwrap()[0].room_id, "!none:s");
}

#[test]
fn events_wait_for_their_group_and_for_an_engine() {
    let engine = Engine {
        groups: vec!["!enc:s".to_owned()],
    };
    let ct = engine.encrypt("!enc:s", "later").unwrap();
    let mut bob = client(true);
    bob.store.apply_events(&[encrypted("$e1", 1, &ct)]).unwrap();
    assert!(!process(&mut bob, &Engine::default()).unwrap());
    assert_eq!(bob.store.pending_mls().unwrap().len(), 1);
    bob.has_engine = false;
    assert!(!process(&mut bob, &engine).unwrap());
    assert_eq!(bob.store.pending_mls().unwrap().len(), 1);
    bob.has_engine = true;
    assert!(process(&mut bob, &engine).unwrap());
}

#[test]
fn commits_are_taken_in_order_and_our_own_are_only_marked() {
    let engine = Engine {
        groups: vec!["!enc:s".to_owned()],
    };
    let ct = engine.encrypt("!enc:s", "at the new epoch").unwrap();
    let mut c = client(true);
    c.store
        .apply_events(&[
            encrypted("$m", 3, &ct),
            commit("$theirs", 2, "@bob:s"),
            commit("$ours", 1, "@alice:test.example"),
        ])
        .unwrap();
    let mut pass = c.process_inbound_mls().unwrap();
    let item = match pass.next(&mut c.store, InboundEvent::Begin).unwrap() {
        InboundAction::CheckGroup(i) => i,
        _ => panic!("expected a question"),
    };
    assert_eq!(item.event_id, "$theirs");
    let item = match pass
        .next(&mut c.store, InboundEvent::Group(item, Ok(true)))
        .unwrap()
    {
        InboundAction::Apply(i) => i,
        _ => panic!("expected the commit to be applied"),
    };
    // A commit that does not apply is dealt with all the same.
    let item = match pass
        .next(&mut c.store, InboundEvent::Applied(item, Err(no_engine())))
        .unwrap()
    {
        InboundAction::CheckGroup(i) => i,
        _ => panic!("expected a question"),
    };
    assert_eq!(item.event_id, "$m");
    assert!(pass
        .next(&mut c.store, InboundEvent::Group(item, Err(no_engine())))
        .is_err());
    assert_eq!(c.store.pending_mls().unwrap().len(), 1);
}

// --- Inviting -------------------------------------------------------------------

fn invite(
    c: &PigeonClient,
    engine: &Engine,
    server: &Server,
    room: &str,
    user: &str,
) -> Result<(), CoreError> {
    let (mut pass, request) = c.invite(room, user);
    let mut n = 0;
    let mut event = InviteEvent::Invited(server.ask(request));
    loop {
        event = match pass.next(&c.api, event)? {
            InviteAction::CheckGroup => InviteEvent::Group(engine.has_group(room)),
            InviteAction::Query(request) => {
                InviteEvent::Claiming(ClaimEvent::Queried(server.ask(request)))
            }
            InviteAction::Claim(device, request) => {
                InviteEvent::Claiming(ClaimEvent::Claimed(device, server.ask(request)))
            }
            InviteAction::Add(package) => {
                let outcome = engine.add_member(room, &package.key_package_b64);
                n += 1;
                InviteEvent::Added {
                    device_id: package.device_id,
                    outcome,
                    n,
                }
            }
            InviteAction::Ship { request, commit } => {
                n += 1;
                InviteEvent::Shipped {
                    commit,
                    reply: server.ask(request),
                    n,
                }
            }
            InviteAction::Broadcast(request) => InviteEvent::Broadcast(server.ask(request)),
            InviteAction::Done => return Ok(()),
        };
    }
}

#[test]
fn invite_posts_user_id_to_invite_path() {
    let server = Server::default().on(
        Verb::Post,
        "/_pigeon/client/v1/rooms/!r:test.example/invite",
        200,
        "{\"event_id\":\"$inv\"}",
    );
    invite(
        &client(true),
        &Engine::default(),
        &server,
        "!r:test.example",
        "@bob:test.example",
    )
    .unwrap();
    assert_eq!(
        server.body_sent_to("/invite"),
        "{\"user_id\":\"@bob:test.example\"}"
    );
    assert!(!server.was_asked("/keys/"));
}

#[test]
fn invite_to_encrypted_room_claims_keys_and_ships_welcome() {
    let server = Server::default()
        .on(
            Verb::Post,
            "/_pigeon/client/v1/rooms/!enc:test.example/invite",
            200,
            "{\"event_id\":\"$inv\"}",
        )
        .on(
            Verb::Post,
            "/_pigeon/client/v1/keys/query",
            200,
            "{\"device_keys\":{\"@bob:test.example\":{\"BOBDEV\":{}}}}",
        )
        .on(
            Verb::Post,
            "/_pigeon/client/v1/keys/claim",
            200,
            "{\"one_time_keys\":{\"@bob:test.example\":{\"BOBDEV\":{\"key_id\":\"kp-0\",\
             \"package\":\"AAAA\"}}}}",
        )
        .on(
            Verb::Put,
            "/_pigeon/client/v1/sendToDevice/p.mls.welcome/",
            200,
            "{}",
        );
    let engine = Engine {
        groups: vec!["!enc:test.example".to_owned()],
    };
    invite(
        &client(true),
        &engine,
        &server,
        "!enc:test.example",
        "@bob:test.example",
    )
    .unwrap();
    let sent = json(&server.body_sent_to("/sendToDevice/p.mls.welcome/mob-td-1"));
    let content = sent
        .get("messages")
        .and_then(|m| m.get("@bob:test.example"))
        .and_then(|u| u.get("BOBDEV"))
        .expect("a welcome for the device");
    assert_eq!(content.str_at("room_id"), Some("!enc:test.example"));
    // The commit follows, though the server does not take it here.
    assert_eq!(
        server.body_sent_to("/rooms/!enc:test.example/send/p.mls.commit/mob-td-2"),
        format!("{{\"commit\":\"{}\"}}", to_base64(b"commit"))
    );
    let mut bob = Engine::default();
    assert!(!bob.has_group("!enc:test.example").unwrap());
    bob.join(content.str_at("welcome").unwrap()).unwrap();
    assert!(bob.has_group("!enc:test.example").unwrap());
}

#[test]
fn each_device_that_gave_a_package_gets_one_welcome() {
    let packages = "{\"one_time_keys\":{\"@bob:s\":{\"DEV1\":{\"package\":\"AAAA\"},\
                    \"DEV3\":{\"package\":\"BBBB\"}}}}";
    let server = |claimed: &str| {
        Server::default()
            .on(
                Verb::Post,
                "/_pigeon/client/v1/rooms/!r:s/invite",
                200,
                "{\"event_id\":\"$inv\"}",
            )
            .on(
                Verb::Post,
                "/_pigeon/client/v1/keys/query",
                200,
                "{\"device_keys\":{\"@bob:s\":{\"DEV1\":{},\"DEV2\":{},\"DEV3\":{}}}}",
            )
            .on(Verb::Post, "/_pigeon/client/v1/keys/claim", 200, claimed)
            .on(Verb::Put, "/_pigeon/client/v1/sendToDevice/", 200, "{}")
            .on(
                Verb::Put,
                "/_pigeon/client/v1/rooms/!r:s/send/p.mls.commit/",
                200,
                "{\"event_id\":\"$c\"}",
            )
    };
    let engine = Engine {
        groups: vec!["!r:s".to_owned()],
    };
    let two = server(packages);
    invite(&client(true), &engine, &two, "!r:s", "@bob:s").unwrap();
    assert_eq!(two.times_asked("/keys/claim"), 3);
    let sent: Vec<(String, String)> = two
        .asked
        .borrow()
        .iter()
        .filter(|r| r.verb == Verb::Put)
        .map(|r| match &r.body {
            Body::Json(j) => (r.url.clone(), write_json(j)),
            _ => panic!("expected a JSON body"),
        })
        .collect();
    assert_eq!(sent.len(), 4);
    for (i, device) in ["DEV1", "DEV3"].iter().enumerate() {
        assert!(sent[2 * i].0.contains("/sendToDevice/p.mls.welcome/"));
        assert!(sent[2 * i].1.contains(device));
        assert!(sent[2 * i + 1].0.contains("/rooms/!r:s/send/p.mls.commit/"));
    }

    // Where no device has a package left, nothing is sent.
    let none = server("{\"one_time_keys\":{}}");
    invite(&client(true), &engine, &none, "!r:s", "@bob:s").unwrap();
    assert!(!none.was_asked("/sendToDevice/") && !none.was_asked("/send/"));
}

#[test]
fn an_invitation_that_the_server_refuses_ends_there() {
    let engine = Engine {
        groups: vec!["!r:s".to_owned()],
    };
    let server = Server::default();
    assert!(invite(&client(true), &engine, &server, "!r:s", "@b:s").is_err());
    assert!(!server.was_asked("/keys/"));
    assert_eq!(next_txn_id(u64::MAX), "mob-td-18446744073709551615");
}

// --- Backups --------------------------------------------------------------------

#[test]
fn backup_puts_blob_and_returns_recovery_key() {
    let server = Server::default().on(
        Verb::Put,
        "/_pigeon/client/v1/room_keys/key/!e2ee-backup/mls-device-state",
        200,
        "{}",
    );
    let engine = Engine {
        groups: vec!["!enc:test.example".to_owned()],
    };
    let (recovery_key, blob) = engine.create_backup();
    assert!(!recovery_key.is_empty(), "a recovery key is returned");
    assert_eq!(recovery_key, "WhHn");
    let request = client(true).backup(&blob);
    assert_eq!(request.bearer.as_deref(), Some("secret-token"));
    assert!(server.ask(request).is_ok());
    assert_eq!(server.times_asked("/room_keys/key/"), 1);

    // What is stored is the sealed blob, and nothing else.
    let body = json(&server.body_sent_to("/room_keys/key/"));
    let stored = body.str_at("blob").expect("stores a base64 blob");
    assert_eq!(stored, blob);
    let bytes = from_base64(stored).expect("base64");
    assert!(!bytes.windows(4).any(|w| w == b"!enc"));
    assert!(!write_json(&body).contains(&recovery_key));
}

#[test]
fn restore_backup_fetches_blob_and_recovers_identity() {
    let donor = Engine {
        groups: vec!["!enc:test.example".to_owned()],
    };
    let (recovery_key, blob) = donor.create_backup();
    let server = Server::default().on(
        Verb::Get,
        "/_pigeon/client/v1/room_keys/key/!e2ee-backup/mls-device-state",
        200,
        &format!("{{\"blob\":\"{blob}\"}}"),
    );
    let request = client(true).restore_backup();
    assert_eq!(request.bearer.as_deref(), Some("secret-token"));
    let found = found_backup(server.ask(request)).unwrap();
    assert_eq!(found, blob);
    assert_eq!(server.times_asked("/room_keys/key/"), 1);

    let restored = Engine::restore_from_backup(&recovery_key, &found).unwrap();
    assert_eq!(restored.groups, donor.groups);
    assert!(restored.has_group("!enc:test.example").unwrap());

    // A recovery key or a blob that is not base64 is refused.
    match E2ee::restore_from_backup("not base64!", &found) {
        Err(CoreError::Crypto { reason }) => assert!(reason.contains("recovery key")),
        other => panic!("expected a Crypto error, got {other:?}"),
    }
    match E2ee::restore_from_backup(&recovery_key, "not base64!") {
        Err(CoreError::Crypto { reason }) => assert!(reason.contains("backup blob")),
        other => panic!("expected a Crypto error, got {other:?}"),
    }
}

#[test]
fn restore_backup_errors_when_no_backup_on_server() {
    let server = Server::default().on(
        Verb::Get,
        "/_pigeon/client/v1/room_keys/key/!e2ee-backup/mls-device-state",
        404,
        "{\"errcode\":\"P_NOT_FOUND\",\"error\":\"no such backed-up key\"}",
    );
    match found_backup(server.ask(client(true).restore_backup())) {
        Err(CoreError::Crypto { reason }) => {
            assert_eq!(reason, "no encryption-key backup found on the server")
        }
        other => panic!("expected a Crypto error for a missing backup, got {other:?}"),
    }
    assert!(matches!(
        found_backup(Ok(Json::Null)),
        Err(CoreError::Crypto { .. })
    ));
    assert!(matches!(
        found_backup(Err(ApiError::Network {
            reason: OFFLINE.to_owned()
        })),
        Err(CoreError::Network { .. })
    ));
}

// --- Media ----------------------------------------------------------------------

#[test]
fn upload_media_posts_raw_bytes_and_returns_uri() {
    let server = Server::default().on(
        Verb::Post,
        "/_pigeon/media/v1/upload",
        200,
        "{\"content_uri\":\"pigeon://test.example/mediaABC\"}",
    );
    let request = client(false)
        .upload_media(b"\x89PNG rawbytes".to_vec(), "image/png")
        .unwrap();
    match &request.body {
        Body::Raw {
            content_type,
            bytes,
        } => {
            assert_eq!(content_type, "image/png");
            assert_eq!(bytes, b"\x89PNG rawbytes");
        }
        _ => panic!("expected raw bytes"),
    }
    assert_eq!(
        text_of(server.ask(request), "content_uri").unwrap(),
        "pigeon://test.example/mediaABC"
    );
}

#[test]
fn upload_media_rejects_oversize_client_side() {
    let too_big = vec![0u8; 50 * 1024 * 1024 + 1];
    match client(false).upload_media(too_big, "image/png") {
        Err(CoreError::Api {
            code: ErrorCode::LimitExceeded,
            ..
        }) => {}
        other => panic!("expected a LimitExceeded error, got {other:?}"),
    }
}

#[test]
fn download_media_fetches_raw_bytes_by_uri() {
    let mut server = Server::default();
    server.routes.push((
        Verb::Get,
        "/_pigeon/media/v1/download/test.example/mediaABC".to_owned(),
        200,
        b"\x89PNG rawbytes".to_vec(),
    ));
    let request = client(false)
        .download_media("pigeon://test.example/mediaABC")
        .unwrap();
    assert_eq!(
        read_download(server.raw(request)).unwrap(),
        b"\x89PNG rawbytes"
    );
}

#[test]
fn download_media_rejects_a_malformed_uri() {
    match client(false).download_media("https://not-pigeon/x") {
        Err(CoreError::Protocol { .. }) => {}
        other => panic!("expected a Protocol error, got {other:?}"),
    }
}

/// Runs the sending of an image. The stand-in for encryption reverses the bytes.
fn run_image(
    c: &PigeonClient,
    engine: &Engine,
    server: &Server,
    room: &str,
    bytes: Vec<u8>,
    caption: &str,
) -> Result<(), CoreError> {
    let (pass, mut action): (ImagePass, ImageAction) =
        c.send_image(room, bytes, "image/png", 4, 3, caption)?;
    loop {
        let event = match action {
            ImageAction::CheckGroup { bytes } => ImageEvent::Group {
                held: engine.has_group(room),
                bytes,
            },
            ImageAction::EncryptMedia { bytes } => ImageEvent::MediaEncrypted(Ok((
                "S0VZ".to_owned(),
                bytes.into_iter().rev().collect(),
            ))),
            ImageAction::Upload { key, request } => ImageEvent::Uploaded {
                key,
                reply: server.ask(request),
                n: 7,
            },
            ImageAction::Encrypt { text } => {
                assert!(text.contains("\"key\":\"S0VZ\""));
                ImageEvent::Encrypted {
                    answer: engine.encrypt(room, &text),
                    n: 8,
                }
            }
            ImageAction::Send(request) => ImageEvent::Sent(server.ask(request)),
            ImageAction::Done => return Ok(()),
        };
        action = pass.next(&c.store, &c.api, event)?;
    }
}

#[test]
fn send_image_uploads_bytes_then_posts_a_p_image_message() {
    let server = ack_server("p.room.message", "$img").on(
        Verb::Post,
        "/_pigeon/media/v1/upload",
        200,
        "{\"content_uri\":\"pigeon://test.example/mediaABC\"}",
    );
    for has_engine in [false, true] {
        run_image(
            &client(has_engine),
            &Engine::default(),
            &server,
            "!r:test.example",
            b"\x89PNG rawbytes".to_vec(),
            "cat.jpg",
        )
        .unwrap();
    }
    assert_eq!(
        server.body_sent_to("/send/p.room.message/mob-td-7"),
        "{\"body\":\"cat.jpg\",\"info\":{\"h\":3,\"mimetype\":\"image/png\",\"size\":13,\"w\":4},\
         \"msgtype\":\"p.image\",\"url\":\"pigeon://test.example/mediaABC\"}"
    );
}

#[test]
fn send_image_in_encrypted_room_encrypts_bytes_and_carries_key_in_event() {
    let server = Server::default()
        .on(
            Verb::Post,
            "/_pigeon/media/v1/upload",
            200,
            "{\"content_uri\":\"pigeon://test.example/ct1\"}",
        )
        .on(
            Verb::Put,
            "/_pigeon/client/v1/rooms/!enc:test.example/send/p.room.encrypted/",
            200,
            "{\"event_id\":\"$enc\"}",
        );
    let engine = Engine {
        groups: vec!["!enc:test.example".to_owned()],
    };
    let plaintext_bytes = b"\x89PNG the secret photo".to_vec();
    run_image(
        &client(true),
        &engine,
        &server,
        "!enc:test.example",
        plaintext_bytes.clone(),
        "secret.png",
    )
    .unwrap();
    match &server.asked.borrow()[0].body {
        Body::Raw {
            content_type,
            bytes,
        } => {
            assert_ne!(bytes, &plaintext_bytes);
            assert_eq!(content_type, "application/octet-stream");
        }
        _ => panic!("expected an upload first"),
    }
    let body = server.body_sent_to("/send/p.room.encrypted/");
    assert!(body.contains("ciphertext"));
    assert!(!body.contains("secret.png"), "no plaintext caption on the wire");
    assert!(
        !body.contains("pigeon://test.example/ct1"),
        "no plaintext url on the wire"
    );
    assert!(!server.was_asked("/send/p.room.message/"));
    assert_eq!(server.asked.borrow().len(), 2);
}

#[test]
fn no_image_goes_plain_into_an_encrypted_room() {
    let server = Server::default();
    for has_engine in [false, true] {
        let mut c = client(has_engine);
        mark_encrypted(&mut c, "!r:s");
        match run_image(&c, &Engine::default(), &server, "!r:s", vec![1], "x") {
            Err(CoreError::Crypto { .. }) => {}
            other => panic!("expected a Crypto error, got {other:?}"),
        }
    }
    assert!(server.asked.borrow().is_empty());
}
