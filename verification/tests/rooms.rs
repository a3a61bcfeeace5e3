use pigeon_mobile_core::event::{SendState, StoredEvent};
use pigeon_mobile_core::json::Json;
use pigeon_mobile_core::rooms::{Room, TimelineEvent};
use pigeon_mobile_core::store::RoomSummary;

fn obj(members: Vec<(&str, Json)>) -> Json {
    Json::Object(members.into_iter().map(|(k, v)| (k.to_owned(), v)).collect())
}

fn text(s: &str) -> Json {
    Json::Str(s.to_owned())
}

fn stored(event_type: &str, state_key: Option<&str>, content: Json) -> StoredEvent {
    StoredEvent {
        event_id: "$e".to_owned(),
        room_id: "!r:s".to_owned(),
        sender: "@alice:s".to_owned(),
        event_type: event_type.to_owned(),
        state_key: state_key.map(str::to_owned),
        origin_server_ts: 100,
        depth: 3,
        content: content.clone(),
        payload: content,
        send_state: SendState::Confirmed,
        decrypted: None,
        decrypt_failed: false,
    }
}

fn ciphertext() -> Json {
    obj(vec![("algorithm", text("p.mls.1")), ("ciphertext", text("CT"))])
}

#[test]
fn message_maps_to_body() {
    let ev = TimelineEvent::from(stored(
        "p.room.message",
        None,
        obj(vec![("body", text("hello")), ("msgtype", text("p.text"))]),
    ));
    assert_eq!(ev.body.as_deref(), Some("hello"));
    assert_eq!(ev.system_text, None);
    assert_eq!(ev.cursor, 3);
}

#[test]
fn membership_renders_a_system_line() {
    let join = TimelineEvent::from(stored(
        "p.room.member",
        Some("@bob:s"),
        obj(vec![("membership", text("join"))]),
    ));
    assert_eq!(join.body, None);
    assert_eq!(join.system_text.as_deref(), Some("@bob:s joined"));

    let invite = TimelineEvent::from(stored(
        "p.room.member",
        Some("@bob:s"),
        obj(vec![("membership", text("invite"))]),
    ));
    assert_eq!(
        invite.system_text.as_deref(),
        Some("@alice:s invited @bob:s")
    );
}

#[test]
fn every_membership_has_its_line() {
    let line = |key: Option<&str>, content: Json| {
        TimelineEvent::from(stored("p.room.member", key, content))
            .system_text
            .unwrap()
    };
    let with = |m: &str| obj(vec![("membership", text(m))]);
    assert_eq!(line(Some("@b:s"), with("leave")), "@b:s left");
    assert_eq!(line(Some("@b:s"), with("ban")), "@alice:s banned @b:s");
    assert_eq!(line(Some("@b:s"), with("knock")), "@b:s requested to join");
    assert_eq!(line(Some("@b:s"), with("odd")), "@b:s: odd");
    assert_eq!(line(None, with("join")), "@alice:s joined");
    assert_eq!(line(Some("@b:s"), obj(vec![])), "@b:s: ");
}

#[test]
fn name_and_encryption_render_system_lines() {
    let name = TimelineEvent::from(stored(
        "p.room.name",
        Some(""),
        obj(vec![("name", text("General"))]),
    ));
    assert_eq!(
        name.system_text.as_deref(),
        Some("Room name set to \u{201c}General\u{201d}")
    );

    let enc = TimelineEvent::from(stored("p.room.encryption", Some(""), obj(vec![])));
    assert_eq!(enc.system_text.as_deref(), Some("Encryption enabled"));
}

#[test]
fn other_state_renders_system_lines() {
    let line = |ty: &str| TimelineEvent::from(stored(ty, Some(""), obj(vec![]))).system_text;
    assert_eq!(line("p.room.name").as_deref(), Some("Room name removed"));
    assert_eq!(line("p.room.topic").as_deref(), Some("Topic updated"));
    assert_eq!(line("p.room.create").as_deref(), Some("Room created"));
    // A message without a body has no line of its own either.
    assert_eq!(line("p.room.message"), None);
}

#[test]
fn hidden_state_events_render_nothing() {
    let ev = TimelineEvent::from(stored("p.room.power_levels", Some(""), obj(vec![])));
    assert_eq!(ev.body, None);
    assert_eq!(ev.system_text, None);
}

#[test]
fn image_message_populates_image_content_and_caption() {
    let ev = stored(
        "p.room.message",
        None,
        obj(vec![
            ("msgtype", text("p.image")),
            ("body", text("cat.jpg")),
            ("url", text("pigeon://s/abc")),
            (
                "info",
                obj(vec![
                    ("mimetype", text("image/jpeg")),
                    ("w", Json::number(800)),
                    ("h", Json::number(600)),
                    ("size", Json::number(12345)),
                ]),
            ),
        ]),
    );
    let te = TimelineEvent::from(ev);
    assert_eq!(te.body.as_deref(), Some("cat.jpg"));
    let img = te.image.expect("an image attachment");
    assert_eq!(img.uri, "pigeon://s/abc");
    assert_eq!(img.mimetype, "image/jpeg");
    assert_eq!(img.width, 800);
    assert_eq!(img.height, 600);
    assert_eq!(img.size, 12345);
}

#[test]
fn image_without_info_has_defaults() {
    let te = TimelineEvent::from(stored(
        "p.room.message",
        None,
        obj(vec![("msgtype", text("p.image")), ("url", text("u"))]),
    ));
    let img = te.image.expect("an image attachment");
    assert_eq!(img.mimetype, "application/octet-stream");
    assert_eq!((img.width, img.height, img.size), (0, 0, 0));

    let wide = TimelineEvent::from(stored(
        "p.room.message",
        None,
        obj(vec![
            ("msgtype", text("p.image")),
            ("url", text("u")),
            (
                "info",
                obj(vec![
                    ("w", Json::natural(0x1_0000_0007)),
                    ("h", Json::number(-1)),
                    ("size", Json::natural(u64::MAX)),
                ]),
            ),
        ]),
    ));
    let img = wide.image.expect("an image attachment");
    assert_eq!((img.width, img.height, img.size), (7, 0, u64::MAX));

    let no_url = TimelineEvent::from(stored(
        "p.room.message",
        None,
        obj(vec![("msgtype", text("p.image"))]),
    ));
    assert!(no_url.image.is_none());
}

#[test]
fn plain_text_message_has_no_image() {
    let te = TimelineEvent::from(stored(
        "p.room.message",
        None,
        obj(vec![("body", text("hi")), ("msgtype", text("p.text"))]),
    ));
    assert!(te.image.is_none());
    assert_eq!(te.body.as_deref(), Some("hi"));
}

#[test]
fn encrypted_event_renders_decrypted_plaintext_as_a_message() {
    let mut ev = stored("p.room.encrypted", None, ciphertext());
    ev.decrypted = Some("the secret".to_owned());
    let te = TimelineEvent::from(ev);
    assert_eq!(te.body.as_deref(), Some("the secret"));
    assert_eq!(te.system_text, None);
}

#[test]
fn encrypted_event_pending_decrypt_is_hidden() {
    let te = TimelineEvent::from(stored("p.room.encrypted", None, ciphertext()));
    assert_eq!(te.body, None);
    assert_eq!(te.system_text, None);
}

#[test]
fn encrypted_event_decrypt_failure_shows_placeholder() {
    let mut ev = stored("p.room.encrypted", None, ciphertext());
    ev.decrypt_failed = true;
    let te = TimelineEvent::from(ev);
    assert_eq!(te.body, None);
    assert!(te.system_text.unwrap().contains("Unable to decrypt"));
}

#[test]
fn send_state_is_shown() {
    let mut ev = stored("p.room.message", None, obj(vec![("body", text("x"))]));
    ev.send_state = SendState::Sending;
    let te = TimelineEvent::from(ev);
    assert!(te.pending && !te.failed);
    let mut ev = stored("p.room.message", None, obj(vec![("body", text("x"))]));
    ev.send_state = SendState::Failed;
    let te = TimelineEvent::from(ev);
    assert!(!te.pending && te.failed);
}

#[test]
fn rooms_mirror_their_summary() {
    let room = Room::from(RoomSummary {
        room_id: "!r:s".to_owned(),
        name: Some("N".to_owned()),
        topic: None,
        encrypted: true,
        last_activity_ts: 7,
    });
    assert_eq!(room.room_id, "!r:s");
    assert_eq!(room.name.as_deref(), Some("N"));
    assert_eq!(room.topic, None);
    assert!(room.encrypted);
    assert_eq!(room.last_activity_ts, 7);
}
