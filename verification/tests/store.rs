use pigeon_mobile_core::json::Json;
use pigeon_mobile_core::store::{
    next_send_ids, Membership, SendState, Store, StoreError, StoredEvent,
};
use pigeon_mobile_core::table::{Change, EventRow, SendRow, StateRow};

fn obj(members: Vec<(&str, Json)>) -> Json {
    Json::Object(members.into_iter().map(|(k, v)| (k.to_owned(), v)).collect())
}

fn text(s: &str) -> Json {
    Json::Str(s.to_owned())
}

/// A minimal wire event. Without a state key it is a message event.
#[allow(clippy::too_many_arguments)]
fn event(
    id: &str,
    room: &str,
    sender: &str,
    depth: i64,
    ts: i64,
    ty: &str,
    state_key: Option<&str>,
    content: Json,
) -> Json {
    let mut e = obj(vec![
        ("event_id", text(id)),
        ("room_id", text(room)),
        ("sender", text(sender)),
        ("type", text(ty)),
        ("origin_server_ts", Json::number(ts)),
        ("depth", Json::number(depth)),
        ("content", content),
    ]);
    if let Some(sk) = state_key {
        e.set("state_key", text(sk));
    }
    e
}

fn message(id: &str, room: &str, sender: &str, depth: i64, ts: i64, body: &str) -> Json {
    event(
        id,
        room,
        sender,
        depth,
        ts,
        "p.room.message",
        None,
        obj(vec![("body", text(body)), ("msgtype", text("p.text"))]),
    )
}

fn encrypted(id: &str, room: &str, depth: i64, ciphertext: &str) -> Json {
    event(
        id,
        room,
        "@alice:s",
        depth,
        depth * 100,
        "p.room.encrypted",
        None,
        obj(vec![
            ("algorithm", text("p.mls.1")),
            ("ciphertext", text(ciphertext)),
        ]),
    )
}

fn commit(id: &str, room: &str, depth: i64, data: &str) -> Json {
    event(
        id,
        room,
        "@alice:s",
        depth,
        depth * 100,
        "p.mls.commit",
        None,
        obj(vec![("commit", text(data))]),
    )
}

fn new_store() -> Store {
    Store::open_in_memory().unwrap()
}

fn queue(store: &mut Store, room: &str, sender: &str, body: &str, n: u64) -> String {
    store
        .queue_send(room, sender, body, next_send_ids(1000, n), 1000)
        .unwrap()
}

fn ids(events: &[StoredEvent]) -> Vec<String> {
    events.iter().map(|e| e.event_id.clone()).collect()
}

#[test]
fn from_wire_reads_fields_and_detects_state() {
    let msg = match StoredEvent::from_wire(&message("$a", "!r:s", "@u:s", 3, 100, "hi")) {
        Ok(m) => m,
        Err(e) => panic!("{}", e.describe()),
    };
    assert_eq!(msg.event_id, "$a");
    assert_eq!(msg.event_type, "p.room.message");
    assert_eq!(msg.state_key, None);
    assert_eq!(msg.depth, 3);
    assert_eq!(msg.content.str_at("body"), Some("hi"));

    let member = match StoredEvent::from_wire(&event(
        "$m",
        "!r:s",
        "@u:s",
        1,
        50,
        "p.room.member",
        Some("@u:s"),
        obj(vec![("membership", text("join"))]),
    )) {
        Ok(m) => m,
        Err(e) => panic!("{}", e.describe()),
    };
    assert_eq!(member.state_key.as_deref(), Some("@u:s"));
}

#[test]
fn from_wire_rejects_missing_field() {
    let bad = obj(vec![
        ("event_id", text("$a")),
        ("room_id", text("!r:s")),
        ("type", text("p.room.message")),
        ("origin_server_ts", Json::number(1)),
        ("depth", Json::number(1)),
        ("content", obj(vec![])),
    ]);
    match StoredEvent::from_wire(&bad) {
        Err(StoreError::Malformed { reason }) => {
            assert!(reason.contains("sender"));
            assert_eq!(reason, "event missing string field `sender`");
        }
        _ => panic!("expected Malformed"),
    }
}

#[test]
fn from_wire_complains_about_the_first_missing_field() {
    let keys = [
        "event_id",
        "room_id",
        "sender",
        "type",
        "origin_server_ts",
        "depth",
    ];
    for missing in keys {
        let whole = message("$a", "!r:s", "@u:s", 3, 100, "hi");
        let members = match whole {
            Json::Object(m) => m,
            _ => unreachable!(),
        };
        let bad = Json::Object(members.into_iter().filter(|(k, _)| k != missing).collect());
        let kind = if missing == "depth" || missing == "origin_server_ts" {
            "integer"
        } else {
            "string"
        };
        match StoredEvent::from_wire(&bad) {
            Err(e) => assert_eq!(
                e.describe(),
                format!("malformed event: event missing {kind} field `{missing}`")
            ),
            Ok(_) => panic!("expected {missing} to be missed"),
        }
    }
    // A depth beyond the range of the column is no depth.
    let mut deep = message("$a", "!r:s", "@u:s", 3, 100, "hi");
    deep.set("depth", Json::natural(u64::MAX));
    assert!(StoredEvent::from_wire(&deep).is_err());
    assert!(StoredEvent::from_wire(&Json::Null).is_err());
}

#[test]
fn sync_token_round_trips_and_replaces() {
    let mut store = new_store();
    assert_eq!(store.load_sync_token().unwrap(), None);

    store.save_sync_token("42_7").unwrap();
    assert_eq!(store.load_sync_token().unwrap().as_deref(), Some("42_7"));

    store.save_sync_token("99_12").unwrap();
    assert_eq!(store.load_sync_token().unwrap().as_deref(), Some("99_12"));
}

#[test]
fn apply_events_appends_and_is_idempotent() {
    let mut store = new_store();
    let batch = vec![
        message("$a", "!r:s", "@u:s", 1, 100, "one"),
        message("$b", "!r:s", "@u:s", 2, 200, "two"),
    ];
    assert_eq!(store.apply_events(&batch).unwrap(), 2);
    assert_eq!(store.apply_events(&batch).unwrap(), 0);

    let tl = store.timeline("!r:s", 10, None).unwrap();
    assert_eq!(tl.len(), 2);
    assert_eq!(tl[0].event_id, "$a");
    assert_eq!(tl[1].event_id, "$b");
}

#[test]
fn timeline_orders_by_depth_and_paginates() {
    let mut store = new_store();
    store
        .apply_events(&[
            message("$c", "!r:s", "@u:s", 3, 300, "three"),
            message("$a", "!r:s", "@u:s", 1, 100, "one"),
            message("$b", "!r:s", "@u:s", 2, 200, "two"),
        ])
        .unwrap();

    let page = store.timeline("!r:s", 2, None).unwrap();
    assert_eq!(ids(&page), vec!["$b", "$c"]);

    let older = store.timeline("!r:s", 10, Some(3)).unwrap();
    assert_eq!(ids(&older), vec!["$a", "$b"]);
}

#[test]
fn timeline_orders_one_depth_by_id_and_takes_any_limit() {
    let mut store = new_store();
    store
        .apply_events(&[
            message("$z", "!r:s", "@u:s", 1, 100, "z"),
            message("$a", "!r:s", "@u:s", 1, 100, "a"),
            message("$\u{e9}", "!r:s", "@u:s", 1, 100, "e"),
            message("$m", "!r:s", "@u:s", -4, 100, "m"),
        ])
        .unwrap();
    let all = store.timeline("!r:s", u32::MAX, None).unwrap();
    assert_eq!(ids(&all), vec!["$m", "$a", "$z", "$\u{e9}"]);
    assert_eq!(store.timeline("!r:s", 0, None).unwrap().len(), 0);
    assert_eq!(store.timeline("!r:s", 9, Some(-4)).unwrap().len(), 0);
}

#[test]
fn pages_meet_without_overlap() {
    let mut store = new_store();
    let batch: Vec<Json> = (1..=7)
        .map(|d| message(&format!("$e{d}"), "!r:s", "@u:s", d, d * 10, "x"))
        .collect();
    store.apply_events(&batch).unwrap();
    let mut seen: Vec<String> = Vec::new();
    let mut before = None;
    loop {
        let page = store.timeline("!r:s", 3, before).unwrap();
        if page.is_empty() {
            break;
        }
        before = Some(page[0].depth);
        let mut so_far = ids(&page);
        so_far.extend(seen);
        seen = so_far;
    }
    assert_eq!(seen, vec!["$e1", "$e2", "$e3", "$e4", "$e5", "$e6", "$e7"]);
}

#[test]
fn timeline_is_scoped_to_its_room() {
    let mut store = new_store();
    store
        .apply_events(&[
            message("$a", "!r1:s", "@u:s", 1, 100, "in r1"),
            message("$b", "!r2:s", "@u:s", 1, 100, "in r2"),
        ])
        .unwrap();
    let r1 = store.timeline("!r1:s", 10, None).unwrap();
    assert_eq!(r1.len(), 1);
    assert_eq!(r1[0].event_id, "$a");
}

fn name_event(id: &str, depth: i64, ts: i64, name: &str) -> Json {
    event(
        id,
        "!r:s",
        "@u:s",
        depth,
        ts,
        "p.room.name",
        Some(""),
        obj(vec![("name", text(name))]),
    )
}

#[test]
fn state_is_folded_last_writer_wins_by_depth() {
    let mut store = new_store();
    store.apply_events(&[name_event("$n1", 1, 100, "First")]).unwrap();
    assert_eq!(store.list_rooms().unwrap()[0].name.as_deref(), Some("First"));

    store.apply_events(&[name_event("$n2", 5, 500, "Second")]).unwrap();
    assert_eq!(store.list_rooms().unwrap()[0].name.as_deref(), Some("Second"));

    store.apply_events(&[name_event("$n0", 2, 200, "Stale")]).unwrap();
    assert_eq!(store.list_rooms().unwrap()[0].name.as_deref(), Some("Second"));
}

#[test]
fn state_of_equal_depth_is_replaced_and_replaying_settles() {
    let mut store = new_store();
    let batch = vec![
        name_event("$n1", 4, 100, "First"),
        name_event("$n2", 4, 200, "Second"),
        name_event("$n3", 1, 300, "Third"),
    ];
    store.apply_events(&batch).unwrap();
    assert_eq!(store.list_rooms().unwrap()[0].name.as_deref(), Some("Second"));
    assert_eq!(store.apply_events(&batch).unwrap(), 0);
    assert_eq!(store.list_rooms().unwrap()[0].name.as_deref(), Some("Second"));
    // Any part of it, at any later time, is a no-op too.
    store.take_changes();
    store.apply_events(&[name_event("$other", 2, 400, "Other")]).unwrap();
    store.take_changes();
    for one in &batch {
        assert_eq!(store.apply_events(std::slice::from_ref(one)).unwrap(), 0);
        assert_eq!(store.list_rooms().unwrap()[0].name.as_deref(), Some("Second"));
        assert!(store.take_changes().is_empty());
    }
}

#[test]
fn current_state_is_the_deepest_in_whatever_order() {
    let events = [
        name_event("$n1", 3, 100, "Three"),
        name_event("$n2", 9, 200, "Nine"),
        name_event("$n3", 5, 300, "Five"),
    ];
    for order in [[0, 1, 2], [1, 0, 2], [2, 1, 0], [1, 2, 0]] {
        let mut store = new_store();
        assert!(store
            .current_state("!r:s", "p.room.name", "")
            .unwrap()
            .is_none());
        for i in order {
            store.apply_events(&[events[i].clone()]).unwrap();
            queue(&mut store, "!r:s", "@me:s", "between", i as u64);
        }
        let txn = store.pending_sends().unwrap()[0].txn_id.clone();
        store.resolve_send(&txn, "$acked").unwrap();
        let now = store
            .current_state("!r:s", "p.room.name", "")
            .unwrap()
            .unwrap();
        assert_eq!(now.event_id, "$n2");
        assert_eq!(now.depth, 9);
        assert_eq!(now.send_state, SendState::Confirmed);
    }
}

#[test]
fn pages_put_together_are_the_whole_timeline() {
    let mut store = new_store();
    let events: Vec<Json> = (0..11)
        .map(|n| message(&format!("$e{n}"), "!r:s", "@u:s", (n * 7) % 11, 1, "x"))
        .collect();
    store.apply_events(&events).unwrap();
    let all: Vec<String> = store
        .timeline("!r:s", u32::MAX, None)
        .unwrap()
        .into_iter()
        .map(|e| e.event_id)
        .collect();
    assert_eq!(all.len(), 11);
    for limit in [1, 3, 4, 11, 20] {
        let mut seen: Vec<String> = Vec::new();
        let mut before = None;
        loop {
            let page = store.timeline("!r:s", limit, before).unwrap();
            let Some(oldest) = page.first() else { break };
            before = Some(oldest.depth);
            let mut ids: Vec<String> = page.into_iter().map(|e| e.event_id).collect();
            ids.extend(seen);
            seen = ids;
        }
        assert_eq!(seen, all);
    }
}

#[test]
fn list_rooms_folds_name_topic_encryption_and_orders_by_activity() {
    let mut store = new_store();
    store
        .apply_events(&[
            event(
                "$a_n",
                "!a:s",
                "@u:s",
                1,
                100,
                "p.room.name",
                Some(""),
                obj(vec![("name", text("Alpha"))]),
            ),
            event(
                "$a_t",
                "!a:s",
                "@u:s",
                1,
                100,
                "p.room.topic",
                Some(""),
                obj(vec![("topic", text("about A"))]),
            ),
            message("$a_m", "!a:s", "@u:s", 2, 900, "hi"),
            event(
                "$b_e",
                "!b:s",
                "@u:s",
                1,
                300,
                "p.room.encryption",
                Some(""),
                obj(vec![("algorithm", text("p.mls.1"))]),
            ),
        ])
        .unwrap();

    let rooms = store.list_rooms().unwrap();
    assert_eq!(rooms.len(), 2);
    assert_eq!(rooms[0].room_id, "!a:s");
    assert_eq!(rooms[0].name.as_deref(), Some("Alpha"));
    assert_eq!(rooms[0].topic.as_deref(), Some("about A"));
    assert!(!rooms[0].encrypted);
    assert_eq!(rooms[0].last_activity_ts, 900);
    assert_eq!(rooms[1].room_id, "!b:s");
    assert_eq!(rooms[1].name, None);
    assert!(rooms[1].encrypted);
}

#[test]
fn room_names_are_read_as_text_columns() {
    let name = |value: Json| {
        let mut store = new_store();
        store
            .apply_events(&[event(
                "$n",
                "!r:s",
                "@u:s",
                1,
                100,
                "p.room.name",
                Some(""),
                obj(vec![("name", value)]),
            )])
            .unwrap();
        store.list_rooms()
    };
    assert_eq!(name(Json::Null).unwrap()[0].name, None);
    // An array or an object is read as its JSON text, keys in order.
    assert_eq!(
        name(Json::Array(vec![Json::number(1), text("a\"b")])).unwrap()[0].name.as_deref(),
        Some("[1,\"a\\\"b\"]")
    );
    assert_eq!(
        name(obj(vec![("b", Json::Bool(true)), ("a", Json::number(-2))])).unwrap()[0]
            .name
            .as_deref(),
        Some("{\"a\":-2,\"b\":true}")
    );
    // A number or a truth value is no text.
    match name(Json::number(7)) {
        Err(StoreError::Db { reason }) => {
            assert!(reason.starts_with(
                "Invalid column type Integer at index: 1, name: (SELECT json_extract(e.payload, '$.content.name')"
            ))
        }
        _ => panic!("expected a database error"),
    }
    match name(Json::Float("1.5".to_owned())) {
        Err(StoreError::Db { reason }) => {
            assert!(reason.starts_with("Invalid column type Real at index: 1, name: "))
        }
        _ => panic!("expected a database error"),
    }
}

#[test]
fn rooms_of_one_activity_are_ordered_by_id() {
    let mut store = new_store();
    let room = |id: &str, room: &str| {
        event(id, room, "@u:s", 1, -5, "p.room.create", Some(""), obj(vec![]))
    };
    store
        .apply_events(&[room("$1", "!c:s"), room("$2", "!a:s"), room("$3", "!b:s")])
        .unwrap();
    let order: Vec<String> = store
        .list_rooms()
        .unwrap()
        .into_iter()
        .map(|r| r.room_id)
        .collect();
    assert_eq!(order, vec!["!a:s", "!b:s", "!c:s"]);
    assert_eq!(store.list_rooms().unwrap()[0].last_activity_ts, -5);
}

#[test]
fn is_room_encrypted_reflects_the_marker() {
    let mut store = new_store();
    store
        .apply_events(&[
            message("$p_m", "!plain:s", "@u:s", 1, 100, "hi"),
            event(
                "$e_e",
                "!enc:s",
                "@u:s",
                1,
                100,
                "p.room.encryption",
                Some(""),
                obj(vec![("algorithm", text("p.mls.1"))]),
            ),
        ])
        .unwrap();

    assert!(store.is_room_encrypted("!enc:s").unwrap());
    assert!(!store.is_room_encrypted("!plain:s").unwrap());
    assert!(!store.is_room_encrypted("!unknown:s").unwrap());
}

fn member(id: &str, depth: i64, target: &str, membership: &str) -> Json {
    event(
        id,
        "!r:s",
        "@a:s",
        depth,
        depth * 100,
        "p.room.member",
        Some(target),
        obj(vec![("membership", text(membership))]),
    )
}

#[test]
fn membership_reads_latest_member_state_per_user() {
    let mut store = new_store();
    store
        .apply_events(&[
            member("$j", 1, "@a:s", "join"),
            member("$i", 1, "@b:s", "invite"),
        ])
        .unwrap();
    assert_eq!(
        store.membership("!r:s", "@a:s").unwrap(),
        Some(Membership::Join)
    );
    assert_eq!(
        store.membership("!r:s", "@b:s").unwrap(),
        Some(Membership::Invite)
    );
    assert_eq!(store.membership("!r:s", "@nobody:s").unwrap(), None);

    store.apply_events(&[member("$l", 4, "@a:s", "leave")]).unwrap();
    assert_eq!(
        store.membership("!r:s", "@a:s").unwrap(),
        Some(Membership::Leave)
    );
}

#[test]
fn unknown_membership_is_preserved() {
    assert_eq!(Membership::from_wire("knock"), Membership::Knock);
    assert_eq!(
        Membership::from_wire("weird"),
        Membership::Other("weird".to_owned())
    );
}

#[test]
fn known_memberships_are_read() {
    assert_eq!(Membership::from_wire("join"), Membership::Join);
    assert_eq!(Membership::from_wire("invite"), Membership::Invite);
    assert_eq!(Membership::from_wire("leave"), Membership::Leave);
    assert_eq!(Membership::from_wire("ban"), Membership::Ban);
    assert_eq!(Membership::from_wire(""), Membership::Other(String::new()));
}

#[test]
fn current_state_generic_accessor() {
    let mut store = new_store();
    store
        .apply_events(&[event(
            "$t",
            "!r:s",
            "@u:s",
            1,
            100,
            "p.room.topic",
            Some(""),
            obj(vec![("topic", text("hello"))]),
        )])
        .unwrap();
    let ev = store
        .current_state("!r:s", "p.room.topic", "")
        .unwrap()
        .unwrap();
    assert_eq!(ev.content.str_at("topic"), Some("hello"));
    assert!(store
        .current_state("!r:s", "p.room.name", "")
        .unwrap()
        .is_none());
}

#[test]
fn malformed_event_aborts_batch_without_partial_write() {
    let mut store = new_store();
    let batch = vec![
        message("$ok", "!r:s", "@u:s", 1, 100, "fine"),
        obj(vec![("event_id", text("$bad")), ("room_id", text("!r:s"))]),
    ];
    assert!(matches!(
        store.apply_events(&batch),
        Err(StoreError::Malformed { .. })
    ));
    assert_eq!(store.timeline("!r:s", 10, None).unwrap().len(), 0);
    assert!(store.take_changes().is_empty());
}

#[test]
fn queue_send_writes_a_pending_echo() {
    let mut store = new_store();
    let txn = queue(&mut store, "!r:s", "@me:s", "hello", 0);

    let tl = store.timeline("!r:s", 10, None).unwrap();
    assert_eq!(tl.len(), 1);
    assert_eq!(tl[0].sender, "@me:s");
    assert_eq!(tl[0].content.str_at("body"), Some("hello"));
    assert_eq!(tl[0].send_state, SendState::Sending);

    let pending = store.pending_sends().unwrap();
    assert_eq!(pending.len(), 1);
    assert_eq!(pending[0].txn_id, txn);
    assert_eq!(pending[0].body, "hello");
}

#[test]
fn echo_stands_behind_the_room() {
    let mut store = new_store();
    store
        .apply_events(&[
            message("$a", "!r:s", "@u:s", 41, 100, "one"),
            message("$b", "!other:s", "@u:s", 900, 100, "two"),
        ])
        .unwrap();
    queue(&mut store, "!r:s", "@me:s", "hello", 0);
    let tl = store.timeline("!r:s", 1, None).unwrap();
    assert_eq!(tl[0].event_id, "$local-1000-0");
    assert_eq!(tl[0].depth, 42);
    assert_eq!(tl[0].origin_server_ts, 1000);
}

#[test]
fn queue_send_refuses_what_the_database_would() {
    let mut store = new_store();
    queue(&mut store, "!r:s", "@me:s", "hello", 0);
    // The same echo id again.
    match store.queue_send("!r:s", "@me:s", "x", next_send_ids(1000, 0), 1) {
        Err(StoreError::Db { reason }) => {
            assert_eq!(reason, "UNIQUE constraint failed: events.event_id")
        }
        _ => panic!("expected a database error"),
    }
    // A new echo id under a known attempt.
    let ids = ("m1000-0".to_owned(), "$local-new".to_owned());
    match store.queue_send("!r:s", "@me:s", "x", ids, 1) {
        Err(StoreError::Db { reason }) => {
            assert_eq!(reason, "UNIQUE constraint failed: pending_sends.txn_id")
        }
        _ => panic!("expected a database error"),
    }
    // No depth is left behind the deepest.
    store
        .apply_events(&[message("$deep", "!d:s", "@u:s", i64::MAX, 1, "x")])
        .unwrap();
    assert!(store
        .queue_send("!d:s", "@me:s", "x", next_send_ids(1000, 9), 1)
        .is_err());
    assert_eq!(store.pending_sends().unwrap().len(), 1);
}

#[test]
fn pending_sends_come_oldest_first() {
    let mut store = new_store();
    for (ts, n) in [(30, 5u64), (10, 7), (10, 6), (20, 1), (30, 9), (30, 10), (30, 8)] {
        store
            .queue_send("!r:s", "@me:s", "x", next_send_ids(ts, n), ts)
            .unwrap();
    }
    let order: Vec<String> = store
        .pending_sends()
        .unwrap()
        .into_iter()
        .map(|p| p.txn_id)
        .collect();
    assert_eq!(
        order,
        vec!["m10-7", "m10-6", "m20-1", "m30-5", "m30-9", "m30-10", "m30-8"]
    );
}

#[test]
fn sends_of_one_millisecond_keep_their_order() {
    let mut store = new_store();
    let mut txns: Vec<String> = (0..12)
        .map(|n| {
            store
                .queue_send("!r:s", "@me:s", "x", next_send_ids(5, n), 5)
                .unwrap()
        })
        .collect();
    let order = |store: &Store| -> Vec<String> {
        store
            .pending_sends()
            .unwrap()
            .into_iter()
            .map(|p| p.txn_id)
            .collect()
    };
    assert_eq!(order(&store), txns);
    store.resolve_send("m5-3", "$real").unwrap();
    store.fail_send("m5-10").unwrap();
    txns.retain(|t| t != "m5-3" && t != "m5-10");
    assert_eq!(order(&store), txns);
}

#[test]
fn send_ids_name_time_and_number() {
    assert_eq!(
        next_send_ids(1700000000123, 42),
        (
            "m1700000000123-42".to_owned(),
            "$local-1700000000123-42".to_owned()
        )
    );
    assert_eq!(
        next_send_ids(i64::MIN, u64::MAX).0,
        format!("m{}-{}", i64::MIN, u64::MAX)
    );
    assert_ne!(next_send_ids(1, 11), next_send_ids(11, 1));
}

#[test]
fn resolve_send_promotes_echo_and_clears_queue() {
    let mut store = new_store();
    let txn = queue(&mut store, "!r:s", "@me:s", "hi", 0);
    store.resolve_send(&txn, "$real").unwrap();

    let tl = store.timeline("!r:s", 10, None).unwrap();
    assert_eq!(tl.len(), 1);
    assert_eq!(tl[0].event_id, "$real");
    assert_eq!(tl[0].send_state, SendState::Confirmed);
    assert!(store.pending_sends().unwrap().is_empty());

    store
        .apply_events(&[message("$real", "!r:s", "@me:s", 9, 900, "hi")])
        .unwrap();
    assert_eq!(store.timeline("!r:s", 10, None).unwrap().len(), 1);
}

#[test]
fn resolve_send_drops_echo_if_sync_raced_ahead() {
    let mut store = new_store();
    let txn = queue(&mut store, "!r:s", "@me:s", "hi", 0);
    store
        .apply_events(&[message("$real", "!r:s", "@me:s", 9, 900, "hi")])
        .unwrap();
    store.resolve_send(&txn, "$real").unwrap();

    let tl = store.timeline("!r:s", 10, None).unwrap();
    assert_eq!(tl.len(), 1);
    assert_eq!(tl[0].event_id, "$real");
    assert_eq!(tl[0].send_state, SendState::Confirmed);
}

#[test]
fn resolving_an_unknown_send_does_nothing() {
    let mut store = new_store();
    store.apply_events(&[message("$a", "!r:s", "@u:s", 1, 1, "x")]).unwrap();
    store.take_changes();
    store.resolve_send("m-none", "$a").unwrap();
    store.fail_send("m-none").unwrap();
    assert!(store.take_changes().is_empty());
    assert_eq!(store.timeline("!r:s", 10, None).unwrap().len(), 1);
}

#[test]
fn resolve_send_refuses_where_state_hangs_on_the_echo() {
    let mut store = new_store();
    let txn = queue(&mut store, "!r:s", "@me:s", "hi", 0);
    // A state event that claims the echo's id is taken for the echo.
    let claiming = event(
        "$local-1000-0",
        "!r:s",
        "@u:s",
        1,
        1,
        "p.room.name",
        Some(""),
        obj(vec![]),
    );
    assert_eq!(store.apply_events(&[claiming.clone()]).unwrap(), 0);
    assert!(store.list_rooms().unwrap().is_empty());
    store.resolve_send(&txn, "$real").unwrap();

    // In a database where state does hang on the echo, the send cannot be settled.
    let row = EventRow {
        event_id: "$local-1000-0".to_owned(),
        room_id: "!r:s".to_owned(),
        sender: "@u:s".to_owned(),
        event_type: "p.room.name".to_owned(),
        state_key: Some(String::new()),
        origin_server_ts: 1,
        depth: 1,
        payload: claiming,
        local: 1,
        decrypted: None,
        decrypt_state: 0,
    };
    let state = StateRow {
        room_id: "!r:s".to_owned(),
        event_type: "p.room.name".to_owned(),
        state_key: String::new(),
        event_id: "$local-1000-0".to_owned(),
        depth: 1,
    };
    let send = SendRow {
        txn_id: "m1000-0".to_owned(),
        room_id: "!r:s".to_owned(),
        body: "hi".to_owned(),
        event_id: "$local-1000-0".to_owned(),
        created_ts: 1000,
    };
    let mut store = Store::load(vec![row], vec![state], vec![send], None).unwrap();
    match store.resolve_send("m1000-0", "$real") {
        Err(StoreError::Db { reason }) => assert_eq!(reason, "FOREIGN KEY constraint failed"),
        _ => panic!("expected a database error"),
    }
    assert_eq!(store.pending_sends().unwrap().len(), 1);
}

#[test]
fn pending_decrypts_returns_encrypted_events_in_dag_order() {
    let mut store = new_store();
    store
        .apply_events(&[
            encrypted("$e2", "!r:s", 2, "CT2"),
            message("$m", "!r:s", "@a:s", 1, 100, "plaintext"),
            encrypted("$e1", "!r:s", 1, "CT1"),
        ])
        .unwrap();

    let pending = store.pending_decrypts().unwrap();
    assert_eq!(
        pending
            .iter()
            .map(|p| p.event_id.as_str())
            .collect::<Vec<_>>(),
        vec!["$e1", "$e2"]
    );
    assert_eq!(pending[0].ciphertext_b64, "CT1");
}

#[test]
fn pending_decrypts_skips_events_without_a_ciphertext() {
    let mut store = new_store();
    let bare = |id: &str, content: Json| {
        event(id, "!r:s", "@a:s", 1, 1, "p.room.encrypted", None, content)
    };
    store
        .apply_events(&[
            bare("$x", obj(vec![])),
            bare("$y", obj(vec![("ciphertext", Json::Null)])),
            encrypted("$z", "!r:s", 5, "CT"),
        ])
        .unwrap();
    let pending = store.pending_decrypts().unwrap();
    assert_eq!(pending.len(), 1);
    assert_eq!(pending[0].event_id, "$z");
    store
        .apply_events(&[bare("$n", obj(vec![("ciphertext", Json::Bool(false))]))])
        .unwrap();
    assert!(matches!(
        store.pending_decrypts(),
        Err(StoreError::Db { .. })
    ));
}

#[test]
fn pending_mls_mixes_messages_and_commits_in_dag_order() {
    let mut store = new_store();
    store
        .apply_events(&[
            encrypted("$e3", "!r:s", 3, "CT3"),
            commit("$c2", "!r:s", 2, "COMMIT"),
            encrypted("$e1", "!r:s", 1, "CT1"),
        ])
        .unwrap();
    let items = store.pending_mls().unwrap();
    let order: Vec<(&str, bool, &str)> = items
        .iter()
        .map(|i| (i.event_id.as_str(), i.is_commit, i.data_b64.as_str()))
        .collect();
    assert_eq!(
        order,
        vec![
            ("$e1", false, "CT1"),
            ("$c2", true, "COMMIT"),
            ("$e3", false, "CT3")
        ]
    );
    assert_eq!(items[1].sender, "@alice:s");

    // A commit is not shown, and does not wait once it was processed.
    assert_eq!(store.timeline("!r:s", 10, None).unwrap().len(), 2);
    store.set_commit_processed("$c2").unwrap();
    assert_eq!(store.pending_mls().unwrap().len(), 2);
}

#[test]
fn set_decrypted_caches_plaintext_and_clears_pending() {
    let mut store = new_store();
    store
        .apply_events(&[encrypted("$e1", "!r:s", 1, "CT1")])
        .unwrap();

    assert_eq!(store.pending_decrypts().unwrap().len(), 1);
    assert_eq!(store.timeline("!r:s", 10, None).unwrap()[0].decrypted, None);

    store.set_decrypted("$e1", "hello").unwrap();

    assert!(store.pending_decrypts().unwrap().is_empty());
    let tl = store.timeline("!r:s", 10, None).unwrap();
    assert_eq!(tl[0].decrypted.as_deref(), Some("hello"));
    assert!(!tl[0].decrypt_failed);
}

#[test]
fn set_decrypt_failed_marks_terminal_and_clears_pending() {
    let mut store = new_store();
    store
        .apply_events(&[encrypted("$e1", "!r:s", 1, "CT1")])
        .unwrap();
    store.set_decrypt_failed("$e1").unwrap();

    assert!(store.pending_decrypts().unwrap().is_empty());
    let tl = store.timeline("!r:s", 10, None).unwrap();
    assert_eq!(tl[0].decrypted, None);
    assert!(tl[0].decrypt_failed);
}

#[test]
fn fail_send_flags_echo_and_dequeues() {
    let mut store = new_store();
    let txn = queue(&mut store, "!r:s", "@me:s", "nope", 0);
    store.fail_send(&txn).unwrap();

    let tl = store.timeline("!r:s", 10, None).unwrap();
    assert_eq!(tl.len(), 1);
    assert_eq!(tl[0].send_state, SendState::Failed);
    assert!(store.pending_sends().unwrap().is_empty());
}

#[test]
fn send_states_are_read_from_the_column() {
    assert_eq!(SendState::from_local(0), SendState::Confirmed);
    assert_eq!(SendState::from_local(1), SendState::Sending);
    assert_eq!(SendState::from_local(2), SendState::Failed);
    assert_eq!(SendState::from_local(-3), SendState::Confirmed);
}

/// Follows recorded changes as a database would.
fn follow(
    changes: Vec<Change>,
) -> (
    Vec<pigeon_mobile_core::table::EventRow>,
    Vec<pigeon_mobile_core::table::StateRow>,
    Vec<pigeon_mobile_core::table::SendRow>,
    Option<String>,
) {
    let mut events: Vec<pigeon_mobile_core::table::EventRow> = Vec::new();
    let mut state: Vec<pigeon_mobile_core::table::StateRow> = Vec::new();
    let mut sends: Vec<pigeon_mobile_core::table::SendRow> = Vec::new();
    let mut token = None;
    for change in changes {
        match change {
            Change::Append(row) => events.push(row),
            Change::Replace { event_id, row } => {
                let i = events.iter().position(|e| e.event_id == event_id).unwrap();
                events[i] = row;
            }
            Change::Delete { event_id } => events.retain(|e| e.event_id != event_id),
            Change::SetState(row) => {
                let at = state.iter().position(|s| {
                    s.room_id == row.room_id
                        && s.event_type == row.event_type
                        && s.state_key == row.state_key
                });
                match at {
                    Some(i) => state[i] = row,
                    None => state.push(row),
                }
            }
            Change::Enqueue(row) => sends.push(row),
            Change::Dequeue { txn_id } => sends.retain(|s| s.txn_id != txn_id),
            Change::SetToken { token: t } => token = Some(t),
        }
    }
    (events, state, sends, token)
}

#[test]
fn schema_persists_across_reopen() {
    let mut store = new_store();
    store.save_sync_token("7_3").unwrap();
    store
        .apply_events(&[message("$a", "!r:s", "@u:s", 1, 100, "persisted")])
        .unwrap();
    let (events, state, sends, token) = follow(store.take_changes());
    let store = Store::load(events, state, sends, token).unwrap();
    assert_eq!(store.load_sync_token().unwrap().as_deref(), Some("7_3"));
    assert_eq!(store.timeline("!r:s", 10, None).unwrap().len(), 1);
}

#[test]
fn decrypt_cache_survives_reopen() {
    let mut store = new_store();
    store
        .apply_events(&[encrypted("$e1", "!r:s", 1, "CT1")])
        .unwrap();
    store.set_decrypted("$e1", "persisted plaintext").unwrap();
    let (events, state, sends, token) = follow(store.take_changes());
    let store = Store::load(events, state, sends, token).unwrap();
    let tl = store.timeline("!r:s", 10, None).unwrap();
    assert_eq!(tl[0].decrypted.as_deref(), Some("persisted plaintext"));
    assert!(store.pending_decrypts().unwrap().is_empty());
}

#[test]
fn recorded_changes_lead_to_what_is_held() {
    let mut store = new_store();
    store
        .apply_events(&[name_event("$n1", 1, 100, "First"), message("$m", "!r:s", "@u:s", 2, 5, "x")])
        .unwrap();
    let first = queue(&mut store, "!r:s", "@me:s", "one", 0);
    let second = queue(&mut store, "!r:s", "@me:s", "two", 1);
    let third = queue(&mut store, "!r:s", "@me:s", "three", 2);
    store.resolve_send(&first, "$real1").unwrap();
    store.resolve_send(&second, "$m").unwrap();
    store.fail_send(&third).unwrap();
    store.apply_events(&[name_event("$n2", 7, 700, "Second")]).unwrap();
    store.save_sync_token("1_1").unwrap();

    let (events, state, sends, token) = follow(store.take_changes());
    assert!(store.take_changes().is_empty());
    let again = Store::load(events, state, sends, token).unwrap();
    assert_eq!(
        ids(&again.timeline("!r:s", 50, None).unwrap()),
        ids(&store.timeline("!r:s", 50, None).unwrap())
    );
    assert_eq!(again.list_rooms().unwrap(), store.list_rooms().unwrap());
    assert_eq!(again.pending_sends().unwrap(), store.pending_sends().unwrap());
    assert_eq!(again.load_sync_token().unwrap(), store.load_sync_token().unwrap());
}

#[test]
fn rows_that_cannot_stand_together_are_refused() {
    let mut store = new_store();
    store.apply_events(&[name_event("$n1", 1, 100, "First")]).unwrap();
    let (events, state, _, _) = follow(store.take_changes());

    let doubled = vec![events[0].clone(), events[0].clone()];
    assert!(Store::load(doubled, Vec::new(), Vec::new(), None).is_err());

    let twice = vec![state[0].clone(), state[0].clone()];
    assert!(Store::load(vec![events[0].clone()], twice, Vec::new(), None).is_err());

    match Store::load(Vec::new(), state, Vec::new(), None) {
        Err(StoreError::Db { reason }) => {
            assert_eq!(reason, "database disk image is malformed")
        }
        _ => panic!("expected dangling state to be refused"),
    }
}
