//! Rows whose columns say what their payload says, which every operation keeps.

use vstd::prelude::*;

use crate::event::{SendState, StoredView};
use crate::json::JsonView;
use crate::table::{EventRec, Tables};

verus! {

impl Tables {
    /// The columns of every row say what its payload says.
    pub open spec fn faithful(self) -> bool {
        forall|i: int| 0 <= i < self.events.len() ==> crate::table::agrees(#[trigger] self.events[i])
    }
}

/// An event that was read from its own payload.
pub open spec fn is_read(ev: StoredView) -> bool {
    crate::event::parse_event(ev.payload) == Ok::<StoredView, crate::event::StoreErrorView>(ev)
}

/// The columns of a row agree with its payload exactly where each of them is the member
/// of its name.
pub proof fn columns_are_the_members(row: EventRec)
    requires
        crate::table::agrees(row),
    ensures
        row.payload.at("event_id"@) == JsonView::Str(row.event_id),
        row.payload.at("room_id"@) == JsonView::Str(row.room_id),
        row.payload.at("sender"@) == JsonView::Str(row.sender),
        row.payload.at("type"@) == JsonView::Str(row.event_type),
        row.payload.at("origin_server_ts"@).as_i64() == Some(row.origin_server_ts),
        row.payload.at("depth"@).as_i64() == Some(row.depth),
        match row.payload.at("state_key"@) {
            JsonView::Str(key) => row.state_key == Some(key),
            _ => row.state_key is None,
        },
{
}

/// A batch can be read exactly where each of its elements can, and it is read one by
/// one, in its order.
pub proof fn batch_is_read_one_by_one(batch: Seq<JsonView>)
    ensures
        crate::store::parse_batch(batch) is Ok <==> forall|i: int|
            0 <= i < batch.len() ==> crate::event::parse_event(#[trigger] batch[i]) is Ok,
        crate::store::parse_batch(batch) matches Ok(evs) ==> evs.len() == batch.len() && forall|
            i: int,
        |
            0 <= i < batch.len() ==> crate::event::parse_event(batch[i]) == Ok::<
                StoredView,
                crate::event::StoreErrorView,
            >(#[trigger] evs[i]),
    decreases batch.len(),
{
    if batch.len() > 0 {
        let rest = batch.drop_last();
        batch_is_read_one_by_one(rest);
        if crate::store::parse_batch(rest) is Ok {
            assert forall|i: int| 0 <= i < rest.len() implies crate::event::parse_event(
                #[trigger] batch[i],
            ) is Ok by {
                assert(rest[i] == batch[i]);
            }
        } else {
            let i = choose|i: int|
                0 <= i < rest.len() && !(crate::event::parse_event(#[trigger] rest[i]) is Ok);
            assert(batch[i] == rest[i]);
        }
        assert(batch[batch.len() - 1] == batch.last());
    }
}

/// Where a batch cannot be read, the complaint is about its first element that cannot.
pub proof fn batch_fault_is_the_first(batch: Seq<JsonView>, i: int)
    requires
        0 <= i < batch.len(),
        crate::event::parse_event(batch[i]) is Err,
        forall|j: int| 0 <= j < i ==> crate::event::parse_event(#[trigger] batch[j]) is Ok,
    ensures
        crate::store::parse_batch(batch) is Err,
        crate::store::parse_batch(batch)->Err_0 == crate::event::parse_event(batch[i])->Err_0,
    decreases batch.len(),
{
    let rest = batch.drop_last();
    if i < rest.len() {
        assert(rest[i] == batch[i]);
        assert forall|j: int| 0 <= j < i implies crate::event::parse_event(
            #[trigger] rest[j],
        ) is Ok by {
            assert(rest[j] == batch[j]);
        }
        batch_fault_is_the_first(rest, i);
    } else {
        batch_is_read_one_by_one(rest);
        assert forall|j: int| 0 <= j < rest.len() implies crate::event::parse_event(
            #[trigger] rest[j],
        ) is Ok by {
            assert(rest[j] == batch[j]);
        }
    }
}

/// The row of an event that has come holds the event as it came: its columns are the
/// members of the wire event, the payload is the whole of it, and it is confirmed and
/// not processed.
pub proof fn row_holds_the_wire_event(e: JsonView)
    requires
        crate::event::parse_event(e) is Ok,
    ensures
        ({
            let row = crate::table::row_of(crate::event::parse_event(e)->Ok_0);
            &&& row.payload == e
            &&& e.at("event_id"@) == JsonView::Str(row.event_id)
            &&& e.at("room_id"@) == JsonView::Str(row.room_id)
            &&& e.at("sender"@) == JsonView::Str(row.sender)
            &&& e.at("type"@) == JsonView::Str(row.event_type)
            &&& e.at("origin_server_ts"@).as_i64() == Some(row.origin_server_ts)
            &&& e.at("depth"@).as_i64() == Some(row.depth)
            &&& match e.at("state_key"@) {
                JsonView::Str(key) => row.state_key == Some(key),
                _ => row.state_key is None,
            }
            &&& row.local == 0
            &&& row.decrypted is None
            &&& row.decrypt_state == 0
        }),
{
}

/// Every event of a batch was read from its own payload, which is kept whole.
pub proof fn batch_events_are_read(batch: Seq<JsonView>, i: int)
    requires
        crate::store::parse_batch(batch) is Ok,
        0 <= i < batch.len(),
    ensures
        crate::store::parse_batch(batch)->Ok_0.len() == batch.len(),
        is_read(crate::store::parse_batch(batch)->Ok_0[i]),
        crate::store::parse_batch(batch)->Ok_0[i].payload == batch[i],
    decreases batch.len(),
{
    if batch.len() == 1 {
        assert(batch.drop_last() =~= seq![]);
    } else if i == batch.len() - 1 {
        batch_events_are_read(batch.drop_last(), 0);
    } else {
        batch_events_are_read(batch.drop_last(), i);
    }
}

/// Applying events that were read keeps the rows faithful.
pub proof fn applying_is_faithful(t: Tables, evs: Seq<StoredView>)
    requires
        t.faithful(),
        forall|i: int| 0 <= i < evs.len() ==> is_read(#[trigger] evs[i]),
    ensures
        t.apply_all(evs).faithful(),
    decreases evs.len(),
{
    if evs.len() > 0 {
        let rest = evs.drop_last();
        assert forall|i: int| 0 <= i < rest.len() implies is_read(#[trigger] rest[i]) by {
            assert(is_read(evs[i]));
        }
        applying_is_faithful(t, rest);
        let before = t.apply_all(rest);
        assert(is_read(evs[evs.len() - 1]));
        assert forall|i: int| 0 <= i < t.apply_all(evs).events.len() implies crate::table::agrees(
            #[trigger] t.apply_all(evs).events[i],
        ) by {
            if i < before.events.len() {
                assert(crate::table::agrees(before.events[i]));
            }
        }
    }
}

proof fn lemma_not_applied(t: Tables, evs: Seq<StoredView>, id: Seq<char>)
    requires
        crate::table::event_at(t.events, id) is None,
        forall|j: int| 0 <= j < evs.len() ==> (#[trigger] evs[j]).event_id != id,
    ensures
        crate::table::event_at(t.apply_all(evs).events, id) is None,
    decreases evs.len(),
{
    if evs.len() > 0 {
        let rest = evs.drop_last();
        assert forall|j: int| 0 <= j < rest.len() implies (#[trigger] rest[j]).event_id != id by {
            assert(evs[j].event_id != id);
        }
        lemma_not_applied(t, rest, id);
        let before = t.apply_all(rest);
        assert(evs[evs.len() - 1].event_id != id);
        assert(before.events.push(crate::table::row_of(evs.last())).drop_last() =~= before.events);
    }
}

/// An event that has come is read back as it came, with its whole payload: where
/// the log did not hold it, the first event with its id is the one that is kept.
pub proof fn applied_event_reads_back(t: Tables, evs: Seq<StoredView>, i: int)
    requires
        0 <= i < evs.len(),
        is_read(evs[i]),
        crate::table::event_at(t.events, evs[i].event_id) is None,
        forall|j: int| 0 <= j < i ==> (#[trigger] evs[j]).event_id != evs[i].event_id,
    ensures
        crate::table::event_at(t.apply_all(evs).events, evs[i].event_id) == Some(
            crate::table::row_of(evs[i]),
        ),
        crate::store::timeline::stored_of(crate::table::row_of(evs[i])) == Ok::<
            StoredView,
            crate::event::StoreErrorView,
        >(evs[i]),
    decreases evs.len(),
{
    let ev = evs[i];
    let rest = evs.drop_last();
    let before = t.apply_all(rest);
    let last = evs.last();
    assert(before.events.push(crate::table::row_of(last)).drop_last() =~= before.events);
    if i == evs.len() - 1 {
        assert forall|j: int| 0 <= j < rest.len() implies (#[trigger] rest[j]).event_id
            != ev.event_id by {
            assert(evs[j].event_id != ev.event_id);
        }
        lemma_not_applied(t, rest, ev.event_id);
    } else {
        assert(rest[i] == ev);
        assert forall|j: int| 0 <= j < i implies (#[trigger] rest[j]).event_id
            != rest[i].event_id by {
            assert(evs[j].event_id != ev.event_id);
        }
        applied_event_reads_back(t, rest, i);
    }
}

/// The fields of an event have different names.
pub proof fn lemma_field_names()
    ensures
        "event_id"@ != "room_id"@,
        "event_id"@ != "sender"@,
        "event_id"@ != "type"@,
        "event_id"@ != "origin_server_ts"@,
        "event_id"@ != "depth"@,
        "event_id"@ != "content"@,
        "event_id"@ != "state_key"@,
        "room_id"@ != "sender"@,
        "room_id"@ != "type"@,
        "room_id"@ != "origin_server_ts"@,
        "room_id"@ != "depth"@,
        "room_id"@ != "content"@,
        "room_id"@ != "state_key"@,
        "sender"@ != "type"@,
        "sender"@ != "origin_server_ts"@,
        "sender"@ != "depth"@,
        "sender"@ != "content"@,
        "sender"@ != "state_key"@,
        "type"@ != "origin_server_ts"@,
        "type"@ != "depth"@,
        "type"@ != "content"@,
        "type"@ != "state_key"@,
        "origin_server_ts"@ != "depth"@,
        "origin_server_ts"@ != "content"@,
        "origin_server_ts"@ != "state_key"@,
        "depth"@ != "content"@,
        "depth"@ != "state_key"@,
        "content"@ != "state_key"@,
{
    reveal_strlit("event_id");
    reveal_strlit("room_id");
    reveal_strlit("sender");
    reveal_strlit("type");
    reveal_strlit("origin_server_ts");
    reveal_strlit("depth");
    reveal_strlit("content");
    reveal_strlit("state_key");
    assert("event_id"@.len() == 8);
    assert("room_id"@.len() == 7);
    assert("sender"@.len() == 6);
    assert("type"@.len() == 4);
    assert("origin_server_ts"@.len() == 16);
    assert("depth"@.len() == 5);
    assert("content"@.len() == 7);
    assert("state_key"@.len() == 9);
    assert("room_id"@[0] != "content"@[0]);
}

/// The echo of a queued message reads back as it was queued.
pub proof fn echo_is_faithful(
    event_id: Seq<char>,
    room: Seq<char>,
    sender: Seq<char>,
    ts: i64,
    depth: i64,
    body: Seq<char>,
)
    ensures
        crate::table::agrees(crate::store::outbox::echo_row(event_id, room, sender, ts, depth, body)),
        crate::store::timeline::stored_of(crate::store::outbox::echo_row(event_id, room, sender, ts, depth, body)) is Ok,
        crate::store::timeline::stored_of(crate::store::outbox::echo_row(event_id, room, sender, ts, depth, body))->Ok_0.content
            == crate::store::outbox::text_content(body),
        crate::store::timeline::stored_of(crate::store::outbox::echo_row(event_id, room, sender, ts, depth, body))->Ok_0.send_state
            == SendState::Sending,
{
    lemma_field_names();
    let payload = crate::store::outbox::echo_payload(event_id, room, sender, ts, depth, body);
    let m = payload->Object_0;
    reveal_with_fuel(crate::json::find_member, 9);
    assert(payload.at("event_id"@) == JsonView::Str(event_id));
    assert(payload.at("room_id"@) == JsonView::Str(room));
    assert(payload.at("sender"@) == JsonView::Str(sender));
    assert(payload.at("type"@) == JsonView::Str("p.room.message"@));
    assert(payload.at("origin_server_ts"@) == JsonView::of_int(ts));
    assert(payload.at("depth"@) == JsonView::of_int(depth));
    assert(payload.at("content"@) == crate::store::outbox::text_content(body));
    assert(payload.at("state_key"@) == JsonView::Null);
}

/// A faithful echo that the server acknowledged reads back under its real id, as
/// confirmed, and is otherwise what it was.
pub proof fn promotion_is_faithful(row: EventRec, acked: Seq<char>)
    requires
        crate::table::agrees(row),
    ensures
        crate::table::agrees(crate::store::outbox::promoted(row, acked)),
        crate::store::timeline::stored_of(crate::store::outbox::promoted(row, acked)) is Ok,
        crate::store::timeline::stored_of(crate::store::outbox::promoted(row, acked))->Ok_0.event_id == acked,
        crate::store::timeline::stored_of(crate::store::outbox::promoted(row, acked))->Ok_0.send_state == SendState::Confirmed,
        crate::store::timeline::stored_of(crate::store::outbox::promoted(row, acked))->Ok_0.content == crate::store::timeline::stored_of(row)->Ok_0.content,
        crate::store::timeline::stored_of(crate::store::outbox::promoted(row, acked))->Ok_0.sender == row.sender,
        crate::store::timeline::stored_of(crate::store::outbox::promoted(row, acked))->Ok_0.depth == row.depth,
{
    lemma_field_names();
    let p = row.payload;
    let v = JsonView::Str(acked);
    assert(p is Object);
    crate::json::set_then_read(p, "event_id"@, v, "event_id"@);
    crate::json::set_then_read(p, "event_id"@, v, "room_id"@);
    crate::json::set_then_read(p, "event_id"@, v, "sender"@);
    crate::json::set_then_read(p, "event_id"@, v, "type"@);
    crate::json::set_then_read(p, "event_id"@, v, "state_key"@);
    crate::json::set_then_read(p, "event_id"@, v, "origin_server_ts"@);
    crate::json::set_then_read(p, "event_id"@, v, "depth"@);
    crate::json::set_then_read(p, "event_id"@, v, "content"@);
}

/// An acknowledged echo is what it was but for its id and that it is confirmed: every
/// column stays, every member of its payload stays but the id, and it is read back as
/// it was before, with its room, type, state key, clock, sender, depth and content.
pub proof fn acknowledgement_changes_only_the_id(
    row: EventRec,
    acked: Seq<char>,
    member: Seq<char>,
)
    requires
        crate::table::agrees(row),
    ensures
        ({
            let after = crate::store::outbox::promoted(row, acked);
            let before = crate::store::timeline::stored_of(row);
            let now = crate::store::timeline::stored_of(after);
            &&& after.event_id == acked
            &&& after.local == 0
            &&& after.room_id == row.room_id
            &&& after.sender == row.sender
            &&& after.event_type == row.event_type
            &&& after.state_key == row.state_key
            &&& after.origin_server_ts == row.origin_server_ts
            &&& after.depth == row.depth
            &&& after.decrypted == row.decrypted
            &&& after.decrypt_state == row.decrypt_state
            &&& after.payload.field("event_id"@) == Some(JsonView::Str(acked))
            &&& member != "event_id"@ ==> after.payload.field(member) == row.payload.field(member)
            &&& before is Ok
            &&& now is Ok
            &&& now->Ok_0.event_id == acked
            &&& now->Ok_0.send_state == SendState::Confirmed
            &&& now->Ok_0.payload == after.payload
            &&& now->Ok_0.room_id == before->Ok_0.room_id
            &&& now->Ok_0.sender == before->Ok_0.sender
            &&& now->Ok_0.event_type == before->Ok_0.event_type
            &&& now->Ok_0.state_key == before->Ok_0.state_key
            &&& now->Ok_0.origin_server_ts == before->Ok_0.origin_server_ts
            &&& now->Ok_0.depth == before->Ok_0.depth
            &&& now->Ok_0.content == before->Ok_0.content
            &&& now->Ok_0.decrypted == before->Ok_0.decrypted
            &&& now->Ok_0.decrypt_failed == before->Ok_0.decrypt_failed
        }),
{
    promotion_is_faithful(row, acked);
    lemma_field_names();
    let payload = row.payload;
    let id = JsonView::Str(acked);
    assert(payload is Object);
    crate::json::set_then_read(payload, "event_id"@, id, "event_id"@);
    crate::json::set_then_read(payload, "event_id"@, id, "content"@);
    crate::json::set_then_read(payload, "event_id"@, id, "state_key"@);
    crate::json::set_then_read(payload, "event_id"@, id, member);
}

/// The row of a queued message says what was queued, in its columns and in its
/// payload: the room, the sender, the clock, the depth and the text, as a plain message
/// that is being sent.
pub proof fn echo_says_what_was_queued(
    event_id: Seq<char>,
    room: Seq<char>,
    sender: Seq<char>,
    ts: i64,
    depth: i64,
    body: Seq<char>,
)
    ensures
        ({
            let row = crate::store::outbox::echo_row(event_id, room, sender, ts, depth, body);
            let content = row.payload.at("content"@);
            &&& row.event_id == event_id
            &&& row.room_id == room
            &&& row.sender == sender
            &&& row.event_type == "p.room.message"@
            &&& row.state_key is None
            &&& row.origin_server_ts == ts
            &&& row.depth == depth
            &&& row.local == 1
            &&& row.decrypted is None
            &&& row.decrypt_state == 0
            &&& row.payload.at("event_id"@) == JsonView::Str(event_id)
            &&& row.payload.at("room_id"@) == JsonView::Str(room)
            &&& row.payload.at("sender"@) == JsonView::Str(sender)
            &&& row.payload.at("type"@) == JsonView::Str("p.room.message"@)
            &&& row.payload.at("origin_server_ts"@).as_i64() == Some(ts)
            &&& row.payload.at("depth"@).as_i64() == Some(depth)
            &&& row.payload.field("state_key"@) is None
            &&& content.at("body"@) == JsonView::Str(body)
            &&& content.at("msgtype"@) == JsonView::Str("p.text"@)
        }),
{
    echo_is_faithful(event_id, room, sender, ts, depth, body);
    lemma_field_names();
    let row = crate::store::outbox::echo_row(event_id, room, sender, ts, depth, body);
    reveal_strlit("body");
    reveal_strlit("msgtype");
    assert("body"@.len() == 4 && "msgtype"@.len() == 7);
    reveal_with_fuel(crate::json::find_member, 9);
    let content = row.payload.at("content"@);
    assert(content == crate::store::outbox::text_content(body));
    let m = content->Object_0;
    assert(m.drop_first()[0] == m[1]);
}

proof fn lemma_replaced_is_faithful(t: Tables, id: Seq<char>, row: EventRec)
    requires
        t.faithful(),
        crate::table::agrees(row),
    ensures
        (Tables { events: crate::table::replace_event(t.events, id, row), ..t }).faithful(),
{
    let events = crate::table::replace_event(t.events, id, row);
    assert forall|i: int| 0 <= i < events.len() implies crate::table::agrees(#[trigger] events[i]) by {
        assert(crate::table::agrees(t.events[i]));
    }
}

/// Queuing a message keeps the rows faithful.
pub proof fn queuing_is_faithful(
    t: Tables,
    room: Seq<char>,
    sender: Seq<char>,
    body: Seq<char>,
    txn: Seq<char>,
    echo: Seq<char>,
    ts: i64,
)
    requires
        t.faithful(),
    ensures
        t.queued(room, sender, body, txn, echo, ts).faithful(),
{
    echo_is_faithful(echo, room, sender, ts, t.next_depth(room) as i64, body);
    let after = t.queued(room, sender, body, txn, echo, ts);
    assert forall|i: int| 0 <= i < after.events.len() implies crate::table::agrees(#[trigger] after.events[i]) by {
        if i < t.events.len() {
            assert(crate::table::agrees(t.events[i]));
        }
    }
}

proof fn lemma_kept_agrees(t: Tables, keep: spec_fn(EventRec) -> bool, row: EventRec)
    requires
        t.faithful(),
        t.events.filter(keep).contains(row),
    ensures
        crate::table::agrees(row),
{
    t.events.lemma_filter_contains_rev(keep, row);
    let k = choose|k: int| 0 <= k < t.events.len() && t.events[k] == row;
    assert(crate::table::agrees(t.events[k]));
}

/// Settling a send keeps the rows faithful.
pub proof fn resolving_is_faithful(t: Tables, txn: Seq<char>, acked: Seq<char>)
    requires
        t.faithful(),
    ensures
        t.resolved(txn, acked).faithful(),
{
    if let Some(send) = crate::table::send_at(t.sends, txn) {
        let id = send.event_id;
        crate::table::lemma_event_at(t.events, id);
        if crate::table::event_at(t.events, acked) is Some {
            let keep = |e: EventRec| e.event_id != id;
            let after = crate::table::without_event(t.events, id);
            assert forall|i: int| 0 <= i < after.len() implies crate::table::agrees(#[trigger] after[i]) by {
                lemma_kept_agrees(t, keep, after[i]);
            }
        } else if let Some(row) = crate::table::event_at(t.events, id) {
            let k = choose|k: int| 0 <= k < t.events.len() && t.events[k] == row;
            assert(crate::table::agrees(t.events[k]));
            promotion_is_faithful(row, acked);
            lemma_replaced_is_faithful(t, id, crate::store::outbox::promoted(row, acked));
        }
    }
}

/// Giving a send up keeps the rows faithful.
pub proof fn failing_is_faithful(t: Tables, txn: Seq<char>)
    requires
        t.faithful(),
    ensures
        t.failed(txn).faithful(),
{
    if let Some(send) = crate::table::send_at(t.sends, txn) {
        let id = send.event_id;
        crate::table::lemma_event_at(t.events, id);
        if let Some(row) = crate::table::event_at(t.events, id) {
            let k = choose|k: int| 0 <= k < t.events.len() && t.events[k] == row;
            assert(crate::table::agrees(t.events[k]));
            lemma_replaced_is_faithful(t, id, EventRec { local: 2, ..row });
        }
    }
}

/// Recording what came of decrypting keeps the rows faithful.
pub proof fn processing_is_faithful(t: Tables, id: Seq<char>, text: Seq<char>)
    requires
        t.faithful(),
    ensures
        t.decrypted(id, text).faithful(),
        t.undecryptable(id).faithful(),
        t.commit_processed(id).faithful(),
{
    crate::table::lemma_event_at(t.events, id);
    if let Some(row) = crate::table::event_at(t.events, id) {
        let k = choose|k: int| 0 <= k < t.events.len() && t.events[k] == row;
        assert(crate::table::agrees(t.events[k]));
        lemma_replaced_is_faithful(
            t,
            id,
            EventRec { decrypted: Some(text), decrypt_state: crate::table::DECRYPT_OK, ..row },
        );
        lemma_replaced_is_faithful(
            t,
            id,
            EventRec { decrypt_state: crate::table::DECRYPT_FAILED, ..row },
        );
        lemma_replaced_is_faithful(
            t,
            id,
            EventRec { decrypt_state: crate::table::DECRYPT_OK, ..row },
        );
    }
}

/// Reading a timeline never fails where the rows are faithful, and an event reads
/// back with the fields by which it was found.
pub proof fn faithful_pages_read(t: Tables, room: Seq<char>, limit: int, before: Option<i64>)
    requires
        t.faithful(),
        0 <= limit,
    ensures
        crate::store::timeline::page_fault(t.page(room, limit, before)) is None,
        forall|i: int|
            0 <= i < t.page(room, limit, before).len() ==> ({
                let row = #[trigger] t.page(room, limit, before)[i];
                let ev = crate::store::timeline::page_events(t.page(room, limit, before))[i];
                &&& ev.event_id == row.event_id
                &&& ev.room_id == row.room_id
                &&& ev.depth == row.depth
                &&& ev.event_type == row.event_type
            }),
{
    let page = t.page(room, limit, before);
    let keep = |row: EventRec| crate::store::timeline::in_timeline(row, room, before);
    let shown = t.events.filter(keep);
    assert forall|i: int| 0 <= i < page.len() implies crate::table::agrees(#[trigger] page[i]) by {
        let history = t.history(room, before);
        assert(history.contains(page[i]));
        crate::order::lemma_order_keeps(shown, crate::store::timeline::history_key(), page[i]);
        lemma_kept_agrees(t, keep, page[i]);
    }
    lemma_no_fault(page);
}

proof fn lemma_no_fault(page: Seq<EventRec>)
    requires
        forall|i: int| 0 <= i < page.len() ==> crate::table::agrees(#[trigger] page[i]),
    ensures
        crate::store::timeline::page_fault(page) is None,
    decreases page.len(),
{
    if page.len() > 0 {
        assert(crate::table::agrees(page[page.len() - 1]));
        let rest = page.drop_last();
        assert forall|i: int| 0 <= i < rest.len() implies crate::table::agrees(#[trigger] rest[i]) by {
            assert(crate::table::agrees(page[i]));
        }
        lemma_no_fault(rest);
    }
}

} // verus!
