//! The echoes of what is queued: each is in the log until its send is settled, and
//! no piece of state hangs on it.

use vstd::prelude::*;

use crate::event::StoredView;
use crate::json::JsonView;
use crate::store::settled::StoreCall;
use crate::table::{EventRec, SendRec, Tables};

verus! {

/// Whether the log holds an echo under an id: an event that sets no state.
pub open spec fn holds_echo(events: Seq<EventRec>, id: Seq<char>) -> bool {
    match crate::table::event_at(events, id) {
        Some(row) => row.state_key is None,
        None => false,
    }
}

impl Tables {
    /// Every queued message has an echo of its own in the log.
    pub open spec fn echoed(self) -> bool {
        &&& forall|row: SendRec| #[trigger]
            self.sends.contains(row) ==> holds_echo(self.events, row.event_id)
        &&& forall|a: SendRec, b: SendRec|
            #[trigger] self.sends.contains(a) && #[trigger] self.sends.contains(b) && a.event_id
                == b.event_id ==> a.txn_id == b.txn_id
    }
}

/// What is left of a queue without an attempt.
pub proof fn lemma_left_the_queue(sends: Seq<SendRec>, txn: Seq<char>, row: SendRec)
    ensures
        crate::table::without_send(sends, txn).contains(row) <==> sends.contains(row)
            && row.txn_id != txn,
{
    let keep = |s: SendRec| s.txn_id != txn;
    let rest = sends.filter(keep);
    if rest.contains(row) {
        sends.lemma_filter_contains_rev(keep, row);
        let k = choose|k: int| 0 <= k < rest.len() && rest[k] == row;
        sends.lemma_filter_pred(keep, k);
    }
    if sends.contains(row) && keep(row) {
        let k = choose|k: int| 0 <= k < sends.len() && sends[k] == row;
        sends.lemma_filter_contains(keep, k);
    }
}

/// An event that comes leaves the echoes alone.
proof fn lemma_event_keeps_echoes(t: Tables, ev: StoredView)
    requires
        t.echoed(),
    ensures
        t.apply_event(ev).echoed(),
{
    if crate::table::event_at(t.events, ev.event_id) is None {
        let after = t.apply_event(ev);
        assert(after.events == t.events.push(crate::table::row_of(ev)));
        assert(after.events.drop_last() =~= t.events);
        assert(after.sends == t.sends);
        assert forall|row: SendRec| #[trigger] after.sends.contains(row) implies holds_echo(
            after.events,
            row.event_id,
        ) by {
            assert(t.sends.contains(row));
        }
    }
}

/// Events that come leave the echoes alone.
pub proof fn applying_keeps_echoes(t: Tables, evs: Seq<StoredView>)
    requires
        t.echoed(),
    ensures
        t.apply_all(evs).echoed(),
    decreases evs.len(),
{
    if evs.len() > 0 {
        applying_keeps_echoes(t, evs.drop_last());
        lemma_event_keeps_echoes(t.apply_all(evs.drop_last()), evs.last());
    }
}

proof fn lemma_queuing_adds_an_echo(t: Tables, row: EventRec, send: SendRec)
    requires
        t.echoed(),
        row.state_key is None,
        row.event_id == send.event_id,
        crate::table::event_at(t.events, row.event_id) is None,
    ensures
        (Tables { events: t.events.push(row), sends: t.sends.push(send), ..t }).echoed(),
{
    let after = Tables { events: t.events.push(row), sends: t.sends.push(send), ..t };
    assert(after.events.drop_last() =~= t.events);
    assert forall|s: SendRec| #[trigger] after.sends.contains(s) implies s == send
        || t.sends.contains(s) && s.event_id != row.event_id by {
        let k = choose|k: int| 0 <= k < after.sends.len() && after.sends[k] == s;
        if k < t.sends.len() {
            assert(t.sends[k] == s);
            assert(t.sends.contains(s));
        }
    }
}

proof fn lemma_settling_keeps_echoes(t: Tables, txn: Seq<char>, send: SendRec, events: Seq<EventRec>)
    requires
        t.echoed(),
        crate::table::send_at(t.sends, txn) == Some(send),
        forall|id: Seq<char>|
            id != send.event_id && holds_echo(t.events, id) ==> #[trigger] holds_echo(events, id),
    ensures
        (Tables { events, sends: crate::table::without_send(t.sends, txn), ..t }).echoed(),
{
    let after = Tables { events, sends: crate::table::without_send(t.sends, txn), ..t };
    crate::table::lemma_send_at(t.sends, txn);
    assert forall|row: SendRec| #[trigger] after.sends.contains(row) implies t.sends.contains(row)
        && row.txn_id != txn by {
        lemma_left_the_queue(t.sends, txn, row);
    }
    assert forall|row: SendRec| #[trigger] after.sends.contains(row) implies holds_echo(
        after.events,
        row.event_id,
    ) by {
        assert(t.sends.contains(row) && t.sends.contains(send));
        assert(row.event_id != send.event_id);
    }
}

proof fn lemma_replacing_keeps_echo(
    events: Seq<EventRec>,
    id: Seq<char>,
    row: EventRec,
    wanted: Seq<char>,
)
    requires
        holds_echo(events, wanted),
        wanted == id ==> row.event_id == id && (row.state_key is None),
        wanted != id ==> wanted != row.event_id,
    ensures
        holds_echo(crate::table::replace_event(events, id, row), wanted),
{
    if wanted == id {
        crate::store::settled::lemma_found_in_place(events, id, row);
    } else {
        crate::store::settled::lemma_found_after_replacing(events, id, row, wanted);
    }
}

proof fn lemma_marking_keeps_echoes(t: Tables, id: Seq<char>, old_row: EventRec, row: EventRec)
    requires
        t.echoed(),
        crate::table::event_at(t.events, id) == Some(old_row),
        row.event_id == old_row.event_id,
        row.state_key == old_row.state_key,
    ensures
        (Tables { events: crate::table::replace_event(t.events, id, row), ..t }).echoed(),
{
    let after = Tables { events: crate::table::replace_event(t.events, id, row), ..t };
    crate::table::lemma_event_at(t.events, id);
    assert forall|s: SendRec| #[trigger] after.sends.contains(s) implies holds_echo(
        after.events,
        s.event_id,
    ) by {
        assert(t.sends.contains(s));
        lemma_replacing_keeps_echo(t.events, id, row, s.event_id);
    }
}

/// Every call keeps the echoes of what is queued in the log.
pub proof fn call_keeps_echoes(t: Tables, call: StoreCall)
    requires
        t.echoed(),
    ensures
        t.after_call(call).echoed(),
{
    match call {
        StoreCall::Apply(batch) => {
            if let Ok(evs) = crate::store::parse_batch(batch) {
                applying_keeps_echoes(t, evs);
            }
        },
        StoreCall::Queue { room, sender, body, txn, echo, ts } => {
            if t.queue_fault(room, txn, echo) is None {
                lemma_queuing_adds_an_echo(
                    t,
                    crate::store::outbox::echo_row(
                        echo,
                        room,
                        sender,
                        ts,
                        t.next_depth(room) as i64,
                        body,
                    ),
                    SendRec { txn_id: txn, room_id: room, body, event_id: echo, created_ts: ts },
                );
            }
        },
        StoreCall::Resolve(txn, acked) => {
            if let Some(send) = crate::table::send_at(t.sends, txn) {
                let events = t.resolved(txn, acked).events;
                assert forall|id: Seq<char>|
                    id != send.event_id && holds_echo(t.events, id) implies #[trigger] holds_echo(
                    events,
                    id,
                ) by {
                    if crate::table::event_at(t.events, acked) is Some {
                        crate::store::settled::lemma_found_after_deleting(
                            t.events,
                            send.event_id,
                            id,
                        );
                    } else if let Some(row) = crate::table::event_at(t.events, send.event_id) {
                        lemma_replacing_keeps_echo(
                            t.events,
                            send.event_id,
                            crate::store::outbox::promoted(row, acked),
                            id,
                        );
                    }
                }
                lemma_settling_keeps_echoes(t, txn, send, events);
            }
        },
        StoreCall::Fail(txn) => {
            if let Some(send) = crate::table::send_at(t.sends, txn) {
                let events = t.failed(txn).events;
                crate::table::lemma_event_at(t.events, send.event_id);
                assert forall|id: Seq<char>|
                    id != send.event_id && holds_echo(t.events, id) implies #[trigger] holds_echo(
                    events,
                    id,
                ) by {
                    if let Some(row) = crate::table::event_at(t.events, send.event_id) {
                        lemma_replacing_keeps_echo(
                            t.events,
                            send.event_id,
                            EventRec { local: 2, ..row },
                            id,
                        );
                    }
                }
                lemma_settling_keeps_echoes(t, txn, send, events);
            }
        },
        StoreCall::SetDecrypted(id, text) => {
            if let Some(row) = crate::table::event_at(t.events, id) {
                lemma_marking_keeps_echoes(
                    t,
                    id,
                    row,
                    EventRec {
                        decrypted: Some(text),
                        decrypt_state: crate::table::DECRYPT_OK,
                        ..row
                    },
                );
            }
        },
        StoreCall::SetDecryptFailed(id) => {
            if let Some(row) = crate::table::event_at(t.events, id) {
                lemma_marking_keeps_echoes(
                    t,
                    id,
                    row,
                    EventRec { decrypt_state: crate::table::DECRYPT_FAILED, ..row },
                );
            }
        },
        StoreCall::SetCommitProcessed(id) => {
            if let Some(row) = crate::table::event_at(t.events, id) {
                lemma_marking_keeps_echoes(
                    t,
                    id,
                    row,
                    EventRec { decrypt_state: crate::table::DECRYPT_OK, ..row },
                );
            }
        },
        StoreCall::SaveToken(token) => {
            let after = Tables { token: Some(token), ..t };
            assert forall|row: SendRec| #[trigger] after.sends.contains(row) implies holds_echo(
                after.events,
                row.event_id,
            ) by {
                assert(t.sends.contains(row));
            }
        },
    }
}

/// Whatever calls have been made, every queued message has an echo of its own.
pub proof fn reached_stores_hold_the_echoes(calls: Seq<StoreCall>)
    ensures
        Tables::empty().after_calls(calls).echoed(),
    decreases calls.len(),
{
    if calls.len() > 0 {
        reached_stores_hold_the_echoes(calls.drop_last());
        call_keeps_echoes(Tables::empty().after_calls(calls.drop_last()), calls.last());
    }
}

/// An acknowledged send can always be settled: no piece of state hangs on the echo
/// of a queued message.
pub proof fn acknowledged_sends_can_be_settled(t: Tables, txn: Seq<char>)
    requires
        t.settled(),
        t.echoed(),
    ensures
        !t.resolve_fault(txn),
{
    if let Some(send) = crate::table::send_at(t.sends, txn) {
        crate::table::lemma_send_at(t.sends, txn);
        assert(t.sends.contains(send));
        if crate::store::outbox::is_referenced(t.state, send.event_id) {
            let k = choose|k: int|
                0 <= k < t.state.len() && (#[trigger] t.state[k]).event_id == send.event_id;
            assert(crate::store::settled::stands_for_event(t.events, t.state[k]));
        }
    }
}

/// Queuing a message adds one event behind the log and one entry behind the queue, and
/// changes nothing else. The event lies deeper than every event of its room, by one
/// than the deepest, and says what was queued; the entry has the ids, the room, the
/// text and the time, and refers to the event.
pub proof fn queuing_adds_one_of_each(
    t: Tables,
    room: Seq<char>,
    sender: Seq<char>,
    body: Seq<char>,
    txn: Seq<char>,
    echo: Seq<char>,
    ts: i64,
)
    requires
        t.queue_fault(room, txn, echo) is None,
    ensures
        ({
            let after = t.queued(room, sender, body, txn, echo, ts);
            let row = after.events.last();
            let send = after.sends.last();
            &&& after.events.len() == t.events.len() + 1
            &&& after.events.take(t.events.len() as int) == t.events
            &&& after.sends.len() == t.sends.len() + 1
            &&& after.sends.take(t.sends.len() as int) == t.sends
            &&& after.state == t.state
            &&& after.token == t.token
            &&& row.event_id == echo
            &&& row.room_id == room
            &&& row.sender == sender
            &&& row.event_type == "p.room.message"@
            &&& row.state_key is None
            &&& row.origin_server_ts == ts
            &&& row.local == 1
            &&& row.payload.at("content"@).at("body"@) == JsonView::Str(body)
            &&& forall|i: int|
                0 <= i < t.events.len() && (#[trigger] t.events[i]).room_id == room
                    ==> t.events[i].depth < row.depth
            &&& (forall|i: int|
                0 <= i < t.events.len() ==> (#[trigger] t.events[i]).room_id != room)
                ==> row.depth == 1
            &&& (exists|i: int|
                0 <= i < t.events.len() && (#[trigger] t.events[i]).room_id == room) ==> exists|
                k: int,
            |
                0 <= k < t.events.len() && (#[trigger] t.events[k]).room_id == room
                    && t.events[k].depth + 1 == row.depth
            &&& send.txn_id == txn
            &&& send.room_id == room
            &&& send.body == body
            &&& send.event_id == echo
            &&& send.created_ts == ts
        }),
{
    let after = t.queued(room, sender, body, txn, echo, ts);
    let depth = t.next_depth(room) as i64;
    lemma_deepest(t.events, room);
    assert(i64::MIN <= t.next_depth(room) <= i64::MAX);
    crate::store::faithful::echo_says_what_was_queued(echo, room, sender, ts, depth, body);
    assert(after.events.take(t.events.len() as int) =~= t.events);
    assert(after.sends.take(t.sends.len() as int) =~= t.sends);
}

proof fn lemma_deepest(events: Seq<EventRec>, room: Seq<char>)
    ensures
        forall|i: int|
            0 <= i < events.len() && (#[trigger] events[i]).room_id == room
                ==> crate::store::outbox::deepest(events, room) is Some && events[i].depth
                <= crate::store::outbox::deepest(events, room)->0,
        crate::store::outbox::deepest(events, room) is Some ==> exists|i: int|
            0 <= i < events.len() && (#[trigger] events[i]).room_id == room && events[i].depth
                == crate::store::outbox::deepest(events, room)->0,
    decreases events.len(),
{
    if events.len() > 0 {
        let rest = events.drop_last();
        lemma_deepest(rest, room);
        let now = crate::store::outbox::deepest(events, room);
        let before = crate::store::outbox::deepest(rest, room);
        assert forall|i: int|
            0 <= i < events.len() && (#[trigger] events[i]).room_id == room implies now is Some
            && events[i].depth <= now->0 by {
            if i < rest.len() {
                assert(rest[i] == events[i]);
            }
        }
        if now is Some {
            if now == before {
                let k = choose|i: int|
                    0 <= i < rest.len() && (#[trigger] rest[i]).room_id == room && rest[i].depth
                        == before->0;
                assert(events[k] == rest[k]);
            } else {
                assert(events[events.len() - 1].room_id == room);
            }
        }
    }
}

/// A message can be queued exactly where its ids are not taken and a depth is left
/// behind the events of its room.
pub proof fn free_ids_can_be_queued(t: Tables, room: Seq<char>, txn: Seq<char>, echo: Seq<char>)
    ensures
        t.queue_fault(room, txn, echo) is None <==> {
            &&& forall|i: int| 0 <= i < t.events.len() ==> (#[trigger] t.events[i]).event_id != echo
            &&& forall|i: int| 0 <= i < t.sends.len() ==> (#[trigger] t.sends[i]).txn_id != txn
            &&& forall|i: int|
                0 <= i < t.events.len() && (#[trigger] t.events[i]).room_id == room
                    ==> t.events[i].depth < i64::MAX
        },
{
    lemma_deepest(t.events, room);
    crate::table::lemma_event_at(t.events, echo);
    crate::table::lemma_send_at(t.sends, txn);
    if t.next_depth(room) > i64::MAX {
        let k = choose|i: int|
            0 <= i < t.events.len() && (#[trigger] t.events[i]).room_id == room
                && t.events[i].depth == crate::store::outbox::deepest(t.events, room)->0;
        assert(t.events[k].depth == i64::MAX);
    }
}

/// A message that was queued and then acknowledged is in the log under its real id, in
/// the place of its echo, confirmed, with the room, the sender, the time, the depth and
/// the text with which it was queued; and the queue is what it was before.
pub proof fn sent_message_is_kept_as_it_was_queued(
    t: Tables,
    room: Seq<char>,
    sender: Seq<char>,
    body: Seq<char>,
    txn: Seq<char>,
    echo: Seq<char>,
    ts: i64,
    acked: Seq<char>,
)
    requires
        t.wf(),
        t.queue_fault(room, txn, echo) is None,
        acked != echo,
        forall|i: int| 0 <= i < t.events.len() ==> (#[trigger] t.events[i]).event_id != acked,
    ensures
        ({
            let queued = t.queued(room, sender, body, txn, echo, ts);
            let after = queued.resolved(txn, acked);
            let row = after.events.last();
            &&& !queued.resolve_fault(txn)
            &&& after.events.len() == t.events.len() + 1
            &&& after.events.take(t.events.len() as int) == t.events
            &&& after.sends == t.sends
            &&& after.state == t.state
            &&& after.token == t.token
            &&& row.event_id == acked
            &&& row.local == 0
            &&& row.room_id == room
            &&& row.sender == sender
            &&& row.event_type == "p.room.message"@
            &&& row.state_key is None
            &&& row.origin_server_ts == ts
            &&& row.depth == queued.events.last().depth
            &&& row.payload.at("event_id"@) == JsonView::Str(acked)
            &&& row.payload.at("room_id"@) == JsonView::Str(room)
            &&& row.payload.at("sender"@) == JsonView::Str(sender)
            &&& row.payload.at("origin_server_ts"@).as_i64() == Some(ts)
            &&& row.payload.at("content"@).at("body"@) == JsonView::Str(body)
        }),
{
    let queued = t.queued(room, sender, body, txn, echo, ts);
    let after = queued.resolved(txn, acked);
    let depth = t.next_depth(room) as i64;
    let row = crate::store::outbox::echo_row(echo, room, sender, ts, depth, body);
    crate::table::lemma_event_at(t.events, echo);
    crate::table::lemma_event_at(t.events, acked);
    crate::table::lemma_send_at(t.sends, txn);
    crate::store::faithful::echo_says_what_was_queued(echo, room, sender, ts, depth, body);
    crate::store::faithful::echo_is_faithful(echo, room, sender, ts, depth, body);
    crate::store::faithful::acknowledgement_changes_only_the_id(row, acked, "room_id"@);
    crate::store::faithful::acknowledgement_changes_only_the_id(row, acked, "sender"@);
    crate::store::faithful::acknowledgement_changes_only_the_id(row, acked, "origin_server_ts"@);
    crate::store::faithful::acknowledgement_changes_only_the_id(row, acked, "content"@);
    crate::store::faithful::lemma_field_names();
    assert(queued.events.drop_last() =~= t.events);
    assert(queued.sends.drop_last() =~= t.sends);
    if crate::store::outbox::is_referenced(t.state, echo) {
        let k = choose|k: int| 0 <= k < t.state.len() && (#[trigger] t.state[k]).event_id == echo;
        assert(crate::table::event_at(t.events, t.state[k].event_id) is Some);
    }
    assert(after.events.take(t.events.len() as int) =~= t.events);
    let n = t.sends.len() as int;
    crate::store::outbox::lemma_queue_keeps_wf(t, row, queued.sends.last());
    crate::store::outbox::lemma_dequeue_keeps_wf(queued, n);
    assert(queued.sends.remove(n) =~= t.sends);
}

/// A message that was queued and then refused stays in the log where it is, marked as
/// failed and otherwise as it was queued; and the queue is what it was before.
pub proof fn refused_message_is_marked_and_kept(
    t: Tables,
    room: Seq<char>,
    sender: Seq<char>,
    body: Seq<char>,
    txn: Seq<char>,
    echo: Seq<char>,
    ts: i64,
)
    requires
        t.wf(),
        t.queue_fault(room, txn, echo) is None,
    ensures
        ({
            let queued = t.queued(room, sender, body, txn, echo, ts);
            let after = queued.failed(txn);
            let was = queued.events.last();
            let row = after.events.last();
            &&& after.events.len() == t.events.len() + 1
            &&& after.events.take(t.events.len() as int) == t.events
            &&& after.sends == t.sends
            &&& after.state == t.state
            &&& after.token == t.token
            &&& row.local == 2
            &&& row.event_id == was.event_id
            &&& row.room_id == was.room_id
            &&& row.sender == was.sender
            &&& row.event_type == was.event_type
            &&& row.state_key == was.state_key
            &&& row.origin_server_ts == was.origin_server_ts
            &&& row.depth == was.depth
            &&& row.payload == was.payload
            &&& row.decrypted == was.decrypted
            &&& row.decrypt_state == was.decrypt_state
        }),
{
    let queued = t.queued(room, sender, body, txn, echo, ts);
    let after = queued.failed(txn);
    let was = queued.events.last();
    let send = queued.sends.last();
    assert(queued.events.drop_last() =~= t.events);
    assert(queued.sends.drop_last() =~= t.sends);
    assert(crate::table::send_at(queued.sends, txn) == Some(send));
    assert(crate::table::event_at(queued.events, echo) == Some(was));
    assert(after.events =~= t.events.push(EventRec { local: 2, ..was })) by {
        crate::table::lemma_event_at(t.events, echo);
    }
    assert(after.events.take(t.events.len() as int) =~= t.events);
    assert(after.sends == t.sends) by {
        let n = t.sends.len() as int;
        crate::table::lemma_event_at(t.events, echo);
        crate::table::lemma_send_at(t.sends, txn);
        crate::store::outbox::lemma_queue_keeps_wf(t, was, send);
        crate::store::outbox::lemma_dequeue_keeps_wf(queued, n);
        assert(queued.sends.remove(n) =~= t.sends);
    }
}

/// Settling a send touches no event but its echo: every other event stays as it is, in
/// both ways of settling.
pub proof fn settling_touches_only_the_echo(
    t: Tables,
    txn: Seq<char>,
    acked: Seq<char>,
    send: SendRec,
    row: EventRec,
)
    requires
        crate::table::send_at(t.sends, txn) == Some(send),
        t.events.contains(row),
        row.event_id != send.event_id,
    ensures
        t.resolved(txn, acked).events.contains(row),
        t.failed(txn).events.contains(row),
        t.resolved(txn, acked).state == t.state,
        t.failed(txn).state == t.state,
        t.resolved(txn, acked).token == t.token,
        t.failed(txn).token == t.token,
{
    let k = choose|k: int| 0 <= k < t.events.len() && t.events[k] == row;
    let keep = |e: EventRec| e.event_id != send.event_id;
    t.events.lemma_filter_contains(keep, k);
    if t.resolved(txn, acked).events.len() == t.events.len()
        && crate::table::event_at(t.events, acked) is None {
        assert(t.resolved(txn, acked).events[k] == row);
    }
    assert(t.failed(txn).events[k] == row);
}

/// A pending message shows the id, the room and the text of its entry in the queue.
pub proof fn pending_message_is_its_entry(row: SendRec, p: crate::store::outbox::PendingSend)
    ensures
        crate::store::outbox::pending_of(row).txn_id == row.txn_id,
        crate::store::outbox::pending_of(row).room_id == row.room_id,
        crate::store::outbox::pending_of(row).body == row.body,
        p@.txn_id == p.txn_id@,
        p@.room_id == p.room_id@,
        p@.body == p.body@,
{
}

} // verus!
