//! What holds of timelines, of the outbound queue and of events that wait.

use vstd::prelude::*;

use crate::event::{SendState, StoredView};
use crate::table::{EventRec, SendRec, Tables};

verus! {

/// A room's history holds exactly the events of the room that are shown, in the
/// order of their depth and id.
pub proof fn history_is_the_room_in_order(
    t: Tables,
    room: Seq<char>,
    before: Option<i64>,
    row: EventRec,
)
    ensures
        crate::order::is_ordered(
            t.history(room, before),
            crate::store::timeline::history_key(),
        ),
        t.history(room, before).contains(row) <==> t.events.contains(row)
            && crate::store::timeline::in_timeline(row, room, before),
{
    let keep = |r: EventRec| crate::store::timeline::in_timeline(r, room, before);
    let shown = t.events.filter(keep);
    crate::order::ordering_is_a_sort(shown, crate::store::timeline::history_key());
    crate::order::lemma_order_keeps(shown, crate::store::timeline::history_key(), row);
    if shown.contains(row) {
        t.events.lemma_filter_contains_rev(keep, row);
        let k = choose|k: int| 0 <= k < shown.len() && shown[k] == row;
        t.events.lemma_filter_pred(keep, k);
    }
    if t.events.contains(row) && keep(row) {
        let k = choose|k: int| 0 <= k < t.events.len() && t.events[k] == row;
        t.events.lemma_filter_contains(keep, k);
    }
}

/// A page is the end of the history: as many of its newest events as the limit
/// allows.
pub proof fn page_is_the_end_of_the_history(
    t: Tables,
    room: Seq<char>,
    limit: int,
    before: Option<i64>,
)
    requires
        0 <= limit,
    ensures
        ({
            let history = t.history(room, before);
            let page = t.page(room, limit, before);
            &&& page.len() == if limit < history.len() { limit } else { history.len() as int }
            &&& page == history.skip(history.len() - page.len())
        }),
{
    let history = t.history(room, before);
    assert(t.page(room, limit, before) =~= history.skip(
        history.len() - t.page(room, limit, before).len(),
    ));
}

/// Paging backwards from the oldest event of a page shows no event twice, and
/// only older ones.
pub proof fn older_pages_do_not_overlap(
    t: Tables,
    room: Seq<char>,
    limit: int,
    before: Option<i64>,
    more: int,
    i: int,
    j: int,
)
    requires
        0 <= limit,
        0 <= more,
        0 <= i < t.page(room, limit, before).len(),
        0 <= j < t.page(room, more, Some(t.page(room, limit, before)[0].depth)).len(),
    ensures
        t.page(room, more, Some(t.page(room, limit, before)[0].depth))[j].depth < t.page(
            room,
            limit,
            before,
        )[i].depth,
{
    let page = t.page(room, limit, before);
    let oldest = page[0].depth;
    let older = t.page(room, more, Some(oldest));
    let history = t.history(room, before);
    history_is_the_room_in_order(t, room, before, page[i]);
    page_is_the_end_of_the_history(t, room, limit, before);
    let at = history.len() - page.len();
    if i > 0 {
        assert(!crate::order::key_lt(
            crate::store::timeline::history_key()(history[at + i]),
            crate::store::timeline::history_key()(history[at + 0]),
        ));
    }
    page_is_the_end_of_the_history(t, room, more, Some(oldest));
    let older_history = t.history(room, Some(oldest));
    assert(older_history.contains(older[j]));
    history_is_the_room_in_order(t, room, Some(oldest), older[j]);
}

proof fn lemma_deepest(events: Seq<EventRec>, room: Seq<char>, i: int)
    requires
        0 <= i < events.len(),
        events[i].room_id == room,
    ensures
        crate::store::outbox::deepest(events, room) is Some,
        crate::store::outbox::deepest(events, room)->0 >= events[i].depth,
    decreases events.len(),
{
    if i < events.len() - 1 {
        lemma_deepest(events.drop_last(), room, i);
    }
}

/// A queued message is shown at once, behind everything else in its room, and as
/// being sent.
pub proof fn queued_message_is_shown_last(
    t: Tables,
    room: Seq<char>,
    sender: Seq<char>,
    body: Seq<char>,
    txn: Seq<char>,
    echo: Seq<char>,
    ts: i64,
    limit: int,
)
    requires
        t.queue_fault(room, txn, echo) is None,
        1 <= limit,
    ensures
        ({
            let page = t.queued(room, sender, body, txn, echo, ts).page(room, limit, None);
            let row = crate::store::outbox::echo_row(
                echo,
                room,
                sender,
                ts,
                t.next_depth(room) as i64,
                body,
            );
            &&& page.len() > 0
            &&& page.last() == row
            &&& crate::store::timeline::stored_of(row) is Ok
            &&& crate::store::timeline::stored_of(row)->Ok_0.send_state == SendState::Sending
        }),
{
    let after = t.queued(room, sender, body, txn, echo, ts);
    let depth = t.next_depth(room) as i64;
    let row = crate::store::outbox::echo_row(echo, room, sender, ts, depth, body);
    let keep = |r: EventRec| crate::store::timeline::in_timeline(r, room, None);
    let key = crate::store::timeline::history_key();
    crate::store::faithful::echo_is_faithful(echo, room, sender, ts, depth, body);
    reveal_strlit("p.room.message");
    reveal_strlit("p.mls.commit");
    assert("p.room.message"@.len() == 14);
    assert("p.mls.commit"@.len() == 12);
    assert(keep(row));
    let shown = t.events.filter(keep);
    assert(after.events.filter(keep) == shown.push(row)) by {
        reveal(Seq::filter);
        assert(after.events.drop_last() =~= t.events);
    }
    let history = t.history(room, None);
    assert(shown.push(row).drop_last() =~= shown);
    crate::order::ordering_is_a_sort(shown, key);
    if history.len() > 0 {
        let last = history.last();
        assert(history.contains(last));
        history_is_the_room_in_order(t, room, None, last);
        let k = choose|k: int| 0 <= k < t.events.len() && t.events[k] == last;
        lemma_deepest(t.events, room, k);
        assert(last.depth < depth);
    }
    assert(after.history(room, None) =~= history.push(row));
}

/// A send that the server acknowledged leaves the queue and leaves one copy of
/// its event. When sync delivers that event, it is not added again.
pub proof fn acknowledged_send_leaves_one_copy(
    t: Tables,
    txn: Seq<char>,
    acked: Seq<char>,
    send: SendRec,
    ev: StoredView,
)
    requires
        t.wf(),
        crate::table::send_at(t.sends, txn) == Some(send),
        crate::table::event_at(t.events, send.event_id) is Some,
        !t.resolve_fault(txn),
        acked != send.event_id,
        ev.event_id == acked,
    ensures
        ({
            let after = t.resolved(txn, acked);
            &&& crate::table::event_at(after.events, acked) is Some
            &&& crate::table::event_at(after.events, send.event_id) is None
            &&& crate::table::send_at(after.sends, txn) is None
            &&& after.apply_event(ev) == after
            &&& after.count_new(seq![ev]) == 0
        }),
{
    let after = t.resolved(txn, acked);
    let id = send.event_id;
    crate::table::lemma_event_at(t.events, id);
    crate::table::lemma_event_at(t.events, acked);
    crate::table::lemma_event_at(after.events, id);
    crate::table::lemma_event_at(after.events, acked);
    crate::table::lemma_send_at(after.sends, txn);
    let left = |s: SendRec| s.txn_id != txn;
    if crate::table::send_at(after.sends, txn) is Some {
        let k = choose|k: int| 0 <= k < after.sends.len() && (#[trigger] after.sends[k]).txn_id
            == txn;
        t.sends.lemma_filter_pred(left, k);
    }
    if crate::table::event_at(t.events, acked) is Some {
        let keep = |e: EventRec| e.event_id != id;
        let k = choose|k: int| 0 <= k < t.events.len() && (#[trigger] t.events[k]).event_id == acked;
        t.events.lemma_filter_contains(keep, k);
        let m = choose|m: int| 0 <= m < after.events.len() && after.events[m] == t.events[k];
        assert(after.events[m].event_id == acked);
        if crate::table::event_at(after.events, id) is Some {
            let n = choose|n: int|
                0 <= n < after.events.len() && (#[trigger] after.events[n]).event_id == id;
            t.events.lemma_filter_pred(keep, n);
        }
    } else {
        let k = choose|k: int| 0 <= k < t.events.len() && (#[trigger] t.events[k]).event_id == id;
        assert(after.events[k].event_id == acked);
        if crate::table::event_at(after.events, id) is Some {
            let n = choose|n: int|
                0 <= n < after.events.len() && (#[trigger] after.events[n]).event_id == id;
            assert(t.events[n].event_id == id || after.events[n] == t.events[n]);
        }
    }
    let one = seq![ev];
    assert(one.drop_last() =~= seq![]);
    reveal_with_fuel(Tables::count_new, 2);
    reveal_with_fuel(Tables::apply_all, 2);
}

/// A send that was given up leaves the queue, and its echo is marked as failed.
pub proof fn failed_send_is_not_retried(t: Tables, txn: Seq<char>, send: SendRec)
    requires
        t.wf(),
        crate::table::send_at(t.sends, txn) == Some(send),
        crate::table::event_at(t.events, send.event_id) is Some,
    ensures
        crate::table::send_at(t.failed(txn).sends, txn) is None,
        crate::table::event_at(t.failed(txn).events, send.event_id) is Some,
        crate::event::send_state_of(
            crate::table::event_at(t.failed(txn).events, send.event_id)->0.local,
        ) == SendState::Failed,
{
    let after = t.failed(txn);
    let id = send.event_id;
    let left = |s: SendRec| s.txn_id != txn;
    crate::table::lemma_send_at(after.sends, txn);
    if crate::table::send_at(after.sends, txn) is Some {
        let k = choose|k: int| 0 <= k < after.sends.len() && (#[trigger] after.sends[k]).txn_id
            == txn;
        t.sends.lemma_filter_pred(left, k);
    }
    crate::table::lemma_event_at(t.events, id);
    crate::table::lemma_event_at(after.events, id);
    let k = choose|k: int| 0 <= k < t.events.len() && (#[trigger] t.events[k]).event_id == id;
    assert(after.events[k].event_id == id);
    let found = crate::table::event_at(after.events, id)->0;
    let n = choose|n: int| 0 <= n < after.events.len() && after.events[n] == found;
    assert(t.events[n].event_id == id || after.events[n] == t.events[n]);
}

proof fn lemma_processed(t: Tables, id: Seq<char>, row: EventRec, commits: bool, x: EventRec)
    requires
        row.event_id == id,
        row.decrypt_state != 0,
    ensures
        !((Tables { events: crate::table::replace_event(t.events, id, row), ..t }).waiting(
            commits,
        ).contains(x) && x.event_id == id),
{
    let events = crate::table::replace_event(t.events, id, row);
    let after = Tables { events, ..t };
    let keep = |r: EventRec| crate::store::inbound::is_waiting(r, commits);
    let shown = events.filter(keep);
    if after.waiting(commits).contains(x) && x.event_id == id {
        crate::order::lemma_order_keeps(shown, crate::store::timeline::history_key(), x);
        events.lemma_filter_contains_rev(keep, x);
        let k = choose|k: int| 0 <= k < shown.len() && shown[k] == x;
        events.lemma_filter_pred(keep, k);
        let m = choose|m: int| 0 <= m < events.len() && events[m] == x;
        assert(t.events[m].event_id == id || events[m] == t.events[m]);
    }
}

/// Whatever came of processing an inbound event, it does not wait any longer: it
/// is processed once.
pub proof fn processed_events_do_not_wait(
    t: Tables,
    id: Seq<char>,
    text: Seq<char>,
    commits: bool,
    x: EventRec,
)
    requires
        crate::table::event_at(t.events, id) is Some,
        x.event_id == id,
    ensures
        !t.decrypted(id, text).waiting(commits).contains(x),
        !t.undecryptable(id).waiting(commits).contains(x),
        !t.commit_processed(id).waiting(commits).contains(x),
{
    crate::table::lemma_event_at(t.events, id);
    let row = crate::table::event_at(t.events, id)->0;
    let decrypted = EventRec {
        decrypted: Some(text),
        decrypt_state: crate::table::DECRYPT_OK,
        ..row
    };
    lemma_processed(t, id, decrypted, commits, x);
    let failed = EventRec { decrypt_state: crate::table::DECRYPT_FAILED, ..row };
    lemma_processed(t, id, failed, commits, x);
    let done = EventRec { decrypt_state: crate::table::DECRYPT_OK, ..row };
    lemma_processed(t, id, done, commits, x);
}

/// What waits to be processed is exactly what was not processed yet, in the order
/// of depth and id. A change of a group so comes before the messages that were
/// sent after it.
pub proof fn waiting_events_are_in_order(t: Tables, commits: bool, row: EventRec)
    ensures
        crate::order::is_ordered(t.waiting(commits), crate::store::timeline::history_key()),
        t.waiting(commits).contains(row) <==> t.events.contains(row)
            && crate::store::inbound::is_waiting(row, commits),
{
    let keep = |r: EventRec| crate::store::inbound::is_waiting(r, commits);
    let shown = t.events.filter(keep);
    crate::order::ordering_is_a_sort(shown, crate::store::timeline::history_key());
    crate::order::lemma_order_keeps(shown, crate::store::timeline::history_key(), row);
    if shown.contains(row) {
        t.events.lemma_filter_contains_rev(keep, row);
        let k = choose|k: int| 0 <= k < shown.len() && shown[k] == row;
        t.events.lemma_filter_pred(keep, k);
    }
    if t.events.contains(row) && keep(row) {
        let k = choose|k: int| 0 <= k < t.events.len() && t.events[k] == row;
        t.events.lemma_filter_contains(keep, k);
    }
}

/// The text of an encrypted event, once cached, is what its timeline shows.
pub proof fn decrypted_text_is_shown(t: Tables, id: Seq<char>, text: Seq<char>, row: EventRec)
    requires
        t.wf(),
        crate::table::event_at(t.events, id) == Some(row),
        crate::table::agrees(row),
        row.event_type == "p.room.encrypted"@,
    ensures
        ({
            let after = crate::table::event_at(t.decrypted(id, text).events, id);
            &&& after is Some
            &&& crate::store::timeline::stored_of(after->0) is Ok
            &&& crate::rooms::shown(crate::store::timeline::stored_of(after->0)->Ok_0).body == Some(
                text,
            )
        }),
{
    let new = EventRec {
        decrypted: Some(text),
        decrypt_state: crate::table::DECRYPT_OK,
        ..row
    };
    crate::table::lemma_event_at(t.events, id);
    lemma_found_replaced(t, id, row, new);
    lemma_message_types();
}

/// An encrypted event that was given up shows that it cannot be read.
pub proof fn undecryptable_event_is_marked(t: Tables, id: Seq<char>, row: EventRec)
    requires
        t.wf(),
        crate::table::event_at(t.events, id) == Some(row),
        crate::table::agrees(row),
        row.event_type == "p.room.encrypted"@,
        row.decrypted is None,
    ensures
        ({
            let after = crate::table::event_at(t.undecryptable(id).events, id);
            &&& after is Some
            &&& crate::store::timeline::stored_of(after->0) is Ok
            &&& crate::rooms::shown(
                crate::store::timeline::stored_of(after->0)->Ok_0,
            ).system_text == Some("\u{26a0} Unable to decrypt this message"@)
        }),
{
    let new = EventRec { decrypt_state: crate::table::DECRYPT_FAILED, ..row };
    crate::table::lemma_event_at(t.events, id);
    lemma_found_replaced(t, id, row, new);
    lemma_message_types();
}

proof fn lemma_message_types()
    ensures
        "p.room.encrypted"@ != "p.room.message"@,
{
    reveal_strlit("p.room.encrypted");
    reveal_strlit("p.room.message");
    assert("p.room.encrypted"@.len() == 16);
    assert("p.room.message"@.len() == 14);
}

proof fn lemma_found_replaced(t: Tables, id: Seq<char>, row: EventRec, new: EventRec)
    requires
        t.wf(),
        crate::table::event_at(t.events, id) == Some(row),
        new.event_id == id,
    ensures
        crate::table::event_at(crate::table::replace_event(t.events, id, new), id) == Some(new),
{
    let after = crate::table::replace_event(t.events, id, new);
    crate::table::lemma_event_at(t.events, id);
    crate::table::lemma_event_at(after, id);
    let k = choose|k: int| 0 <= k < t.events.len() && (#[trigger] t.events[k]).event_id == id;
    assert(after[k].event_id == id);
    let found = crate::table::event_at(after, id)->0;
    let n = choose|n: int| 0 <= n < after.len() && after[n] == found;
    assert(t.events[n].event_id == id || after[n] == t.events[n]);
}

/// The outbound queue is handed out oldest first, and holds exactly what is
/// queued. Of two messages of one time the one that was queued first comes first.
pub proof fn outbox_is_oldest_first(t: Tables, row: SendRec, i: int, j: int)
    ensures
        forall|a: int, b: int|
            0 <= a < b < t.outbox().len() ==> (#[trigger] t.outbox()[a]).created_ts <= (
            #[trigger] t.outbox()[b]).created_ts,
        t.outbox().contains(row) <==> t.sends.contains(row),
        t.outbox().to_multiset() == t.sends.to_multiset(),
        0 <= i < j < t.sends.len() && t.sends[i].created_ts <= t.sends[j].created_ts ==> exists|
            a: int,
            b: int,
        |
            0 <= a < b < t.outbox().len() && #[trigger] t.outbox()[a] == t.sends[i]
                && #[trigger] t.outbox()[b] == t.sends[j],
{
    let key = crate::store::outbox::send_key();
    crate::order::ordering_is_a_sort(t.sends, key);
    crate::order::lemma_order_keeps(t.sends, key, row);
    crate::text::text_order_is_total(seq![], seq![]);
    if 0 <= i < j < t.sends.len() && t.sends[i].created_ts <= t.sends[j].created_ts {
        crate::order::ordering_is_stable(t.sends, key, i, j);
        let (a, b) = choose|a: int, b: int|
            0 <= a < b < crate::order::order_by(t.sends, key).len()
                && #[trigger] crate::order::order_by(t.sends, key)[a] == t.sends[i]
                && #[trigger] crate::order::order_by(t.sends, key)[b] == t.sends[j];
        assert(t.outbox()[a] == t.sends[i]);
        assert(t.outbox()[b] == t.sends[j]);
    }
    assert forall|a: int, b: int| 0 <= a < b < t.outbox().len() implies (
    #[trigger] t.outbox()[a]).created_ts <= (#[trigger] t.outbox()[b]).created_ts by {
        assert(!crate::order::key_lt(key(t.outbox()[b]), key(t.outbox()[a])));
    }
}

/// Messages whose times never go back.
pub open spec fn in_time(sends: Seq<SendRec>) -> bool {
    forall|i: int, j: int|
        0 <= i < j < sends.len() ==> (#[trigger] sends[i]).created_ts <= (
        #[trigger] sends[j]).created_ts
}

/// Where the clock never went back, the outbound queue is handed out in the very
/// order in which it was queued, each message once.
pub proof fn outbox_is_in_order_of_queuing(t: Tables)
    requires
        in_time(t.sends),
    ensures
        t.outbox() == t.sends,
{
    let key = crate::store::outbox::send_key();
    crate::text::text_order_is_total(seq![], seq![]);
    assert forall|i: int, j: int| 0 <= i < j < t.sends.len() implies !crate::order::key_lt(
        key(#[trigger] t.sends[j]),
        key(#[trigger] t.sends[i]),
    ) by {
        assert(t.sends[i].created_ts <= t.sends[j].created_ts);
    }
    crate::order::ordered_rows_stay(t.sends, key);
}

/// A message that is queued comes behind those that are queued already, and the
/// times still do not go back where its own does not.
pub proof fn queuing_goes_to_the_end(
    t: Tables,
    room: Seq<char>,
    sender: Seq<char>,
    body: Seq<char>,
    txn: Seq<char>,
    echo: Seq<char>,
    ts: i64,
)
    requires
        in_time(t.sends),
        forall|i: int| 0 <= i < t.sends.len() ==> (#[trigger] t.sends[i]).created_ts <= ts,
    ensures
        ({
            let after = t.queued(room, sender, body, txn, echo, ts);
            let send = SendRec {
                txn_id: txn,
                room_id: room,
                body,
                event_id: echo,
                created_ts: ts,
            };
            &&& in_time(after.sends)
            &&& after.outbox() == t.outbox().push(send)
        }),
{
    let after = t.queued(room, sender, body, txn, echo, ts);
    assert(in_time(after.sends)) by {
        assert forall|i: int, j: int| 0 <= i < j < after.sends.len() implies (
        #[trigger] after.sends[i]).created_ts <= (#[trigger] after.sends[j]).created_ts by {
            assert(after.sends[i] == t.sends[i]);
            if j < t.sends.len() {
                assert(after.sends[j] == t.sends[j]);
            }
        }
    }
    outbox_is_in_order_of_queuing(t);
    outbox_is_in_order_of_queuing(after);
}

proof fn lemma_filter_in_time(sends: Seq<SendRec>, keep: spec_fn(SendRec) -> bool)
    requires
        in_time(sends),
    ensures
        in_time(sends.filter(keep)),
    decreases sends.len(),
{
    reveal(Seq::filter);
    if sends.len() > 0 {
        let rest = sends.drop_last();
        assert forall|i: int, j: int| 0 <= i < j < rest.len() implies (
        #[trigger] rest[i]).created_ts <= (#[trigger] rest[j]).created_ts by {
            assert(rest[i] == sends[i] && rest[j] == sends[j]);
        }
        lemma_filter_in_time(rest, keep);
        let kept = rest.filter(keep);
        let all = sends.filter(keep);
        assert forall|i: int, j: int| 0 <= i < j < all.len() implies (
        #[trigger] all[i]).created_ts <= (#[trigger] all[j]).created_ts by {
            assert(kept[i] == all[i]);
            if j < kept.len() {
                assert(kept[j] == all[j]);
            } else {
                assert(kept.contains(kept[i]));
                rest.lemma_filter_contains_rev(keep, kept[i]);
                let k = choose|k: int| 0 <= k < rest.len() && rest[k] == kept[i];
                assert(sends[k].created_ts <= sends[sends.len() - 1].created_ts);
            }
        }
    }
}

/// A message that was delivered or given up leaves the queue, and the others stay
/// in their order.
pub proof fn settling_keeps_the_order(t: Tables, txn: Seq<char>, acked: Seq<char>)
    requires
        in_time(t.sends),
    ensures
        in_time(t.resolved(txn, acked).sends),
        in_time(t.failed(txn).sends),
        t.resolved(txn, acked).outbox() == t.outbox().filter(|s: SendRec| s.txn_id != txn),
        t.failed(txn).outbox() == t.outbox().filter(|s: SendRec| s.txn_id != txn),
{
    let keep = |s: SendRec| s.txn_id != txn;
    lemma_filter_in_time(t.sends, keep);
    if crate::table::send_at(t.sends, txn) is None {
        crate::table::lemma_send_at(t.sends, txn);
        crate::store::lemma_filter_all(t.sends, keep);
    }
    outbox_is_in_order_of_queuing(t);
    outbox_is_in_order_of_queuing(t.resolved(txn, acked));
    outbox_is_in_order_of_queuing(t.failed(txn));
}

proof fn lemma_room_ids(state: Seq<crate::table::StateRec>, room: Seq<char>)
    ensures
        crate::store::summary::room_ids(state).contains(room) <==> exists|i: int|
            0 <= i < state.len() && (#[trigger] state[i]).room_id == room,
        crate::store::summary::room_ids(state).no_duplicates(),
    decreases state.len(),
{
    let ids = crate::store::summary::room_ids(state);
    if state.len() > 0 {
        let rest = state.drop_last();
        let before = crate::store::summary::room_ids(rest);
        lemma_room_ids(rest, room);
        if ids.contains(room) {
            if before.contains(room) {
                let k = choose|k: int| 0 <= k < rest.len() && (#[trigger] rest[k]).room_id == room;
                assert(state[k].room_id == room);
            } else {
                let k = choose|k: int| 0 <= k < ids.len() && ids[k] == room;
                assert(k == before.len()) by {
                    if k < before.len() {
                        assert(before[k] == room);
                    }
                }
                assert(state[state.len() - 1].room_id == room);
            }
        }
        if exists|i: int| 0 <= i < state.len() && (#[trigger] state[i]).room_id == room {
            let k = choose|k: int| 0 <= k < state.len() && (#[trigger] state[k]).room_id == room;
            if k < rest.len() {
                assert(rest[k].room_id == room);
                let m = choose|m: int| 0 <= m < before.len() && before[m] == room;
                assert(ids[m] == room);
            } else if !before.contains(room) {
                assert(ids[before.len() as int] == room);
            }
        }
        assert(ids.no_duplicates()) by {
            assert forall|i: int, j: int| 0 <= i < ids.len() && 0 <= j < ids.len() && i != j implies ids[i]
                != ids[j] by {
                if i == before.len() {
                    assert(before.contains(before[j]));
                } else if j == before.len() {
                    assert(before.contains(before[i]));
                }
            }
        }
    }
}

/// The room list holds each room that has state, once, and the rooms with the
/// latest activity come first. Rooms of one activity come in the order of their
/// ids.
pub proof fn rooms_are_listed_by_activity(t: Tables, room: Seq<char>, i: int, j: int)
    ensures
        t.rooms().contains(room) <==> exists|k: int|
            0 <= k < t.state.len() && (#[trigger] t.state[k]).room_id == room,
        t.rooms().no_duplicates(),
        0 <= i < j < t.rooms().len() ==> t.activity(t.rooms()[i]) >= t.activity(t.rooms()[j]),
        0 <= i < j < t.rooms().len() && t.activity(t.rooms()[i]) == t.activity(t.rooms()[j])
            ==> crate::text::text_lt(t.rooms()[i], t.rooms()[j]),
{
    let ids = crate::store::summary::room_ids(t.state);
    lemma_room_ids(t.state, room);
    crate::order::ordering_is_a_sort(ids, t.room_key());
    crate::order::lemma_order_keeps(ids, t.room_key(), room);
    ids.lemma_multiset_has_no_duplicates();
    t.rooms().lemma_multiset_has_no_duplicates_conv();
    if 0 <= i < j < t.rooms().len() {
        assert(!crate::order::key_lt(t.room_key()(t.rooms()[j]), t.room_key()(t.rooms()[i])));
        assert(t.rooms()[i] != t.rooms()[j]);
        crate::text::text_order_is_total(t.rooms()[i], t.rooms()[j]);
    }
}

/// The ids of two attempts to send are the same only where time and number are.
pub proof fn send_ids_are_distinct(ts: int, n: nat, other_ts: int, other_n: nat)
    requires
        crate::store::outbox::txn_id_of(ts, n) == crate::store::outbox::txn_id_of(other_ts, other_n)
            || crate::store::outbox::echo_id_of(ts, n) == crate::store::outbox::echo_id_of(
            other_ts,
            other_n,
        ),
    ensures
        ts == other_ts,
        n == other_n,
{
    reveal_strlit("m");
    reveal_strlit("$local-");
    reveal_strlit("-");
    let a = crate::text::decimal_int(ts) + "-"@ + crate::text::decimal(n);
    let b = crate::text::decimal_int(other_ts) + "-"@ + crate::text::decimal(other_n);
    if crate::store::outbox::txn_id_of(ts, n) == crate::store::outbox::txn_id_of(
        other_ts,
        other_n,
    ) {
        assert(crate::store::outbox::txn_id_of(ts, n).skip(1) =~= a);
        assert(crate::store::outbox::txn_id_of(other_ts, other_n).skip(1) =~= b);
    } else {
        assert(crate::store::outbox::echo_id_of(ts, n).skip(7) =~= a);
        assert(crate::store::outbox::echo_id_of(other_ts, other_n).skip(7) =~= b);
    }
    lemma_numerals_split(ts, n, other_ts, other_n);
}

proof fn lemma_numerals_split(ts: int, n: nat, other_ts: int, other_n: nat)
    requires
        crate::text::decimal_int(ts) + "-"@ + crate::text::decimal(n) == crate::text::decimal_int(
            other_ts,
        ) + "-"@ + crate::text::decimal(other_n),
    ensures
        ts == other_ts,
        n == other_n,
{
    reveal_strlit("-");
    let x = crate::text::decimal_int(ts);
    let y = crate::text::decimal_int(other_ts);
    let u = crate::text::decimal(n);
    let v = crate::text::decimal(other_n);
    let a = x + "-"@ + u;
    let b = y + "-"@ + v;
    crate::text::lemma_decimal_digits(n);
    crate::text::lemma_decimal_digits(other_n);
    assert(a.len() == x.len() + 1 + u.len());
    assert(b.len() == y.len() + 1 + v.len());
    if u.len() < v.len() {
        let k = v.len() - u.len() - 1;
        assert(a[x.len() as int] == '-');
        assert(b[x.len() as int] == v[k]);
    } else if v.len() < u.len() {
        let k = u.len() - v.len() - 1;
        assert(b[y.len() as int] == '-');
        assert(a[y.len() as int] == u[k]);
    }
    assert(u.len() == v.len());
    assert(x =~= a.take(x.len() as int));
    assert(y =~= b.take(x.len() as int));
    assert(u =~= a.skip((x.len() + 1) as int));
    assert(v =~= b.skip((x.len() + 1) as int));
    crate::text::decimal_int_is_injective(ts, other_ts);
    crate::text::decimal_is_injective(n, other_n);
}

/// The id of an echo is no id that the server gives: those hold no hyphen.
pub proof fn echo_id_is_no_server_id(ts: int, n: nat, id: Seq<char>)
    requires
        forall|i: int| 0 <= i < id.len() ==> #[trigger] id[i] != '-',
    ensures
        crate::store::outbox::echo_id_of(ts, n) != id,
{
    reveal_strlit("$local-");
    assert(crate::store::outbox::echo_id_of(ts, n)[6] == '-');
}

} // verus!
