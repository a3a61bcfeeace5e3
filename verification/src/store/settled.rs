//! What holds of every store that can be reached: the current state of each key is
//! an event of the greatest depth in the log, and what has come stays there.

use vstd::prelude::*;

use crate::event::{SendState, StoredView};
use crate::json::JsonView;
use crate::table::{EventRec, SendRec, StateRec, Tables};

verus! {

/// Whether an event of the log sets a state key of a room.
pub open spec fn row_sets(
    row: EventRec,
    room: Seq<char>,
    event_type: Seq<char>,
    key: Seq<char>,
) -> bool {
    row.room_id == room && row.event_type == event_type && row.state_key == Some(key)
}

/// Whether a row of state stands for an event of the log.
pub open spec fn stands_for_event(events: Seq<EventRec>, row: StateRec) -> bool {
    match crate::table::event_at(events, row.event_id) {
        Some(e) => row_sets(e, row.room_id, row.event_type, row.state_key) && e.depth == row.depth,
        None => false,
    }
}

/// Whether what counts for the key of a state event is at least as deep as the
/// event.
pub open spec fn is_counted(state: Seq<StateRec>, e: EventRec) -> bool {
    match e.state_key {
        None => true,
        Some(key) => match crate::table::state_at(state, e.room_id, e.event_type, key) {
            Some(row) => row.depth >= e.depth,
            None => false,
        },
    }
}

impl Tables {
    /// Every piece of state is an event of the log, and no state event of the log
    /// is deeper than what counts for its key.
    pub open spec fn settled(self) -> bool {
        &&& forall|i: int|
            0 <= i < self.state.len() ==> stands_for_event(self.events, #[trigger] self.state[i])
        &&& forall|i: int|
            0 <= i < self.events.len() ==> is_counted(self.state, #[trigger] self.events[i])
    }
}

/// A call that changes the store.
pub enum StoreCall {
    Apply(Seq<JsonView>),
    Queue {
        room: Seq<char>,
        sender: Seq<char>,
        body: Seq<char>,
        txn: Seq<char>,
        echo: Seq<char>,
        ts: i64,
    },
    Resolve(Seq<char>, Seq<char>),
    Fail(Seq<char>),
    SetDecrypted(Seq<char>, Seq<char>),
    SetDecryptFailed(Seq<char>),
    SetCommitProcessed(Seq<char>),
    SaveToken(Seq<char>),
}

impl Tables {
    /// The database after a call. One that fails changes nothing.
    pub open spec fn after_call(self, call: StoreCall) -> Tables {
        match call {
            StoreCall::Apply(batch) => match crate::store::parse_batch(batch) {
                Ok(evs) => self.apply_all(evs),
                Err(_) => self,
            },
            StoreCall::Queue { room, sender, body, txn, echo, ts } => match self.queue_fault(
                room,
                txn,
                echo,
            ) {
                Some(_) => self,
                None => self.queued(room, sender, body, txn, echo, ts),
            },
            StoreCall::Resolve(txn, acked) => if self.resolve_fault(txn) {
                self
            } else {
                self.resolved(txn, acked)
            },
            StoreCall::Fail(txn) => self.failed(txn),
            StoreCall::SetDecrypted(id, text) => self.decrypted(id, text),
            StoreCall::SetDecryptFailed(id) => self.undecryptable(id),
            StoreCall::SetCommitProcessed(id) => self.commit_processed(id),
            StoreCall::SaveToken(token) => Tables { token: Some(token), ..self },
        }
    }

    /// The database after a list of calls.
    pub open spec fn after_calls(self, calls: Seq<StoreCall>) -> Tables
        decreases calls.len(),
    {
        if calls.len() == 0 {
            self
        } else {
            self.after_calls(calls.drop_last()).after_call(calls.last())
        }
    }
}

pub proof fn lemma_found_after_replacing(
    events: Seq<EventRec>,
    id: Seq<char>,
    row: EventRec,
    wanted: Seq<char>,
)
    requires
        wanted != id,
        wanted != row.event_id,
    ensures
        crate::table::event_at(crate::table::replace_event(events, id, row), wanted)
            == crate::table::event_at(events, wanted),
    decreases events.len(),
{
    if events.len() > 0 {
        let after = crate::table::replace_event(events, id, row);
        assert(after.drop_last() =~= crate::table::replace_event(events.drop_last(), id, row));
        lemma_found_after_replacing(events.drop_last(), id, row, wanted);
    }
}

pub proof fn lemma_found_in_place(events: Seq<EventRec>, id: Seq<char>, row: EventRec)
    requires
        row.event_id == id,
        crate::table::event_at(events, id) is Some,
    ensures
        crate::table::event_at(crate::table::replace_event(events, id, row), id) == Some(row),
    decreases events.len(),
{
    if events.len() > 0 {
        let after = crate::table::replace_event(events, id, row);
        assert(after.drop_last() =~= crate::table::replace_event(events.drop_last(), id, row));
        if events.last().event_id != id {
            lemma_found_in_place(events.drop_last(), id, row);
        }
    }
}

pub proof fn lemma_found_after_deleting(events: Seq<EventRec>, id: Seq<char>, wanted: Seq<char>)
    requires
        wanted != id,
    ensures
        crate::table::event_at(crate::table::without_event(events, id), wanted)
            == crate::table::event_at(events, wanted),
    decreases events.len(),
{
    reveal(Seq::filter);
    if events.len() > 0 {
        let rest = crate::table::without_event(events.drop_last(), id);
        lemma_found_after_deleting(events.drop_last(), id, wanted);
        assert(rest.push(events.last()).drop_last() =~= rest);
    }
}

proof fn lemma_replacing_keeps_settled(t: Tables, id: Seq<char>, old_row: EventRec, row: EventRec)
    requires
        t.settled(),
        crate::table::event_at(t.events, id) == Some(old_row),
        row.room_id == old_row.room_id,
        row.event_type == old_row.event_type,
        row.state_key == old_row.state_key,
        row.depth == old_row.depth,
        row.event_id == id || (crate::table::event_at(t.events, row.event_id) is None
            && !crate::store::outbox::is_referenced(t.state, id)),
    ensures
        (Tables { events: crate::table::replace_event(t.events, id, row), ..t }).settled(),
{
    let after = Tables { events: crate::table::replace_event(t.events, id, row), ..t };
    crate::table::lemma_event_at(t.events, id);
    let k = choose|k: int| 0 <= k < t.events.len() && t.events[k] == old_row;
    assert(is_counted(t.state, t.events[k]));
    assert forall|i: int| 0 <= i < after.state.len() implies stands_for_event(
        after.events,
        #[trigger] after.state[i],
    ) by {
        let wanted = after.state[i].event_id;
        assert(stands_for_event(t.events, t.state[i]));
        if wanted == id {
            assert(crate::store::outbox::is_referenced(t.state, id));
            lemma_found_in_place(t.events, id, row);
        } else {
            lemma_found_after_replacing(t.events, id, row, wanted);
        }
    }
    assert forall|i: int| 0 <= i < after.events.len() implies is_counted(
        after.state,
        #[trigger] after.events[i],
    ) by {
        assert(is_counted(t.state, t.events[i]));
    }
}

proof fn lemma_deleting_keeps_settled(t: Tables, id: Seq<char>)
    requires
        t.settled(),
        !crate::store::outbox::is_referenced(t.state, id),
    ensures
        (Tables { events: crate::table::without_event(t.events, id), ..t }).settled(),
{
    let keep = |e: EventRec| e.event_id != id;
    let after = Tables { events: crate::table::without_event(t.events, id), ..t };
    assert forall|i: int| 0 <= i < after.state.len() implies stands_for_event(
        after.events,
        #[trigger] after.state[i],
    ) by {
        assert(stands_for_event(t.events, t.state[i]));
        assert(t.state[i].event_id != id);
        lemma_found_after_deleting(t.events, id, t.state[i].event_id);
    }
    assert forall|i: int| 0 <= i < after.events.len() implies is_counted(
        after.state,
        #[trigger] after.events[i],
    ) by {
        assert(after.events.contains(after.events[i]));
        t.events.lemma_filter_contains_rev(keep, after.events[i]);
        let k = choose|k: int| 0 <= k < t.events.len() && t.events[k] == after.events[i];
        assert(is_counted(t.state, t.events[k]));
    }
}

/// An event that comes keeps the state settled.
proof fn lemma_event_keeps_settled(t: Tables, ev: StoredView)
    requires
        t.settled(),
    ensures
        t.apply_event(ev).settled(),
{
    if crate::table::event_at(t.events, ev.event_id) is None {
        let after = t.apply_event(ev);
        let new = crate::table::row_of(ev);
        assert(after.events == t.events.push(new));
        assert(after.events.drop_last() =~= t.events);
        assert forall|i: int| 0 <= i < after.state.len() implies stands_for_event(
            after.events,
            #[trigger] after.state[i],
        ) by {
            if i < t.state.len() {
                assert(stands_for_event(t.events, t.state[i]));
            }
        }
        assert forall|i: int| 0 <= i < after.events.len() implies is_counted(
            after.state,
            #[trigger] after.events[i],
        ) by {
            let e = after.events[i];
            if i < t.events.len() {
                assert(is_counted(t.state, t.events[i]));
            }
            if let Some(key) = e.state_key {
                crate::store::laws::new_state_event_counts(
                    t,
                    ev,
                    e.room_id,
                    e.event_type,
                    key,
                );
            }
        }
    }
}

/// Events that come keep the state settled.
pub proof fn applying_keeps_settled(t: Tables, evs: Seq<StoredView>)
    requires
        t.settled(),
    ensures
        t.apply_all(evs).settled(),
    decreases evs.len(),
{
    if evs.len() > 0 {
        applying_keeps_settled(t, evs.drop_last());
        lemma_event_keeps_settled(t.apply_all(evs.drop_last()), evs.last());
    }
}

proof fn lemma_queue_keeps_settled(t: Tables, row: EventRec, send: SendRec)
    requires
        t.settled(),
        row.state_key is None,
        crate::table::event_at(t.events, row.event_id) is None,
    ensures
        (Tables { events: t.events.push(row), sends: t.sends.push(send), ..t }).settled(),
{
    let after = Tables { events: t.events.push(row), sends: t.sends.push(send), ..t };
    assert(after.events.drop_last() =~= t.events);
    assert forall|i: int| 0 <= i < after.state.len() implies stands_for_event(
        after.events,
        #[trigger] after.state[i],
    ) by {
        assert(stands_for_event(t.events, t.state[i]));
    }
    assert forall|i: int| 0 <= i < after.events.len() implies is_counted(
        after.state,
        #[trigger] after.events[i],
    ) by {
        if i < t.events.len() {
            assert(is_counted(t.state, t.events[i]));
        }
    }
}

/// Every call keeps the state settled.
pub proof fn call_keeps_settled(t: Tables, call: StoreCall)
    requires
        t.settled(),
    ensures
        t.after_call(call).settled(),
{
    match call {
        StoreCall::Apply(batch) => {
            if let Ok(evs) = crate::store::parse_batch(batch) {
                applying_keeps_settled(t, evs);
            }
        },
        StoreCall::Queue { room, sender, body, txn, echo, ts } => {
            if t.queue_fault(room, txn, echo) is None {
                lemma_queue_keeps_settled(
                    t,
                    crate::store::outbox::echo_row(
                        echo,
                        room,
                        sender,
                        ts,
                        t.next_depth(room) as i64,
                        body,
                    ),
                    SendRec { txn_id: txn, room_id: room, body, event_id: echo, created_ts: ts },
                );
            }
        },
        StoreCall::Resolve(txn, acked) => {
            if !t.resolve_fault(txn) {
                if let Some(send) = crate::table::send_at(t.sends, txn) {
                    lemma_resolving_keeps_settled(t, txn, acked, send);
                }
            }
        },
        StoreCall::Fail(txn) => {
            if let Some(send) = crate::table::send_at(t.sends, txn) {
                if let Some(row) = crate::table::event_at(t.events, send.event_id) {
                    crate::table::lemma_event_at(t.events, send.event_id);
                    lemma_replacing_keeps_settled(
                        t,
                        send.event_id,
                        row,
                        EventRec { local: 2, ..row },
                    );
                    lemma_sends_apart(
                        Tables {
                            events: crate::table::replace_event(
                                t.events,
                                send.event_id,
                                EventRec { local: 2, ..row },
                            ),
                            ..t
                        },
                        t.failed(txn),
                    );
                } else {
                    lemma_sends_apart(t, t.failed(txn));
                }
            }
        },
        StoreCall::SetDecrypted(id, text) => {
            if let Some(row) = crate::table::event_at(t.events, id) {
                crate::table::lemma_event_at(t.events, id);
                lemma_replacing_keeps_settled(
                    t,
                    id,
                    row,
                    EventRec {
                        decrypted: Some(text),
                        decrypt_state: crate::table::DECRYPT_OK,
                        ..row
                    },
                );
            }
        },
        StoreCall::SetDecryptFailed(id) => {
            if let Some(row) = crate::table::event_at(t.events, id) {
                crate::table::lemma_event_at(t.events, id);
                lemma_replacing_keeps_settled(
                    t,
                    id,
                    row,
                    EventRec { decrypt_state: crate::table::DECRYPT_FAILED, ..row },
                );
            }
        },
        StoreCall::SetCommitProcessed(id) => {
            if let Some(row) = crate::table::event_at(t.events, id) {
                crate::table::lemma_event_at(t.events, id);
                lemma_replacing_keeps_settled(
                    t,
                    id,
                    row,
                    EventRec { decrypt_state: crate::table::DECRYPT_OK, ..row },
                );
            }
        },
        StoreCall::SaveToken(token) => {
            lemma_sends_apart(t, Tables { token: Some(token), ..t });
        },
    }
}

proof fn lemma_sends_apart(a: Tables, b: Tables)
    requires
        a.settled(),
        a.events == b.events,
        a.state == b.state,
    ensures
        b.settled(),
{
    assert forall|i: int| 0 <= i < b.state.len() implies stands_for_event(
        b.events,
        #[trigger] b.state[i],
    ) by {
        assert(stands_for_event(a.events, a.state[i]));
    }
    assert forall|i: int| 0 <= i < b.events.len() implies is_counted(
        b.state,
        #[trigger] b.events[i],
    ) by {
        assert(is_counted(a.state, a.events[i]));
    }
}

proof fn lemma_resolving_keeps_settled(t: Tables, txn: Seq<char>, acked: Seq<char>, send: SendRec)
    requires
        t.settled(),
        !t.resolve_fault(txn),
        crate::table::send_at(t.sends, txn) == Some(send),
    ensures
        t.resolved(txn, acked).settled(),
{
    let id = send.event_id;
    let after = t.resolved(txn, acked);
    if crate::store::outbox::is_referenced(t.state, id) {
        let k = choose|k: int| 0 <= k < t.state.len() && (#[trigger] t.state[k]).event_id == id;
        assert(stands_for_event(t.events, t.state[k]));
    }
    if crate::table::event_at(t.events, acked) is Some {
        lemma_deleting_keeps_settled(t, id);
        lemma_sends_apart(
            Tables { events: crate::table::without_event(t.events, id), ..t },
            after,
        );
    } else {
        match crate::table::event_at(t.events, id) {
            Some(row) => {
                let new = crate::store::outbox::promoted(row, acked);
                lemma_replacing_keeps_settled(t, id, row, new);
                lemma_sends_apart(
                    Tables { events: crate::table::replace_event(t.events, id, new), ..t },
                    after,
                );
            },
            None => {
                lemma_sends_apart(t, after);
            },
        }
    }
}

proof fn lemma_dequeued_is_wf(t: Tables, txn: Seq<char>, send: SendRec)
    requires
        t.wf(),
        crate::table::send_at(t.sends, txn) == Some(send),
    ensures
        (Tables { sends: crate::table::without_send(t.sends, txn), ..t }).wf(),
{
    crate::table::lemma_send_at(t.sends, txn);
    let k = choose|k: int| 0 <= k < t.sends.len() && t.sends[k] == send;
    crate::store::outbox::lemma_dequeue_keeps_wf(t, k);
}

proof fn lemma_replaced_is_wf(t: Tables, id: Seq<char>, row: EventRec)
    requires
        t.wf(),
        crate::table::event_at(t.events, id) is Some,
        row.event_id == id || (crate::table::event_at(t.events, row.event_id) is None
            && !crate::store::outbox::is_referenced(t.state, id)),
    ensures
        (Tables { events: crate::table::replace_event(t.events, id, row), ..t }).wf(),
{
    crate::table::lemma_event_at(t.events, id);
    let k = choose|k: int| 0 <= k < t.events.len() && (#[trigger] t.events[k]).event_id == id;
    crate::store::outbox::lemma_replace_keeps_wf(t, k, row);
}

/// Every call keeps the database well-formed.
pub proof fn call_keeps_the_invariant(t: Tables, call: StoreCall)
    requires
        t.wf(),
    ensures
        t.after_call(call).wf(),
{
    match call {
        StoreCall::Apply(batch) => {
            if let Ok(evs) = crate::store::parse_batch(batch) {
                crate::store::laws::applying_keeps_the_invariant(t, evs);
            }
        },
        StoreCall::Queue { room, sender, body, txn, echo, ts } => {
            if t.queue_fault(room, txn, echo) is None {
                crate::store::outbox::lemma_queue_keeps_wf(
                    t,
                    crate::store::outbox::echo_row(
                        echo,
                        room,
                        sender,
                        ts,
                        t.next_depth(room) as i64,
                        body,
                    ),
                    SendRec { txn_id: txn, room_id: room, body, event_id: echo, created_ts: ts },
                );
            }
        },
        StoreCall::Resolve(txn, acked) => {
            if !t.resolve_fault(txn) {
                if let Some(send) = crate::table::send_at(t.sends, txn) {
                    let id = send.event_id;
                    let found = crate::table::event_at(t.events, id);
                    let between = Tables { events: t.resolved(txn, acked).events, ..t };
                    crate::table::lemma_event_at(t.events, id);
                    if found is None {
                        crate::store::lemma_filter_all(t.events, |e: EventRec| e.event_id != id);
                    } else if crate::table::event_at(t.events, acked) is Some {
                        let k = choose|k: int|
                            0 <= k < t.events.len() && (#[trigger] t.events[k]).event_id == id;
                        crate::store::outbox::lemma_delete_keeps_wf(t, k);
                    } else {
                        lemma_replaced_is_wf(
                            t,
                            id,
                            crate::store::outbox::promoted(found->0, acked),
                        );
                    }
                    assert(between.wf());
                    lemma_dequeued_is_wf(between, txn, send);
                }
            }
        },
        StoreCall::Fail(txn) => {
            if let Some(send) = crate::table::send_at(t.sends, txn) {
                let id = send.event_id;
                crate::table::lemma_event_at(t.events, id);
                if let Some(row) = crate::table::event_at(t.events, id) {
                    lemma_replaced_is_wf(t, id, EventRec { local: 2, ..row });
                }
                lemma_dequeued_is_wf(Tables { events: t.failed(txn).events, ..t }, txn, send);
            }
        },
        StoreCall::SetDecrypted(id, text) => {
            crate::table::lemma_event_at(t.events, id);
            if let Some(row) = crate::table::event_at(t.events, id) {
                lemma_replaced_is_wf(
                    t,
                    id,
                    EventRec {
                        decrypted: Some(text),
                        decrypt_state: crate::table::DECRYPT_OK,
                        ..row
                    },
                );
            }
        },
        StoreCall::SetDecryptFailed(id) => {
            crate::table::lemma_event_at(t.events, id);
            if let Some(row) = crate::table::event_at(t.events, id) {
                lemma_replaced_is_wf(
                    t,
                    id,
                    EventRec { decrypt_state: crate::table::DECRYPT_FAILED, ..row },
                );
            }
        },
        StoreCall::SetCommitProcessed(id) => {
            crate::table::lemma_event_at(t.events, id);
            if let Some(row) = crate::table::event_at(t.events, id) {
                lemma_replaced_is_wf(
                    t,
                    id,
                    EventRec { decrypt_state: crate::table::DECRYPT_OK, ..row },
                );
            }
        },
        StoreCall::SaveToken(_) => {},
    }
}

/// Every call keeps the rows faithful to their payloads.
pub proof fn call_is_faithful(t: Tables, call: StoreCall)
    requires
        t.faithful(),
    ensures
        t.after_call(call).faithful(),
{
    match call {
        StoreCall::Apply(batch) => {
            if let Ok(evs) = crate::store::parse_batch(batch) {
                if batch.len() > 0 {
                    crate::store::faithful::batch_events_are_read(batch, 0);
                }
                assert forall|i: int| 0 <= i < evs.len() implies crate::store::faithful::is_read(
                    #[trigger] evs[i],
                ) by {
                    crate::store::faithful::batch_events_are_read(batch, i);
                }
                crate::store::faithful::applying_is_faithful(t, evs);
            }
        },
        StoreCall::Queue { room, sender, body, txn, echo, ts } => {
            crate::store::faithful::queuing_is_faithful(t, room, sender, body, txn, echo, ts);
        },
        StoreCall::Resolve(txn, acked) => {
            crate::store::faithful::resolving_is_faithful(t, txn, acked);
        },
        StoreCall::Fail(txn) => {
            crate::store::faithful::failing_is_faithful(t, txn);
        },
        StoreCall::SetDecrypted(id, text) => {
            crate::store::faithful::processing_is_faithful(t, id, text);
        },
        StoreCall::SetDecryptFailed(id) => {
            crate::store::faithful::processing_is_faithful(t, id, seq![]);
        },
        StoreCall::SetCommitProcessed(id) => {
            crate::store::faithful::processing_is_faithful(t, id, seq![]);
        },
        StoreCall::SaveToken(token) => {
            let after = Tables { token: Some(token), ..t };
            assert forall|i: int| 0 <= i < after.events.len() implies crate::table::agrees(
                #[trigger] after.events[i],
            ) by {
                assert(crate::table::agrees(t.events[i]));
            }
        },
    }
}

/// Every store that is reached from an empty one is well-formed, faithful and
/// settled, whatever calls were made, in whatever order, and whether or not they
/// succeeded.
pub proof fn reached_stores_are_settled(calls: Seq<StoreCall>)
    ensures
        Tables::empty().after_calls(calls).wf(),
        Tables::empty().after_calls(calls).faithful(),
        Tables::empty().after_calls(calls).settled(),
    decreases calls.len(),
{
    if calls.len() > 0 {
        let before = Tables::empty().after_calls(calls.drop_last());
        reached_stores_are_settled(calls.drop_last());
        call_keeps_the_invariant(before, calls.last());
        call_is_faithful(before, calls.last());
        call_keeps_settled(before, calls.last());
    }
}

/// The last writer by depth wins: the current state of a key is read without fault;
/// there is none exactly where no event of the log sets the key; and where there is
/// one, it is an event of the log that sets the key, confirmed, and no event of the
/// log that sets the key is deeper.
pub proof fn current_state_is_the_deepest(
    t: Tables,
    room: Seq<char>,
    event_type: Seq<char>,
    key: Seq<char>,
)
    requires
        t.faithful(),
        t.settled(),
    ensures
        match t.current_state(room, event_type, key) {
            Err(_) => false,
            Ok(None) => forall|i: int|
                0 <= i < t.events.len() ==> !row_sets(
                    #[trigger] t.events[i],
                    room,
                    event_type,
                    key,
                ),
            Ok(Some(ev)) => {
                &&& exists|k: int|
                    0 <= k < t.events.len() && row_sets(
                        #[trigger] t.events[k],
                        room,
                        event_type,
                        key,
                    ) && t.events[k].event_id == ev.event_id && t.events[k].payload == ev.payload
                &&& crate::store::laws::sets(ev, room, event_type, key)
                &&& ev.send_state == SendState::Confirmed
                &&& forall|i: int|
                    0 <= i < t.events.len() && row_sets(
                        #[trigger] t.events[i],
                        room,
                        event_type,
                        key,
                    ) ==> t.events[i].depth <= ev.depth
            },
        },
{
    crate::table::lemma_state_at(t.state, room, event_type, key);
    match crate::table::state_at(t.state, room, event_type, key) {
        None => {
            assert forall|i: int| 0 <= i < t.events.len() implies !row_sets(
                #[trigger] t.events[i],
                room,
                event_type,
                key,
            ) by {
                assert(is_counted(t.state, t.events[i]));
            }
        },
        Some(row) => {
            let n = choose|n: int| 0 <= n < t.state.len() && t.state[n] == row;
            assert(stands_for_event(t.events, t.state[n]));
            crate::table::lemma_event_at(t.events, row.event_id);
            let e = crate::table::event_at(t.events, row.event_id)->0;
            let k = choose|k: int| 0 <= k < t.events.len() && t.events[k] == e;
            assert(crate::table::agrees(t.events[k]));
            assert(row_sets(t.events[k], room, event_type, key));
            assert forall|i: int|
                0 <= i < t.events.len() && row_sets(
                    #[trigger] t.events[i],
                    room,
                    event_type,
                    key,
                ) implies t.events[i].depth <= e.depth by {
                assert(is_counted(t.state, t.events[i]));
            }
        },
    }
}

/// What has come into the log stays there: no call takes an event out of it but
/// the settling of the send whose echo it is.
pub proof fn events_stay_in_the_log(t: Tables, call: StoreCall, id: Seq<char>)
    requires
        crate::table::event_at(t.events, id) is Some,
        call matches StoreCall::Resolve(txn, _) ==> (crate::table::send_at(t.sends, txn) matches
            Some(send) ==> send.event_id != id),
    ensures
        crate::table::event_at(t.after_call(call).events, id) is Some,
{
    let after = t.after_call(call);
    match call {
        StoreCall::Apply(batch) => {
            if let Ok(evs) = crate::store::parse_batch(batch) {
                crate::store::laws::log_is_append_only(t, evs);
                crate::store::laws::lemma_found_in_longer(t.events, after.events, id);
            }
        },
        StoreCall::Queue { room, sender, body, txn, echo, ts } => {
            if t.queue_fault(room, txn, echo) is None {
                assert(after.events.drop_last() =~= t.events);
            }
        },
        StoreCall::Resolve(txn, acked) => {
            if !t.resolve_fault(txn) {
                if let Some(send) = crate::table::send_at(t.sends, txn) {
                    if crate::table::event_at(t.events, acked) is Some {
                        lemma_found_after_deleting(t.events, send.event_id, id);
                    } else if let Some(row) = crate::table::event_at(t.events, send.event_id) {
                        lemma_found_after_replacing(
                            t.events,
                            send.event_id,
                            crate::store::outbox::promoted(row, acked),
                            id,
                        );
                    }
                }
            }
        },
        StoreCall::Fail(txn) => {
            if let Some(send) = crate::table::send_at(t.sends, txn) {
                if let Some(row) = crate::table::event_at(t.events, send.event_id) {
                    lemma_stays(t.events, send.event_id, EventRec { local: 2, ..row }, id);
                }
            }
        },
        StoreCall::SetDecrypted(marked, text) => {
            if let Some(row) = crate::table::event_at(t.events, marked) {
                lemma_stays(
                    t.events,
                    marked,
                    EventRec {
                        decrypted: Some(text),
                        decrypt_state: crate::table::DECRYPT_OK,
                        ..row
                    },
                    id,
                );
            }
        },
        StoreCall::SetDecryptFailed(marked) => {
            if let Some(row) = crate::table::event_at(t.events, marked) {
                lemma_stays(
                    t.events,
                    marked,
                    EventRec { decrypt_state: crate::table::DECRYPT_FAILED, ..row },
                    id,
                );
            }
        },
        StoreCall::SetCommitProcessed(marked) => {
            if let Some(row) = crate::table::event_at(t.events, marked) {
                lemma_stays(
                    t.events,
                    marked,
                    EventRec { decrypt_state: crate::table::DECRYPT_OK, ..row },
                    id,
                );
            }
        },
        StoreCall::SaveToken(_) => {},
    }
}

proof fn lemma_stays(events: Seq<EventRec>, marked: Seq<char>, row: EventRec, id: Seq<char>)
    requires
        crate::table::event_at(events, marked) is Some,
        crate::table::event_at(events, marked)->0.event_id == row.event_id,
        crate::table::event_at(events, id) is Some,
    ensures
        crate::table::event_at(crate::table::replace_event(events, marked, row), id) is Some,
{
    crate::table::lemma_event_at(events, marked);
    if id == marked {
        lemma_found_in_place(events, marked, row);
    } else {
        lemma_found_after_replacing(events, marked, row, id);
    }
}

/// Whether none of a list of calls settles a send whose echo has the given id.
pub open spec fn spares(t: Tables, calls: Seq<StoreCall>, id: Seq<char>) -> bool
    decreases calls.len(),
{
    calls.len() == 0 || {
        let before = t.after_calls(calls.drop_last());
        &&& spares(t, calls.drop_last(), id)
        &&& calls.last() matches StoreCall::Resolve(txn, _) ==> (crate::table::send_at(
            before.sends,
            txn,
        ) matches Some(send) ==> send.event_id != id)
    }
}

proof fn lemma_stays_through_calls(t: Tables, calls: Seq<StoreCall>, id: Seq<char>)
    requires
        crate::table::event_at(t.events, id) is Some,
        spares(t, calls, id),
    ensures
        crate::table::event_at(t.after_calls(calls).events, id) is Some,
    decreases calls.len(),
{
    if calls.len() > 0 {
        lemma_stays_through_calls(t, calls.drop_last(), id);
        events_stay_in_the_log(t.after_calls(calls.drop_last()), calls.last(), id);
    }
}

/// A batch that was applied is a no-op when it comes again, whatever calls were
/// made since, and nothing of it counts as new. Only an event that was taken for a
/// local echo, and went with it, would be new.
pub proof fn earlier_batch_is_a_no_op(t: Tables, batch: Seq<JsonView>, later: Seq<StoreCall>)
    requires
        t.wf(),
        crate::store::parse_batch(batch) is Ok,
        forall|i: int|
            0 <= i < crate::store::parse_batch(batch)->Ok_0.len() ==> spares(
                t.after_call(StoreCall::Apply(batch)),
                later,
                (#[trigger] crate::store::parse_batch(batch)->Ok_0[i]).event_id,
            ),
    ensures
        ({
            let now = t.after_call(StoreCall::Apply(batch)).after_calls(later);
            &&& now.after_call(StoreCall::Apply(batch)) == now
            &&& now.count_new(crate::store::parse_batch(batch)->Ok_0) == 0
        }),
{
    let evs = crate::store::parse_batch(batch)->Ok_0;
    let once = t.after_call(StoreCall::Apply(batch));
    let now = once.after_calls(later);
    assert forall|i: int| 0 <= i < evs.len() implies crate::table::event_at(
        now.events,
        (#[trigger] evs[i]).event_id,
    ) is Some by {
        crate::store::laws::applied_events_are_there(t, evs, i);
        lemma_stays_through_calls(once, later, evs[i].event_id);
    }
    crate::store::laws::known_events_change_nothing(now, evs);
}

} // verus!
