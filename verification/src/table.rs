//! The rows of the local database, and the changes that are made to them.

use vstd::prelude::*;
use vstd::string::*;

use crate::event::StoredView;
use crate::json::{Json, JsonView};

verus! {

/// The value of `decrypt_state` once the text of an event is cached.
pub const DECRYPT_OK: i64 = 1;

/// The value of `decrypt_state` once an event is known to be undecryptable.
pub const DECRYPT_FAILED: i64 = 2;

/// A row of the event log. `local` says how the sending of an event of our own
/// stands; `decrypt_state` is zero until decrypting was tried.
pub struct EventRow {
    pub event_id: String,
    pub room_id: String,
    pub sender: String,
    pub event_type: String,
    pub state_key: Option<String>,
    pub origin_server_ts: i64,
    pub depth: i64,
    pub payload: Json,
    pub local: i64,
    pub decrypted: Option<String>,
    pub decrypt_state: i64,
}

/// A row of the current state of rooms: the event that last set a piece of it.
pub struct StateRow {
    pub room_id: String,
    pub event_type: String,
    pub state_key: String,
    pub event_id: String,
    pub depth: i64,
}

/// A row of the outbound queue.
pub struct SendRow {
    pub txn_id: String,
    pub room_id: String,
    pub body: String,
    pub event_id: String,
    pub created_ts: i64,
}

/// What an [`EventRow`] holds.
#[verifier::ext_equal]
pub struct EventRec {
    pub event_id: Seq<char>,
    pub room_id: Seq<char>,
    pub sender: Seq<char>,
    pub event_type: Seq<char>,
    pub state_key: Option<Seq<char>>,
    pub origin_server_ts: i64,
    pub depth: i64,
    pub payload: JsonView,
    pub local: i64,
    pub decrypted: Option<Seq<char>>,
    pub decrypt_state: i64,
}

/// What a [`StateRow`] holds.
#[verifier::ext_equal]
pub struct StateRec {
    pub room_id: Seq<char>,
    pub event_type: Seq<char>,
    pub state_key: Seq<char>,
    pub event_id: Seq<char>,
    pub depth: i64,
}

/// What a [`SendRow`] holds.
#[verifier::ext_equal]
pub struct SendRec {
    pub txn_id: Seq<char>,
    pub room_id: Seq<char>,
    pub body: Seq<char>,
    pub event_id: Seq<char>,
    pub created_ts: i64,
}

impl View for EventRow {
    type V = EventRec;

    open spec fn view(&self) -> EventRec {
        EventRec {
            event_id: self.event_id@,
            room_id: self.room_id@,
            sender: self.sender@,
            event_type: self.event_type@,
            state_key: crate::json::opt_string_view(self.state_key),
            origin_server_ts: self.origin_server_ts,
            depth: self.depth,
            payload: self.payload@,
            local: self.local,
            decrypted: crate::json::opt_string_view(self.decrypted),
            decrypt_state: self.decrypt_state,
        }
    }
}

impl View for StateRow {
    type V = StateRec;

    open spec fn view(&self) -> StateRec {
        StateRec {
            room_id: self.room_id@,
            event_type: self.event_type@,
            state_key: self.state_key@,
            event_id: self.event_id@,
            depth: self.depth,
        }
    }
}

impl View for SendRow {
    type V = SendRec;

    open spec fn view(&self) -> SendRec {
        SendRec {
            txn_id: self.txn_id@,
            room_id: self.room_id@,
            body: self.body@,
            event_id: self.event_id@,
            created_ts: self.created_ts,
        }
    }
}

fn clone_opt(s: &Option<String>) -> (r: Option<String>)
    ensures
        crate::json::opt_string_view(r) == crate::json::opt_string_view(*s),
{
    match s {
        Some(t) => Some(t.clone()),
        None => None,
    }
}

impl Clone for EventRow {
    fn clone(&self) -> (r: EventRow)
        ensures
            r@ == self@,
    {
        EventRow {
            event_id: self.event_id.clone(),
            room_id: self.room_id.clone(),
            sender: self.sender.clone(),
            event_type: self.event_type.clone(),
            state_key: clone_opt(&self.state_key),
            origin_server_ts: self.origin_server_ts,
            depth: self.depth,
            payload: self.payload.clone(),
            local: self.local,
            decrypted: clone_opt(&self.decrypted),
            decrypt_state: self.decrypt_state,
        }
    }
}

impl Clone for StateRow {
    fn clone(&self) -> (r: StateRow)
        ensures
            r@ == self@,
    {
        StateRow {
            room_id: self.room_id.clone(),
            event_type: self.event_type.clone(),
            state_key: self.state_key.clone(),
            event_id: self.event_id.clone(),
            depth: self.depth,
        }
    }
}

impl Clone for SendRow {
    fn clone(&self) -> (r: SendRow)
        ensures
            r@ == self@,
    {
        SendRow {
            txn_id: self.txn_id.clone(),
            room_id: self.room_id.clone(),
            body: self.body.clone(),
            event_id: self.event_id.clone(),
            created_ts: self.created_ts,
        }
    }
}

/// What the local database holds.
#[verifier::ext_equal]
pub struct Tables {
    pub events: Seq<EventRec>,
    pub state: Seq<StateRec>,
    pub sends: Seq<SendRec>,
    pub token: Option<Seq<char>>,
}

/// One change of one row, for the database on disk to follow.
pub enum Change {
    /// A new event.
    Append(EventRow),
    /// An event takes the place of the one with the given id.
    Replace { event_id: String, row: EventRow },
    /// The event with the given id goes.
    Delete { event_id: String },
    /// A piece of state is set, in its place or new.
    SetState(StateRow),
    /// A new entry of the outbound queue.
    Enqueue(SendRow),
    /// The entry with the given id leaves the outbound queue.
    Dequeue { txn_id: String },
    /// The sync token is set.
    SetToken { token: String },
}

/// What a [`Change`] says.
pub enum ChangeView {
    Append(EventRec),
    Replace(Seq<char>, EventRec),
    Delete(Seq<char>),
    SetState(StateRec),
    Enqueue(SendRec),
    Dequeue(Seq<char>),
    SetToken(Seq<char>),
}

impl View for Change {
    type V = ChangeView;

    open spec fn view(&self) -> ChangeView {
        match self {
            Change::Append(row) => ChangeView::Append(row@),
            Change::Replace { event_id, row } => ChangeView::Replace(event_id@, row@),
            Change::Delete { event_id } => ChangeView::Delete(event_id@),
            Change::SetState(row) => ChangeView::SetState(row@),
            Change::Enqueue(row) => ChangeView::Enqueue(row@),
            Change::Dequeue { txn_id } => ChangeView::Dequeue(txn_id@),
            Change::SetToken { token } => ChangeView::SetToken(token@),
        }
    }
}

/// The event with the given id.
pub open spec fn event_at(events: Seq<EventRec>, id: Seq<char>) -> Option<EventRec>
    decreases events.len(),
{
    if events.len() == 0 {
        None
    } else if events.last().event_id == id {
        Some(events.last())
    } else {
        event_at(events.drop_last(), id)
    }
}

/// Whether a row of state is the one for a state key of a room.
pub open spec fn is_state(
    row: StateRec,
    room: Seq<char>,
    event_type: Seq<char>,
    key: Seq<char>,
) -> bool {
    row.room_id == room && row.event_type == event_type && row.state_key == key
}

/// The row for a state key of a room.
pub open spec fn state_at(
    state: Seq<StateRec>,
    room: Seq<char>,
    event_type: Seq<char>,
    key: Seq<char>,
) -> Option<StateRec>
    decreases state.len(),
{
    if state.len() == 0 {
        None
    } else if is_state(state.last(), room, event_type, key) {
        Some(state.last())
    } else {
        state_at(state.drop_last(), room, event_type, key)
    }
}

/// The queued send with the given id.
pub open spec fn send_at(sends: Seq<SendRec>, txn: Seq<char>) -> Option<SendRec>
    decreases sends.len(),
{
    if sends.len() == 0 {
        None
    } else if sends.last().txn_id == txn {
        Some(sends.last())
    } else {
        send_at(sends.drop_last(), txn)
    }
}

/// The events with `row` in the place of the one with the given id.
pub open spec fn replace_event(
    events: Seq<EventRec>,
    id: Seq<char>,
    row: EventRec,
) -> Seq<EventRec> {
    Seq::new(
        events.len(),
        |i: int|
            if events[i].event_id == id {
                row
            } else {
                events[i]
            },
    )
}

/// The events without the one with the given id.
pub open spec fn without_event(events: Seq<EventRec>, id: Seq<char>) -> Seq<EventRec> {
    events.filter(|e: EventRec| e.event_id != id)
}

/// The state with one row set: in its place where there is one for its key,
/// else at the end.
pub open spec fn put_state(state: Seq<StateRec>, row: StateRec) -> Seq<StateRec> {
    if state_at(state, row.room_id, row.event_type, row.state_key) is Some {
        Seq::new(
            state.len(),
            |i: int|
                if is_state(state[i], row.room_id, row.event_type, row.state_key) {
                    row
                } else {
                    state[i]
                },
        )
    } else {
        state.push(row)
    }
}

/// The queue without the entry with the given id.
pub open spec fn without_send(sends: Seq<SendRec>, txn: Seq<char>) -> Seq<SendRec> {
    sends.filter(|s: SendRec| s.txn_id != txn)
}

impl Tables {
    /// The database after one change.
    pub open spec fn step(self, change: ChangeView) -> Tables {
        match change {
            ChangeView::Append(row) => Tables { events: self.events.push(row), ..self },
            ChangeView::Replace(id, row) => Tables {
                events: replace_event(self.events, id, row),
                ..self
            },
            ChangeView::Delete(id) => Tables { events: without_event(self.events, id), ..self },
            ChangeView::SetState(row) => Tables { state: put_state(self.state, row), ..self },
            ChangeView::Enqueue(row) => Tables { sends: self.sends.push(row), ..self },
            ChangeView::Dequeue(txn) => Tables { sends: without_send(self.sends, txn), ..self },
            ChangeView::SetToken(token) => Tables { token: Some(token), ..self },
        }
    }

    /// The database after a list of changes.
    pub open spec fn replay(self, changes: Seq<ChangeView>) -> Tables
        decreases changes.len(),
    {
        if changes.len() == 0 {
            self
        } else {
            self.replay(changes.drop_last()).step(changes.last())
        }
    }

    /// What holds of the database at all times: ids and keys occur once, and
    /// every piece of state was set by an event that is there.
    pub open spec fn wf(self) -> bool {
        &&& forall|i: int, j: int|
            0 <= i < j < self.events.len() ==> (#[trigger] self.events[i]).event_id != (
            #[trigger] self.events[j]).event_id
        &&& forall|i: int, j: int|
            0 <= i < j < self.state.len() ==> !is_state(
                #[trigger] self.state[i],
                (#[trigger] self.state[j]).room_id,
                self.state[j].event_type,
                self.state[j].state_key,
            )
        &&& forall|i: int, j: int|
            0 <= i < j < self.sends.len() ==> (#[trigger] self.sends[i]).txn_id != (
            #[trigger] self.sends[j]).txn_id
        &&& forall|i: int|
            0 <= i < self.state.len() ==> event_at(
                self.events,
                (#[trigger] self.state[i]).event_id,
            ) is Some
    }
}

/// Whether the columns of a row say what its payload says.
pub open spec fn agrees(row: EventRec) -> bool {
    &&& crate::event::event_fault(row.payload) is None
    &&& ({
        let read = crate::event::event_fields(row.payload);
        &&& read.event_id == row.event_id
        &&& read.room_id == row.room_id
        &&& read.sender == row.sender
        &&& read.event_type == row.event_type
        &&& read.state_key == row.state_key
        &&& read.origin_server_ts == row.origin_server_ts
        &&& read.depth == row.depth
    })
}

/// The row of an event that has just come.
pub open spec fn row_of(ev: StoredView) -> EventRec {
    EventRec {
        event_id: ev.event_id,
        room_id: ev.room_id,
        sender: ev.sender,
        event_type: ev.event_type,
        state_key: ev.state_key,
        origin_server_ts: ev.origin_server_ts,
        depth: ev.depth,
        payload: ev.payload,
        local: 0,
        decrypted: None,
        decrypt_state: 0,
    }
}

/// The rows that a vector of events shows.
pub open spec fn event_recs(rows: Seq<EventRow>) -> Seq<EventRec> {
    Seq::new(rows.len(), |i: int| rows[i]@)
}

/// The rows that a vector of state shows.
pub open spec fn state_recs(rows: Seq<StateRow>) -> Seq<StateRec> {
    Seq::new(rows.len(), |i: int| rows[i]@)
}

/// The rows that a vector of queued sends shows.
pub open spec fn send_recs(rows: Seq<SendRow>) -> Seq<SendRec> {
    Seq::new(rows.len(), |i: int| rows[i]@)
}

/// The changes that a vector shows.
pub open spec fn change_views(changes: Seq<Change>) -> Seq<ChangeView> {
    Seq::new(changes.len(), |i: int| changes[i]@)
}

/// Replaying one list of changes and then another is replaying both.
pub proof fn lemma_replay_in_turn(t: Tables, first: Seq<ChangeView>, then_these: Seq<ChangeView>)
    ensures
        t.replay(first + then_these) == t.replay(first).replay(then_these),
    decreases then_these.len(),
{
    if then_these.len() == 0 {
        assert(first + then_these =~= first);
    } else {
        assert((first + then_these).drop_last() =~= first + then_these.drop_last());
        lemma_replay_in_turn(t, first, then_these.drop_last());
    }
}

/// An event is found by its id exactly where some row has that id, and what is
/// found is such a row.
pub proof fn lemma_event_at(events: Seq<EventRec>, id: Seq<char>)
    ensures
        event_at(events, id) is Some <==> exists|i: int|
            0 <= i < events.len() && (#[trigger] events[i]).event_id == id,
        event_at(events, id) is Some ==> events.contains(event_at(events, id)->0)
            && event_at(events, id)->0.event_id == id,
    decreases events.len(),
{
    if events.len() > 0 {
        lemma_event_at(events.drop_last(), id);
        if events.last().event_id == id {
            assert(events[events.len() - 1].event_id == id);
            assert(events.contains(events.last()));
        } else {
            if event_at(events, id) is Some {
                let k = choose|k: int|
                    0 <= k < events.len() - 1 && events.drop_last()[k] == event_at(events, id)->0;
                assert(events[k] == event_at(events, id)->0);
            }
            if exists|i: int| 0 <= i < events.len() && (#[trigger] events[i]).event_id == id {
                let k = choose|i: int|
                    0 <= i < events.len() && (#[trigger] events[i]).event_id == id;
                assert(events.drop_last()[k].event_id == id);
            }
        }
    }
}

/// A piece of state is found exactly where some row is for it, and what is found
/// is such a row.
pub proof fn lemma_state_at(
    state: Seq<StateRec>,
    room: Seq<char>,
    event_type: Seq<char>,
    key: Seq<char>,
)
    ensures
        state_at(state, room, event_type, key) is Some <==> exists|i: int|
            0 <= i < state.len() && is_state(#[trigger] state[i], room, event_type, key),
        state_at(state, room, event_type, key) is Some ==> state.contains(
            state_at(state, room, event_type, key)->0,
        ) && is_state(state_at(state, room, event_type, key)->0, room, event_type, key),
    decreases state.len(),
{
    if state.len() > 0 {
        lemma_state_at(state.drop_last(), room, event_type, key);
        if is_state(state.last(), room, event_type, key) {
            assert(is_state(state[state.len() - 1], room, event_type, key));
            assert(state.contains(state.last()));
        } else {
            let found = state_at(state, room, event_type, key);
            if found is Some {
                let k = choose|k: int| 0 <= k < state.len() - 1 && state.drop_last()[k] == found->0;
                assert(state[k] == found->0);
            }
            if exists|i: int| 0 <= i < state.len() && is_state(#[trigger] state[i], room, event_type, key) {
                let k = choose|i: int|
                    0 <= i < state.len() && is_state(#[trigger] state[i], room, event_type, key);
                assert(is_state(state.drop_last()[k], room, event_type, key));
            }
        }
    }
}

/// A queued send is found exactly where some row has its id, and what is found
/// is such a row.
pub proof fn lemma_send_at(sends: Seq<SendRec>, txn: Seq<char>)
    ensures
        send_at(sends, txn) is Some <==> exists|i: int|
            0 <= i < sends.len() && (#[trigger] sends[i]).txn_id == txn,
        send_at(sends, txn) is Some ==> sends.contains(send_at(sends, txn)->0) && send_at(
            sends,
            txn,
        )->0.txn_id == txn,
    decreases sends.len(),
{
    if sends.len() > 0 {
        lemma_send_at(sends.drop_last(), txn);
        if sends.last().txn_id == txn {
            assert(sends[sends.len() - 1].txn_id == txn);
            assert(sends.contains(sends.last()));
        } else {
            let found = send_at(sends, txn);
            if found is Some {
                let k = choose|k: int| 0 <= k < sends.len() - 1 && sends.drop_last()[k] == found->0;
                assert(sends[k] == found->0);
            }
            if exists|i: int| 0 <= i < sends.len() && (#[trigger] sends[i]).txn_id == txn {
                let k = choose|i: int| 0 <= i < sends.len() && (#[trigger] sends[i]).txn_id == txn;
                assert(sends.drop_last()[k].txn_id == txn);
            }
        }
    }
}

/// In a well-formed database the row at a place is the one found by its id.
pub proof fn lemma_unique_event(t: Tables, i: int)
    requires
        t.wf(),
        0 <= i < t.events.len(),
    ensures
        event_at(t.events, t.events[i].event_id) == Some(t.events[i]),
{
    let id = t.events[i].event_id;
    lemma_event_at(t.events, id);
    let found = event_at(t.events, id)->0;
    let k = choose|k: int| 0 <= k < t.events.len() && t.events[k] == found;
    if k < i {
        assert(t.events[k].event_id != t.events[i].event_id);
    } else if i < k {
        assert(t.events[i].event_id != t.events[k].event_id);
    }
}

/// In a well-formed database the row of state at a place is the one found by
/// its key.
pub proof fn lemma_unique_state(t: Tables, i: int)
    requires
        t.wf(),
        0 <= i < t.state.len(),
    ensures
        state_at(t.state, t.state[i].room_id, t.state[i].event_type, t.state[i].state_key) == Some(
            t.state[i],
        ),
{
    let row = t.state[i];
    lemma_state_at(t.state, row.room_id, row.event_type, row.state_key);
    let found = state_at(t.state, row.room_id, row.event_type, row.state_key)->0;
    let k = choose|k: int| 0 <= k < t.state.len() && t.state[k] == found;
    if k < i {
        assert(!is_state(
            t.state[k],
            t.state[i].room_id,
            t.state[i].event_type,
            t.state[i].state_key,
        ));
    } else if i < k {
        assert(!is_state(
            t.state[i],
            t.state[k].room_id,
            t.state[k].event_type,
            t.state[k].state_key,
        ));
    }
}

/// In a well-formed database the queued send at a place is the one found by its
/// id.
pub proof fn lemma_unique_send(t: Tables, i: int)
    requires
        t.wf(),
        0 <= i < t.sends.len(),
    ensures
        send_at(t.sends, t.sends[i].txn_id) == Some(t.sends[i]),
{
    let txn = t.sends[i].txn_id;
    lemma_send_at(t.sends, txn);
    let found = send_at(t.sends, txn)->0;
    let k = choose|k: int| 0 <= k < t.sends.len() && t.sends[k] == found;
    if k < i {
        assert(t.sends[k].txn_id != t.sends[i].txn_id);
    } else if i < k {
        assert(t.sends[i].txn_id != t.sends[k].txn_id);
    }
}

} // verus!
