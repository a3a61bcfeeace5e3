//! The outbound queue and the local echoes of what is in it.

use vstd::prelude::*;
use vstd::string::*;

use crate::event::{StoreError, StoreErrorView};
use crate::json::{object2, Json, JsonView};
use crate::order::{order_of, KeyView, SortKey};
use crate::store::Store;
use crate::table::{
    Change, ChangeView, EventRec, EventRow, SendRec, SendRow, StateRec, Tables,
};
use crate::text::{decimal_i64, decimal_u64, str_eq};

verus! {

/// The complaint that no depth is left behind the deepest, in the words of the
/// database.
pub const TOO_DEEP: &'static str = "Invalid column type Real at index: 0, name: COALESCE(MAX(depth), 0) + 1";

/// A message that waits to be sent.
#[derive(Debug, Clone, PartialEq, Eq)]
pub struct PendingSend {
    /// The id of the attempt.
    pub txn_id: String,
    pub room_id: String,
    pub body: String,
}

/// What a [`PendingSend`] holds.
pub struct PendingView {
    pub txn_id: Seq<char>,
    pub room_id: Seq<char>,
    pub body: Seq<char>,
}

impl View for PendingSend {
    type V = PendingView;

    open spec fn view(&self) -> PendingView {
        PendingView { txn_id: self.txn_id@, room_id: self.room_id@, body: self.body@ }
    }
}

/// The values of a list of pending messages.
pub open spec fn pending_views(v: Seq<PendingSend>) -> Seq<PendingView> {
    Seq::new(v.len(), |i: int| v[i]@)
}

/// The id of an attempt to send, made of the time and a running number.
pub open spec fn txn_id_of(ts: int, n: nat) -> Seq<char> {
    "m"@ + crate::text::decimal_int(ts) + "-"@ + crate::text::decimal(n)
}

/// The id of the local echo of an attempt to send.
pub open spec fn echo_id_of(ts: int, n: nat) -> Seq<char> {
    "$local-"@ + crate::text::decimal_int(ts) + "-"@ + crate::text::decimal(n)
}

/// The ids of an outbound message: that of the attempt and that of its echo.
/// `n` tells apart what is sent within one millisecond.
pub fn next_send_ids(ts: i64, n: u64) -> (r: (String, String))
    ensures
        r.0@ == txn_id_of(ts as int, n as nat),
        r.1@ == echo_id_of(ts as int, n as nat),
{
    let time = decimal_i64(ts);
    let number = decimal_u64(n);
    let mut txn = "m".to_owned();
    txn.append(time.as_str());
    txn.append("-");
    txn.append(number.as_str());
    let mut echo = "$local-".to_owned();
    echo.append(time.as_str());
    echo.append("-");
    echo.append(number.as_str());
    (txn, echo)
}

/// The greatest depth among a room's events.
pub open spec fn deepest(events: Seq<EventRec>, room: Seq<char>) -> Option<i64>
    decreases events.len(),
{
    if events.len() == 0 {
        None
    } else {
        let before = deepest(events.drop_last(), room);
        let depth = events.last().depth;
        if events.last().room_id != room {
            before
        } else {
            match before {
                Some(b) if b >= depth => Some(b),
                _ => Some(depth),
            }
        }
    }
}

/// The content of a plain text message.
pub open spec fn text_content(body: Seq<char>) -> JsonView {
    JsonView::Object(
        seq![("body"@, JsonView::Str(body)), ("msgtype"@, JsonView::Str("p.text"@))],
    )
}

/// The event of a local echo.
pub open spec fn echo_payload(
    event_id: Seq<char>,
    room: Seq<char>,
    sender: Seq<char>,
    ts: i64,
    depth: i64,
    body: Seq<char>,
) -> JsonView {
    JsonView::Object(
        seq![
            ("event_id"@, JsonView::Str(event_id)),
            ("room_id"@, JsonView::Str(room)),
            ("sender"@, JsonView::Str(sender)),
            ("type"@, JsonView::Str("p.room.message"@)),
            ("origin_server_ts"@, JsonView::of_int(ts)),
            ("depth"@, JsonView::of_int(depth)),
            ("content"@, text_content(body)),
        ],
    )
}

/// The row of a local echo.
pub open spec fn echo_row(
    event_id: Seq<char>,
    room: Seq<char>,
    sender: Seq<char>,
    ts: i64,
    depth: i64,
    body: Seq<char>,
) -> EventRec {
    EventRec {
        event_id,
        room_id: room,
        sender,
        event_type: "p.room.message"@,
        state_key: None,
        origin_server_ts: ts,
        depth,
        payload: echo_payload(event_id, room, sender, ts, depth, body),
        local: 1,
        decrypted: None,
        decrypt_state: 0,
    }
}

/// The row of an event of ours once the server has it under `acked`.
pub open spec fn promoted(row: EventRec, acked: Seq<char>) -> EventRec {
    EventRec {
        event_id: acked,
        local: 0,
        payload: row.payload.set("event_id"@, JsonView::Str(acked)),
        ..row
    }
}

/// Whether a piece of state was set by the event with the given id.
pub open spec fn is_referenced(state: Seq<StateRec>, id: Seq<char>) -> bool {
    exists|i: int| 0 <= i < state.len() && (#[trigger] state[i]).event_id == id
}

/// Queued messages are ordered by the time at which they were queued. Those of one
/// time stay in the order in which they were queued.
pub open spec fn send_key() -> spec_fn(SendRec) -> KeyView {
    |row: SendRec| KeyView { num: row.created_ts as int, text: seq![] }
}

/// What a queued message is shown as.
pub open spec fn pending_of(row: SendRec) -> PendingView {
    PendingView { txn_id: row.txn_id, room_id: row.room_id, body: row.body }
}

impl Tables {
    /// The depth behind every event of a room.
    pub open spec fn next_depth(self, room: Seq<char>) -> int {
        match deepest(self.events, room) {
            Some(d) => d + 1,
            None => 1,
        }
    }

    /// Why a message cannot be queued.
    pub open spec fn queue_fault(self, room: Seq<char>, txn: Seq<char>, echo: Seq<char>) -> Option<
        StoreErrorView,
    > {
        if self.next_depth(room) > i64::MAX {
            Some(StoreErrorView::Db(TOO_DEEP@))
        } else if crate::table::event_at(self.events, echo) is Some {
            Some(StoreErrorView::Db("UNIQUE constraint failed: events.event_id"@))
        } else if crate::table::send_at(self.sends, txn) is Some {
            Some(StoreErrorView::Db("UNIQUE constraint failed: pending_sends.txn_id"@))
        } else {
            None
        }
    }

    /// The database with a message queued: its echo behind the room's events, and
    /// its entry in the queue.
    pub open spec fn queued(
        self,
        room: Seq<char>,
        sender: Seq<char>,
        body: Seq<char>,
        txn: Seq<char>,
        echo: Seq<char>,
        ts: i64,
    ) -> Tables {
        Tables {
            events: self.events.push(
                echo_row(echo, room, sender, ts, self.next_depth(room) as i64, body),
            ),
            sends: self.sends.push(
                SendRec { txn_id: txn, room_id: room, body, event_id: echo, created_ts: ts },
            ),
            ..self
        }
    }

    /// The outbound queue, oldest first.
    pub open spec fn outbox(self) -> Seq<SendRec> {
        crate::order::order_by(self.sends, send_key())
    }

    /// Whether an acknowledged send cannot be settled: a piece of state hangs on
    /// its echo.
    pub open spec fn resolve_fault(self, txn: Seq<char>) -> bool {
        match crate::table::send_at(self.sends, txn) {
            Some(send) => crate::table::event_at(self.events, send.event_id) is Some
                && is_referenced(self.state, send.event_id),
            None => false,
        }
    }

    /// The database once the server has acknowledged a send under `acked`: the
    /// echo becomes that event, or goes where that event is there already, and
    /// the send leaves the queue.
    pub open spec fn resolved(self, txn: Seq<char>, acked: Seq<char>) -> Tables {
        match crate::table::send_at(self.sends, txn) {
            None => self,
            Some(send) => Tables {
                events: if crate::table::event_at(self.events, acked) is Some {
                    crate::table::without_event(self.events, send.event_id)
                } else {
                    match crate::table::event_at(self.events, send.event_id) {
                        Some(row) => crate::table::replace_event(
                            self.events,
                            send.event_id,
                            promoted(row, acked),
                        ),
                        None => self.events,
                    }
                },
                sends: crate::table::without_send(self.sends, txn),
                ..self
            },
        }
    }

    /// The database once a send was refused for good: its echo is marked, and it
    /// leaves the queue.
    pub open spec fn failed(self, txn: Seq<char>) -> Tables {
        match crate::table::send_at(self.sends, txn) {
            None => self,
            Some(send) => Tables {
                events: match crate::table::event_at(self.events, send.event_id) {
                    Some(row) => crate::table::replace_event(
                        self.events,
                        send.event_id,
                        EventRec { local: 2, ..row },
                    ),
                    None => self.events,
                },
                sends: crate::table::without_send(self.sends, txn),
                ..self
            },
        }
    }
}

/// Replacing a row by one whose id is its own, or that no row has and that no
/// state hangs on, keeps the database well-formed.
pub proof fn lemma_replace_keeps_wf(t: Tables, i: int, row: EventRec)
    requires
        t.wf(),
        0 <= i < t.events.len(),
        row.event_id == t.events[i].event_id || (crate::table::event_at(t.events, row.event_id)
            is None && !is_referenced(t.state, t.events[i].event_id)),
    ensures
        (Tables {
            events: crate::table::replace_event(t.events, t.events[i].event_id, row),
            ..t
        }).wf(),
        crate::table::replace_event(t.events, t.events[i].event_id, row) == t.events.update(i, row),
{
    let id = t.events[i].event_id;
    let events = crate::table::replace_event(t.events, id, row);
    let after = Tables { events, ..t };
    assert forall|j: int| 0 <= j < t.events.len() && j != i implies (
    #[trigger] t.events[j]).event_id != id by {
        if j < i {
            assert(t.events[j].event_id != t.events[i].event_id);
        } else {
            assert(t.events[i].event_id != t.events[j].event_id);
        }
    }
    assert(events =~= t.events.update(i, row));
    crate::table::lemma_event_at(t.events, row.event_id);
    assert forall|a: int, b: int| 0 <= a < b < events.len() implies (
    #[trigger] events[a]).event_id != (#[trigger] events[b]).event_id by {
        assert(t.events[a].event_id != t.events[b].event_id);
        if row.event_id != id {
            assert(t.events[a].event_id != row.event_id);
            assert(t.events[b].event_id != row.event_id);
        }
    }
    assert forall|k: int| 0 <= k < t.state.len() implies crate::table::event_at(
        events,
        (#[trigger] t.state[k]).event_id,
    ) is Some by {
        let wanted = t.state[k].event_id;
        crate::table::lemma_event_at(t.events, wanted);
        crate::table::lemma_event_at(events, wanted);
        let m = choose|m: int| 0 <= m < t.events.len() && (#[trigger] t.events[m]).event_id == wanted;
        if m == i {
            assert(events[i].event_id == wanted);
        } else {
            assert(events[m].event_id == wanted);
        }
    }
}

pub proof fn lemma_delete_keeps_wf(t: Tables, i: int)
    requires
        t.wf(),
        0 <= i < t.events.len(),
        !is_referenced(t.state, t.events[i].event_id),
    ensures
        (Tables {
            events: crate::table::without_event(t.events, t.events[i].event_id),
            ..t
        }).wf(),
        crate::table::without_event(t.events, t.events[i].event_id) == t.events.remove(i),
{
    let id = t.events[i].event_id;
    let keep = |e: EventRec| e.event_id != id;
    assert forall|j: int| 0 <= j < t.events.len() && j != i implies keep(#[trigger] t.events[j]) by {
        if j < i {
            assert(t.events[j].event_id != t.events[i].event_id);
        } else {
            assert(t.events[i].event_id != t.events[j].event_id);
        }
    }
    crate::store::lemma_filter_one(t.events, keep, i);
    let events = t.events.remove(i);
    assert forall|a: int, b: int| 0 <= a < b < events.len() implies (
    #[trigger] events[a]).event_id != (#[trigger] events[b]).event_id by {
        let x = if a < i { a } else { a + 1 };
        let y = if b < i { b } else { b + 1 };
        assert(t.events[x].event_id != t.events[y].event_id);
    }
    assert forall|k: int| 0 <= k < t.state.len() implies crate::table::event_at(
        events,
        (#[trigger] t.state[k]).event_id,
    ) is Some by {
        let wanted = t.state[k].event_id;
        crate::table::lemma_event_at(t.events, wanted);
        crate::table::lemma_event_at(events, wanted);
        let m = choose|m: int| 0 <= m < t.events.len() && (#[trigger] t.events[m]).event_id == wanted;
        if m < i {
            assert(events[m].event_id == wanted);
        } else if m > i {
            assert(events[m - 1].event_id == wanted);
        }
    }
}

pub proof fn lemma_dequeue_keeps_wf(t: Tables, i: int)
    requires
        t.wf(),
        0 <= i < t.sends.len(),
    ensures
        (Tables { sends: crate::table::without_send(t.sends, t.sends[i].txn_id), ..t }).wf(),
        crate::table::without_send(t.sends, t.sends[i].txn_id) == t.sends.remove(i),
{
    let txn = t.sends[i].txn_id;
    let keep = |s: SendRec| s.txn_id != txn;
    assert forall|j: int| 0 <= j < t.sends.len() && j != i implies keep(#[trigger] t.sends[j]) by {
        if j < i {
            assert(t.sends[j].txn_id != t.sends[i].txn_id);
        } else {
            assert(t.sends[i].txn_id != t.sends[j].txn_id);
        }
    }
    crate::store::lemma_filter_one(t.sends, keep, i);
    let sends = t.sends.remove(i);
    assert forall|a: int, b: int| 0 <= a < b < sends.len() implies (#[trigger] sends[a]).txn_id != (
    #[trigger] sends[b]).txn_id by {
        let x = if a < i { a } else { a + 1 };
        let y = if b < i { b } else { b + 1 };
        assert(t.sends[x].txn_id != t.sends[y].txn_id);
    }
}

proof fn lemma_absent_event(events: Seq<EventRec>, id: Seq<char>)
    requires
        crate::table::event_at(events, id) is None,
    ensures
        crate::table::without_event(events, id) == events,
{
    crate::table::lemma_event_at(events, id);
    crate::store::lemma_filter_all(events, |e: EventRec| e.event_id != id);
}

/// The content of a plain text message.
pub fn text_message(body: &str) -> (r: Json)
    ensures
        r@ == text_content(body@),
{
    object2("body", Json::string(body), "msgtype", Json::string("p.text"))
}

fn echo_event(event_id: &str, room: &str, sender: &str, ts: i64, depth: i64, body: &str) -> (r: Json)
    ensures
        r@ == echo_payload(event_id@, room@, sender@, ts, depth, body@),
{
    let mut m: Vec<(String, Json)> = Vec::new();
    m.push(("event_id".to_owned(), Json::string(event_id)));
    m.push(("room_id".to_owned(), Json::string(room)));
    m.push(("sender".to_owned(), Json::string(sender)));
    m.push(("type".to_owned(), Json::string("p.room.message")));
    m.push(("origin_server_ts".to_owned(), Json::number(ts)));
    m.push(("depth".to_owned(), Json::number(depth)));
    m.push(("content".to_owned(), text_message(body)));
    let r = Json::Object(m);
    assert(r@->Object_0 =~= echo_payload(event_id@, room@, sender@, ts, depth, body@)->Object_0);
    r
}

impl Store {
    /// Puts a row in the place of the one at `i`.
    pub(crate) fn replace_event(&mut self, i: usize, row: EventRow)
        requires
            old(self).wf(),
            i < old(self).tables().events.len(),
            row@.event_id == old(self).tables().events[i as int].event_id || (
            crate::table::event_at(old(self).tables().events, row@.event_id) is None
                && !is_referenced(
                old(self).tables().state,
                old(self).tables().events[i as int].event_id,
            )),
        ensures
            final(self).wf(),
            final(self).follows(*old(self)),
            final(self).tables() == (Tables {
                events: crate::table::replace_event(
                    old(self).tables().events,
                    old(self).tables().events[i as int].event_id,
                    row@,
                ),
                ..old(self).tables()
            }),
    {
        let ghost t = self.tables();
        let event_id = self.events[i].event_id.clone();
        let copy = row.clone();
        self.events.set(i, row);
        self.log.push(Change::Replace { event_id, row: copy });
        proof {
            lemma_replace_keeps_wf(t, i as int, row@);
            let change = ChangeView::Replace(t.events[i as int].event_id, row@);
            assert(self.tables().events =~= t.events.update(i as int, row@));
            assert(self.log() =~= old(self).log().push(change));
            crate::store::lemma_follows_itself(*old(self));
            crate::store::lemma_follows_step(*old(self), *old(self), *self, change);
        }
    }

    fn delete_event(&mut self, i: usize)
        requires
            old(self).wf(),
            i < old(self).tables().events.len(),
            !is_referenced(
                old(self).tables().state,
                old(self).tables().events[i as int].event_id,
            ),
        ensures
            final(self).wf(),
            final(self).follows(*old(self)),
            final(self).tables() == (Tables {
                events: crate::table::without_event(
                    old(self).tables().events,
                    old(self).tables().events[i as int].event_id,
                ),
                ..old(self).tables()
            }),
    {
        let ghost t = self.tables();
        let event_id = self.events[i].event_id.clone();
        let _gone = self.events.remove(i);
        self.log.push(Change::Delete { event_id });
        proof {
            lemma_delete_keeps_wf(t, i as int);
            let change = ChangeView::Delete(t.events[i as int].event_id);
            assert(self.tables().events =~= t.events.remove(i as int));
            assert(self.log() =~= old(self).log().push(change));
            crate::store::lemma_follows_itself(*old(self));
            crate::store::lemma_follows_step(*old(self), *old(self), *self, change);
        }
    }

    fn dequeue(&mut self, i: usize)
        requires
            old(self).wf(),
            i < old(self).tables().sends.len(),
        ensures
            final(self).wf(),
            final(self).follows(*old(self)),
            final(self).tables() == (Tables {
                sends: crate::table::without_send(
                    old(self).tables().sends,
                    old(self).tables().sends[i as int].txn_id,
                ),
                ..old(self).tables()
            }),
    {
        let ghost t = self.tables();
        let txn_id = self.sends[i].txn_id.clone();
        let _gone = self.sends.remove(i);
        self.log.push(Change::Dequeue { txn_id });
        proof {
            lemma_dequeue_keeps_wf(t, i as int);
            let change = ChangeView::Dequeue(t.sends[i as int].txn_id);
            assert(self.tables().sends =~= t.sends.remove(i as int));
            assert(self.log() =~= old(self).log().push(change));
            crate::store::lemma_follows_itself(*old(self));
            crate::store::lemma_follows_step(*old(self), *old(self), *self, change);
        }
    }

    fn next_depth(&self, room: &str) -> (r: Option<i64>)
        ensures
            match r {
                Some(d) => d == self.tables().next_depth(room@),
                None => self.tables().next_depth(room@) > i64::MAX,
            },
    {
        let ghost events = self.tables().events;
        let mut deep: Option<i64> = None;
        let mut i: usize = 0;
        assert(events.take(0) =~= seq![]);
        while i < self.events.len()
            invariant
                i <= self.events@.len(),
                events == self.tables().events,
                deep == deepest(events.take(i as int), room@),
            decreases self.events@.len() - i,
        {
            assert(events.take(i + 1).drop_last() =~= events.take(i as int));
            assert(events.take(i + 1).last() == self.events@[i as int]@);
            if str_eq(self.events[i].room_id.as_str(), room) {
                let depth: i64 = self.events[i].depth;
                let deeper = match deep {
                    Some(b) => b < depth,
                    None => true,
                };
                if deeper {
                    deep = Some(depth);
                }
            }
            i += 1;
        }
        assert(events.take(i as int) =~= events);
        match deep {
            Some(d) => d.checked_add(1),
            None => Some(1),
        }
    }

    /// Queues a message for sending: writes its echo into the room's timeline,
    /// behind every event there, and an entry into the outbound queue. `ids` are
    /// the ids of the attempt and of the echo. Returns the id of the attempt.
    pub fn queue_send(
        &mut self,
        room_id: &str,
        sender: &str,
        body: &str,
        ids: (String, String),
        ts: i64,
    ) -> (r: Result<String, StoreError>)
        requires
            old(self).wf(),
        ensures
            final(self).wf(),
            final(self).follows(*old(self)),
            match old(self).tables().queue_fault(room_id@, ids.0@, ids.1@) {
                Some(e) => r is Err && r->Err_0@ == e && *final(self) == *old(self),
                None => r is Ok && r->Ok_0@ == ids.0@ && final(self).tables() == old(
                    self,
                ).tables().queued(room_id@, sender@, body@, ids.0@, ids.1@, ts),
            },
    {
        proof {
            crate::store::lemma_follows_itself(*self);
        }
        let ghost t = self.tables();
        let depth: i64 = match self.next_depth(room_id) {
            Some(d) => d,
            None => {
                return Err(StoreError::Db { reason: TOO_DEEP.to_owned() });
            },
        };
        let (txn_id, event_id) = ids;
        if self.find_event(event_id.as_str()).is_some() {
            return Err(
                StoreError::Db { reason: "UNIQUE constraint failed: events.event_id".to_owned() },
            );
        }
        if self.find_send(txn_id.as_str()).is_some() {
            return Err(
                StoreError::Db {
                    reason: "UNIQUE constraint failed: pending_sends.txn_id".to_owned(),
                },
            );
        }
        let row = EventRow {
            event_id: event_id.clone(),
            room_id: room_id.to_owned(),
            sender: sender.to_owned(),
            event_type: "p.room.message".to_owned(),
            state_key: None,
            origin_server_ts: ts,
            depth,
            payload: echo_event(event_id.as_str(), room_id, sender, ts, depth, body),
            local: 1,
            decrypted: None,
            decrypt_state: 0,
        };
        let ghost shown = row@;
        self.append_event(row);
        let ghost between = *self;
        let send = SendRow {
            txn_id: txn_id.clone(),
            room_id: room_id.to_owned(),
            body: body.to_owned(),
            event_id,
            created_ts: ts,
        };
        let copy = send.clone();
        self.sends.push(send);
        self.log.push(Change::Enqueue(copy));
        proof {
            assert(shown == echo_row(event_id@, room_id@, sender@, ts, depth, body@));
            let change = ChangeView::Enqueue(send@);
            assert(self.tables().sends =~= t.sends.push(send@));
            assert(self.log() =~= between.log().push(change));
            crate::store::lemma_follows_step(
                *old(self),
                *old(self),
                between,
                ChangeView::Append(shown),
            );
            crate::store::lemma_follows_step(*old(self), between, *self, change);
            lemma_queue_keeps_wf(t, shown, send@);
        }
        Ok(txn_id)
    }

    /// The outbound queue, oldest message first.
    pub fn pending_sends(&self) -> (r: Result<Vec<PendingSend>, StoreError>)
        ensures
            r is Ok && pending_views(r->Ok_0@) == self.tables().outbox().map_values(
                |row: SendRec| pending_of(row),
            ),
    {
        let ghost rows = self.tables().sends;
        let mut keys: Vec<SortKey> = Vec::new();
        let mut i: usize = 0;
        while i < self.sends.len()
            invariant
                i <= self.sends@.len(),
                rows == self.tables().sends,
                keys@.len() == i,
                forall|j: int| 0 <= j < i ==> (#[trigger] keys@[j])@ == send_key()(rows[j]),
            decreases self.sends@.len() - i,
        {
            let key = SortKey {
                num: self.sends[i].created_ts as i128,
                text: String::new(),
            };
            assert(key@.text =~= seq![]);
            assert(key@ == send_key()(rows[i as int]));
            keys.push(key);
            i += 1;
        }
        let order = order_of(&keys);
        let ghost sorted = self.tables().outbox();
        proof {
            let pkey = crate::order::place_key(keys@);
            assert forall|j: int| 0 <= j < rows.len() implies #[trigger] pkey(j) == send_key()(
                rows[j],
            ) by {
                assert(keys@[j]@ == send_key()(rows[j]));
            }
            crate::order::lemma_order_places(rows, send_key(), rows.len(), pkey);
            assert(rows.take(rows.len() as int) =~= rows);
            assert(sorted =~= crate::order::rows_at(rows, crate::order::named_places(order@)));
        }
        let mut out: Vec<PendingSend> = Vec::new();
        let mut k: usize = 0;
        while k < order.len()
            invariant
                k <= order@.len(),
                rows == self.tables().sends,
                sorted == crate::order::rows_at(rows, crate::order::named_places(order@)),
                forall|j: int| 0 <= j < order@.len() ==> #[trigger] order@[j] < rows.len(),
                out@.len() == k,
                forall|j: int| 0 <= j < k ==> (#[trigger] out@[j])@ == pending_of(sorted[j]),
            decreases order@.len() - k,
        {
            let row = &self.sends[order[k]];
            assert(sorted[k as int] == row@);
            out.push(
                PendingSend {
                    txn_id: row.txn_id.clone(),
                    room_id: row.room_id.clone(),
                    body: row.body.clone(),
                },
            );
            k += 1;
        }
        assert(pending_views(out@) =~= sorted.map_values(|row: SendRec| pending_of(row)));
        Ok(out)
    }

    fn is_referenced(&self, id: &str) -> (r: bool)
        ensures
            r == is_referenced(self.tables().state, id@),
    {
        let ghost state = self.tables().state;
        let mut i: usize = 0;
        while i < self.state.len()
            invariant
                i <= self.state@.len(),
                state == self.tables().state,
                forall|j: int| 0 <= j < i ==> (#[trigger] state[j]).event_id != id@,
            decreases self.state@.len() - i,
        {
            assert(state[i as int] == self.state@[i as int]@);
            if str_eq(self.state[i].event_id.as_str(), id) {
                return true;
            }
            i += 1;
        }
        false
    }

    /// Settles a send that the server has acknowledged under `real_event_id`. Its
    /// echo becomes that event, or goes where the event has come already, so that
    /// one copy stays.
    pub fn resolve_send(&mut self, txn_id: &str, real_event_id: &str) -> (r: Result<
        (),
        StoreError,
    >)
        requires
            old(self).wf(),
        ensures
            final(self).wf(),
            final(self).follows(*old(self)),
            if old(self).tables().resolve_fault(txn_id@) {
                r is Err && r->Err_0@ == StoreErrorView::Db("FOREIGN KEY constraint failed"@)
                    && *final(self) == *old(self)
            } else {
                r is Ok && final(self).tables() == old(self).tables().resolved(
                    txn_id@,
                    real_event_id@,
                )
            },
    {
        proof {
            crate::store::lemma_follows_itself(*self);
        }
        let ghost t = self.tables();
        let place: usize = match self.find_send(txn_id) {
            None => return Ok(()),
            Some(i) => i,
        };
        assert(t.sends[place as int] == self.sends@[place as int]@);
        let provisional = self.sends[place].event_id.clone();
        let real_exists = self.find_event(real_event_id).is_some();
        let echo = self.find_event(provisional.as_str());
        match echo {
            None => {
                proof {
                    lemma_absent_event(t.events, provisional@);
                }
            },
            Some(k) => {
                assert(t.events[k as int] == self.events@[k as int]@);
                proof {
                    crate::table::lemma_event_at(t.events, provisional@);
                }
                if self.is_referenced(provisional.as_str()) {
                    return Err(
                        StoreError::Db { reason: "FOREIGN KEY constraint failed".to_owned() },
                    );
                }
                if real_exists {
                    self.delete_event(k);
                } else {
                    let mut row = self.events[k].clone();
                    row.event_id = real_event_id.to_owned();
                    row.local = 0;
                    row.payload.set("event_id", Json::string(real_event_id));
                    assert(row@ == promoted(t.events[k as int], real_event_id@));
                    self.replace_event(k, row);
                }
            },
        }
        let ghost between = *self;
        self.dequeue(place);
        proof {
            crate::store::changes_follow_in_turn(*old(self), between, *self);
        }
        Ok(())
    }

    /// Gives a send up: marks its echo as failed and takes it off the queue.
    pub fn fail_send(&mut self, txn_id: &str) -> (r: Result<(), StoreError>)
        requires
            old(self).wf(),
        ensures
            r is Ok,
            final(self).wf(),
            final(self).follows(*old(self)),
            final(self).tables() == old(self).tables().failed(txn_id@),
    {
        proof {
            crate::store::lemma_follows_itself(*self);
        }
        let ghost t = self.tables();
        let place: usize = match self.find_send(txn_id) {
            None => return Ok(()),
            Some(i) => i,
        };
        assert(t.sends[place as int] == self.sends@[place as int]@);
        let echo = self.find_event(self.sends[place].event_id.as_str());
        match echo {
            None => {},
            Some(k) => {
                assert(t.events[k as int] == self.events@[k as int]@);
                proof {
                    crate::table::lemma_event_at(t.events, t.sends[place as int].event_id);
                }
                let mut row = self.events[k].clone();
                row.local = 2;
                assert(row@ == (EventRec { local: 2, ..t.events[k as int] }));
                self.replace_event(k, row);
            },
        }
        let ghost between = *self;
        self.dequeue(place);
        proof {
            crate::store::changes_follow_in_turn(*old(self), between, *self);
        }
        Ok(())
    }
}

pub proof fn lemma_queue_keeps_wf(t: Tables, row: EventRec, send: SendRec)
    requires
        t.wf(),
        crate::table::event_at(t.events, row.event_id) is None,
        crate::table::send_at(t.sends, send.txn_id) is None,
    ensures
        (Tables { events: t.events.push(row), sends: t.sends.push(send), ..t }).wf(),
{
    let after = Tables { events: t.events.push(row), sends: t.sends.push(send), ..t };
    crate::table::lemma_event_at(t.events, row.event_id);
    crate::table::lemma_send_at(t.sends, send.txn_id);
    assert forall|i: int| 0 <= i < after.state.len() implies crate::table::event_at(
        after.events,
        (#[trigger] after.state[i]).event_id,
    ) is Some by {
        assert(crate::table::event_at(t.events, t.state[i].event_id) is Some);
        assert(after.events.drop_last() =~= t.events);
    }
}

} // verus!
