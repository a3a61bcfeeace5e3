//! The local store: the event log, the current state of rooms folded from it,
//! the outbound queue and the sync token.
//!
//! Reads are answered from here. Every write is also recorded as a list of row
//! changes, which the database on disk follows.

use vstd::prelude::*;
use vstd::string::*;

pub mod echoes;
pub mod faithful;
pub mod inbound;
pub mod laws;
pub mod outbox;
pub mod pages;
pub mod paging;
pub mod reads;
pub mod schema;
pub mod settled;
pub mod summary;
pub mod timeline;

pub use crate::event::{Membership, SendState, StoreError, StoredEvent};
pub use crate::store::inbound::{PendingDecrypt, PendingMls};
pub use crate::store::outbox::{next_send_ids, PendingSend};
pub use crate::store::summary::RoomSummary;
use crate::event::{MembershipView, StoreErrorView, StoredView};
use crate::json::{Json, JsonView};
use crate::table::{
    Change, ChangeView, EventRec, EventRow, SendRow, StateRec, StateRow, Tables,
};
use crate::text::str_eq;

verus! {

impl Tables {
    /// The log with an event that has come, where it is not there yet.
    pub open spec fn insert_event(self, ev: StoredView) -> Tables {
        if crate::table::event_at(self.events, ev.event_id) is Some {
            self
        } else {
            Tables { events: self.events.push(crate::table::row_of(ev)), ..self }
        }
    }

    /// The state with a new state event folded in: it counts where its depth is at
    /// least that of the event that counted so far.
    pub open spec fn fold_state(self, ev: StoredView) -> Tables {
        match ev.state_key {
            None => self,
            Some(key) => {
                let row = StateRec {
                    room_id: ev.room_id,
                    event_type: ev.event_type,
                    state_key: key,
                    event_id: ev.event_id,
                    depth: ev.depth,
                };
                match crate::table::state_at(self.state, ev.room_id, ev.event_type, key) {
                    Some(incumbent) if ev.depth < incumbent.depth => self,
                    _ => Tables { state: crate::table::put_state(self.state, row), ..self },
                }
            },
        }
    }

    /// The database after one event has come. One that the log holds already has
    /// been dealt with.
    pub open spec fn apply_event(self, ev: StoredView) -> Tables {
        if crate::table::event_at(self.events, ev.event_id) is Some {
            self
        } else {
            self.insert_event(ev).fold_state(ev)
        }
    }

    /// The database after a list of events has come.
    pub open spec fn apply_all(self, evs: Seq<StoredView>) -> Tables
        decreases evs.len(),
    {
        if evs.len() == 0 {
            self
        } else {
            self.apply_all(evs.drop_last()).apply_event(evs.last())
        }
    }

    /// How many events of a list are new.
    pub open spec fn count_new(self, evs: Seq<StoredView>) -> nat
        decreases evs.len(),
    {
        if evs.len() == 0 {
            0
        } else {
            self.count_new(evs.drop_last()) + (if crate::table::event_at(
                self.apply_all(evs.drop_last()).events,
                evs.last().event_id,
            ) is Some {
                0nat
            } else {
                1nat
            })
        }
    }
}

/// The events of a batch, or the complaint about the first that lacks a field.
pub open spec fn parse_batch(batch: Seq<JsonView>) -> Result<Seq<StoredView>, StoreErrorView>
    decreases batch.len(),
{
    if batch.len() == 0 {
        Ok(seq![])
    } else {
        match parse_batch(batch.drop_last()) {
            Err(e) => Err(e),
            Ok(evs) => match crate::event::parse_event(batch.last()) {
                Err(e) => Err(e),
                Ok(ev) => Ok(evs.push(ev)),
            },
        }
    }
}

/// The values of a list of JSON values.
pub open spec fn json_views(batch: Seq<Json>) -> Seq<JsonView> {
    Seq::new(batch.len(), |i: int| batch[i]@)
}

/// The values of a list of events.
pub open spec fn stored_views(evs: Seq<StoredEvent>) -> Seq<StoredView> {
    Seq::new(evs.len(), |i: int| evs[i]@)
}

pub proof fn lemma_filter_all<A>(s: Seq<A>, keep: spec_fn(A) -> bool)
    requires
        forall|i: int| 0 <= i < s.len() ==> keep(#[trigger] s[i]),
    ensures
        s.filter(keep) == s,
    decreases s.len(),
{
    reveal(Seq::filter);
    if s.len() > 0 {
        assert(keep(s[s.len() - 1]));
        assert forall|i: int| 0 <= i < s.drop_last().len() implies keep(
            #[trigger] s.drop_last()[i],
        ) by {
            assert(keep(s[i]));
        }
        lemma_filter_all(s.drop_last(), keep);
        assert(s =~= s.drop_last().push(s.last()));
    } else {
        assert(s.filter(keep) =~= s);
    }
}

proof fn lemma_filter_one<A>(s: Seq<A>, keep: spec_fn(A) -> bool, i: int)
    requires
        0 <= i < s.len(),
        !keep(s[i]),
        forall|j: int| 0 <= j < s.len() && j != i ==> keep(#[trigger] s[j]),
    ensures
        s.filter(keep) == s.remove(i),
{
    let front = s.take(i);
    let one = seq![s[i]];
    let back = s.skip(i + 1);
    assert(s =~= front + one + back);
    Seq::filter_distributes_over_add(front + one, back, keep);
    Seq::filter_distributes_over_add(front, one, keep);
    assert forall|j: int| 0 <= j < front.len() implies keep(#[trigger] front[j]) by {
        assert(keep(s[j]));
    }
    assert forall|j: int| 0 <= j < back.len() implies keep(#[trigger] back[j]) by {
        assert(keep(s[j + i + 1]));
    }
    lemma_filter_all(front, keep);
    lemma_filter_all(back, keep);
    assert(one.filter(keep) =~= seq![]) by {
        reveal(Seq::filter);
        assert(one.drop_last().filter(keep) =~= seq![]);
    }
    assert(s.remove(i) =~= front + back);
}

proof fn lemma_insert_keeps_wf(t: Tables, ev: StoredView)
    requires
        t.wf(),
    ensures
        t.insert_event(ev).wf(),
        crate::table::event_at(t.insert_event(ev).events, ev.event_id) is Some,
{
    let after = t.insert_event(ev);
    crate::table::lemma_event_at(t.events, ev.event_id);
    if crate::table::event_at(t.events, ev.event_id) is None {
        assert forall|i: int| 0 <= i < after.state.len() implies crate::table::event_at(
            after.events,
            (#[trigger] after.state[i]).event_id,
        ) is Some by {
            let id = after.state[i].event_id;
            assert(crate::table::event_at(t.events, t.state[i].event_id) is Some);
            assert(after.events.drop_last() =~= t.events);
        }
        assert(after.events.drop_last() =~= t.events);
    }
}

proof fn lemma_put_state_keeps_wf(t: Tables, row: StateRec)
    requires
        t.wf(),
        crate::table::event_at(t.events, row.event_id) is Some,
    ensures
        (Tables { state: crate::table::put_state(t.state, row), ..t }).wf(),
{
    crate::table::lemma_state_at(t.state, row.room_id, row.event_type, row.state_key);
    let after = Tables { state: crate::table::put_state(t.state, row), ..t };
    assert forall|i: int, j: int| 0 <= i < j < after.state.len() implies !crate::table::is_state(
        #[trigger] after.state[i],
        (#[trigger] after.state[j]).room_id,
        after.state[j].event_type,
        after.state[j].state_key,
    ) by {
        if j < t.state.len() {
            assert(!crate::table::is_state(
                t.state[i],
                t.state[j].room_id,
                t.state[j].event_type,
                t.state[j].state_key,
            ));
        } else {
            assert(!crate::table::is_state(
                t.state[i],
                row.room_id,
                row.event_type,
                row.state_key,
            ));
        }
    }
    assert forall|i: int| 0 <= i < after.state.len() implies crate::table::event_at(
        after.events,
        (#[trigger] after.state[i]).event_id,
    ) is Some by {
        if i < t.state.len() {
            assert(crate::table::event_at(t.events, t.state[i].event_id) is Some);
        }
    }
}

/// The local store.
pub struct Store {
    events: Vec<EventRow>,
    state: Vec<StateRow>,
    sends: Vec<SendRow>,
    token: Option<String>,
    log: Vec<Change>,
}

impl Store {
    /// What the store holds.
    pub closed spec fn tables(self) -> Tables {
        Tables {
            events: crate::table::event_recs(self.events@),
            state: crate::table::state_recs(self.state@),
            sends: crate::table::send_recs(self.sends@),
            token: crate::json::opt_string_view(self.token),
        }
    }

    /// The changes that were recorded and not handed out yet.
    pub closed spec fn log(self) -> Seq<ChangeView> {
        crate::table::change_views(self.log@)
    }

    /// What holds of the store at all times.
    pub open spec fn wf(self) -> bool {
        self.tables().wf()
    }

    /// The changes recorded since `before` are those that lead from what it held
    /// to what is held now.
    pub open spec fn follows(self, before: Store) -> bool {
        let n = before.log().len() as int;
        &&& n <= self.log().len()
        &&& self.log().take(n) == before.log()
        &&& self.tables() == before.tables().replay(self.log().skip(n))
    }

    fn append_event(&mut self, row: EventRow)
        ensures
            final(self).tables() == old(self).tables().step(ChangeView::Append(row@)),
            final(self).log() == old(self).log().push(ChangeView::Append(row@)),
    {
        let copy = row.clone();
        self.events.push(row);
        self.log.push(Change::Append(copy));
        assert(self.tables().events =~= old(self).tables().events.push(row@));
        assert(self.log() =~= old(self).log().push(ChangeView::Append(row@)));
    }

    fn set_state(&mut self, row: StateRow, place: Option<usize>)
        requires
            old(self).wf(),
            match place {
                Some(i) => i < old(self).tables().state.len() && crate::table::is_state(
                    old(self).tables().state[i as int],
                    row@.room_id,
                    row@.event_type,
                    row@.state_key,
                ),
                None => crate::table::state_at(
                    old(self).tables().state,
                    row@.room_id,
                    row@.event_type,
                    row@.state_key,
                ) is None,
            },
        ensures
            final(self).tables() == old(self).tables().step(ChangeView::SetState(row@)),
            final(self).log() == old(self).log().push(ChangeView::SetState(row@)),
    {
        let copy = row.clone();
        proof {
            crate::table::lemma_state_at(
                self.tables().state,
                row@.room_id,
                row@.event_type,
                row@.state_key,
            );
        }
        match place {
            Some(i) => {
                self.state.set(i, row);
                assert forall|j: int| 0 <= j < self.state@.len() && j != i implies !crate::table::is_state(
                    #[trigger] old(self).tables().state[j],
                    row@.room_id,
                    row@.event_type,
                    row@.state_key,
                ) by {
                    let s = old(self).tables().state;
                    if j < i {
                        assert(!crate::table::is_state(
                            s[j],
                            s[i as int].room_id,
                            s[i as int].event_type,
                            s[i as int].state_key,
                        ));
                    } else {
                        assert(!crate::table::is_state(
                            s[i as int],
                            s[j].room_id,
                            s[j].event_type,
                            s[j].state_key,
                        ));
                    }
                }
            },
            None => {
                self.state.push(row);
            },
        }
        self.log.push(Change::SetState(copy));
        assert(self.tables().state =~= crate::table::put_state(old(self).tables().state, row@));
        assert(self.log() =~= old(self).log().push(ChangeView::SetState(row@)));
    }

    fn find_event(&self, id: &str) -> (r: Option<usize>)
        requires
            self.wf(),
        ensures
            match r {
                Some(i) => i < self.tables().events.len() && crate::table::event_at(
                    self.tables().events,
                    id@,
                ) == Some(self.tables().events[i as int]),
                None => crate::table::event_at(self.tables().events, id@) is None,
            },
    {
        let mut i: usize = 0;
        while i < self.events.len()
            invariant
                i <= self.events@.len(),
                self.wf(),
                forall|j: int| 0 <= j < i ==> (#[trigger] self.events@[j]).event_id@ != id@,
            decreases self.events@.len() - i,
        {
            if str_eq(self.events[i].event_id.as_str(), id) {
                proof {
                    crate::table::lemma_unique_event(self.tables(), i as int);
                }
                return Some(i);
            }
            i += 1;
        }
        proof {
            crate::table::lemma_event_at(self.tables().events, id@);
            if crate::table::event_at(self.tables().events, id@) is Some {
                let k = choose|k: int|
                    0 <= k < self.tables().events.len() && (#[trigger] self.tables().events[k]).event_id
                        == id@;
                assert(self.events@[k].event_id@ == id@);
            }
        }
        None
    }

    fn find_state(&self, room: &str, event_type: &str, key: &str) -> (r: Option<usize>)
        requires
            self.wf(),
        ensures
            match r {
                Some(i) => i < self.tables().state.len() && crate::table::state_at(
                    self.tables().state,
                    room@,
                    event_type@,
                    key@,
                ) == Some(self.tables().state[i as int]) && crate::table::is_state(
                    self.tables().state[i as int],
                    room@,
                    event_type@,
                    key@,
                ),
                None => crate::table::state_at(self.tables().state, room@, event_type@, key@) is None,
            },
    {
        let mut i: usize = 0;
        while i < self.state.len()
            invariant
                i <= self.state@.len(),
                self.wf(),
                forall|j: int|
                    0 <= j < i ==> !crate::table::is_state(
                        (#[trigger] self.state@[j])@,
                        room@,
                        event_type@,
                        key@,
                    ),
            decreases self.state@.len() - i,
        {
            if str_eq(self.state[i].room_id.as_str(), room) && str_eq(
                self.state[i].event_type.as_str(),
                event_type,
            ) && str_eq(self.state[i].state_key.as_str(), key) {
                proof {
                    crate::table::lemma_unique_state(self.tables(), i as int);
                }
                return Some(i);
            }
            i += 1;
        }
        proof {
            let state = self.tables().state;
            crate::table::lemma_state_at(state, room@, event_type@, key@);
            if crate::table::state_at(state, room@, event_type@, key@) is Some {
                let k = choose|k: int|
                    0 <= k < state.len() && crate::table::is_state(
                        #[trigger] state[k],
                        room@,
                        event_type@,
                        key@,
                    );
                assert(crate::table::is_state(self.state@[k]@, room@, event_type@, key@));
            }
        }
        None
    }

    fn find_send(&self, txn: &str) -> (r: Option<usize>)
        requires
            self.wf(),
        ensures
            match r {
                Some(i) => i < self.tables().sends.len() && crate::table::send_at(
                    self.tables().sends,
                    txn@,
                ) == Some(self.tables().sends[i as int]) && self.tables().sends[i as int].txn_id
                    == txn@,
                None => crate::table::send_at(self.tables().sends, txn@) is None,
            },
    {
        let mut i: usize = 0;
        while i < self.sends.len()
            invariant
                i <= self.sends@.len(),
                self.wf(),
                forall|j: int| 0 <= j < i ==> (#[trigger] self.sends@[j]).txn_id@ != txn@,
            decreases self.sends@.len() - i,
        {
            if str_eq(self.sends[i].txn_id.as_str(), txn) {
                proof {
                    crate::table::lemma_unique_send(self.tables(), i as int);
                }
                return Some(i);
            }
            i += 1;
        }
        proof {
            let sends = self.tables().sends;
            crate::table::lemma_send_at(sends, txn@);
            if crate::table::send_at(sends, txn@) is Some {
                let k = choose|k: int| 0 <= k < sends.len() && (#[trigger] sends[k]).txn_id == txn@;
                assert(self.sends@[k].txn_id@ == txn@);
            }
        }
        None
    }
}

/// A store without new changes follows itself.
pub proof fn lemma_follows_itself(s: Store)
    ensures
        s.follows(s),
{
    let n = s.log().len() as int;
    assert(s.log().take(n) =~= s.log());
    assert(s.log().skip(n) =~= seq![]);
}

proof fn lemma_follows_step(start: Store, before: Store, after: Store, change: ChangeView)
    requires
        before.follows(start),
        after.log() == before.log().push(change),
        after.tables() == before.tables().step(change),
    ensures
        after.follows(start),
{
    let n = start.log().len() as int;
    assert(after.log().take(n) =~= before.log().take(n));
    assert(after.log().skip(n) =~= before.log().skip(n).push(change));
    assert(after.log().skip(n).drop_last() =~= before.log().skip(n));
}

/// Changes recorded in two turns are the changes of both.
pub proof fn changes_follow_in_turn(start: Store, before: Store, after: Store)
    requires
        before.follows(start),
        after.follows(before),
    ensures
        after.follows(start),
{
    let n = start.log().len() as int;
    let m = before.log().len() as int;
    let first = before.log().skip(n);
    let rest = after.log().skip(m);
    assert(after.log().take(n) =~= after.log().take(m).take(n));
    assert(after.log().skip(n) =~= after.log().take(m).skip(n) + rest);
    crate::table::lemma_replay_in_turn(start.tables(), first, rest);
}

fn row_from(ev: &StoredEvent) -> (r: EventRow)
    ensures
        r@ == crate::table::row_of(ev@),
{
    EventRow {
        event_id: ev.event_id.clone(),
        room_id: ev.room_id.clone(),
        sender: ev.sender.clone(),
        event_type: ev.event_type.clone(),
        state_key: match &ev.state_key {
            Some(k) => Some(k.clone()),
            None => None,
        },
        origin_server_ts: ev.origin_server_ts,
        depth: ev.depth,
        payload: ev.payload.clone(),
        local: 0,
        decrypted: None,
        decrypt_state: 0,
    }
}

impl Store {
    /// Appends an event to the log where it is not there yet. Says whether it
    /// was new.
    fn insert_event(&mut self, ev: &StoredEvent) -> (new: bool)
        requires
            old(self).wf(),
        ensures
            final(self).wf(),
            final(self).tables() == old(self).tables().insert_event(ev@),
            final(self).follows(*old(self)),
            new == (crate::table::event_at(old(self).tables().events, ev@.event_id) is None),
            crate::table::event_at(final(self).tables().events, ev@.event_id) is Some,
    {
        proof {
            lemma_follows_itself(*self);
            lemma_insert_keeps_wf(self.tables(), ev@);
        }
        match self.find_event(ev.event_id.as_str()) {
            Some(_) => false,
            None => {
                let row = row_from(ev);
                let ghost shown = row@;
                self.append_event(row);
                proof {
                    lemma_follows_step(*old(self), *old(self), *self, ChangeView::Append(shown));
                }
                true
            },
        }
    }

    /// Folds a state event, which has just come into the log, into the current
    /// state.
    fn fold_state(&mut self, ev: &StoredEvent)
        requires
            old(self).wf(),
            crate::table::event_at(old(self).tables().events, ev@.event_id) is Some,
        ensures
            final(self).wf(),
            final(self).tables() == old(self).tables().fold_state(ev@),
            final(self).follows(*old(self)),
    {
        proof {
            lemma_follows_itself(*self);
        }
        match &ev.state_key {
            None => {},
            Some(key) => {
                let place = self.find_state(
                    ev.room_id.as_str(),
                    ev.event_type.as_str(),
                    key.as_str(),
                );
                let wins = match place {
                    Some(i) => ev.depth >= self.state[i].depth,
                    None => true,
                };
                if wins {
                    let row = StateRow {
                        room_id: ev.room_id.clone(),
                        event_type: ev.event_type.clone(),
                        state_key: key.clone(),
                        event_id: ev.event_id.clone(),
                        depth: ev.depth,
                    };
                    let ghost shown = row@;
                    proof {
                        lemma_put_state_keeps_wf(self.tables(), row@);
                    }
                    self.set_state(row, place);
                    proof {
                        lemma_follows_step(
                            *old(self),
                            *old(self),
                            *self,
                            ChangeView::SetState(shown),
                        );
                    }
                }
            },
        }
    }

    /// Applies a batch of events: appends those that are not there yet and folds
    /// the state events among them into the current state. Returns how many were
    /// new. Where one of them lacks a field, nothing is applied.
    pub fn apply_events(&mut self, events: &[Json]) -> (r: Result<usize, StoreError>)
        requires
            old(self).wf(),
        ensures
            final(self).wf(),
            final(self).follows(*old(self)),
            match parse_batch(json_views(events@)) {
                Ok(evs) => r is Ok && r->Ok_0 == old(self).tables().count_new(evs)
                    && final(self).tables() == old(self).tables().apply_all(evs),
                Err(e) => r is Err && r->Err_0@ == e && *final(self) == *old(self),
            },
    {
        let parsed = match parse_events(events) {
            Ok(p) => p,
            Err(e) => {
                proof {
                    lemma_follows_itself(*self);
                }
                return Err(e);
            },
        };
        let ghost evs = stored_views(parsed@);
        let mut inserted: usize = 0;
        let mut i: usize = 0;
        proof {
            lemma_follows_itself(*self);
            assert(evs.take(0) =~= seq![]);
        }
        while i < parsed.len()
            invariant
                i <= parsed@.len(),
                evs == stored_views(parsed@),
                inserted <= i,
                old(self).wf(),
                self.wf(),
                self.follows(*old(self)),
                self.tables() == old(self).tables().apply_all(evs.take(i as int)),
                inserted == old(self).tables().count_new(evs.take(i as int)),
            decreases parsed@.len() - i,
        {
            let ghost before = *self;
            let new = self.insert_event(&parsed[i]);
            let ghost between = *self;
            proof {
                changes_follow_in_turn(*old(self), before, between);
            }
            if new {
                inserted += 1;
                self.fold_state(&parsed[i]);
                proof {
                    changes_follow_in_turn(*old(self), between, *self);
                }
            }
            proof {
                assert(evs.take(i + 1).drop_last() =~= evs.take(i as int));
                assert(evs.take(i + 1).last() == parsed@[i as int]@);
            }
            i += 1;
        }
        assert(evs.take(i as int) =~= evs);
        Ok(inserted)
    }
}

fn parse_events(events: &[Json]) -> (r: Result<Vec<StoredEvent>, StoreError>)
    ensures
        match (r, parse_batch(json_views(events@))) {
            (Ok(v), Ok(evs)) => stored_views(v@) == evs,
            (Err(e), Err(why)) => e@ == why,
            _ => false,
        },
{
    let mut out: Vec<StoredEvent> = Vec::new();
    let mut i: usize = 0;
    let ghost batch = json_views(events@);
    assert(batch.take(0) =~= seq![]);
    assert(stored_views(out@) =~= seq![]);
    while i < events.len()
        invariant
            i <= events@.len(),
            batch == json_views(events@),
            parse_batch(batch.take(i as int)) is Ok,
            parse_batch(batch.take(i as int))->Ok_0 == stored_views(out@),
        decreases events@.len() - i,
    {
        assert(batch.take(i + 1).drop_last() =~= batch.take(i as int));
        match StoredEvent::from_wire(&events[i]) {
            Ok(ev) => {
                let ghost before = stored_views(out@);
                out.push(ev);
                assert(stored_views(out@) =~= before.push(ev@));
            },
            Err(e) => {
                proof {
                    lemma_batch_fault(batch, i + 1);
                }
                return Err(e);
            },
        }
        i += 1;
    }
    assert(batch.take(i as int) =~= batch);
    Ok(out)
}

proof fn lemma_batch_fault(batch: Seq<JsonView>, n: int)
    requires
        0 <= n <= batch.len(),
        parse_batch(batch.take(n)) is Err,
    ensures
        parse_batch(batch) == parse_batch(batch.take(n)),
    decreases batch.len(),
{
    if n < batch.len() {
        assert(batch.drop_last().take(n) =~= batch.take(n));
        lemma_batch_fault(batch.drop_last(), n);
    } else {
        assert(batch.take(n) =~= batch);
    }
}

/// What a database holds that was read from disk.
pub open spec fn tables_of(
    events: Seq<EventRow>,
    state: Seq<StateRow>,
    sends: Seq<SendRow>,
    token: Option<String>,
) -> Tables {
    Tables {
        events: crate::table::event_recs(events),
        state: crate::table::state_recs(state),
        sends: crate::table::send_recs(sends),
        token: crate::json::opt_string_view(token),
    }
}

impl Tables {
    /// A database that holds nothing.
    pub open spec fn empty() -> Tables {
        Tables { events: seq![], state: seq![], sends: seq![], token: None }
    }

    /// The event that currently sets a piece of a room's state.
    pub open spec fn state_event(
        self,
        room: Seq<char>,
        event_type: Seq<char>,
        key: Seq<char>,
    ) -> Option<EventRec> {
        match crate::table::state_at(self.state, room, event_type, key) {
            Some(row) => crate::table::event_at(self.events, row.event_id),
            None => None,
        }
    }

    /// The event that currently sets a piece of a room's state, as it came.
    pub open spec fn current_state(
        self,
        room: Seq<char>,
        event_type: Seq<char>,
        key: Seq<char>,
    ) -> Result<Option<StoredView>, StoreErrorView> {
        match self.state_event(room, event_type, key) {
            Some(row) => match crate::event::parse_event(row.payload) {
                Ok(ev) => Ok(Some(ev)),
                Err(e) => Err(e),
            },
            None => Ok(None),
        }
    }

    /// A user's current membership of a room.
    pub open spec fn membership(self, room: Seq<char>, user: Seq<char>) -> Result<
        Option<MembershipView>,
        StoreErrorView,
    > {
        match self.current_state(room, "p.room.member"@, user) {
            Ok(Some(ev)) => match ev.content.at("membership"@).as_str() {
                Some(s) => Ok(Some(crate::event::membership_of(s))),
                None => Ok(None),
            },
            Ok(None) => Ok(None),
            Err(e) => Err(e),
        }
    }

    /// Whether a room is marked as encrypted.
    pub open spec fn is_encrypted(self, room: Seq<char>) -> bool {
        exists|i: int|
            0 <= i < self.state.len() && (#[trigger] self.state[i]).room_id == room
                && self.state[i].event_type == "p.room.encryption"@
    }
}

/// The view of an optional value of the store.
pub open spec fn opt_outcome<T: View>(r: Result<Option<T>, StoreError>) -> Result<
    Option<T::V>,
    StoreErrorView,
> {
    match r {
        Ok(Some(x)) => Ok(Some(x@)),
        Ok(None) => Ok(None),
        Err(e) => Err(e@),
    }
}

fn has_repeated_event(events: &Vec<EventRow>) -> (r: bool)
    ensures
        r == exists|i: int, j: int|
            0 <= i < j < events@.len() && (#[trigger] events@[i]).event_id@ == (
            #[trigger] events@[j]).event_id@,
{
    let mut j: usize = 0;
    while j < events.len()
        invariant
            j <= events@.len(),
            forall|a: int, b: int|
                0 <= a < b < j ==> (#[trigger] events@[a]).event_id@ != (
                #[trigger] events@[b]).event_id@,
        decreases events@.len() - j,
    {
        let mut i: usize = 0;
        while i < j
            invariant
                i <= j < events@.len(),
                forall|a: int| 0 <= a < i ==> (#[trigger] events@[a]).event_id@
                    != events@[j as int].event_id@,
            decreases j - i,
        {
            if str_eq(events[i].event_id.as_str(), events[j].event_id.as_str()) {
                return true;
            }
            i += 1;
        }
        j += 1;
    }
    false
}

fn has_repeated_state(state: &Vec<StateRow>) -> (r: bool)
    ensures
        r == exists|i: int, j: int|
            0 <= i < j < state@.len() && crate::table::is_state(
                (#[trigger] state@[i])@,
                (#[trigger] state@[j])@.room_id,
                state@[j]@.event_type,
                state@[j]@.state_key,
            ),
{
    let mut j: usize = 0;
    while j < state.len()
        invariant
            j <= state@.len(),
            forall|a: int, b: int|
                0 <= a < b < j ==> !crate::table::is_state(
                    (#[trigger] state@[a])@,
                    (#[trigger] state@[b])@.room_id,
                    state@[b]@.event_type,
                    state@[b]@.state_key,
                ),
        decreases state@.len() - j,
    {
        let mut i: usize = 0;
        while i < j
            invariant
                i <= j < state@.len(),
                forall|a: int|
                    0 <= a < i ==> !crate::table::is_state(
                        (#[trigger] state@[a])@,
                        state@[j as int]@.room_id,
                        state@[j as int]@.event_type,
                        state@[j as int]@.state_key,
                    ),
            decreases j - i,
        {
            if str_eq(state[i].room_id.as_str(), state[j].room_id.as_str()) && str_eq(
                state[i].event_type.as_str(),
                state[j].event_type.as_str(),
            ) && str_eq(state[i].state_key.as_str(), state[j].state_key.as_str()) {
                return true;
            }
            i += 1;
        }
        j += 1;
    }
    false
}

fn has_repeated_send(sends: &Vec<SendRow>) -> (r: bool)
    ensures
        r == exists|i: int, j: int|
            0 <= i < j < sends@.len() && (#[trigger] sends@[i]).txn_id@ == (
            #[trigger] sends@[j]).txn_id@,
{
    let mut j: usize = 0;
    while j < sends.len()
        invariant
            j <= sends@.len(),
            forall|a: int, b: int|
                0 <= a < b < j ==> (#[trigger] sends@[a]).txn_id@ != (#[trigger] sends@[b]).txn_id@,
        decreases sends@.len() - j,
    {
        let mut i: usize = 0;
        while i < j
            invariant
                i <= j < sends@.len(),
                forall|a: int| 0 <= a < i ==> (#[trigger] sends@[a]).txn_id@
                    != sends@[j as int].txn_id@,
            decreases j - i,
        {
            if str_eq(sends[i].txn_id.as_str(), sends[j].txn_id.as_str()) {
                return true;
            }
            i += 1;
        }
        j += 1;
    }
    false
}

fn has_event(events: &Vec<EventRow>, id: &str) -> (r: bool)
    ensures
        r == (crate::table::event_at(crate::table::event_recs(events@), id@) is Some),
{
    let ghost recs = crate::table::event_recs(events@);
    let mut i: usize = 0;
    proof {
        crate::table::lemma_event_at(recs, id@);
    }
    while i < events.len()
        invariant
            i <= events@.len(),
            recs == crate::table::event_recs(events@),
            crate::table::event_at(recs, id@) is Some <==> exists|k: int|
                0 <= k < recs.len() && (#[trigger] recs[k]).event_id == id@,
            forall|j: int| 0 <= j < i ==> (#[trigger] recs[j]).event_id != id@,
        decreases events@.len() - i,
    {
        assert(recs[i as int].event_id == events@[i as int].event_id@);
        if str_eq(events[i].event_id.as_str(), id) {
            return true;
        }
        i += 1;
    }
    false
}

fn has_dangling_state(events: &Vec<EventRow>, state: &Vec<StateRow>) -> (r: bool)
    ensures
        r == exists|i: int|
            0 <= i < state@.len() && crate::table::event_at(
                crate::table::event_recs(events@),
                (#[trigger] state@[i]).event_id@,
            ) is None,
{
    let mut i: usize = 0;
    while i < state.len()
        invariant
            i <= state@.len(),
            forall|j: int|
                0 <= j < i ==> crate::table::event_at(
                    crate::table::event_recs(events@),
                    (#[trigger] state@[j]).event_id@,
                ) is Some,
        decreases state@.len() - i,
    {
        if !has_event(events, state[i].event_id.as_str()) {
            return true;
        }
        i += 1;
    }
    false
}

impl Store {
    /// A store that holds nothing.
    pub fn open_in_memory() -> (r: Result<Store, StoreError>)
        ensures
            r is Ok && r->Ok_0.wf() && r->Ok_0.tables() == Tables::empty() && r->Ok_0.log().len()
                == 0,
    {
        let store = Store {
            events: Vec::new(),
            state: Vec::new(),
            sends: Vec::new(),
            token: None,
            log: Vec::new(),
        };
        assert(store.tables() =~= Tables::empty());
        Ok(store)
    }

    /// A store that holds the rows of a database on disk. Rows that cannot stand
    /// together are refused.
    pub fn load(
        events: Vec<EventRow>,
        state: Vec<StateRow>,
        sends: Vec<SendRow>,
        token: Option<String>,
    ) -> (r: Result<Store, StoreError>)
        ensures
            match r {
                Ok(store) => tables_of(events@, state@, sends@, token).wf() && store.tables()
                    == tables_of(events@, state@, sends@, token) && store.log().len() == 0,
                Err(e) => !tables_of(events@, state@, sends@, token).wf() && e@
                    == StoreErrorView::Db("database disk image is malformed"@),
            },
    {
        let bad = has_repeated_event(&events) || has_repeated_state(&state) || has_repeated_send(
            &sends,
        ) || has_dangling_state(&events, &state);
        let ghost t = tables_of(events@, state@, sends@, token);
        proof {
            if bad {
                lemma_bad_rows(events@, state@, sends@, token);
            }
        }
        if bad {
            return Err(StoreError::Db { reason: "database disk image is malformed".to_owned() });
        }
        let store = Store { events, state, sends, token, log: Vec::new() };
        proof {
            assert forall|i: int, j: int| 0 <= i < j < t.events.len() implies (
            #[trigger] t.events[i]).event_id != (#[trigger] t.events[j]).event_id by {
                assert(events@[i].event_id@ != events@[j].event_id@);
            }
            assert forall|i: int, j: int| 0 <= i < j < t.state.len() implies !crate::table::is_state(
                #[trigger] t.state[i],
                (#[trigger] t.state[j]).room_id,
                t.state[j].event_type,
                t.state[j].state_key,
            ) by {
                assert(!crate::table::is_state(
                    state@[i]@,
                    state@[j]@.room_id,
                    state@[j]@.event_type,
                    state@[j]@.state_key,
                ));
            }
            assert forall|i: int, j: int| 0 <= i < j < t.sends.len() implies (
            #[trigger] t.sends[i]).txn_id != (#[trigger] t.sends[j]).txn_id by {
                assert(sends@[i].txn_id@ != sends@[j].txn_id@);
            }
            assert forall|i: int| 0 <= i < t.state.len() implies crate::table::event_at(
                t.events,
                (#[trigger] t.state[i]).event_id,
            ) is Some by {
                assert(crate::table::event_at(
                    crate::table::event_recs(events@),
                    state@[i].event_id@,
                ) is Some);
            }
        }
        Ok(store)
    }

    /// Hands out the changes that were recorded, oldest first.
    pub fn take_changes(&mut self) -> (r: Vec<Change>)
        ensures
            crate::table::change_views(r@) == old(self).log(),
            final(self).log().len() == 0,
            final(self).tables() == old(self).tables(),
    {
        let mut out: Vec<Change> = Vec::new();
        std::mem::swap(&mut out, &mut self.log);
        out
    }

    /// Keeps a sync token, in place of any before it.
    pub fn save_sync_token(&mut self, token: &str) -> (r: Result<(), StoreError>)
        requires
            old(self).wf(),
        ensures
            r is Ok,
            final(self).wf(),
            final(self).follows(*old(self)),
            final(self).tables() == (Tables { token: Some(token@), ..old(self).tables() }),
    {
        self.token = Some(token.to_owned());
        self.log.push(Change::SetToken { token: token.to_owned() });
        proof {
            let change = ChangeView::SetToken(token@);
            assert(self.log() =~= old(self).log().push(change));
            lemma_follows_itself(*old(self));
            lemma_follows_step(*old(self), *old(self), *self, change);
        }
        Ok(())
    }

    /// The sync token that is kept.
    pub fn load_sync_token(&self) -> (r: Result<Option<String>, StoreError>)
        ensures
            r is Ok && crate::json::opt_string_view(r->Ok_0) == self.tables().token,
    {
        match &self.token {
            Some(t) => Ok(Some(t.clone())),
            None => Ok(None),
        }
    }

    /// The event that currently sets a piece of a room's state.
    pub fn current_state(&self, room_id: &str, event_type: &str, state_key: &str) -> (r: Result<
        Option<StoredEvent>,
        StoreError,
    >)
        requires
            self.wf(),
        ensures
            opt_outcome(r) == self.tables().current_state(room_id@, event_type@, state_key@),
    {
        match self.find_state(room_id, event_type, state_key) {
            None => Ok(None),
            Some(i) => {
                assert(self.tables().state[i as int] == self.state@[i as int]@);
                match self.find_event(self.state[i].event_id.as_str()) {
                    None => Ok(None),
                    Some(j) => match StoredEvent::from_wire(&self.events[j].payload) {
                        Ok(ev) => Ok(Some(ev)),
                        Err(e) => Err(e),
                    },
                }
            },
        }
    }

    /// A user's current membership of a room, where the room has one for them.
    pub fn membership(&self, room_id: &str, user_id: &str) -> (r: Result<
        Option<Membership>,
        StoreError,
    >)
        requires
            self.wf(),
        ensures
            opt_outcome(r) == self.tables().membership(room_id@, user_id@),
    {
        match self.current_state(room_id, "p.room.member", user_id) {
            Err(e) => Err(e),
            Ok(None) => Ok(None),
            Ok(Some(ev)) => match ev.content.str_at("membership") {
                Some(s) => Ok(Some(Membership::from_wire(s))),
                None => Ok(None),
            },
        }
    }

    /// Whether a room is marked as encrypted.
    pub fn is_room_encrypted(&self, room_id: &str) -> (r: Result<bool, StoreError>)
        ensures
            r is Ok && r->Ok_0 == self.tables().is_encrypted(room_id@),
    {
        let ghost state = self.tables().state;
        let mut i: usize = 0;
        while i < self.state.len()
            invariant
                i <= self.state@.len(),
                state == self.tables().state,
                forall|j: int|
                    0 <= j < i ==> !((#[trigger] state[j]).room_id == room_id@
                        && state[j].event_type == "p.room.encryption"@),
            decreases self.state@.len() - i,
        {
            assert(state[i as int] == self.state@[i as int]@);
            if str_eq(self.state[i].room_id.as_str(), room_id) && str_eq(
                self.state[i].event_type.as_str(),
                "p.room.encryption",
            ) {
                return Ok(true);
            }
            i += 1;
        }
        Ok(false)
    }
}

proof fn lemma_bad_rows(
    events: Seq<EventRow>,
    state: Seq<StateRow>,
    sends: Seq<SendRow>,
    token: Option<String>,
)
    requires
        ({
            ||| exists|i: int, j: int|
                0 <= i < j < events.len() && (#[trigger] events[i]).event_id@ == (
                #[trigger] events[j]).event_id@
            ||| exists|i: int, j: int|
                0 <= i < j < state.len() && crate::table::is_state(
                    (#[trigger] state[i])@,
                    (#[trigger] state[j])@.room_id,
                    state[j]@.event_type,
                    state[j]@.state_key,
                )
            ||| exists|i: int, j: int|
                0 <= i < j < sends.len() && (#[trigger] sends[i]).txn_id@ == (
                #[trigger] sends[j]).txn_id@
            ||| exists|i: int|
                0 <= i < state.len() && crate::table::event_at(
                    crate::table::event_recs(events),
                    (#[trigger] state[i]).event_id@,
                ) is None
        }),
    ensures
        !tables_of(events, state, sends, token).wf(),
{
    let t = tables_of(events, state, sends, token);
    if t.wf() {
        assert forall|i: int, j: int| 0 <= i < j < events.len() implies (
        #[trigger] events[i]).event_id@ != (#[trigger] events[j]).event_id@ by {
            assert(t.events[i].event_id != t.events[j].event_id);
        }
        assert forall|i: int, j: int| 0 <= i < j < state.len() implies !crate::table::is_state(
            (#[trigger] state[i])@,
            (#[trigger] state[j])@.room_id,
            state[j]@.event_type,
            state[j]@.state_key,
        ) by {
            assert(!crate::table::is_state(
                t.state[i],
                t.state[j].room_id,
                t.state[j].event_type,
                t.state[j].state_key,
            ));
        }
        assert forall|i: int, j: int| 0 <= i < j < sends.len() implies (
        #[trigger] sends[i]).txn_id@ != (#[trigger] sends[j]).txn_id@ by {
            assert(t.sends[i].txn_id != t.sends[j].txn_id);
        }
        assert forall|i: int| 0 <= i < state.len() implies crate::table::event_at(
            crate::table::event_recs(events),
            (#[trigger] state[i]).event_id@,
        ) is Some by {
            assert(crate::table::event_at(t.events, t.state[i].event_id) is Some);
        }
    }
}

} // verus!
