//! Reading a room's timeline.

use vstd::prelude::*;
use vstd::string::*;

use crate::event::{SendState, StoreError, StoreErrorView, StoredEvent, StoredView};
use crate::order::{order_of, KeyView, SortKey};
use crate::store::Store;
use crate::table::{EventRec, EventRow, Tables, DECRYPT_FAILED};
use crate::text::str_eq;

verus! {

/// What a row of the log is read back as: the event of its payload, with what
/// the row adds to it.
pub open spec fn stored_of(row: EventRec) -> Result<StoredView, StoreErrorView> {
    match crate::event::parse_event(row.payload) {
        Err(e) => Err(e),
        Ok(ev) => Ok(
            StoredView {
                send_state: crate::event::send_state_of(row.local),
                decrypted: row.decrypted,
                decrypt_failed: row.decrypt_state == DECRYPT_FAILED,
                ..ev
            },
        ),
    }
}

/// Whether an event is shown in a room's timeline, before a depth if one is
/// given. Changes of an encryption group are not shown.
pub open spec fn in_timeline(row: EventRec, room: Seq<char>, before: Option<i64>) -> bool {
    &&& row.room_id == room
    &&& row.event_type != "p.mls.commit"@
    &&& match before {
        Some(depth) => row.depth < depth,
        None => true,
    }
}

/// Events are ordered by their depth, those of one depth by their id.
pub open spec fn history_key() -> spec_fn(EventRec) -> KeyView {
    |row: EventRec| KeyView { num: row.depth as int, text: row.event_id }
}

/// The last rows of a list, as many as `limit` allows.
pub open spec fn last_of(rows: Seq<EventRec>, limit: int) -> Seq<EventRec> {
    if limit >= rows.len() {
        rows
    } else {
        rows.skip(rows.len() - limit)
    }
}

/// The complaint about the newest row of a page that is no event.
pub open spec fn page_fault(page: Seq<EventRec>) -> Option<StoreErrorView>
    decreases page.len(),
{
    if page.len() == 0 {
        None
    } else {
        match stored_of(page.last()) {
            Err(e) => Some(e),
            Ok(_) => page_fault(page.drop_last()),
        }
    }
}

/// The events of a page of which every row is one.
pub open spec fn page_events(page: Seq<EventRec>) -> Seq<StoredView> {
    Seq::new(page.len(), |i: int| stored_of(page[i])->Ok_0)
}

impl Tables {
    /// The events of a room's timeline, oldest first.
    pub open spec fn history(self, room: Seq<char>, before: Option<i64>) -> Seq<EventRec> {
        crate::order::order_by(
            self.events.filter(|row: EventRec| in_timeline(row, room, before)),
            history_key(),
        )
    }

    /// A page of a room's timeline: the newest events, oldest first.
    pub open spec fn page(self, room: Seq<char>, limit: int, before: Option<i64>) -> Seq<EventRec> {
        last_of(self.history(room, before), limit)
    }
}

fn read_row(row: &EventRow) -> (r: Result<StoredEvent, StoreError>)
    ensures
        crate::event::outcome(r) == stored_of(row@),
{
    match StoredEvent::from_wire(&row.payload) {
        Err(e) => Err(e),
        Ok(ev) => {
            let mut out = ev;
            out.send_state = SendState::from_local(row.local);
            out.decrypted = match &row.decrypted {
                Some(t) => Some(t.clone()),
                None => None,
            };
            out.decrypt_failed = row.decrypt_state == DECRYPT_FAILED;
            Ok(out)
        },
    }
}

proof fn lemma_page_fault(page: Seq<EventRec>, n: int)
    requires
        0 <= n <= page.len(),
        forall|i: int| n <= i < page.len() ==> stored_of(#[trigger] page[i]) is Ok,
    ensures
        page_fault(page) == page_fault(page.take(n)),
    decreases page.len(),
{
    if n < page.len() {
        assert(stored_of(page[page.len() - 1]) is Ok);
        assert(page.drop_last().take(n) =~= page.take(n));
        assert forall|i: int| n <= i < page.drop_last().len() implies stored_of(
            #[trigger] page.drop_last()[i],
        ) is Ok by {
            assert(stored_of(page[i]) is Ok);
        }
        lemma_page_fault(page.drop_last(), n);
    } else {
        assert(page.take(n) =~= page);
    }
}

impl Store {
    /// The given places of the log, in the order of the history.
    pub(crate) fn in_history_order(&self, picked: &Vec<usize>) -> (r: Vec<usize>)
        requires
            forall|i: int| 0 <= i < picked@.len() ==> #[trigger] picked@[i] < self.tables().events.len(),
        ensures
            crate::order::rows_at(self.tables().events, crate::order::named_places(r@))
                == crate::order::order_by(
                crate::order::rows_at(self.tables().events, crate::order::named_places(picked@)),
                history_key(),
            ),
            r@.len() == picked@.len(),
            forall|i: int| 0 <= i < r@.len() ==> #[trigger] r@[i] < self.tables().events.len(),
    {
        let ghost events = self.tables().events;
        let ghost rows = crate::order::rows_at(events, crate::order::named_places(picked@));
        let mut keys: Vec<SortKey> = Vec::new();
        let mut i: usize = 0;
        while i < picked.len()
            invariant
                i <= picked@.len(),
                events == self.tables().events,
                rows == crate::order::rows_at(events, crate::order::named_places(picked@)),
                forall|j: int| 0 <= j < picked@.len() ==> #[trigger] picked@[j] < events.len(),
                keys@.len() == i,
                forall|j: int| 0 <= j < i ==> (#[trigger] keys@[j])@ == history_key()(rows[j]),
            decreases picked@.len() - i,
        {
            let row = &self.events[picked[i]];
            let key = SortKey { num: row.depth as i128, text: row.event_id.clone() };
            assert(key@ == history_key()(rows[i as int]));
            keys.push(key);
            i += 1;
        }
        let order = order_of(&keys);
        proof {
            let pkey = crate::order::place_key(keys@);
            assert forall|j: int| 0 <= j < rows.len() implies #[trigger] pkey(j) == history_key()(
                rows[j],
            ) by {
                assert(keys@[j]@ == history_key()(rows[j]));
            }
            crate::order::lemma_order_places(rows, history_key(), rows.len(), pkey);
            assert(rows.take(rows.len() as int) =~= rows);
        }
        let mut out: Vec<usize> = Vec::new();
        let mut k: usize = 0;
        while k < order.len()
            invariant
                k <= order@.len(),
                order@.len() == picked@.len(),
                forall|j: int| 0 <= j < order@.len() ==> #[trigger] order@[j] < picked@.len(),
                forall|j: int| 0 <= j < picked@.len() ==> #[trigger] picked@[j] < events.len(),
                out@.len() == k,
                forall|j: int| 0 <= j < k ==> #[trigger] out@[j] == picked@[order@[j] as int],
            decreases order@.len() - k,
        {
            out.push(picked[order[k]]);
            k += 1;
        }
        proof {
            let sorted = crate::order::rows_at(rows, crate::order::named_places(order@));
            let shown = crate::order::rows_at(events, crate::order::named_places(out@));
            assert forall|j: int| 0 <= j < shown.len() implies shown[j] == sorted[j] by {
                assert(out@[j] == picked@[order@[j] as int]);
            }
            assert(shown =~= sorted);
            assert forall|j: int| 0 <= j < out@.len() implies #[trigger] out@[j] < events.len() by {
                assert(out@[j] == picked@[order@[j] as int]);
                assert(order@[j] < picked@.len());
                assert(picked@[order@[j] as int] < events.len());
            }
        }
        out
    }

    fn timeline_places(&self, room: &str, before: Option<i64>) -> (r: Vec<usize>)
        ensures
            crate::order::rows_at(self.tables().events, crate::order::named_places(r@))
                == self.tables().events.filter(|row: EventRec| in_timeline(row, room@, before)),
            forall|i: int| 0 <= i < r@.len() ==> #[trigger] r@[i] < self.tables().events.len(),
    {
        let ghost events = self.tables().events;
        let ghost keep = |row: EventRec| in_timeline(row, room@, before);
        let mut picked: Vec<usize> = Vec::new();
        let mut i: usize = 0;
        proof {
            reveal(Seq::filter);
            assert(events.take(0).filter(keep) =~= seq![]);
            assert(crate::order::rows_at(events, crate::order::named_places(picked@)) =~= seq![]);
        }
        while i < self.events.len()
            invariant
                i <= self.events@.len(),
                events == self.tables().events,
                keep == (|row: EventRec| in_timeline(row, room@, before)),
                crate::order::rows_at(events, crate::order::named_places(picked@))
                    == events.take(i as int).filter(keep),
                forall|j: int| 0 <= j < picked@.len() ==> #[trigger] picked@[j] < i,
            decreases self.events@.len() - i,
        {
            let row = &self.events[i];
            let older = match before {
                Some(depth) => row.depth < depth,
                None => true,
            };
            let ghost got = crate::order::rows_at(events, crate::order::named_places(picked@));
            if str_eq(row.room_id.as_str(), room) && !str_eq(
                row.event_type.as_str(),
                "p.mls.commit",
            ) && older {
                picked.push(i);
                assert(crate::order::rows_at(events, crate::order::named_places(picked@))
                    =~= got.push(events[i as int]));
            }
            proof {
                reveal(Seq::filter);
                assert(events.take(i + 1).drop_last() =~= events.take(i as int));
                assert(events.take(i + 1).last() == row@);
            }
            i += 1;
        }
        assert(events.take(i as int) =~= events);
        picked
    }

    /// A page of a room's timeline, oldest event first: the newest `limit` events,
    /// or the newest of those whose depth is below `before`.
    pub fn timeline(&self, room_id: &str, limit: u32, before: Option<i64>) -> (r: Result<
        Vec<StoredEvent>,
        StoreError,
    >)
        ensures
            ({
                let page = self.tables().page(room_id@, limit as int, before);
                match r {
                    Ok(evs) => page_fault(page) is None && crate::store::stored_views(evs@) == page_events(page),
                    Err(e) => page_fault(page) == Some(e@),
                }
            }),
    {
        let picked = self.timeline_places(room_id, before);
        let order = self.in_history_order(&picked);
        let ghost events = self.tables().events;
        let ghost rows = self.tables().history(room_id@, before);
        let ghost page = self.tables().page(room_id@, limit as int, before);
        let count: usize = limit as usize;
        let start: usize = if count >= order.len() {
            0
        } else {
            order.len() - count
        };
        assert(page =~= rows.skip(start as int));
        let mut back: Vec<StoredEvent> = Vec::new();
        let mut k: usize = order.len();
        while k > start
            invariant
                start <= k <= order@.len(),
                events == self.tables().events,
                rows == crate::order::rows_at(events, crate::order::named_places(order@)),
                forall|i: int| 0 <= i < order@.len() ==> #[trigger] order@[i] < events.len(),
                page == rows.skip(start as int),
                page == self.tables().page(room_id@, limit as int, before),
                back@.len() == order@.len() - k,
                forall|i: int|
                    k - start <= i < page.len() ==> stored_of(#[trigger] page[i]) is Ok
                        && back@[page.len() - 1 - i]@ == stored_of(page[i])->Ok_0,
            decreases k,
        {
            let place: usize = order[k - 1];
            let ghost at = k - 1 - start;
            assert(page[at] == self.events@[place as int]@);
            match read_row(&self.events[place]) {
                Ok(ev) => {
                    back.push(ev);
                },
                Err(e) => {
                    proof {
                        lemma_page_fault(page, at + 1);
                        assert(page.take(at + 1).last() == page[at]);
                    }
                    return Err(e);
                },
            }
            k -= 1;
        }
        proof {
            lemma_page_fault(page, 0);
            assert(page.take(0) =~= seq![]);
        }
        let mut out: Vec<StoredEvent> = Vec::new();
        let ghost all = back@;
        while back.len() > 0
            invariant
                all.len() == page.len(),
                back@ == all.take(back@.len() as int),
                back@.len() <= all.len(),
                out@.len() == all.len() - back@.len(),
                forall|i: int| 0 <= i < out@.len() ==> #[trigger] out@[i] == all[all.len() - 1 - i],
            decreases back@.len(),
        {
            let next = back.pop();
            if let Some(ev) = next {
                out.push(ev);
            }
        }
        proof {
            assert forall|i: int| 0 <= i < page.len() implies crate::store::stored_views(out@)[i] == page_events(
                page,
            )[i] by {
                assert(out@[i] == all[all.len() - 1 - i]);
                assert(stored_of(page[i]) is Ok);
            }
            assert(crate::store::stored_views(out@) =~= page_events(page));
        }
        Ok(out)
    }
}

} // verus!
