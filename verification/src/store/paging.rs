//! Paging backwards through a room's timeline.

use vstd::prelude::*;

use crate::table::{EventRec, Tables};

verus! {

impl Tables {
    /// No two events of a room's timeline have one depth.
    pub open spec fn depths_differ(self, room: Seq<char>) -> bool {
        forall|i: int, j: int|
            0 <= i < j < self.events.len() && crate::store::timeline::in_timeline(
                #[trigger] self.events[i],
                room,
                None,
            ) && crate::store::timeline::in_timeline(#[trigger] self.events[j], room, None)
                ==> self.events[i].depth != self.events[j].depth
    }
}

/// Rows each of which is deeper than the one before it.
pub open spec fn deeper_and_deeper(rows: Seq<EventRec>) -> bool {
    forall|i: int, j: int|
        0 <= i < j < rows.len() ==> (#[trigger] rows[i]).depth < (#[trigger] rows[j]).depth
}

proof fn lemma_same_rows(a: Seq<EventRec>, b: Seq<EventRec>)
    requires
        deeper_and_deeper(a),
        deeper_and_deeper(b),
        forall|x: EventRec| #[trigger] a.contains(x) <==> b.contains(x),
    ensures
        a == b,
    decreases a.len(),
{
    if a.len() == 0 {
        if b.len() > 0 {
            assert(b.contains(b[0]));
            assert(a.contains(b[0]));
        }
        assert(a =~= b);
    } else {
        let x = a.last();
        assert(a[a.len() - 1] == x);
        assert(a.contains(x));
        assert(b.contains(x));
        let n = choose|n: int| 0 <= n < b.len() && b[n] == x;
        let y = b.last();
        assert(b[b.len() - 1] == y);
        assert(b.contains(y));
        assert(a.contains(y));
        let m = choose|m: int| 0 <= m < a.len() && a[m] == y;
        if m < a.len() - 1 {
            assert(a[m].depth < a[a.len() - 1].depth);
        }
        if n < b.len() - 1 {
            assert(b[n].depth < b[b.len() - 1].depth);
        }
        assert(x == y);
        let front = a.drop_last();
        let other = b.drop_last();
        assert forall|i: int, j: int| 0 <= i < j < front.len() implies (#[trigger] front[i]).depth
            < (#[trigger] front[j]).depth by {
            assert(a[i].depth < a[j].depth);
        }
        assert forall|i: int, j: int| 0 <= i < j < other.len() implies (#[trigger] other[i]).depth
            < (#[trigger] other[j]).depth by {
            assert(b[i].depth < b[j].depth);
        }
        assert forall|z: EventRec| #[trigger] front.contains(z) <==> other.contains(z) by {
            if front.contains(z) {
                let k = choose|k: int| 0 <= k < front.len() && front[k] == z;
                assert(a[k] == z);
                assert(a[k].depth < a[a.len() - 1].depth);
                assert(a.contains(z));
                let l = choose|l: int| 0 <= l < b.len() && b[l] == z;
                assert(other[l] == z);
            }
            if other.contains(z) {
                let k = choose|k: int| 0 <= k < other.len() && other[k] == z;
                assert(b[k] == z);
                assert(b[k].depth < b[b.len() - 1].depth);
                assert(b.contains(z));
                assert(a.contains(z));
                let l = choose|l: int| 0 <= l < a.len() && a[l] == z;
                assert(front[l] == z);
            }
        }
        lemma_same_rows(front, other);
        assert(a =~= front.push(x));
        assert(b =~= other.push(x));
    }
}

proof fn lemma_filter_has_no_duplicates(rows: Seq<EventRec>, keep: spec_fn(EventRec) -> bool)
    requires
        rows.no_duplicates(),
    ensures
        rows.filter(keep).no_duplicates(),
    decreases rows.len(),
{
    reveal(Seq::filter);
    if rows.len() > 0 {
        let rest = rows.drop_last();
        assert forall|i: int, j: int|
            0 <= i < rest.len() && 0 <= j < rest.len() && i != j implies rest[i] != rest[j] by {
            assert(rows[i] != rows[j]);
        }
        lemma_filter_has_no_duplicates(rest, keep);
        if rest.filter(keep).contains(rows.last()) {
            rest.lemma_filter_contains_rev(keep, rows.last());
            let k = choose|k: int| 0 <= k < rest.len() && rest[k] == rows.last();
            assert(rows[k] != rows[rows.len() - 1]);
        }
        let kept = rest.filter(keep);
        let all = rows.filter(keep);
        assert forall|i: int, j: int|
            0 <= i < all.len() && 0 <= j < all.len() && i != j implies all[i] != all[j] by {
            if i < kept.len() {
                assert(kept.contains(kept[i]));
            }
            if j < kept.len() {
                assert(kept.contains(kept[j]));
            }
        }
    }
}

proof fn lemma_history_goes_deeper(t: Tables, room: Seq<char>, before: Option<i64>)
    requires
        t.wf(),
        t.depths_differ(room),
    ensures
        deeper_and_deeper(t.history(room, before)),
{
    let keep = |row: EventRec| crate::store::timeline::in_timeline(row, room, before);
    let key = crate::store::timeline::history_key();
    let shown = t.events.filter(keep);
    let history = t.history(room, before);
    assert(t.events.no_duplicates()) by {
        assert forall|i: int, j: int|
            0 <= i < t.events.len() && 0 <= j < t.events.len() && i != j implies t.events[i]
            != t.events[j] by {
            if i < j {
                assert(t.events[i].event_id != t.events[j].event_id);
            } else {
                assert(t.events[j].event_id != t.events[i].event_id);
            }
        }
    }
    lemma_filter_has_no_duplicates(t.events, keep);
    shown.lemma_multiset_has_no_duplicates();
    crate::order::ordering_is_a_sort(shown, key);
    history.lemma_multiset_has_no_duplicates_conv();
    assert forall|i: int, j: int| 0 <= i < j < history.len() implies (
    #[trigger] history[i]).depth < (#[trigger] history[j]).depth by {
        assert(!crate::order::key_lt(key(history[j]), key(history[i])));
        assert(history.contains(history[i]));
        assert(history.contains(history[j]));
        crate::store::pages::history_is_the_room_in_order(t, room, before, history[i]);
        crate::store::pages::history_is_the_room_in_order(t, room, before, history[j]);
        let a = choose|a: int| 0 <= a < t.events.len() && t.events[a] == history[i];
        let b = choose|b: int| 0 <= b < t.events.len() && t.events[b] == history[j];
        assert(history[i] != history[j]);
        if a < b {
            assert(t.events[a].depth != t.events[b].depth);
        } else {
            assert(t.events[b].depth != t.events[a].depth);
        }
    }
}

/// What is older than the oldest event of a page is the rest of the history: where
/// depths differ, nothing falls between two pages.
pub proof fn older_history_is_the_rest(t: Tables, room: Seq<char>, limit: int, before: Option<i64>)
    requires
        t.wf(),
        t.depths_differ(room),
        1 <= limit,
        t.history(room, before).len() > 0,
    ensures
        ({
            let history = t.history(room, before);
            let page = t.page(room, limit, before);
            &&& page.len() > 0
            &&& t.history(room, Some(page[0].depth)) == history.take(history.len() - page.len())
        }),
{
    let history = t.history(room, before);
    let page = t.page(room, limit, before);
    crate::store::pages::page_is_the_end_of_the_history(t, room, limit, before);
    let n = history.len() - page.len();
    let d = page[0].depth;
    let older = t.history(room, Some(d));
    let front = history.take(n);
    lemma_history_goes_deeper(t, room, before);
    lemma_history_goes_deeper(t, room, Some(d));
    assert(page[0] == history[n]);
    assert forall|i: int, j: int| 0 <= i < j < front.len() implies (#[trigger] front[i]).depth < (
    #[trigger] front[j]).depth by {
        assert(history[i].depth < history[j].depth);
    }
    assert forall|x: EventRec| #[trigger] older.contains(x) <==> front.contains(x) by {
        crate::store::pages::history_is_the_room_in_order(t, room, before, x);
        crate::store::pages::history_is_the_room_in_order(t, room, Some(d), x);
        assert(history.contains(history[n]));
        crate::store::pages::history_is_the_room_in_order(t, room, before, history[n]);
        if older.contains(x) {
            assert(history.contains(x));
            let k = choose|k: int| 0 <= k < history.len() && history[k] == x;
            if n < k {
                assert(history[n].depth < history[k].depth);
            }
            assert(front[k] == x);
        }
        if front.contains(x) {
            let k = choose|k: int| 0 <= k < front.len() && front[k] == x;
            assert(history[k] == x);
            assert(history[k].depth < history[n].depth);
            assert(history.contains(x));
        }
    }
    lemma_same_rows(older, front);
}

/// The pages that are read one after the other, each before the oldest event of
/// the one read last, until one is empty, put together. At most `n` are read.
pub open spec fn paged_back(
    t: Tables,
    room: Seq<char>,
    limit: int,
    before: Option<i64>,
    n: nat,
) -> Seq<EventRec>
    decreases n,
{
    let page = t.page(room, limit, before);
    if n == 0 || page.len() == 0 {
        seq![]
    } else {
        paged_back(t, room, limit, Some(page[0].depth), (n - 1) as nat) + page
    }
}

/// Paging back to the beginning shows a room's whole history, every event once and
/// in order, where no two of its events have one depth.
pub proof fn pages_make_up_the_history(
    t: Tables,
    room: Seq<char>,
    limit: int,
    before: Option<i64>,
    n: nat,
)
    requires
        t.wf(),
        t.depths_differ(room),
        1 <= limit,
        t.history(room, before).len() <= n,
    ensures
        paged_back(t, room, limit, before, n) == t.history(room, before),
        t.history(room, before).no_duplicates(),
    decreases n,
{
    let history = t.history(room, before);
    lemma_history_goes_deeper(t, room, before);
    assert forall|i: int, j: int|
        0 <= i < history.len() && 0 <= j < history.len() && i != j implies history[i]
        != history[j] by {
        if i < j {
            assert(history[i].depth < history[j].depth);
        } else {
            assert(history[j].depth < history[i].depth);
        }
    }
    crate::store::pages::page_is_the_end_of_the_history(t, room, limit, before);
    let page = t.page(room, limit, before);
    if history.len() == 0 {
        assert(paged_back(t, room, limit, before, n) =~= history);
    } else {
        older_history_is_the_rest(t, room, limit, before);
        pages_make_up_the_history(t, room, limit, Some(page[0].depth), (n - 1) as nat);
        assert(history =~= history.take(history.len() - page.len()) + page);
    }
}

} // verus!
