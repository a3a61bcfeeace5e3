//! Ordering rows by a number, then by a text.

use vstd::prelude::*;

use crate::text::str_lt;

verus! {

/// What a row is ordered by: the number first, the text where numbers are equal.
pub struct SortKey {
    pub num: i128,
    pub text: String,
}

/// The value of a [`SortKey`].
pub struct KeyView {
    pub num: int,
    pub text: Seq<char>,
}

impl View for SortKey {
    type V = KeyView;

    open spec fn view(&self) -> KeyView {
        KeyView { num: self.num as int, text: self.text@ }
    }
}

/// Whether a key comes strictly before another.
pub open spec fn key_lt(a: KeyView, b: KeyView) -> bool {
    a.num < b.num || (a.num == b.num && crate::text::text_lt(a.text, b.text))
}

/// An ordered list with one more row, behind those that do not come after it.
pub open spec fn insert_by<R>(sorted: Seq<R>, row: R, key: spec_fn(R) -> KeyView) -> Seq<R>
    decreases sorted.len(),
{
    if sorted.len() == 0 || !key_lt(key(row), key(sorted.last())) {
        sorted.push(row)
    } else {
        insert_by(sorted.drop_last(), row, key).push(sorted.last())
    }
}

/// The rows in the order of their keys. Rows with equal keys keep their order.
pub open spec fn order_by<R>(rows: Seq<R>, key: spec_fn(R) -> KeyView) -> Seq<R>
    decreases rows.len(),
{
    if rows.len() == 0 {
        seq![]
    } else {
        insert_by(order_by(rows.drop_last(), key), rows.last(), key)
    }
}

/// No row stands behind one that its key comes before.
pub open spec fn is_ordered<R>(rows: Seq<R>, key: spec_fn(R) -> KeyView) -> bool {
    forall|i: int, j: int|
        0 <= i < j < rows.len() ==> !key_lt(key(#[trigger] rows[j]), key(#[trigger] rows[i]))
}

/// Keys are compared by their numbers, and by their texts where the numbers are the
/// same.
pub proof fn keys_go_by_number_then_text(a: KeyView, b: KeyView)
    ensures
        a.num < b.num ==> key_lt(a, b),
        a.num > b.num ==> !key_lt(a, b),
        a.num == b.num ==> (key_lt(a, b) <==> crate::text::text_lt(a.text, b.text)),
{
}

/// Rows that were ordered are those that were there, and of two of them the one in front
/// has the lesser number, or the same number and no greater text.
pub proof fn ordered_rows_are_in_order<R>(
    rows: Seq<R>,
    key: spec_fn(R) -> KeyView,
    i: int,
    j: int,
)
    requires
        0 <= i < j < rows.len(),
    ensures
        order_by(rows, key).len() == rows.len(),
        order_by(rows, key).to_multiset() == rows.to_multiset(),
        ({
            let a = key(order_by(rows, key)[i]);
            let b = key(order_by(rows, key)[j]);
            a.num < b.num || (a.num == b.num && !crate::text::text_lt(b.text, a.text))
        }),
{
    ordering_is_a_sort(rows, key);
}

/// Keys are ordered transitively, also through keys that are equal.
pub proof fn lemma_key_order(a: KeyView, b: KeyView, c: KeyView)
    ensures
        key_lt(a, b) && !key_lt(c, b) ==> key_lt(a, c),
        key_lt(a, b) ==> !key_lt(b, a),
        key_lt(a, b) || key_lt(b, a) || a == b,
{
    crate::text::text_order_is_total(a.text, b.text);
    crate::text::text_order_is_total(c.text, b.text);
    if crate::text::text_lt(a.text, b.text) && crate::text::text_lt(b.text, c.text) {
        crate::text::text_order_is_transitive(a.text, b.text, c.text);
    }
}

proof fn lemma_insert_by<R>(sorted: Seq<R>, row: R, key: spec_fn(R) -> KeyView)
    requires
        is_ordered(sorted, key),
    ensures
        is_ordered(insert_by(sorted, row, key), key),
        insert_by(sorted, row, key).to_multiset() == sorted.to_multiset().insert(row),
        insert_by(sorted, row, key).len() == sorted.len() + 1,
        forall|x: R| #[trigger]
            insert_by(sorted, row, key).contains(x) ==> x == row || sorted.contains(x),
    decreases sorted.len(),
{
    broadcast use vstd::seq_lib::group_to_multiset_ensures;

    let out = insert_by(sorted, row, key);
    if sorted.len() == 0 || !key_lt(key(row), key(sorted.last())) {
        assert forall|i: int, j: int| 0 <= i < j < out.len() implies !key_lt(
            key(#[trigger] out[j]),
            key(#[trigger] out[i]),
        ) by {
            if j == sorted.len() && i < sorted.len() - 1 {
                lemma_key_order(key(row), key(sorted[i]), key(sorted.last()));
            }
        }
        assert forall|x: R| #[trigger] out.contains(x) implies x == row || sorted.contains(x) by {
            let k = choose|k: int| 0 <= k < out.len() && out[k] == x;
            if k < sorted.len() {
                assert(sorted[k] == x);
            }
        }
    } else {
        let head = sorted.drop_last();
        let last = sorted.last();
        let front = insert_by(head, row, key);
        lemma_insert_by(head, row, key);
        assert(sorted =~= head.push(last));
        assert(out =~= front.push(last));
        assert forall|i: int, j: int| 0 <= i < j < out.len() implies !key_lt(
            key(#[trigger] out[j]),
            key(#[trigger] out[i]),
        ) by {
            if j == front.len() {
                assert(front.contains(front[i]));
                if front[i] != row {
                    let k = choose|k: int| 0 <= k < head.len() && head[k] == front[i];
                    assert(sorted[k] == front[i]);
                } else {
                    lemma_key_order(key(row), key(last), key(row));
                }
            }
        }
        assert forall|x: R| #[trigger] out.contains(x) implies x == row || sorted.contains(x) by {
            let k = choose|k: int| 0 <= k < out.len() && out[k] == x;
            if k < front.len() {
                assert(front.contains(x));
                if x != row {
                    let m = choose|m: int| 0 <= m < head.len() && head[m] == x;
                    assert(sorted[m] == x);
                }
            } else {
                assert(sorted[sorted.len() - 1] == x);
            }
        }
    }
}

/// Ordering rows keeps every row, as often as it was there, and leaves none
/// behind a row that comes after it.
pub proof fn ordering_is_a_sort<R>(rows: Seq<R>, key: spec_fn(R) -> KeyView)
    ensures
        is_ordered(order_by(rows, key), key),
        order_by(rows, key).to_multiset() == rows.to_multiset(),
        order_by(rows, key).len() == rows.len(),
    decreases rows.len(),
{
    broadcast use vstd::seq_lib::group_to_multiset_ensures;

    if rows.len() > 0 {
        ordering_is_a_sort(rows.drop_last(), key);
        lemma_insert_by(order_by(rows.drop_last(), key), rows.last(), key);
        assert(rows =~= rows.drop_last().push(rows.last()));
    } else {
        assert(rows =~= seq![]);
    }
}

/// A row is among the ordered rows exactly where it was among the rows.
pub proof fn lemma_order_keeps<R>(rows: Seq<R>, key: spec_fn(R) -> KeyView, x: R)
    ensures
        order_by(rows, key).contains(x) <==> rows.contains(x),
{
    broadcast use vstd::seq_lib::group_to_multiset_ensures;

    ordering_is_a_sort(rows, key);
    assert(order_by(rows, key).to_multiset().count(x) == rows.to_multiset().count(x));
}

proof fn lemma_insert_at<R>(sorted: Seq<R>, row: R, key: spec_fn(R) -> KeyView, p: int)
    requires
        0 <= p <= sorted.len(),
        forall|q: int| p <= q < sorted.len() ==> key_lt(key(row), key(#[trigger] sorted[q])),
        p > 0 ==> !key_lt(key(row), key(sorted[p - 1])),
    ensures
        insert_by(sorted, row, key) == sorted.insert(p, row),
    decreases sorted.len(),
{
    if p == sorted.len() {
        assert(sorted.insert(p, row) =~= sorted.push(row));
    } else {
        let head = sorted.drop_last();
        assert(key_lt(key(row), key(sorted[sorted.len() - 1])));
        lemma_insert_at(head, row, key, p);
        assert(sorted.insert(p, row) =~= head.insert(p, row).push(sorted.last()));
    }
}

proof fn lemma_insert_place<R>(sorted: Seq<R>, row: R, key: spec_fn(R) -> KeyView) -> (p: int)
    ensures
        0 <= p <= sorted.len(),
        insert_by(sorted, row, key) == sorted.insert(p, row),
        forall|q: int| p <= q < sorted.len() ==> key_lt(key(row), key(#[trigger] sorted[q])),
    decreases sorted.len(),
{
    if sorted.len() == 0 || !key_lt(key(row), key(sorted.last())) {
        assert(sorted.insert(sorted.len() as int, row) =~= sorted.push(row));
        sorted.len() as int
    } else {
        let head = sorted.drop_last();
        let p = lemma_insert_place(head, row, key);
        assert(sorted.insert(p, row) =~= head.insert(p, row).push(sorted.last()));
        assert forall|q: int| p <= q < sorted.len() implies key_lt(
            key(row),
            key(#[trigger] sorted[q]),
        ) by {
            if q < head.len() {
                assert(head[q] == sorted[q]);
            }
        }
        p
    }
}

/// Of two rows the first stays before the second, unless the second one's key
/// comes before the first one's: rows with equal keys keep their order.
pub proof fn ordering_is_stable<R>(rows: Seq<R>, key: spec_fn(R) -> KeyView, i: int, j: int)
    requires
        0 <= i < j < rows.len(),
        !key_lt(key(rows[j]), key(rows[i])),
    ensures
        exists|a: int, b: int|
            0 <= a < b < order_by(rows, key).len() && #[trigger] order_by(rows, key)[a] == rows[i]
                && #[trigger] order_by(rows, key)[b] == rows[j],
    decreases rows.len(),
{
    let rest = rows.drop_last();
    let sorted = order_by(rest, key);
    let out = order_by(rows, key);
    let p = lemma_insert_place(sorted, rows.last(), key);
    if j < rows.len() - 1 {
        ordering_is_stable(rest, key, i, j);
        let (a, b) = choose|a: int, b: int|
            0 <= a < b < sorted.len() && #[trigger] sorted[a] == rest[i] && #[trigger] sorted[b]
                == rest[j];
        let c = if a < p { a } else { a + 1 };
        let d = if b < p { b } else { b + 1 };
        assert(out[c] == rows[i]);
        assert(out[d] == rows[j]);
    } else {
        lemma_order_keeps(rest, key, rows[i]);
        assert(rest[i] == rows[i]);
        assert(rest.contains(rows[i]));
        let a = choose|a: int| 0 <= a < sorted.len() && sorted[a] == rows[i];
        assert(a < p);
        assert(out[a] == rows[i]);
        assert(out[p] == rows[j]);
    }
}

/// Rows that are in order stay as they are.
pub proof fn ordered_rows_stay<R>(rows: Seq<R>, key: spec_fn(R) -> KeyView)
    requires
        is_ordered(rows, key),
    ensures
        order_by(rows, key) == rows,
    decreases rows.len(),
{
    if rows.len() > 0 {
        let rest = rows.drop_last();
        assert forall|i: int, j: int| 0 <= i < j < rest.len() implies !key_lt(
            key(#[trigger] rest[j]),
            key(#[trigger] rest[i]),
        ) by {
            assert(rest[i] == rows[i] && rest[j] == rows[j]);
        }
        ordered_rows_stay(rest, key);
        if rest.len() > 0 {
            assert(!key_lt(key(rows[rows.len() - 1]), key(rows[rows.len() - 2])));
        }
        assert(rest.push(rows.last()) =~= rows);
    } else {
        assert(rows =~= seq![]);
    }
}

/// The rows at the given places.
pub open spec fn rows_at<R>(rows: Seq<R>, places: Seq<int>) -> Seq<R> {
    Seq::new(places.len(), |i: int| rows[places[i]])
}

/// The places `0..n` in order.
pub open spec fn places(n: nat) -> Seq<int> {
    Seq::new(n, |i: int| i)
}

/// The places that a vector of indices names.
pub open spec fn named_places(v: Seq<usize>) -> Seq<int> {
    Seq::new(v.len(), |i: int| v[i] as int)
}

/// The key of each place.
pub open spec fn place_key(keys: Seq<SortKey>) -> spec_fn(int) -> KeyView {
    |i: int| keys[i]@
}

proof fn lemma_insert_places<R>(
    rows: Seq<R>,
    key: spec_fn(R) -> KeyView,
    at: Seq<int>,
    place: int,
    pkey: spec_fn(int) -> KeyView,
)
    requires
        pkey(place) == key(rows[place]),
        forall|i: int| 0 <= i < at.len() ==> pkey(#[trigger] at[i]) == key(rows[at[i]]),
    ensures
        rows_at(rows, insert_by(at, place, pkey)) == insert_by(rows_at(rows, at), rows[place], key),
    decreases at.len(),
{
    let shown = rows_at(rows, at);
    if at.len() == 0 || !key_lt(pkey(place), pkey(at.last())) {
        if at.len() > 0 {
            assert(pkey(at[at.len() - 1]) == key(rows[at[at.len() - 1]]));
        }
        assert(rows_at(rows, at.push(place)) =~= shown.push(rows[place]));
    } else {
        assert(pkey(at[at.len() - 1]) == key(rows[at[at.len() - 1]]));
        assert(rows_at(rows, at.drop_last()) =~= shown.drop_last());
        assert forall|i: int| 0 <= i < at.drop_last().len() implies pkey(
            #[trigger] at.drop_last()[i],
        ) == key(rows[at.drop_last()[i]]) by {
            assert(pkey(at[i]) == key(rows[at[i]]));
        }
        lemma_insert_places(rows, key, at.drop_last(), place, pkey);
        assert(rows_at(rows, insert_by(at, place, pkey)) =~= rows_at(
            rows,
            insert_by(at.drop_last(), place, pkey),
        ).push(rows[at.last()]));
    }
}

proof fn lemma_insert_by_range(at: Seq<int>, place: int, pkey: spec_fn(int) -> KeyView, n: int)
    requires
        0 <= place < n,
        forall|i: int| 0 <= i < at.len() ==> 0 <= #[trigger] at[i] < n,
    ensures
        insert_by(at, place, pkey).len() == at.len() + 1,
        forall|i: int|
            0 <= i < at.len() + 1 ==> 0 <= #[trigger] insert_by(at, place, pkey)[i] < n,
    decreases at.len(),
{
    if at.len() > 0 && key_lt(pkey(place), pkey(at.last())) {
        assert(0 <= at[at.len() - 1] < n);
        assert forall|i: int| 0 <= i < at.drop_last().len() implies 0 <= #[trigger] at.drop_last()[i]
            < n by {
            assert(0 <= at[i] < n);
        }
        lemma_insert_by_range(at.drop_last(), place, pkey, n);
    }
}

/// Ordering the places by the keys of their rows orders the rows.
pub proof fn lemma_order_places<R>(
    rows: Seq<R>,
    key: spec_fn(R) -> KeyView,
    n: nat,
    pkey: spec_fn(int) -> KeyView,
)
    requires
        n <= rows.len(),
        forall|i: int| 0 <= i < n ==> #[trigger] pkey(i) == key(rows[i]),
    ensures
        rows_at(rows, order_by(places(n), pkey)) == order_by(rows.take(n as int), key),
        order_by(places(n), pkey).len() == n,
        forall|i: int| 0 <= i < n ==> 0 <= #[trigger] order_by(places(n), pkey)[i] < n,
    decreases n,
{
    if n == 0 {
        assert(rows_at(rows, order_by(places(n), pkey)) =~= order_by(rows.take(0), key));
    } else {
        let m = (n - 1) as nat;
        lemma_order_places(rows, key, m, pkey);
        assert(places(n).drop_last() =~= places(m));
        assert(rows.take(n as int).drop_last() =~= rows.take(m as int));
        let at = order_by(places(m), pkey);
        assert forall|i: int| 0 <= i < at.len() implies pkey(#[trigger] at[i]) == key(
            rows[at[i]],
        ) by {
            assert(0 <= at[i] < m);
        }
        assert(pkey(m as int) == key(rows[m as int]));
        lemma_insert_places(rows, key, at, m as int, pkey);
        assert forall|i: int| 0 <= i < at.len() implies 0 <= #[trigger] at[i] < n by {}
        lemma_insert_by_range(at, m as int, pkey, n as int);
    }
}

/// Whether a key comes strictly before another.
pub fn sort_key_lt(a: &SortKey, b: &SortKey) -> (r: bool)
    ensures
        r == key_lt(a@, b@),
{
    if a.num != b.num {
        a.num < b.num
    } else {
        str_lt(a.text.as_str(), b.text.as_str())
    }
}

/// The places of the keys, in the order of the keys.
pub fn order_of(keys: &Vec<SortKey>) -> (r: Vec<usize>)
    ensures
        named_places(r@) == order_by(places(keys@.len()), place_key(keys@)),
        r@.len() == keys@.len(),
        forall|i: int| 0 <= i < r@.len() ==> #[trigger] r@[i] < keys@.len(),
{
    let ghost pkey = place_key(keys@);
    let mut out: Vec<usize> = Vec::new();
    let mut i: usize = 0;
    assert(named_places(out@) =~= order_by(places(0), pkey));
    while i < keys.len()
        invariant
            i <= keys@.len(),
            pkey == place_key(keys@),
            out@.len() == i,
            forall|j: int| 0 <= j < i ==> #[trigger] out@[j] < i,
            named_places(out@) == order_by(places(i as nat), pkey),
        decreases keys@.len() - i,
    {
        let mut p: usize = out.len();
        while p > 0 && sort_key_lt(&keys[i], &keys[out[p - 1]])
            invariant
                i < keys@.len(),
                p <= out@.len(),
                out@.len() == i,
                pkey == place_key(keys@),
                forall|j: int| 0 <= j < i ==> #[trigger] out@[j] < i,
                forall|q: int|
                    p <= q < out@.len() ==> key_lt(
                        pkey(i as int),
                        pkey(#[trigger] named_places(out@)[q]),
                    ),
            decreases p,
        {
            assert(pkey(named_places(out@)[p - 1]) == keys@[out@[p - 1] as int]@);
            p -= 1;
        }
        let ghost before = out@;
        proof {
            if p > 0 {
                assert(pkey(named_places(out@)[p - 1]) == keys@[out@[p - 1] as int]@);
            }
            lemma_insert_at(named_places(out@), i as int, pkey, p as int);
            assert(places((i + 1) as nat).drop_last() =~= places(i as nat));
        }
        out.insert(p, i);
        assert(named_places(out@) =~= named_places(before).insert(p as int, i as int));
        assert forall|j: int| 0 <= j < i + 1 implies #[trigger] out@[j] < i + 1 by {
            if j < p {
                assert(before[j] < i);
            } else if j > p {
                assert(before[j - 1] < i);
            }
        }
        i += 1;
    }
    out
}

} // verus!
