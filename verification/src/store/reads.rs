//! What reading the store gives, in terms of the rows that it holds.

use vstd::prelude::*;

use crate::event::{MembershipView, StoreErrorView, StoredView};
use crate::json::JsonView;
use crate::store::inbound::{DecryptView, MlsView};
use crate::table::{ChangeView, EventRec, EventRow, SendRec, SendRow, StateRec, StateRow, Tables};

verus! {

/// A timeline entry shows its row: the id, the sender, the clock and the depth of the
/// event that the row holds, the text of a plain message, the cached text of an
/// encrypted one, and how the sending stands by the row.
pub proof fn entry_shows_its_row(row: EventRec)
    requires
        crate::store::timeline::stored_of(row) is Ok,
    ensures
        ({
            let entry = crate::rooms::shown(crate::store::timeline::stored_of(row)->Ok_0);
            let kind = row.payload.at("type"@);
            &&& row.payload.at("event_id"@) == JsonView::Str(entry.event_id)
            &&& row.payload.at("sender"@) == JsonView::Str(entry.sender)
            &&& row.payload.at("origin_server_ts"@).as_i64() == Some(entry.origin_server_ts)
            &&& row.payload.at("depth"@).as_i64() == Some(entry.cursor)
            &&& entry.pending <==> row.local == 1
            &&& entry.failed <==> row.local == 2
            &&& kind == JsonView::Str("p.room.message"@) ==> (match row.payload.at("content"@).at(
                "body"@,
            ) {
                JsonView::Str(text) => entry.body == Some(text),
                _ => entry.body is None,
            })
            &&& kind == JsonView::Str("p.room.encrypted"@) ==> entry.body == row.decrypted
            &&& kind == JsonView::Str("p.room.encrypted"@) && row.decrypted is None ==> (
            entry.system_text is Some <==> row.decrypt_state == 2)
        }),
{
    let ev = crate::store::timeline::stored_of(row)->Ok_0;
    crate::event::wire_event_is_read_as_it_came(row.payload);
    crate::rooms::body_is_the_text_of_the_message(ev);
    crate::rooms::entry_is_about_its_event(ev);
    let target = match ev.state_key {
        Some(k) => k,
        None => ev.sender,
    };
    crate::rooms::line_tells_what_happened(ev, target, target);
}

/// What is read back of a row is the event of its payload, with what the row adds: how
/// its sending stands, its decrypted text, and whether it was given up.
pub proof fn row_is_read_back(row: EventRec)
    ensures
        match (crate::store::timeline::stored_of(row), crate::event::parse_event(row.payload)) {
            (Ok(read), Ok(ev)) => {
                &&& read.event_id == ev.event_id
                &&& read.room_id == ev.room_id
                &&& read.sender == ev.sender
                &&& read.event_type == ev.event_type
                &&& read.state_key == ev.state_key
                &&& read.origin_server_ts == ev.origin_server_ts
                &&& read.depth == ev.depth
                &&& read.content == ev.content
                &&& read.payload == row.payload
                &&& read.send_state == crate::event::send_state_of(row.local)
                &&& read.decrypted == row.decrypted
                &&& read.decrypt_failed <==> row.decrypt_state == 2
            },
            (Err(a), Err(b)) => a == b,
            _ => false,
        },
{
}

proof fn lemma_filter_no_duplicates<A>(s: Seq<A>, keep: spec_fn(A) -> bool)
    requires
        s.no_duplicates(),
    ensures
        s.filter(keep).no_duplicates(),
    decreases s.len(),
{
    reveal(Seq::filter);
    if s.len() > 0 {
        let rest = s.drop_last();
        assert(rest.no_duplicates()) by {
            assert forall|i: int, j: int|
                0 <= i < rest.len() && 0 <= j < rest.len() && i != j implies rest[i] != rest[j] by {
                assert(s[i] != s[j]);
            }
        }
        lemma_filter_no_duplicates(rest, keep);
        if keep(s.last()) {
            let kept = rest.filter(keep);
            let all = kept.push(s.last());
            assert forall|i: int, j: int|
                0 <= i < all.len() && 0 <= j < all.len() && i != j implies all[i] != all[j] by {
                if i < kept.len() && j < kept.len() {
                    assert(kept[i] != kept[j]);
                } else {
                    let k = if i < kept.len() { i } else { j };
                    assert(kept.contains(kept[k]));
                    rest.lemma_filter_contains_rev(keep, kept[k]);
                    let m = choose|m: int| 0 <= m < rest.len() && rest[m] == kept[k];
                    assert(s[m] != s[s.len() - 1]);
                }
            }
        }
    }
}

/// The history of a room has each of its events once.
proof fn lemma_history_has_no_duplicates(t: Tables, room: Seq<char>, before: Option<i64>)
    requires
        t.wf(),
    ensures
        t.history(room, before).no_duplicates(),
{
    let keep = |row: EventRec| crate::store::timeline::in_timeline(row, room, before);
    assert(t.events.no_duplicates()) by {
        assert forall|i: int, j: int|
            0 <= i < t.events.len() && 0 <= j < t.events.len() && i != j implies t.events[i]
            != t.events[j] by {
            if i < j {
                assert(t.events[i].event_id != t.events[j].event_id);
            } else {
                assert(t.events[j].event_id != t.events[i].event_id);
            }
        }
    }
    lemma_filter_no_duplicates(t.events, keep);
    let shown = t.events.filter(keep);
    crate::order::ordering_is_a_sort(shown, crate::store::timeline::history_key());
    shown.lemma_multiset_has_no_duplicates();
    let history = t.history(room, before);
    assert forall|x: EventRec| history.to_multiset().contains(x) implies
        history.to_multiset().count(x) == 1 by {
        assert(shown.to_multiset().contains(x));
    }
    history.lemma_multiset_has_no_duplicates_conv();
}

/// A page of a timeline is made of events of the room, before the cursor, each once,
/// oldest first and by their ids where the depth is the same. It has no more than were
/// asked for; and an event that belongs there and is not on it lies no deeper than any
/// event of the page, which is full then. Changes of an encryption group do not belong.
pub proof fn page_has_the_newest_events(
    t: Tables,
    room: Seq<char>,
    limit: int,
    before: Option<i64>,
    row: EventRec,
    i: int,
    j: int,
)
    requires
        t.wf(),
        0 <= limit,
    ensures
        ({
            let page = t.page(room, limit, before);
            let belongs = t.events.contains(row) && row.room_id == room && row.event_type
                != "p.mls.commit"@ && (before matches Some(d) ==> row.depth < d);
            &&& page.len() <= limit
            &&& page.contains(row) ==> belongs
            &&& belongs && !page.contains(row) ==> page.len() == limit
            &&& belongs && !page.contains(row) && 0 <= i < page.len() ==> row.depth
                <= page[i].depth
            &&& 0 <= i < j < page.len() ==> page[i].depth <= page[j].depth
            &&& 0 <= i < j < page.len() && page[i].depth == page[j].depth ==> crate::text::text_lt(
                page[i].event_id,
                page[j].event_id,
            )
            &&& 0 <= i < j < page.len() ==> page[i].event_id != page[j].event_id
        }),
{
    let history = t.history(room, before);
    let page = t.page(room, limit, before);
    let n = history.len() - page.len();
    crate::store::pages::page_is_the_end_of_the_history(t, room, limit, before);
    crate::store::pages::history_is_the_room_in_order(t, room, before, row);
    lemma_history_has_no_duplicates(t, room, before);
    if page.contains(row) {
        let k = choose|k: int| 0 <= k < page.len() && page[k] == row;
        assert(history[k + n] == row);
    }
    if history.contains(row) && !page.contains(row) {
        let k = choose|k: int| 0 <= k < history.len() && history[k] == row;
        if k >= n {
            assert(page[k - n] == row);
        }
        if 0 <= i < page.len() {
            assert(page[i] == history[i + n]);
        }
    }
    if 0 <= i < j < page.len() {
        let a = history[i + n];
        let b = history[j + n];
        assert(page[i] == a && page[j] == b);
        assert(a != b);
        assert(history.contains(a) && history.contains(b));
        crate::store::pages::history_is_the_room_in_order(t, room, before, a);
        crate::store::pages::history_is_the_room_in_order(t, room, before, b);
        let x = choose|x: int| 0 <= x < t.events.len() && t.events[x] == a;
        let y = choose|y: int| 0 <= y < t.events.len() && t.events[y] == b;
        if x < y {
            assert(t.events[x].event_id != t.events[y].event_id);
        } else {
            assert(t.events[y].event_id != t.events[x].event_id);
        }
        crate::text::text_order_is_total(a.event_id, b.event_id);
    }
}

/// The current state of a key is the event that its row of state names, as it came.
pub proof fn current_state_is_the_event_named(
    t: Tables,
    room: Seq<char>,
    event_type: Seq<char>,
    key: Seq<char>,
    n: int,
    k: int,
)
    requires
        t.wf(),
        0 <= n < t.state.len(),
        t.state[n].room_id == room,
        t.state[n].event_type == event_type,
        t.state[n].state_key == key,
        0 <= k < t.events.len(),
        t.events[k].event_id == t.state[n].event_id,
    ensures
        t.state_event(room, event_type, key) == Some(t.events[k]),
        match crate::event::parse_event(t.events[k].payload) {
            Ok(ev) => t.current_state(room, event_type, key) == Ok::<
                Option<StoredView>,
                StoreErrorView,
            >(Some(ev)),
            Err(e) => t.current_state(room, event_type, key) == Err::<
                Option<StoredView>,
                StoreErrorView,
            >(e),
        },
{
    crate::table::lemma_unique_state(t, n);
    crate::table::lemma_unique_event(t, k);
}

/// A key of which no row of state speaks has no current state.
pub proof fn unset_key_has_no_state(
    t: Tables,
    room: Seq<char>,
    event_type: Seq<char>,
    key: Seq<char>,
)
    requires
        forall|n: int|
            0 <= n < t.state.len() ==> !((#[trigger] t.state[n]).room_id == room
                && t.state[n].event_type == event_type && t.state[n].state_key == key),
    ensures
        t.state_event(room, event_type, key) is None,
        t.current_state(room, event_type, key) == Ok::<Option<StoredView>, StoreErrorView>(None),
{
    crate::table::lemma_state_at(t.state, room, event_type, key);
}

/// A membership is what the `membership` of the current member event of the user says.
pub proof fn membership_is_what_the_member_event_says(t: Tables, room: Seq<char>, user: Seq<char>)
    ensures
        match t.current_state(room, "p.room.member"@, user) {
            Err(e) => t.membership(room, user) == Err::<Option<MembershipView>, StoreErrorView>(e),
            Ok(None) => t.membership(room, user) == Ok::<Option<MembershipView>, StoreErrorView>(
                None,
            ),
            Ok(Some(ev)) => match ev.content.at("membership"@) {
                JsonView::Str(s) => t.membership(room, user) is Ok && t.membership(
                    room,
                    user,
                )->Ok_0 is Some && ({
                    let m = t.membership(room, user)->Ok_0->0;
                    &&& m is Join <==> s == "join"@
                    &&& m is Invite <==> s == "invite"@
                    &&& m is Leave <==> s == "leave"@
                    &&& m is Ban <==> s == "ban"@
                    &&& m is Knock <==> s == "knock"@
                    &&& m matches MembershipView::Other(kept) ==> kept == s
                }),
                _ => t.membership(room, user) == Ok::<Option<MembershipView>, StoreErrorView>(
                    None,
                ),
            },
        },
{
    if let Ok(Some(ev)) = t.current_state(room, "p.room.member"@, user) {
        if let JsonView::Str(s) = ev.content.at("membership"@) {
            crate::event::memberships_have_their_wire_values(s);
        }
    }
}

/// A room counts as encrypted exactly where an event of the log sets its encryption.
pub proof fn room_is_encrypted_by_an_event(t: Tables, room: Seq<char>)
    requires
        t.settled(),
    ensures
        t.is_encrypted(room) <==> exists|i: int|
            0 <= i < t.events.len() && (#[trigger] t.events[i]).room_id == room
                && t.events[i].event_type == "p.room.encryption"@ && t.events[i].state_key is Some,
{
    if t.is_encrypted(room) {
        let n = choose|n: int|
            0 <= n < t.state.len() && (#[trigger] t.state[n]).room_id == room
                && t.state[n].event_type == "p.room.encryption"@;
        assert(crate::store::settled::stands_for_event(t.events, t.state[n]));
        crate::table::lemma_event_at(t.events, t.state[n].event_id);
        let e = crate::table::event_at(t.events, t.state[n].event_id)->0;
        let k = choose|k: int| 0 <= k < t.events.len() && t.events[k] == e;
        assert(t.events[k].room_id == room);
    }
    if exists|i: int|
        0 <= i < t.events.len() && (#[trigger] t.events[i]).room_id == room
            && t.events[i].event_type == "p.room.encryption"@ && t.events[i].state_key is Some {
        let k = choose|i: int|
            0 <= i < t.events.len() && (#[trigger] t.events[i]).room_id == room
                && t.events[i].event_type == "p.room.encryption"@ && t.events[i].state_key is Some;
        assert(crate::store::settled::is_counted(t.state, t.events[k]));
        let key = t.events[k].state_key->0;
        crate::table::lemma_state_at(t.state, room, "p.room.encryption"@, key);
        let row = crate::table::state_at(t.state, room, "p.room.encryption"@, key)->0;
        let n = choose|n: int| 0 <= n < t.state.len() && t.state[n] == row;
        assert(t.state[n].room_id == room);
    }
}


proof fn lemma_items_in_order(rows: Seq<EventRec>, i: int, j: int) -> (at: (int, int))
    requires
        crate::store::inbound::inbound_of(rows) is Ok,
        0 <= i < j < crate::store::inbound::inbound_of(rows)->Ok_0.len(),
    ensures
        0 <= at.0 < at.1 < rows.len(),
        crate::store::inbound::inbound_of(rows)->Ok_0[i] == crate::store::inbound::item_of(
            rows[at.0],
        ),
        crate::store::inbound::inbound_of(rows)->Ok_0[j] == crate::store::inbound::item_of(
            rows[at.1],
        ),
    decreases rows.len(),
{
    let rest = rows.drop_last();
    let before = crate::store::inbound::inbound_of(rest)->Ok_0;
    if j < before.len() {
        let at = lemma_items_in_order(rest, i, j);
        assert(rest[at.0] == rows[at.0] && rest[at.1] == rows[at.1]);
        at
    } else {
        let k = crate::store::inbound::lemma_inbound_from(rest, i);
        assert(rest[k] == rows[k]);
        (k, rows.len() - 1)
    }
}

/// An item that the encryption engine is to process is an event of the log that was not
/// processed yet: it names the event, its room and its sender, it is a change of a group
/// exactly where the event is one, and its data is the text of the event's `commit`, or
/// else of its `ciphertext`.
pub proof fn item_is_an_unprocessed_event(t: Tables, i: int) -> (row: EventRec)
    requires
        crate::store::inbound::inbound_of(t.waiting(true)) is Ok,
        0 <= i < crate::store::inbound::inbound_of(t.waiting(true))->Ok_0.len(),
    ensures
        ({
            let item: MlsView = crate::store::inbound::inbound_of(t.waiting(true))->Ok_0[i];
            let content = row.payload.at("content"@);
            let data = if item.is_commit {
                content.at("commit"@)
            } else {
                content.at("ciphertext"@)
            };
            &&& t.events.contains(row)
            &&& row.decrypt_state == 0
            &&& row.event_type == "p.room.encrypted"@ || row.event_type == "p.mls.commit"@
            &&& item.event_id == row.event_id
            &&& item.room_id == row.room_id
            &&& item.sender == row.sender
            &&& item.is_commit <==> row.event_type == "p.mls.commit"@
            &&& data == JsonView::Str(item.data_b64) || (!(data is Str) && item.data_b64
                == crate::codec::json_text(crate::codec::normal(data)))
        }),
{
    let rows = t.waiting(true);
    let k = crate::store::inbound::lemma_inbound_from(rows, i);
    assert(rows.contains(rows[k]));
    crate::store::pages::waiting_events_are_in_order(t, true, rows[k]);
    rows[k]
}

/// Every event of the log that was not processed yet, and that carries data for the
/// encryption engine, is among the items.
pub proof fn unprocessed_event_is_an_item(t: Tables, row: EventRec, text: Seq<char>)
    requires
        crate::store::inbound::inbound_of(t.waiting(true)) is Ok,
        t.events.contains(row),
        row.decrypt_state == 0,
        (row.event_type == "p.room.encrypted"@ && row.payload.at("content"@).at("ciphertext"@)
            == JsonView::Str(text)) || (row.event_type == "p.mls.commit"@ && row.payload.at(
            "content"@,
        ).at("commit"@) == JsonView::Str(text)),
    ensures
        exists|i: int|
            0 <= i < crate::store::inbound::inbound_of(t.waiting(true))->Ok_0.len() && ({
                let item: MlsView = #[trigger] crate::store::inbound::inbound_of(
                    t.waiting(true),
                )->Ok_0[i];
                item.event_id == row.event_id && item.room_id == row.room_id && item.sender
                    == row.sender && item.data_b64 == text
            }),
{
    reveal_strlit("p.room.encrypted");
    reveal_strlit("p.mls.commit");
    assert("p.room.encrypted"@.len() == 16 && "p.mls.commit"@.len() == 12);
    let rows = t.waiting(true);
    crate::store::pages::waiting_events_are_in_order(t, true, row);
    let k = choose|k: int| 0 <= k < rows.len() && rows[k] == row;
    crate::store::inbound::lemma_inbound_of(rows, k);
    let items = crate::store::inbound::inbound_of(rows)->Ok_0;
    let i = choose|i: int|
        0 <= i < items.len() && items[i] == crate::store::inbound::item_of(row);
    assert(items[i].data_b64 == text);
}

/// The items are in the order of the history: of two, the first belongs to an event
/// that lies no deeper.
pub proof fn items_are_in_the_order_of_the_history(t: Tables, i: int, j: int) -> (rows: (
    EventRec,
    EventRec,
))
    requires
        crate::store::inbound::inbound_of(t.waiting(true)) is Ok,
        0 <= i < j < crate::store::inbound::inbound_of(t.waiting(true))->Ok_0.len(),
    ensures
        t.events.contains(rows.0),
        t.events.contains(rows.1),
        crate::store::inbound::inbound_of(t.waiting(true))->Ok_0[i].event_id == rows.0.event_id,
        crate::store::inbound::inbound_of(t.waiting(true))->Ok_0[j].event_id == rows.1.event_id,
        rows.0.depth <= rows.1.depth,
{
    let rows = t.waiting(true);
    let at = lemma_items_in_order(rows, i, j);
    assert(rows.contains(rows[at.0]) && rows.contains(rows[at.1]));
    crate::store::pages::waiting_events_are_in_order(t, true, rows[at.0]);
    crate::store::pages::waiting_events_are_in_order(t, true, rows[at.1]);
    (rows[at.0], rows[at.1])
}

proof fn lemma_decrypts_from(rows: Seq<EventRec>, i: int) -> (k: int)
    requires
        crate::store::inbound::decrypts_of(rows) is Ok,
        0 <= i < crate::store::inbound::decrypts_of(rows)->Ok_0.len(),
    ensures
        0 <= k < rows.len(),
        crate::store::inbound::inbound_data(rows[k]) is Ok,
        crate::store::inbound::inbound_data(rows[k])->Ok_0 is Some,
        crate::store::inbound::decrypts_of(rows)->Ok_0[i] == (DecryptView {
            event_id: rows[k].event_id,
            room_id: rows[k].room_id,
            ciphertext_b64: crate::store::inbound::inbound_data(rows[k])->Ok_0->0,
        }),
    decreases rows.len(),
{
    let rest = rows.drop_last();
    let before = crate::store::inbound::decrypts_of(rest)->Ok_0;
    if i < before.len() {
        let k = lemma_decrypts_from(rest, i);
        assert(rest[k] == rows[k]);
        k
    } else {
        rows.len() - 1
    }
}

/// What waits to be decrypted is an encrypted event of the log that was not processed
/// yet, with its id, its room and the text of its `ciphertext`.
pub proof fn waiting_ciphertext_is_that_of_its_event(t: Tables, i: int) -> (row: EventRec)
    requires
        crate::store::inbound::decrypts_of(t.waiting(false)) is Ok,
        0 <= i < crate::store::inbound::decrypts_of(t.waiting(false))->Ok_0.len(),
    ensures
        ({
            let item: DecryptView = crate::store::inbound::decrypts_of(t.waiting(false))->Ok_0[i];
            let data = row.payload.at("content"@).at("ciphertext"@);
            &&& t.events.contains(row)
            &&& row.decrypt_state == 0
            &&& row.event_type == "p.room.encrypted"@
            &&& item.event_id == row.event_id
            &&& item.room_id == row.room_id
            &&& data == JsonView::Str(item.ciphertext_b64) || (!(data is Str)
                && item.ciphertext_b64 == crate::codec::json_text(crate::codec::normal(data)))
        }),
{
    reveal_strlit("p.room.encrypted");
    reveal_strlit("p.mls.commit");
    assert("p.room.encrypted"@.len() == 16 && "p.mls.commit"@.len() == 12);
    let rows = t.waiting(false);
    let k = lemma_decrypts_from(rows, i);
    assert(rows.contains(rows[k]));
    crate::store::pages::waiting_events_are_in_order(t, false, rows[k]);
    rows[k]
}

/// Recording what came of processing an event changes its row in nothing else, and no
/// other row: the decrypted text is kept with the row, one that cannot be decrypted and
/// a change that was dealt with are marked.
pub proof fn processing_changes_only_its_row(
    t: Tables,
    id: Seq<char>,
    text: Seq<char>,
    k: int,
)
    requires
        t.wf(),
        0 <= k < t.events.len(),
    ensures
        ({
            let was = t.events[k];
            let read = t.decrypted(id, text);
            let lost = t.undecryptable(id);
            let done = t.commit_processed(id);
            &&& read.events.len() == t.events.len()
            &&& lost.events.len() == t.events.len()
            &&& done.events.len() == t.events.len()
            &&& was.event_id != id ==> read.events[k] == was && lost.events[k] == was
                && done.events[k] == was
            &&& was.event_id == id ==> {
                &&& read.events[k].decrypted == Some(text)
                &&& read.events[k].decrypt_state == 1
                &&& lost.events[k].decrypted == was.decrypted
                &&& lost.events[k].decrypt_state == 2
                &&& done.events[k].decrypted == was.decrypted
                &&& done.events[k].decrypt_state == 1
            }
            &&& is_same_event(was, read.events[k])
            &&& is_same_event(was, lost.events[k])
            &&& is_same_event(was, done.events[k])
            &&& read.state == t.state && lost.state == t.state && done.state == t.state
            &&& read.sends == t.sends && lost.sends == t.sends && done.sends == t.sends
            &&& read.token == t.token && lost.token == t.token && done.token == t.token
        }),
{
    if t.events[k].event_id == id {
        crate::table::lemma_unique_event(t, k);
    }
}

/// Two rows of one event, which may differ in what came of processing it.
pub open spec fn is_same_event(a: EventRec, b: EventRec) -> bool {
    &&& a.event_id == b.event_id
    &&& a.room_id == b.room_id
    &&& a.sender == b.sender
    &&& a.event_type == b.event_type
    &&& a.state_key == b.state_key
    &&& a.origin_server_ts == b.origin_server_ts
    &&& a.depth == b.depth
    &&& a.payload == b.payload
    &&& a.local == b.local
}

/// An event that comes and that the log does not hold goes behind it, with its own id,
/// and changes nothing of what is there; one that the log holds changes nothing at all.
/// A state event that is new takes its key where it lies at least as deep as what held
/// the key, and no event touches another key.
pub proof fn event_goes_behind_the_log(
    t: Tables,
    ev: StoredView,
    room: Seq<char>,
    event_type: Seq<char>,
    key: Seq<char>,
)
    ensures
        ({
            let after = t.apply_event(ev);
            let known = exists|i: int|
                0 <= i < t.events.len() && (#[trigger] t.events[i]).event_id == ev.event_id;
            let was = crate::table::state_at(t.state, room, event_type, key);
            let now = crate::table::state_at(after.state, room, event_type, key);
            let takes = ev.room_id == room && ev.event_type == event_type && ev.state_key == Some(
                key,
            ) && (was matches Some(row) ==> ev.depth >= row.depth);
            &&& known ==> after == t
            &&& !known ==> {
                &&& after.events.len() == t.events.len() + 1
                &&& after.events.take(t.events.len() as int) == t.events
                &&& after.events.last().event_id == ev.event_id
                &&& after.events.last().payload == ev.payload
                &&& takes ==> now is Some && now->0.event_id == ev.event_id && now->0.depth
                    == ev.depth
                &&& !takes ==> now == was
            }
            &&& after.sends == t.sends
            &&& after.token == t.token
        }),
{
    crate::table::lemma_event_at(t.events, ev.event_id);
    let after = t.apply_event(ev);
    if crate::table::event_at(t.events, ev.event_id) is None {
        assert(after.events.take(t.events.len() as int) =~= t.events);
        crate::store::laws::new_state_event_counts(t, ev, room, event_type, key);
    }
}

/// What is found by a key is the row with that key, and there is one to be found
/// exactly where there is such a row.
pub proof fn lookups_find_their_rows(
    t: Tables,
    id: Seq<char>,
    room: Seq<char>,
    event_type: Seq<char>,
    key: Seq<char>,
    txn: Seq<char>,
    i: int,
)
    requires
        t.wf(),
    ensures
        0 <= i < t.events.len() && t.events[i].event_id == id ==> crate::table::event_at(
            t.events,
            id,
        ) == Some(t.events[i]),
        0 <= i < t.state.len() && t.state[i].room_id == room && t.state[i].event_type == event_type
            && t.state[i].state_key == key ==> crate::table::state_at(
            t.state,
            room,
            event_type,
            key,
        ) == Some(t.state[i]),
        0 <= i < t.sends.len() && t.sends[i].txn_id == txn ==> crate::table::send_at(t.sends, txn)
            == Some(t.sends[i]),
        crate::table::event_at(t.events, id) matches Some(row) ==> t.events.contains(row)
            && row.event_id == id,
        crate::table::state_at(t.state, room, event_type, key) matches Some(row)
            ==> t.state.contains(row) && row.room_id == room && row.event_type == event_type
            && row.state_key == key,
        crate::table::send_at(t.sends, txn) matches Some(row) ==> t.sends.contains(row)
            && row.txn_id == txn,
{
    crate::table::lemma_event_at(t.events, id);
    crate::table::lemma_state_at(t.state, room, event_type, key);
    crate::table::lemma_send_at(t.sends, txn);
    if 0 <= i < t.events.len() {
        crate::table::lemma_unique_event(t, i);
    }
    if 0 <= i < t.state.len() {
        crate::table::lemma_unique_state(t, i);
    }
    if 0 <= i < t.sends.len() {
        crate::table::lemma_unique_send(t, i);
    }
}

/// A recorded change says what it changes: it goes to one table and leaves the others,
/// and in that table it puts a row behind the others, in the place of the one that it
/// names, or takes the one that it names away.
pub proof fn changes_say_what_they_change(
    t: Tables,
    id: Seq<char>,
    row: EventRec,
    state: StateRec,
    send: SendRec,
    token: Seq<char>,
    k: int,
)
    ensures
        ({
            let appended = t.step(ChangeView::Append(row));
            let replaced = t.step(ChangeView::Replace(id, row));
            let deleted = t.step(ChangeView::Delete(id));
            let set = t.step(ChangeView::SetState(state));
            let queued = t.step(ChangeView::Enqueue(send));
            let taken = t.step(ChangeView::Dequeue(id));
            let kept = t.step(ChangeView::SetToken(token));
            &&& appended.events == t.events.push(row)
            &&& appended.state == t.state && appended.sends == t.sends && appended.token == t.token
            &&& replaced.events.len() == t.events.len()
            &&& 0 <= k < t.events.len() ==> replaced.events[k] == (if t.events[k].event_id == id {
                row
            } else {
                t.events[k]
            })
            &&& replaced.state == t.state && replaced.sends == t.sends && replaced.token == t.token
            &&& forall|e: EventRec| #[trigger]
                deleted.events.contains(e) <==> t.events.contains(e) && e.event_id != id
            &&& deleted.state == t.state && deleted.sends == t.sends && deleted.token == t.token
            &&& crate::table::state_at(
                set.state,
                state.room_id,
                state.event_type,
                state.state_key,
            ) == Some(state)
            &&& set.events == t.events && set.sends == t.sends && set.token == t.token
            &&& queued.sends == t.sends.push(send)
            &&& queued.events == t.events && queued.state == t.state && queued.token == t.token
            &&& forall|s: SendRec| #[trigger]
                taken.sends.contains(s) <==> t.sends.contains(s) && s.txn_id != id
            &&& taken.events == t.events && taken.state == t.state && taken.token == t.token
            &&& kept.token == Some(token)
            &&& kept.events == t.events && kept.state == t.state && kept.sends == t.sends
        }),
{
    crate::store::laws::state_reads_what_was_set(
        t.state,
        state,
        state.room_id,
        state.event_type,
        state.state_key,
    );
    let keep = |e: EventRec| e.event_id != id;
    let rest = t.events.filter(keep);
    assert forall|e: EventRec| #[trigger]
        t.step(ChangeView::Delete(id)).events.contains(e) <==> t.events.contains(e) && e.event_id
            != id by {
        if rest.contains(e) {
            t.events.lemma_filter_contains_rev(keep, e);
            let n = choose|n: int| 0 <= n < rest.len() && rest[n] == e;
            t.events.lemma_filter_pred(keep, n);
        }
        if t.events.contains(e) && keep(e) {
            let n = choose|n: int| 0 <= n < t.events.len() && t.events[n] == e;
            t.events.lemma_filter_contains(keep, n);
        }
    }
    assert forall|s: SendRec| #[trigger]
        t.step(ChangeView::Dequeue(id)).sends.contains(s) <==> t.sends.contains(s) && s.txn_id
            != id by {
        crate::store::echoes::lemma_left_the_queue(t.sends, id, s);
    }
}

/// The rows of the store show their own columns.
pub proof fn rows_show_their_columns(e: EventRow, s: StateRow, q: SendRow)
    ensures
        e@.event_id == e.event_id@,
        e@.room_id == e.room_id@,
        e@.sender == e.sender@,
        e@.event_type == e.event_type@,
        e.state_key matches Some(k) ==> e@.state_key == Some(k@),
        e.state_key is None ==> e@.state_key is None,
        e@.origin_server_ts == e.origin_server_ts,
        e@.depth == e.depth,
        e@.payload == e.payload@,
        e@.local == e.local,
        e.decrypted matches Some(d) ==> e@.decrypted == Some(d@),
        e.decrypted is None ==> e@.decrypted is None,
        e@.decrypt_state == e.decrypt_state,
        s@.room_id == s.room_id@,
        s@.event_type == s.event_type@,
        s@.state_key == s.state_key@,
        s@.event_id == s.event_id@,
        s@.depth == s.depth,
        q@.txn_id == q.txn_id@,
        q@.room_id == q.room_id@,
        q@.body == q.body@,
        q@.event_id == q.event_id@,
        q@.created_ts == q.created_ts,
{
}

/// What waits for the encryption engine shows its own fields.
pub proof fn waiting_items_show_their_fields(
    m: crate::store::inbound::PendingMls,
    d: crate::store::inbound::PendingDecrypt,
)
    ensures
        m@.event_id == m.event_id@,
        m@.room_id == m.room_id@,
        m@.sender == m.sender@,
        m@.is_commit == m.is_commit,
        m@.data_b64 == m.data_b64@,
        d@.event_id == d.event_id@,
        d@.room_id == d.room_id@,
        d@.ciphertext_b64 == d.ciphertext_b64@,
{
}

/// A list shows its elements, each at its own place.
pub proof fn lists_show_their_elements(
    batch: Seq<crate::json::Json>,
    evs: Seq<crate::event::StoredEvent>,
    rooms: Seq<crate::store::summary::RoomSummary>,
    texts: Seq<String>,
    waiting: Seq<crate::store::inbound::PendingDecrypt>,
    items: Seq<crate::store::inbound::PendingMls>,
    sends: Seq<crate::store::outbox::PendingSend>,
    i: int,
)
    ensures
        crate::store::json_views(batch).len() == batch.len(),
        0 <= i < batch.len() ==> crate::store::json_views(batch)[i] == batch[i]@,
        crate::store::stored_views(evs).len() == evs.len(),
        0 <= i < evs.len() ==> crate::store::stored_views(evs)[i] == evs[i]@,
        crate::store::summary::summary_views(rooms).len() == rooms.len(),
        0 <= i < rooms.len() ==> crate::store::summary::summary_views(rooms)[i] == rooms[i]@,
        crate::store::summary::string_views(texts).len() == texts.len(),
        0 <= i < texts.len() ==> crate::store::summary::string_views(texts)[i] == texts[i]@,
        crate::store::inbound::decrypt_views(waiting).len() == waiting.len(),
        0 <= i < waiting.len() ==> crate::store::inbound::decrypt_views(waiting)[i] == waiting[i]@,
        crate::store::inbound::mls_views(items).len() == items.len(),
        0 <= i < items.len() ==> crate::store::inbound::mls_views(items)[i] == items[i]@,
        crate::store::outbox::pending_views(sends).len() == sends.len(),
        0 <= i < sends.len() ==> crate::store::outbox::pending_views(sends)[i] == sends[i]@,
{
}

/// The tables of a store show its rows, each at its own place.
pub proof fn tables_show_their_rows(
    events: Seq<EventRow>,
    state: Seq<StateRow>,
    sends: Seq<SendRow>,
    token: Option<String>,
    i: int,
)
    ensures
        ({
            let t = crate::store::tables_of(events, state, sends, token);
            &&& t.events.len() == events.len()
            &&& 0 <= i < events.len() ==> t.events[i] == events[i]@
            &&& t.state.len() == state.len()
            &&& 0 <= i < state.len() ==> t.state[i] == state[i]@
            &&& t.sends.len() == sends.len()
            &&& 0 <= i < sends.len() ==> t.sends[i] == sends[i]@
            &&& token matches Some(s) ==> t.token == Some(s@)
            &&& token is None ==> t.token is None
        }),
{
}

/// A page can be read exactly where each of its rows can be; where one cannot, the
/// complaint is that of the newest such row.
pub proof fn page_fault_is_that_of_a_row(page: Seq<EventRec>, k: int)
    ensures
        crate::store::timeline::page_fault(page) is None <==> forall|i: int|
            0 <= i < page.len() ==> crate::event::parse_event((#[trigger] page[i]).payload) is Ok,
        0 <= k < page.len() && crate::event::parse_event(page[k].payload) is Err && (forall|i: int|
            k < i < page.len() ==> crate::event::parse_event((#[trigger] page[i]).payload) is Ok)
            ==> crate::store::timeline::page_fault(page) == Some(
            crate::event::parse_event(page[k].payload)->Err_0,
        ),
    decreases page.len(),
{
    if page.len() > 0 {
        let rest = page.drop_last();
        page_fault_is_that_of_a_row(rest, k);
        assert(page[page.len() - 1] == page.last());
        assert(forall|i: int| 0 <= i < rest.len() ==> #[trigger] rest[i] == page[i]);
        assert(forall|i: int| 0 <= i < rest.len() ==> #[trigger] page[i] == rest[i]);
    }
}

} // verus!
