//! What holds of the store across its operations.

use vstd::prelude::*;

use crate::event::StoredView;
use crate::table::{EventRec, StateRec, Tables};

verus! {

/// Whether a state event is for a state key of a room.
pub open spec fn sets(
    ev: StoredView,
    room: Seq<char>,
    event_type: Seq<char>,
    key: Seq<char>,
) -> bool {
    ev.room_id == room && ev.event_type == event_type && ev.state_key == Some(key)
}

/// The row of state that a state event asks for.
pub open spec fn state_row_of(ev: StoredView) -> StateRec {
    StateRec {
        room_id: ev.room_id,
        event_type: ev.event_type,
        state_key: ev.state_key->0,
        event_id: ev.event_id,
        depth: ev.depth,
    }
}

proof fn lemma_lookup_in_place(
    before: Seq<StateRec>,
    after: Seq<StateRec>,
    row: StateRec,
    room: Seq<char>,
    event_type: Seq<char>,
    key: Seq<char>,
)
    requires
        after.len() == before.len(),
        forall|i: int|
            0 <= i < before.len() ==> #[trigger] after[i] == (if crate::table::is_state(
                before[i],
                row.room_id,
                row.event_type,
                row.state_key,
            ) {
                row
            } else {
                before[i]
            }),
    ensures
        crate::table::state_at(after, room, event_type, key) == if crate::table::is_state(
            row,
            room,
            event_type,
            key,
        ) && crate::table::state_at(before, room, event_type, key) is Some {
            Some(row)
        } else {
            crate::table::state_at(before, room, event_type, key)
        },
    decreases before.len(),
{
    if before.len() > 0 {
        assert(after[after.len() - 1] == after.last());
        assert forall|i: int| 0 <= i < before.drop_last().len() implies #[trigger] after.drop_last()[i]
            == (if crate::table::is_state(
            before.drop_last()[i],
            row.room_id,
            row.event_type,
            row.state_key,
        ) {
            row
        } else {
            before.drop_last()[i]
        }) by {
            assert(after[i] == after.drop_last()[i]);
        }
        lemma_lookup_in_place(before.drop_last(), after.drop_last(), row, room, event_type, key);
    }
}

/// What is read of the state after one row of it was set.
pub proof fn state_reads_what_was_set(
    state: Seq<StateRec>,
    row: StateRec,
    room: Seq<char>,
    event_type: Seq<char>,
    key: Seq<char>,
)
    ensures
        crate::table::state_at(crate::table::put_state(state, row), room, event_type, key)
            == if crate::table::is_state(row, room, event_type, key) {
            Some(row)
        } else {
            crate::table::state_at(state, room, event_type, key)
        },
{
    let after = crate::table::put_state(state, row);
    if crate::table::state_at(state, row.room_id, row.event_type, row.state_key) is Some {
        lemma_lookup_in_place(state, after, row, room, event_type, key);
    } else {
        assert(after.drop_last() =~= state);
    }
}

proof fn lemma_apply_keeps_wf(t: Tables, ev: StoredView)
    requires
        t.wf(),
    ensures
        t.apply_event(ev).wf(),
        crate::table::event_at(t.apply_event(ev).events, ev.event_id) is Some,
{
    crate::store::lemma_insert_keeps_wf(t, ev);
    if ev.state_key is Some {
        crate::store::lemma_put_state_keeps_wf(t.insert_event(ev), state_row_of(ev));
    }
}

/// Applying events keeps the database well-formed.
pub proof fn applying_keeps_the_invariant(t: Tables, evs: Seq<StoredView>)
    requires
        t.wf(),
    ensures
        t.apply_all(evs).wf(),
    decreases evs.len(),
{
    if evs.len() > 0 {
        applying_keeps_the_invariant(t, evs.drop_last());
        lemma_apply_keeps_wf(t.apply_all(evs.drop_last()), evs.last());
    }
}

/// The log only grows: applying events leaves every row that is there, in its
/// place, and touches neither the queue nor the token.
pub proof fn log_is_append_only(t: Tables, evs: Seq<StoredView>)
    ensures
        t.events.len() <= t.apply_all(evs).events.len(),
        t.apply_all(evs).events.take(t.events.len() as int) == t.events,
        t.apply_all(evs).sends == t.sends,
        t.apply_all(evs).token == t.token,
    decreases evs.len(),
{
    let n = t.events.len() as int;
    if evs.len() > 0 {
        log_is_append_only(t, evs.drop_last());
        let before = t.apply_all(evs.drop_last());
        assert(t.apply_all(evs).events.take(n) =~= before.events.take(n));
    } else {
        assert(t.events.take(n) =~= t.events);
    }
}

pub proof fn lemma_found_in_longer(short: Seq<EventRec>, long: Seq<EventRec>, id: Seq<char>)
    requires
        short.len() <= long.len(),
        long.take(short.len() as int) == short,
        crate::table::event_at(short, id) is Some,
    ensures
        crate::table::event_at(long, id) is Some,
{
    crate::table::lemma_event_at(short, id);
    crate::table::lemma_event_at(long, id);
    let k = choose|k: int| 0 <= k < short.len() && (#[trigger] short[k]).event_id == id;
    assert(long[k] == long.take(short.len() as int)[k]);
    assert(long[k].event_id == id);
}

/// Every event of an applied list is in the log afterwards.
pub proof fn applied_events_are_there(t: Tables, evs: Seq<StoredView>, i: int)
    requires
        t.wf(),
        0 <= i < evs.len(),
    ensures
        crate::table::event_at(t.apply_all(evs).events, evs[i].event_id) is Some,
    decreases evs.len(),
{
    let before = t.apply_all(evs.drop_last());
    applying_keeps_the_invariant(t, evs.drop_last());
    if i == evs.len() - 1 {
        lemma_apply_keeps_wf(before, evs.last());
    } else {
        applied_events_are_there(t, evs.drop_last(), i);
        assert(evs.drop_last()[i] == evs[i]);
        let after = t.apply_all(evs);
        assert(after.events.take(before.events.len() as int) =~= before.events);
        lemma_found_in_longer(before.events, after.events, evs[i].event_id);
    }
}

/// A state event that is new counts for its key, unless what counted so far is
/// deeper; and it leaves every other key as it was. One of equal depth counts: the
/// last one to come wins.
pub proof fn new_state_event_counts(
    t: Tables,
    ev: StoredView,
    room: Seq<char>,
    event_type: Seq<char>,
    key: Seq<char>,
)
    requires
        crate::table::event_at(t.events, ev.event_id) is None,
    ensures
        ({
            let before = crate::table::state_at(t.state, room, event_type, key);
            let now = crate::table::state_at(t.apply_event(ev).state, room, event_type, key);
            if sets(ev, room, event_type, key) && !(before is Some && ev.depth
                < before->0.depth) {
                now == Some(state_row_of(ev))
            } else {
                now == before
            }
        }),
{
    if ev.state_key is Some {
        state_reads_what_was_set(t.state, state_row_of(ev), room, event_type, key);
    }
}

/// What counts as new is what the log has grown by.
pub proof fn new_events_are_counted(t: Tables, evs: Seq<StoredView>)
    ensures
        t.count_new(evs) == t.apply_all(evs).events.len() - t.events.len(),
    decreases evs.len(),
{
    if evs.len() > 0 {
        new_events_are_counted(t, evs.drop_last());
    }
}

/// Sync may deliver events more than once, at any time: where the log holds every
/// event of a batch already, applying the batch changes nothing, and none of its
/// events counts as new.
pub proof fn known_events_change_nothing(t: Tables, evs: Seq<StoredView>)
    requires
        forall|i: int|
            0 <= i < evs.len() ==> crate::table::event_at(
                t.events,
                (#[trigger] evs[i]).event_id,
            ) is Some,
    ensures
        t.apply_all(evs) == t,
        t.count_new(evs) == 0,
    decreases evs.len(),
{
    if evs.len() > 0 {
        let rest = evs.drop_last();
        assert forall|i: int| 0 <= i < rest.len() implies crate::table::event_at(
            t.events,
            (#[trigger] rest[i]).event_id,
        ) is Some by {
            assert(rest[i] == evs[i]);
        }
        known_events_change_nothing(t, rest);
        assert(crate::table::event_at(t.events, evs[evs.len() - 1].event_id) is Some);
    }
}

/// A batch that was applied changes nothing when it comes again, whatever other
/// batches came in between; and nothing of it counts as new.
pub proof fn reapplying_changes_nothing(
    t: Tables,
    evs: Seq<StoredView>,
    others: Seq<StoredView>,
)
    requires
        t.wf(),
    ensures
        t.apply_all(evs).apply_all(others).apply_all(evs) == t.apply_all(evs).apply_all(others),
        t.apply_all(evs).apply_all(others).count_new(evs) == 0,
{
    let once = t.apply_all(evs);
    let later = once.apply_all(others);
    log_is_append_only(once, others);
    assert forall|i: int| 0 <= i < evs.len() implies crate::table::event_at(
        later.events,
        (#[trigger] evs[i]).event_id,
    ) is Some by {
        applied_events_are_there(t, evs, i);
        lemma_found_in_longer(once.events, later.events, evs[i].event_id);
    }
    known_events_change_nothing(later, evs);
}

/// A room that is marked as encrypted stays so, whatever events come.
pub proof fn encryption_is_never_lost(t: Tables, evs: Seq<StoredView>, room: Seq<char>)
    requires
        t.is_encrypted(room),
    ensures
        t.apply_all(evs).is_encrypted(room),
    decreases evs.len(),
{
    if evs.len() > 0 {
        encryption_is_never_lost(t, evs.drop_last(), room);
        let before = t.apply_all(evs.drop_last());
        let after = t.apply_all(evs);
        let ev = evs.last();
        let k = choose|k: int|
            0 <= k < before.state.len() && (#[trigger] before.state[k]).room_id == room
                && before.state[k].event_type == "p.room.encryption"@;
        assert(after.state[k].room_id == room && after.state[k].event_type
            == "p.room.encryption"@);
    }
}

} // verus!
