//! Processing inbound encrypted events and changes of groups.

use vstd::prelude::*;
use vstd::string::*;

use crate::error::{CoreError, CoreErrorView};
use crate::store::inbound::{MlsView, PendingMls};
use crate::store::Store;
use crate::table::{EventRec, Tables};
use crate::text::str_eq;

verus! {

/// A pass over what waits to be processed, in the order of the history. Messages
/// and changes of groups are taken in one order, so that a change is applied
/// before the messages that were sent after it.
pub struct InboundPass {
    rest: Vec<PendingMls>,
    user_id: String,
    changed: bool,
}

/// What an [`InboundPass`] holds: the items still to come, whose session it is,
/// and whether something that is shown was changed.
#[verifier::ext_equal]
pub struct InboundView {
    pub rest: Seq<MlsView>,
    pub user_id: Seq<char>,
    pub changed: bool,
}

impl View for InboundPass {
    type V = InboundView;

    closed spec fn view(&self) -> InboundView {
        InboundView {
            rest: crate::store::inbound::mls_views(self.rest@),
            user_id: self.user_id@,
            changed: self.changed,
        }
    }
}

/// What has happened in the course of a pass.
pub enum InboundEvent {
    /// The pass begins.
    Begin,
    /// The engine was asked whether it holds the room's group.
    Group(PendingMls, Result<bool, CoreError>),
    /// The engine was asked to decrypt the message.
    Decrypted(PendingMls, Result<String, CoreError>),
    /// The engine was asked to apply the change.
    Applied(PendingMls, Result<(), CoreError>),
}

/// What is to be done next in the course of a pass.
pub enum InboundAction {
    /// Ask the engine whether it holds the room's group.
    CheckGroup(PendingMls),
    /// Have the engine decrypt the message.
    Decrypt(PendingMls),
    /// Have the engine apply the change.
    Apply(PendingMls),
    /// The pass is over.
    Done { changed: bool },
}

/// What an [`InboundEvent`] says. Why an item cannot be processed does not matter.
pub enum InboundEventView {
    Begin,
    Group(MlsView, Result<bool, CoreErrorView>),
    Decrypted(MlsView, Option<Seq<char>>),
    Applied(MlsView),
}

/// What an [`InboundAction`] says.
pub enum InboundActionView {
    CheckGroup(MlsView),
    Decrypt(MlsView),
    Apply(MlsView),
    Done(bool),
}

impl View for InboundEvent {
    type V = InboundEventView;

    open spec fn view(&self) -> InboundEventView {
        match self {
            InboundEvent::Begin => InboundEventView::Begin,
            InboundEvent::Group(item, r) => InboundEventView::Group(
                item@,
                match r {
                    Ok(held) => Ok(*held),
                    Err(e) => Err(e@),
                },
            ),
            InboundEvent::Decrypted(item, r) => InboundEventView::Decrypted(
                item@,
                match r {
                    Ok(text) => Some(text@),
                    Err(_) => None,
                },
            ),
            InboundEvent::Applied(item, _) => InboundEventView::Applied(item@),
        }
    }
}

impl View for InboundAction {
    type V = InboundActionView;

    open spec fn view(&self) -> InboundActionView {
        match self {
            InboundAction::CheckGroup(item) => InboundActionView::CheckGroup(item@),
            InboundAction::Decrypt(item) => InboundActionView::Decrypt(item@),
            InboundAction::Apply(item) => InboundActionView::Apply(item@),
            InboundAction::Done { changed } => InboundActionView::Done(*changed),
        }
    }
}

/// What one step of a pass comes to: how the pass goes on, what the store holds,
/// and what is to be done.
pub struct InboundStep {
    pub pass: InboundView,
    pub tables: Tables,
    pub action: Result<InboundActionView, CoreErrorView>,
}

/// The pass goes on with its next item. A change of our own was applied when it
/// was made, so it is only marked.
pub open spec fn go_on(v: InboundView, t: Tables) -> InboundStep
    decreases v.rest.len(),
{
    if v.rest.len() == 0 {
        InboundStep { pass: v, tables: t, action: Ok(InboundActionView::Done(v.changed)) }
    } else {
        let item = v.rest[0];
        let then_on = InboundView { rest: v.rest.drop_first(), ..v };
        if item.is_commit && item.sender == v.user_id {
            go_on(then_on, t.commit_processed(item.event_id))
        } else {
            InboundStep {
                pass: then_on,
                tables: t,
                action: Ok(InboundActionView::CheckGroup(item)),
            }
        }
    }
}

/// One step of a pass.
///
/// An item of a room whose group is not held is left waiting: the group may still
/// be joined. A message that is decrypted has its text cached; one that cannot be
/// decrypted is given up. A change is marked, whether or not it could be applied:
/// one that does not apply is one that was dealt with already.
pub open spec fn inbound_step(v: InboundView, t: Tables, event: InboundEventView) -> InboundStep {
    match event {
        InboundEventView::Begin => go_on(v, t),
        InboundEventView::Group(item, Err(e)) => InboundStep { pass: v, tables: t, action: Err(e) },
        InboundEventView::Group(item, Ok(false)) => go_on(v, t),
        InboundEventView::Group(item, Ok(true)) => InboundStep {
            pass: v,
            tables: t,
            action: Ok(
                if item.is_commit {
                    InboundActionView::Apply(item)
                } else {
                    InboundActionView::Decrypt(item)
                },
            ),
        },
        InboundEventView::Decrypted(item, Some(text)) => go_on(
            InboundView { changed: true, ..v },
            t.decrypted(item.event_id, text),
        ),
        InboundEventView::Decrypted(item, None) => go_on(
            InboundView { changed: true, ..v },
            t.undecryptable(item.event_id),
        ),
        InboundEventView::Applied(item) => go_on(v, t.commit_processed(item.event_id)),
    }
}

proof fn lemma_go_on_keeps(v: InboundView, t: Tables, row: EventRec)
    requires
        t.events.contains(row),
        forall|i: int| 0 <= i < v.rest.len() ==> (#[trigger] v.rest[i]).event_id != row.event_id,
    ensures
        go_on(v, t).tables.events.contains(row),
    decreases v.rest.len(),
{
    if v.rest.len() > 0 {
        let item = v.rest[0];
        let then_on = InboundView { rest: v.rest.drop_first(), ..v };
        if item.is_commit && item.sender == v.user_id {
            let k = choose|k: int| 0 <= k < t.events.len() && t.events[k] == row;
            let after = t.commit_processed(item.event_id);
            assert(after.events[k] == row);
            assert forall|i: int| 0 <= i < then_on.rest.len() implies (
            #[trigger] then_on.rest[i]).event_id != row.event_id by {
                assert(v.rest[i + 1].event_id != row.event_id);
            }
            lemma_go_on_keeps(then_on, after, row);
        }
    }
}

/// An event of a room whose group is not held is left waiting: its group may still
/// be joined.
pub proof fn item_without_group_is_left_waiting(
    v: InboundView,
    t: Tables,
    item: MlsView,
    row: EventRec,
)
    requires
        t.waiting(true).contains(row),
        row.event_id == item.event_id,
        forall|i: int| 0 <= i < v.rest.len() ==> (#[trigger] v.rest[i]).event_id != item.event_id,
    ensures
        inbound_step(v, t, InboundEventView::Group(item, Ok(false))).tables.waiting(true).contains(
            row,
        ),
{
    crate::store::pages::waiting_events_are_in_order(t, true, row);
    lemma_go_on_keeps(v, t, row);
    crate::store::pages::waiting_events_are_in_order(go_on(v, t).tables, true, row);
}

/// The engine is never asked to apply a change of our own: none is looked up.
pub proof fn own_changes_are_not_applied(v: InboundView, t: Tables)
    ensures
        go_on(v, t).action matches Ok(InboundActionView::CheckGroup(item)) ==> !(item.is_commit
            && item.sender == v.user_id),
        go_on(v, t).pass.user_id == v.user_id,
    decreases v.rest.len(),
{
    if v.rest.len() > 0 {
        let item = v.rest[0];
        if item.is_commit && item.sender == v.user_id {
            own_changes_are_not_applied(
                InboundView { rest: v.rest.drop_first(), ..v },
                t.commit_processed(item.event_id),
            );
        }
    }
}

/// What the engine has to say in the course of a pass: which rooms' groups it
/// holds, and what it makes of a message, none where it cannot decrypt it.
pub struct EngineAnswers {
    pub held: spec_fn(Seq<char>) -> bool,
    pub text: spec_fn(MlsView) -> Option<Seq<char>>,
}

/// What a whole pass comes to: what the store then holds, whether the pass reports
/// a change, and the messages that the engine was asked to decrypt, in order.
#[verifier::ext_equal]
pub struct PassOutcome {
    pub tables: Tables,
    pub changed: bool,
    pub asked: Seq<MlsView>,
}

/// The pass goes on with one item less, or is over.
pub proof fn lemma_go_on_takes_one(v: InboundView, t: Tables)
    ensures
        go_on(v, t).action is Ok,
        go_on(v, t).action->Ok_0 is CheckGroup || go_on(v, t).action->Ok_0 is Done,
        go_on(v, t).action->Ok_0 is CheckGroup ==> go_on(v, t).pass.rest.len() < v.rest.len(),
    decreases v.rest.len(),
{
    if v.rest.len() > 0 {
        let item = v.rest[0];
        if item.is_commit && item.sender == v.user_id {
            lemma_go_on_takes_one(
                InboundView { rest: v.rest.drop_first(), ..v },
                t.commit_processed(item.event_id),
            );
        }
    }
}

/// A pass from an event to its end, step by step, where the engine gives the given
/// answers. The engine does not fail to say which groups it holds.
pub open spec fn run_pass(
    v: InboundView,
    t: Tables,
    event: InboundEventView,
    engine: EngineAnswers,
) -> PassOutcome
    decreases
            v.rest.len(),
            (if event is Group {
                1int
            } else {
                0int
            }),
{
    proof {
        lemma_go_on_takes_one(v, t);
        if let InboundEventView::Decrypted(item, Some(text)) = event {
            lemma_go_on_takes_one(
                InboundView { changed: true, ..v },
                t.decrypted(item.event_id, text),
            );
        }
        if let InboundEventView::Decrypted(item, None) = event {
            lemma_go_on_takes_one(
                InboundView { changed: true, ..v },
                t.undecryptable(item.event_id),
            );
        }
        if let InboundEventView::Applied(item) = event {
            lemma_go_on_takes_one(v, t.commit_processed(item.event_id));
        }
    }
    let step = inbound_step(v, t, event);
    match step.action {
        Ok(InboundActionView::CheckGroup(item)) => run_pass(
            step.pass,
            step.tables,
            InboundEventView::Group(item, Ok((engine.held)(item.room_id))),
            engine,
        ),
        Ok(InboundActionView::Decrypt(item)) => {
            let rest = run_pass(
                step.pass,
                step.tables,
                InboundEventView::Decrypted(item, (engine.text)(item)),
                engine,
            );
            PassOutcome { asked: seq![item] + rest.asked, ..rest }
        },
        Ok(InboundActionView::Apply(item)) => run_pass(
            step.pass,
            step.tables,
            InboundEventView::Applied(item),
            engine,
        ),
        Ok(InboundActionView::Done(changed)) => PassOutcome {
            tables: step.tables,
            changed,
            asked: seq![],
        },
        Err(_) => PassOutcome { tables: step.tables, changed: false, asked: seq![] },
    }
}

/// Whether a pass deals with an item: with a change of our own in any case, with
/// anything else where the group of its room is held.
pub open spec fn is_dealt_with(item: MlsView, user: Seq<char>, engine: EngineAnswers) -> bool {
    (item.is_commit && item.sender == user) || (engine.held)(item.room_id)
}

/// Whether the engine is asked to decrypt an item.
pub open spec fn is_asked(item: MlsView, engine: EngineAnswers) -> bool {
    !item.is_commit && (engine.held)(item.room_id)
}

/// What the store holds after an item: a change is marked, a message has its text
/// cached or is given up, and what is not dealt with stays as it is.
pub open spec fn after_item(
    t: Tables,
    item: MlsView,
    user: Seq<char>,
    engine: EngineAnswers,
) -> Tables {
    if !is_dealt_with(item, user, engine) {
        t
    } else if item.is_commit {
        t.commit_processed(item.event_id)
    } else {
        match (engine.text)(item) {
            Some(text) => t.decrypted(item.event_id, text),
            None => t.undecryptable(item.event_id),
        }
    }
}

/// What the store holds after a list of items, taken in their order.
pub open spec fn after_items(
    t: Tables,
    items: Seq<MlsView>,
    user: Seq<char>,
    engine: EngineAnswers,
) -> Tables
    decreases items.len(),
{
    if items.len() == 0 {
        t
    } else {
        after_items(after_item(t, items[0], user, engine), items.drop_first(), user, engine)
    }
}

/// The items that the engine is asked to decrypt, in their order.
pub open spec fn asked_of(items: Seq<MlsView>, engine: EngineAnswers) -> Seq<MlsView>
    decreases items.len(),
{
    if items.len() == 0 {
        seq![]
    } else if is_asked(items[0], engine) {
        seq![items[0]] + asked_of(items.drop_first(), engine)
    } else {
        asked_of(items.drop_first(), engine)
    }
}

/// A pass deals with its items one by one, in their order: the engine is asked once
/// for each message of a room whose group is held; the store holds what became of
/// each; and the pass reports a change exactly where a message was dealt with.
pub proof fn pass_deals_with_each_item(v: InboundView, t: Tables, engine: EngineAnswers)
    ensures
        run_pass(v, t, InboundEventView::Begin, engine) == (PassOutcome {
            tables: after_items(t, v.rest, v.user_id, engine),
            changed: v.changed || asked_of(v.rest, engine).len() > 0,
            asked: asked_of(v.rest, engine),
        }),
    decreases v.rest.len(),
{
    if v.rest.len() > 0 {
        let item = v.rest[0];
        let rest = v.rest.drop_first();
        let then_on = InboundView { rest, ..v };
        let after = after_item(t, item, v.user_id, engine);
        let group = InboundEventView::Group(item, Ok((engine.held)(item.room_id)));
        if item.is_commit && item.sender == v.user_id {
            pass_deals_with_each_item(then_on, after, engine);
            lemma_begins_alike(v, t, then_on, after, engine);
        } else if !(engine.held)(item.room_id) {
            pass_deals_with_each_item(then_on, t, engine);
            assert(inbound_step(then_on, t, group) == inbound_step(
                then_on,
                t,
                InboundEventView::Begin,
            ));
        } else if item.is_commit {
            pass_deals_with_each_item(then_on, after, engine);
            let applied = InboundEventView::Applied(item);
            assert(inbound_step(then_on, t, applied) == inbound_step(
                then_on,
                after,
                InboundEventView::Begin,
            ));
            assert(run_pass(then_on, t, group, engine) == run_pass(then_on, t, applied, engine));
        } else {
            let changed = InboundView { changed: true, ..then_on };
            pass_deals_with_each_item(changed, after, engine);
            let answer = InboundEventView::Decrypted(item, (engine.text)(item));
            assert(inbound_step(then_on, t, answer) == inbound_step(
                changed,
                after,
                InboundEventView::Begin,
            ));
            assert(run_pass(then_on, t, answer, engine) == run_pass(
                changed,
                after,
                InboundEventView::Begin,
                engine,
            ));
        }
    }
}

proof fn lemma_begins_alike(
    v: InboundView,
    t: Tables,
    then_on: InboundView,
    after: Tables,
    engine: EngineAnswers,
)
    requires
        inbound_step(v, t, InboundEventView::Begin) == inbound_step(
            then_on,
            after,
            InboundEventView::Begin,
        ),
    ensures
        run_pass(v, t, InboundEventView::Begin, engine) == run_pass(
            then_on,
            after,
            InboundEventView::Begin,
            engine,
        ),
{
}

/// Whether no event with the given id waits.
pub open spec fn waits_no_more(t: Tables, id: Seq<char>) -> bool {
    forall|i: int|
        0 <= i < t.events.len() && (#[trigger] t.events[i]).event_id == id
            ==> !crate::store::inbound::is_waiting(t.events[i], true)
}

/// Whether every event that waits was there before, just as it is.
pub open spec fn waiting_is_old(after: Tables, before: Tables) -> bool {
    forall|i: int|
        0 <= i < after.events.len() && crate::store::inbound::is_waiting(
            #[trigger] after.events[i],
            true,
        ) ==> before.events.contains(after.events[i])
}

proof fn lemma_after_item(t: Tables, item: MlsView, user: Seq<char>, engine: EngineAnswers)
    ensures
        waiting_is_old(after_item(t, item, user, engine), t),
        is_dealt_with(item, user, engine) ==> waits_no_more(
            after_item(t, item, user, engine),
            item.event_id,
        ),
{
    let after = after_item(t, item, user, engine);
    let id = item.event_id;
    crate::table::lemma_event_at(t.events, id);
    assert forall|i: int|
        0 <= i < after.events.len() && crate::store::inbound::is_waiting(
            #[trigger] after.events[i],
            true,
        ) implies t.events.contains(after.events[i]) by {
        assert(after.events[i] == t.events[i]);
    }
    if is_dealt_with(item, user, engine) {
        assert forall|i: int|
            0 <= i < after.events.len() && (#[trigger] after.events[i]).event_id
                == id implies !crate::store::inbound::is_waiting(after.events[i], true) by {
            if t.events[i].event_id != id {
                assert(after.events[i] == t.events[i]);
            }
        }
    }
}

proof fn lemma_after_items(
    t: Tables,
    items: Seq<MlsView>,
    user: Seq<char>,
    engine: EngineAnswers,
    k: int,
)
    ensures
        waiting_is_old(after_items(t, items, user, engine), t),
        0 <= k < items.len() && is_dealt_with(items[k], user, engine) ==> waits_no_more(
            after_items(t, items, user, engine),
            items[k].event_id,
        ),
    decreases items.len(),
{
    if items.len() > 0 {
        let first = after_item(t, items[0], user, engine);
        let rest = items.drop_first();
        let after = after_items(t, items, user, engine);
        lemma_after_item(t, items[0], user, engine);
        lemma_after_items(first, rest, user, engine, k - 1);
        assert forall|i: int|
            0 <= i < after.events.len() && crate::store::inbound::is_waiting(
                #[trigger] after.events[i],
                true,
            ) implies t.events.contains(after.events[i]) by {
            let n = choose|n: int| 0 <= n < first.events.len() && first.events[n] == after.events[i];
            assert(t.events.contains(first.events[n]));
        }
        if k == 0 && is_dealt_with(items[0], user, engine) {
            assert forall|i: int|
                0 <= i < after.events.len() && (#[trigger] after.events[i]).event_id
                    == items[0].event_id implies !crate::store::inbound::is_waiting(
                after.events[i],
                true,
            ) by {
                if crate::store::inbound::is_waiting(after.events[i], true) {
                    let n = choose|n: int|
                        0 <= n < first.events.len() && first.events[n] == after.events[i];
                    assert(first.events[n].event_id == items[0].event_id);
                }
            }
        } else if k > 0 && k < items.len() {
            assert(rest[k - 1] == items[k]);
        }
    }
}

proof fn lemma_undealt_items_change_nothing(
    t: Tables,
    items: Seq<MlsView>,
    user: Seq<char>,
    engine: EngineAnswers,
)
    requires
        forall|i: int|
            0 <= i < items.len() ==> !is_dealt_with(#[trigger] items[i], user, engine),
    ensures
        after_items(t, items, user, engine) == t,
        asked_of(items, engine).len() == 0,
    decreases items.len(),
{
    if items.len() > 0 {
        let rest = items.drop_first();
        assert(!is_dealt_with(items[0], user, engine));
        assert forall|i: int| 0 <= i < rest.len() implies !is_dealt_with(
            #[trigger] rest[i],
            user,
            engine,
        ) by {
            assert(rest[i] == items[i + 1]);
        }
        lemma_undealt_items_change_nothing(t, rest, user, engine);
    }
}

/// An item is dealt with as the engine answers: a message of a room whose group is held
/// has its text cached, or is given up where it cannot be decrypted; a change of a held
/// group is marked as dealt with, and so is every change of our own; and what belongs to a
/// group that is not held is left as it is.
pub proof fn item_is_dealt_with_as_the_engine_answers(
    t: Tables,
    item: MlsView,
    user: Seq<char>,
    engine: EngineAnswers,
    text: Seq<char>,
)
    ensures
        !item.is_commit && (engine.held)(item.room_id) && (engine.text)(item) == Some(text)
            ==> after_item(t, item, user, engine) == t.decrypted(item.event_id, text),
        !item.is_commit && (engine.held)(item.room_id) && (engine.text)(item) is None
            ==> after_item(t, item, user, engine) == t.undecryptable(item.event_id),
        item.is_commit && ((engine.held)(item.room_id) || item.sender == user) ==> after_item(
            t,
            item,
            user,
            engine,
        ) == t.commit_processed(item.event_id),
        !(engine.held)(item.room_id) && !(item.is_commit && item.sender == user) ==> after_item(
            t,
            item,
            user,
            engine,
        ) == t,
{
}

/// The engine is asked to decrypt the messages of rooms whose groups are held, all of
/// them, in their order, and nothing else; and items are dealt with one after the other.
pub proof fn engine_is_asked_for_each_message(
    t: Tables,
    items: Seq<MlsView>,
    others: Seq<MlsView>,
    user: Seq<char>,
    engine: EngineAnswers,
)
    ensures
        asked_of(items, engine) == items.filter(
            |item: MlsView| !item.is_commit && (engine.held)(item.room_id),
        ),
        after_items(t, items + others, user, engine) == after_items(
            after_items(t, items, user, engine),
            others,
            user,
            engine,
        ),
    decreases items.len(),
{
    let wanted = |item: MlsView| !item.is_commit && (engine.held)(item.room_id);
    if items.len() > 0 {
        let rest = items.drop_first();
        engine_is_asked_for_each_message(
            after_item(t, items[0], user, engine),
            rest,
            others,
            user,
            engine,
        );
        rest.lemma_filter_prepend(items[0], wanted);
        assert(items =~= seq![items[0]] + rest);
        assert(Seq::<MlsView>::empty() + rest.filter(wanted) =~= rest.filter(wanted));
        assert((items + others).drop_first() =~= rest + others);
    } else {
        reveal(Seq::filter);
        assert(items.filter(wanted) =~= seq![]);
        assert(items + others =~= others);
    }
}

/// A second pass, over what still waits after a first one, changes nothing, asks
/// the engine for nothing and reports no change, where no event has come and no
/// group was joined in between: a message is decrypted once. What the engine would
/// make of a message may have changed.
pub proof fn second_pass_changes_nothing(
    t: Tables,
    user: Seq<char>,
    engine: EngineAnswers,
    later: EngineAnswers,
)
    requires
        crate::store::inbound::inbound_of(t.waiting(true)) is Ok,
        later.held == engine.held,
    ensures
        ({
            let items = crate::store::inbound::inbound_of(t.waiting(true))->Ok_0;
            let first = run_pass(
                InboundView { rest: items, user_id: user, changed: false },
                t,
                InboundEventView::Begin,
                engine,
            ).tables;
            let left = crate::store::inbound::inbound_of(first.waiting(true));
            &&& left is Ok
            &&& run_pass(
                InboundView { rest: left->Ok_0, user_id: user, changed: false },
                first,
                InboundEventView::Begin,
                later,
            ) == (PassOutcome { tables: first, changed: false, asked: seq![] })
        }),
{
    let rows = t.waiting(true);
    let items = crate::store::inbound::inbound_of(rows)->Ok_0;
    let v = InboundView { rest: items, user_id: user, changed: false };
    pass_deals_with_each_item(v, t, engine);
    let first = after_items(t, items, user, engine);
    let rows2 = first.waiting(true);
    lemma_after_items(t, items, user, engine, -1);
    assert forall|i: int| 0 <= i < rows2.len() implies rows.contains(#[trigger] rows2[i]) by {
        assert(rows2.contains(rows2[i]));
        crate::store::pages::waiting_events_are_in_order(first, true, rows2[i]);
        crate::store::pages::waiting_events_are_in_order(t, true, rows2[i]);
        let n = choose|n: int| 0 <= n < first.events.len() && first.events[n] == rows2[i];
        assert(t.events.contains(first.events[n]));
    }
    assert forall|i: int| 0 <= i < rows2.len() implies crate::store::inbound::inbound_data(
        #[trigger] rows2[i],
    ) is Ok by {
        assert(rows.contains(rows2[i]));
        let k = choose|k: int| 0 <= k < rows.len() && rows[k] == rows2[i];
        crate::store::inbound::lemma_inbound_of(rows, k);
    }
    crate::store::inbound::lemma_inbound_reads(rows2);
    let left = crate::store::inbound::inbound_of(rows2)->Ok_0;
    assert forall|i: int| 0 <= i < left.len() implies !is_dealt_with(
        #[trigger] left[i],
        user,
        later,
    ) by {
        let n = crate::store::inbound::lemma_inbound_from(rows2, i);
        assert(rows.contains(rows2[n]));
        let k = choose|k: int| 0 <= k < rows.len() && rows[k] == rows2[n];
        crate::store::inbound::lemma_inbound_of(rows, k);
        assert(items.contains(left[i]));
        let m = choose|m: int| 0 <= m < items.len() && items[m] == left[i];
        lemma_after_items(t, items, user, engine, m);
        assert(rows2.contains(rows2[n]));
        crate::store::pages::waiting_events_are_in_order(first, true, rows2[n]);
        let e = choose|e: int| 0 <= e < first.events.len() && first.events[e] == rows2[n];
        assert(first.events[e].event_id == items[m].event_id);
        if is_dealt_with(items[m], user, engine) {
            assert(waits_no_more(first, items[m].event_id));
        }
    }
    lemma_undealt_items_change_nothing(first, left, user, later);
    pass_deals_with_each_item(
        InboundView { rest: left, user_id: user, changed: false },
        first,
        later,
    );
    assert(asked_of(left, later) =~= seq![]);
}

impl InboundPass {
    /// A pass over the given items for the session of a user. Without an engine
    /// nothing is processed.
    pub fn new(items: Vec<PendingMls>, user_id: &str, has_engine: bool) -> (r: InboundPass)
        ensures
            r@ == (InboundView {
                rest: if has_engine {
                    crate::store::inbound::mls_views(items@)
                } else {
                    seq![]
                },
                user_id: user_id@,
                changed: false,
            }),
    {
        let rest = if has_engine {
            items
        } else {
            Vec::new()
        };
        let r = InboundPass { rest, user_id: user_id.to_owned(), changed: false };
        assert(!has_engine ==> r@.rest =~= seq![]);
        r
    }

    fn go_on(&mut self, store: &mut Store) -> (r: Result<InboundAction, CoreError>)
        requires
            old(store).wf(),
        ensures
            final(store).wf(),
            final(store).follows(*old(store)),
            ({
                let step = go_on(old(self)@, old(store).tables());
                &&& final(self)@ == step.pass
                &&& final(store).tables() == step.tables
                &&& crate::error::core_outcome(r) == step.action
            }),
    {
        let ghost start = go_on(self@, store.tables());
        proof {
            crate::store::lemma_follows_itself(*store);
        }
        while self.rest.len() > 0
            invariant
                store.wf(),
                store.follows(*old(store)),
                start == go_on(old(self)@, old(store).tables()),
                go_on(self@, store.tables()) == start,
            decreases self.rest@.len(),
        {
            let ghost before = self@;
            let ghost held = *store;
            let item = self.rest.remove(0);
            assert(before.rest[0] == item@);
            assert(self@.rest =~= before.rest.drop_first());
            if item.is_commit && str_eq(item.sender.as_str(), self.user_id.as_str()) {
                match store.set_commit_processed(item.event_id.as_str()) {
                    Ok(_) => {},
                    Err(e) => return Err(CoreError::of_store(e)),
                }
                proof {
                    crate::store::changes_follow_in_turn(*old(store), held, *store);
                }
            } else {
                return Ok(InboundAction::CheckGroup(item));
            }
        }
        Ok(InboundAction::Done { changed: self.changed })
    }

    /// One step of the pass.
    pub fn next(&mut self, store: &mut Store, event: InboundEvent) -> (r: Result<
        InboundAction,
        CoreError,
    >)
        requires
            old(store).wf(),
        ensures
            final(store).wf(),
            final(store).follows(*old(store)),
            ({
                let step = inbound_step(old(self)@, old(store).tables(), event@);
                &&& final(self)@ == step.pass
                &&& final(store).tables() == step.tables
                &&& crate::error::core_outcome(r) == step.action
            }),
    {
        proof {
            crate::store::lemma_follows_itself(*store);
        }
        match event {
            InboundEvent::Begin => self.go_on(store),
            InboundEvent::Group(item, answer) => match answer {
                Err(e) => Err(e),
                Ok(false) => self.go_on(store),
                Ok(true) => if item.is_commit {
                    Ok(InboundAction::Apply(item))
                } else {
                    Ok(InboundAction::Decrypt(item))
                },
            },
            InboundEvent::Decrypted(item, answer) => {
                let marked = match answer {
                    Ok(text) => store.set_decrypted(item.event_id.as_str(), text.as_str()),
                    Err(_) => store.set_decrypt_failed(item.event_id.as_str()),
                };
                match marked {
                    Ok(_) => {},
                    Err(e) => return Err(CoreError::of_store(e)),
                }
                let ghost between = *store;
                self.changed = true;
                let r = self.go_on(store);
                proof {
                    crate::store::changes_follow_in_turn(*old(store), between, *store);
                }
                r
            },
            InboundEvent::Applied(item, _) => {
                match store.set_commit_processed(item.event_id.as_str()) {
                    Ok(_) => {},
                    Err(e) => return Err(CoreError::of_store(e)),
                }
                let ghost between = *store;
                let r = self.go_on(store);
                proof {
                    crate::store::changes_follow_in_turn(*old(store), between, *store);
                }
                r
            },
        }
    }
}

/// A pass over the waiting items goes on by what happened: an item whose group is held is
/// decrypted, or applied where it is a change; what came of a message is kept and reported
/// as a change; and a fault of the engine ends the pass and changes nothing.
pub proof fn pass_goes_on_by_what_happened(
    v: InboundView,
    t: Tables,
    item: MlsView,
    text: Seq<char>,
    why: CoreErrorView,
)
    ensures
        inbound_step(v, t, InboundEventView::Group(item, Err(why))).action == Err::<
            InboundActionView,
            CoreErrorView,
        >(why),
        inbound_step(v, t, InboundEventView::Group(item, Err(why))).tables == t,
        inbound_step(v, t, InboundEventView::Group(item, Ok(true))).action == Ok::<
            InboundActionView,
            CoreErrorView,
        >(
            if item.is_commit {
                InboundActionView::Apply(item)
            } else {
                InboundActionView::Decrypt(item)
            },
        ),
        inbound_step(v, t, InboundEventView::Group(item, Ok(true))).tables == t,
        inbound_step(v, t, InboundEventView::Group(item, Ok(false))) == inbound_step(
            v,
            t,
            InboundEventView::Begin,
        ),
        v.rest.len() == 0 ==> inbound_step(v, t, InboundEventView::Begin).action == Ok::<
            InboundActionView,
            CoreErrorView,
        >(InboundActionView::Done(v.changed)) && inbound_step(v, t, InboundEventView::Begin).tables
            == t,
        v.rest.len() == 0 ==> inbound_step(
            v,
            t,
            InboundEventView::Decrypted(item, Some(text)),
        ).tables == t.decrypted(item.event_id, text),
        v.rest.len() == 0 ==> inbound_step(v, t, InboundEventView::Decrypted(item, None)).tables
            == t.undecryptable(item.event_id),
        v.rest.len() == 0 ==> inbound_step(v, t, InboundEventView::Applied(item)).tables
            == t.commit_processed(item.event_id),
        v.rest.len() > 0 && !(v.rest[0].is_commit && v.rest[0].sender == v.user_id)
            ==> inbound_step(v, t, InboundEventView::Begin).action == Ok::<
            InboundActionView,
            CoreErrorView,
        >(InboundActionView::CheckGroup(v.rest[0])) && inbound_step(
            v,
            t,
            InboundEventView::Begin,
        ).pass.rest == v.rest.skip(1) && inbound_step(v, t, InboundEventView::Begin).tables == t,
        v.rest.len() == 1 && v.rest[0].is_commit && v.rest[0].sender == v.user_id ==> inbound_step(
            v,
            t,
            InboundEventView::Begin,
        ).tables == t.commit_processed(v.rest[0].event_id),
        inbound_step(v, t, InboundEventView::Decrypted(item, Some(text))).pass.changed,
        inbound_step(v, t, InboundEventView::Decrypted(item, None)).pass.changed,
        inbound_step(v, t, InboundEventView::Applied(item)).pass.changed == v.changed,
        inbound_step(v, t, InboundEventView::Begin).pass.changed == v.changed,
        inbound_step(v, t, InboundEventView::Begin).pass.user_id == v.user_id,
{
    reveal_with_fuel(go_on, 2);
    lemma_go_on_says(v, t);
    let changed = InboundView { changed: true, ..v };
    lemma_go_on_says(changed, t.decrypted(item.event_id, text));
    lemma_go_on_says(changed, t.undecryptable(item.event_id));
    lemma_go_on_says(v, t.commit_processed(item.event_id));
}

proof fn lemma_go_on_says(v: InboundView, t: Tables)
    ensures
        go_on(v, t).pass.changed == v.changed,
        go_on(v, t).pass.user_id == v.user_id,
    decreases v.rest.len(),
{
    if v.rest.len() > 0 && v.rest[0].is_commit && v.rest[0].sender == v.user_id {
        lemma_go_on_says(
            InboundView { rest: v.rest.drop_first(), ..v },
            t.commit_processed(v.rest[0].event_id),
        );
    }
}

} // verus!
