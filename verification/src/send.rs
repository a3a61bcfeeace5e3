//! Delivering the outbound queue.

use vstd::prelude::*;
use vstd::string::*;

use crate::api::{ApiError, ApiErrorView};
use crate::error::{CoreError, CoreErrorView};
use crate::json::{object2, Json, JsonView};
use crate::store::outbox::{text_message, PendingSend, PendingView};
use crate::store::Store;
use crate::table::{SendRec, Tables};

verus! {

/// A pass over the outbound queue, oldest message first.
pub struct FlushPass {
    rest: Vec<PendingSend>,
    has_engine: bool,
    changed: bool,
}

/// What a [`FlushPass`] holds: the messages still to come, whether there is an
/// encryption engine, and whether the store was changed.
#[verifier::ext_equal]
pub struct FlushView {
    pub rest: Seq<PendingView>,
    pub has_engine: bool,
    pub changed: bool,
}

impl View for FlushPass {
    type V = FlushView;

    closed spec fn view(&self) -> FlushView {
        FlushView {
            rest: crate::store::outbox::pending_views(self.rest@),
            has_engine: self.has_engine,
            changed: self.changed,
        }
    }
}

/// What has happened in the course of a pass.
pub enum FlushEvent {
    /// The pass begins.
    Begin,
    /// The engine was asked whether it holds the room's group.
    Group(PendingSend, Result<bool, CoreError>),
    /// The engine was asked to encrypt the message.
    Encrypted(PendingSend, Result<String, CoreError>),
    /// The message was sent. The server answered with the id of the event.
    Sent(PendingSend, Result<String, ApiError>),
}

/// What is to be done next in the course of a pass.
pub enum FlushAction {
    /// Ask the engine whether it holds the room's group.
    CheckGroup(PendingSend),
    /// Have the engine encrypt the message for the room's group.
    Encrypt(PendingSend),
    /// Send the message as an event of the given type and content.
    Send { send: PendingSend, event_type: String, content: Json },
    /// The pass is over.
    Done { changed: bool },
}

/// What a [`FlushEvent`] says. Why the engine failed does not matter.
pub enum FlushEventView {
    Begin,
    Group(PendingView, Option<bool>),
    Encrypted(PendingView, Option<Seq<char>>),
    Sent(PendingView, Result<Seq<char>, ApiErrorView>),
}

/// What a [`FlushAction`] says.
pub enum FlushActionView {
    CheckGroup(PendingView),
    Encrypt(PendingView),
    Send(PendingView, Seq<char>, JsonView),
    Done(bool),
}

impl View for FlushEvent {
    type V = FlushEventView;

    open spec fn view(&self) -> FlushEventView {
        match self {
            FlushEvent::Begin => FlushEventView::Begin,
            FlushEvent::Group(send, r) => FlushEventView::Group(
                send@,
                match r {
                    Ok(held) => Some(*held),
                    Err(_) => None,
                },
            ),
            FlushEvent::Encrypted(send, r) => FlushEventView::Encrypted(
                send@,
                match r {
                    Ok(c) => Some(c@),
                    Err(_) => None,
                },
            ),
            FlushEvent::Sent(send, r) => FlushEventView::Sent(
                send@,
                crate::api::api_outcome(*r),
            ),
        }
    }
}

impl View for FlushAction {
    type V = FlushActionView;

    open spec fn view(&self) -> FlushActionView {
        match self {
            FlushAction::CheckGroup(send) => FlushActionView::CheckGroup(send@),
            FlushAction::Encrypt(send) => FlushActionView::Encrypt(send@),
            FlushAction::Send { send, event_type, content } => FlushActionView::Send(
                send@,
                event_type@,
                content@,
            ),
            FlushAction::Done { changed } => FlushActionView::Done(*changed),
        }
    }
}

/// The content of an encrypted message.
pub open spec fn encrypted_content(ciphertext: Seq<char>) -> JsonView {
    JsonView::Object(
        seq![
            ("algorithm"@, JsonView::Str("p.mls.1"@)),
            ("ciphertext"@, JsonView::Str(ciphertext)),
        ],
    )
}

/// The content of an encrypted message.
pub fn encrypted_message(ciphertext: &str) -> (r: Json)
    ensures
        r@ == encrypted_content(ciphertext@),
{
    object2("algorithm", Json::string("p.mls.1"), "ciphertext", Json::string(ciphertext))
}

/// The message as it is sent into a room that is not encrypted.
pub open spec fn plain_send(send: PendingView) -> FlushActionView {
    FlushActionView::Send(
        send,
        "p.room.message"@,
        crate::store::outbox::text_content(send.body),
    )
}

/// The pass goes on with its next message. Without an engine a message for an
/// encrypted room is held back.
pub open spec fn advance(v: FlushView, t: Tables) -> (FlushView, FlushActionView)
    decreases v.rest.len(),
{
    if v.rest.len() == 0 {
        (v, FlushActionView::Done(v.changed))
    } else {
        let send = v.rest[0];
        let then_on = FlushView { rest: v.rest.drop_first(), ..v };
        if v.has_engine {
            (then_on, FlushActionView::CheckGroup(send))
        } else if t.is_encrypted(send.room_id) {
            advance(then_on, t)
        } else {
            (then_on, plain_send(send))
        }
    }
}

/// What one step of a pass comes to: how the pass goes on, what the store holds,
/// and what is to be done.
pub struct FlushStep {
    pub pass: FlushView,
    pub tables: Tables,
    pub action: Result<FlushActionView, CoreErrorView>,
}

/// The pass goes on after the store was changed.
pub open spec fn go_on(v: FlushView, t: Tables) -> FlushStep {
    let (pass, action) = advance(v, t);
    FlushStep { pass, tables: t, action: Ok(action) }
}

/// The pass goes on after a message was given up.
pub open spec fn give_up(v: FlushView, t: Tables, send: PendingView) -> FlushStep {
    go_on(FlushView { changed: true, ..v }, t.failed(send.txn_id))
}

/// One step of a pass.
///
/// A message for a room whose group is held goes out encrypted. One for a room
/// whose group is not held goes out as it is, unless the room is marked as
/// encrypted: then it is held back, until the group is joined. A message that the
/// engine cannot deal with, or that the server refuses, is given up. Where the
/// server is not reached, the pass ends and the rest stays queued.
pub open spec fn flush_step(v: FlushView, t: Tables, event: FlushEventView) -> FlushStep {
    match event {
        FlushEventView::Begin => go_on(v, t),
        FlushEventView::Group(send, None) => give_up(v, t, send),
        FlushEventView::Group(send, Some(true)) => FlushStep {
            pass: v,
            tables: t,
            action: Ok(FlushActionView::Encrypt(send)),
        },
        FlushEventView::Group(send, Some(false)) => if t.is_encrypted(send.room_id) {
            go_on(v, t)
        } else {
            FlushStep { pass: v, tables: t, action: Ok(plain_send(send)) }
        },
        FlushEventView::Encrypted(send, None) => give_up(v, t, send),
        FlushEventView::Encrypted(send, Some(ciphertext)) => FlushStep {
            pass: v,
            tables: t,
            action: Ok(
                FlushActionView::Send(send, "p.room.encrypted"@, encrypted_content(ciphertext)),
            ),
        },
        FlushEventView::Sent(send, Ok(event_id)) => if t.resolve_fault(send.txn_id) {
            FlushStep {
                pass: v,
                tables: t,
                action: Err(
                    CoreErrorView::Storage(
                        "database error: "@ + "FOREIGN KEY constraint failed"@,
                    ),
                ),
            }
        } else {
            go_on(FlushView { changed: true, ..v }, t.resolved(send.txn_id, event_id))
        },
        FlushEventView::Sent(send, Err(ApiErrorView::Network(_))) => FlushStep {
            pass: FlushView { rest: seq![], ..v },
            tables: t,
            action: Ok(FlushActionView::Done(v.changed)),
        },
        FlushEventView::Sent(send, Err(_)) => give_up(v, t, send),
    }
}

proof fn lemma_advance_sends_plain_text(v: FlushView, t: Tables)
    ensures
        advance(v, t).1 matches FlushActionView::Send(send, kind, content) ==> !t.is_encrypted(
            send.room_id,
        ) && kind == "p.room.message"@,
    decreases v.rest.len(),
{
    if v.rest.len() > 0 && !v.has_engine && t.is_encrypted(v.rest[0].room_id) {
        lemma_advance_sends_plain_text(FlushView { rest: v.rest.drop_first(), ..v }, t);
    }
}

/// No plain text goes into an encrypted room: whatever happens in the course of a
/// pass, what is sent into a room that is marked as encrypted is a ciphertext.
pub proof fn encrypted_rooms_get_no_plain_text(v: FlushView, t: Tables, event: FlushEventView)
    ensures
        ({
            let step = flush_step(v, t, event);
            step.action matches Ok(FlushActionView::Send(send, kind, content)) ==> (
            step.tables.is_encrypted(send.room_id) ==> kind == "p.room.encrypted"@ && exists|
                c: Seq<char>,
            | #[trigger]
                encrypted_content(c) == content)
        }),
{
    let step = flush_step(v, t, event);
    lemma_advance_sends_plain_text(v, t);
    match event {
        FlushEventView::Group(send, None) => {
            lemma_advance_sends_plain_text(
                FlushView { changed: true, ..v },
                t.failed(send.txn_id),
            );
        },
        FlushEventView::Encrypted(send, None) => {
            lemma_advance_sends_plain_text(
                FlushView { changed: true, ..v },
                t.failed(send.txn_id),
            );
        },
        FlushEventView::Encrypted(send, Some(ciphertext)) => {
            assert(encrypted_content(ciphertext) == encrypted_content(ciphertext));
        },
        FlushEventView::Sent(send, Ok(event_id)) => {
            lemma_advance_sends_plain_text(
                FlushView { changed: true, ..v },
                t.resolved(send.txn_id, event_id),
            );
        },
        FlushEventView::Sent(send, Err(_)) => {
            lemma_advance_sends_plain_text(
                FlushView { changed: true, ..v },
                t.failed(send.txn_id),
            );
        },
        _ => {},
    }
}

/// Where the server is not reached, the queue stays as it is for the next pass.
pub proof fn unreached_server_loses_nothing(
    v: FlushView,
    t: Tables,
    send: PendingView,
    reason: Seq<char>,
)
    ensures
        ({
            let step = flush_step(
                v,
                t,
                FlushEventView::Sent(send, Err(ApiErrorView::Network(reason))),
            );
            step.tables == t && step.action == Ok::<FlushActionView, CoreErrorView>(
                FlushActionView::Done(v.changed),
            )
        }),
{
}

/// No message is lost: one leaves the queue only where it was delivered, where the
/// server refused it or where the engine cannot deal with it. No step takes
/// another message off the queue, or adds one.
pub proof fn only_settled_messages_leave_the_queue(
    v: FlushView,
    t: Tables,
    event: FlushEventView,
    row: SendRec,
)
    ensures
        flush_step(v, t, event).tables.sends.contains(row) ==> t.sends.contains(row),
        t.sends.contains(row) && !flush_step(v, t, event).tables.sends.contains(row) ==> match event {
            FlushEventView::Group(send, None) => send.txn_id == row.txn_id,
            FlushEventView::Encrypted(send, None) => send.txn_id == row.txn_id,
            FlushEventView::Sent(send, Ok(_)) => send.txn_id == row.txn_id,
            FlushEventView::Sent(send, Err(e)) => !(e is Network) && send.txn_id == row.txn_id,
            _ => false,
        },
{
    match event {
        FlushEventView::Group(send, None) => {
            crate::store::echoes::lemma_left_the_queue(t.sends, send.txn_id, row);
        },
        FlushEventView::Encrypted(send, None) => {
            crate::store::echoes::lemma_left_the_queue(t.sends, send.txn_id, row);
        },
        FlushEventView::Sent(send, _) => {
            crate::store::echoes::lemma_left_the_queue(t.sends, send.txn_id, row);
        },
        _ => {},
    }
}

/// A message that is held back, because its room is encrypted and no group is
/// held, stays queued.
pub proof fn held_message_stays_queued(v: FlushView, t: Tables, send: PendingView)
    requires
        t.is_encrypted(send.room_id),
    ensures
        flush_step(v, t, FlushEventView::Group(send, Some(false))).tables == t,
{
}

/// A message as it goes to the server.
pub struct Attempt {
    pub send: PendingView,
    pub kind: Seq<char>,
    pub content: JsonView,
}

/// What the engine and the server have to say in the course of a pass: whether a
/// room's group is held, none where the engine cannot say; the ciphertext of a
/// message, none where it cannot be encrypted; and the answer to an attempt.
pub struct FlushAnswers {
    pub held: spec_fn(Seq<char>) -> Option<bool>,
    pub ciphertext: spec_fn(PendingView) -> Option<Seq<char>>,
    pub server: spec_fn(Attempt) -> Result<Seq<char>, ApiErrorView>,
}

/// What a whole pass comes to: what the store then holds, what the pass reports,
/// and what went to the server, in order.
#[verifier::ext_equal]
pub struct FlushOutcome {
    pub tables: Tables,
    pub result: Result<bool, CoreErrorView>,
    pub attempts: Seq<Attempt>,
}

/// The pass goes on with one message less, or is over.
pub proof fn lemma_advance_takes_one(v: FlushView, t: Tables)
    ensures
        advance(v, t).1 is Done || advance(v, t).0.rest.len() < v.rest.len(),
        !(advance(v, t).1 is Encrypt),
    decreases v.rest.len(),
{
    if v.rest.len() > 0 && !v.has_engine && t.is_encrypted(v.rest[0].room_id) {
        lemma_advance_takes_one(FlushView { rest: v.rest.drop_first(), ..v }, t);
    }
}

/// How many more steps an event leaves for the message that it is about.
pub open spec fn steps_left(event: FlushEventView) -> int {
    match event {
        FlushEventView::Group(_, _) => 2,
        FlushEventView::Encrypted(_, _) => 1,
        _ => 0,
    }
}

/// A pass from an event to its end, step by step, with the given answers.
pub open spec fn run_flush(
    v: FlushView,
    t: Tables,
    event: FlushEventView,
    answers: FlushAnswers,
) -> FlushOutcome
    decreases v.rest.len(), steps_left(event),
{
    proof {
        let changed = FlushView { changed: true, ..v };
        lemma_advance_takes_one(v, t);
        match event {
            FlushEventView::Group(send, _) => {
                lemma_advance_takes_one(changed, t.failed(send.txn_id));
            },
            FlushEventView::Encrypted(send, _) => {
                lemma_advance_takes_one(changed, t.failed(send.txn_id));
            },
            FlushEventView::Sent(send, Ok(event_id)) => {
                lemma_advance_takes_one(changed, t.resolved(send.txn_id, event_id));
            },
            FlushEventView::Sent(send, Err(_)) => {
                lemma_advance_takes_one(changed, t.failed(send.txn_id));
            },
            _ => {},
        }
    }
    let step = flush_step(v, t, event);
    match step.action {
        Ok(FlushActionView::CheckGroup(send)) => run_flush(
            step.pass,
            step.tables,
            FlushEventView::Group(send, (answers.held)(send.room_id)),
            answers,
        ),
        Ok(FlushActionView::Encrypt(send)) => run_flush(
            step.pass,
            step.tables,
            FlushEventView::Encrypted(send, (answers.ciphertext)(send)),
            answers,
        ),
        Ok(FlushActionView::Send(send, kind, content)) => {
            let attempt = Attempt { send, kind, content };
            let rest = run_flush(
                step.pass,
                step.tables,
                FlushEventView::Sent(send, (answers.server)(attempt)),
                answers,
            );
            FlushOutcome { attempts: seq![attempt] + rest.attempts, ..rest }
        },
        Ok(FlushActionView::Done(changed)) => FlushOutcome {
            tables: step.tables,
            result: Ok(changed),
            attempts: seq![],
        },
        Err(e) => FlushOutcome { tables: step.tables, result: Err(e), attempts: seq![] },
    }
}

/// What becomes of a message in a pass.
pub enum Fate {
    /// It stays queued until its group is joined.
    HeldBack,
    /// The engine cannot deal with it.
    GivenUp,
    /// It goes to the server.
    Tried(Attempt),
}

/// What becomes of a message: it goes out encrypted where its room's group is held,
/// and as it is where the room is not marked as encrypted.
pub open spec fn fate(
    send: PendingView,
    has_engine: bool,
    t: Tables,
    answers: FlushAnswers,
) -> Fate {
    let plain = if t.is_encrypted(send.room_id) {
        Fate::HeldBack
    } else {
        Fate::Tried(
            Attempt {
                send,
                kind: "p.room.message"@,
                content: crate::store::outbox::text_content(send.body),
            },
        )
    };
    if !has_engine {
        plain
    } else {
        match (answers.held)(send.room_id) {
            None => Fate::GivenUp,
            Some(false) => plain,
            Some(true) => match (answers.ciphertext)(send) {
                None => Fate::GivenUp,
                Some(c) => Fate::Tried(
                    Attempt { send, kind: "p.room.encrypted"@, content: encrypted_content(c) },
                ),
            },
        }
    }
}

/// What a list of messages comes to, taken one by one: what the store then holds,
/// which were settled, what went to the server, and whether the store failed.
#[verifier::ext_equal]
pub struct Delivery {
    pub tables: Tables,
    pub settled: Seq<PendingView>,
    pub attempts: Seq<Attempt>,
    pub fault: Option<CoreErrorView>,
}

/// The delivery of a list of messages, taken in their order. A message is settled
/// where it was delivered, refused or given up. Where the server is not reached,
/// nothing after that is tried.
pub open spec fn deliver(
    items: Seq<PendingView>,
    has_engine: bool,
    t: Tables,
    answers: FlushAnswers,
) -> Delivery
    decreases items.len(),
{
    if items.len() == 0 {
        Delivery { tables: t, settled: seq![], attempts: seq![], fault: None }
    } else {
        let send = items[0];
        let rest = items.drop_first();
        match fate(send, has_engine, t, answers) {
            Fate::HeldBack => deliver(rest, has_engine, t, answers),
            Fate::GivenUp => {
                let d = deliver(rest, has_engine, t.failed(send.txn_id), answers);
                Delivery { settled: seq![send] + d.settled, ..d }
            },
            Fate::Tried(attempt) => match (answers.server)(attempt) {
                Ok(event_id) => if t.resolve_fault(send.txn_id) {
                    Delivery {
                        tables: t,
                        settled: seq![],
                        attempts: seq![attempt],
                        fault: Some(
                            CoreErrorView::Storage(
                                "database error: "@ + "FOREIGN KEY constraint failed"@,
                            ),
                        ),
                    }
                } else {
                    let d = deliver(rest, has_engine, t.resolved(send.txn_id, event_id), answers);
                    Delivery {
                        settled: seq![send] + d.settled,
                        attempts: seq![attempt] + d.attempts,
                        ..d
                    }
                },
                Err(ApiErrorView::Network(_)) => Delivery {
                    tables: t,
                    settled: seq![],
                    attempts: seq![attempt],
                    fault: None,
                },
                Err(_) => {
                    let d = deliver(rest, has_engine, t.failed(send.txn_id), answers);
                    Delivery {
                        settled: seq![send] + d.settled,
                        attempts: seq![attempt] + d.attempts,
                        ..d
                    }
                },
            },
        }
    }
}

/// What the run of a delivery reports.
pub open spec fn reported(d: Delivery, changed: bool) -> FlushOutcome {
    FlushOutcome {
        tables: d.tables,
        result: match d.fault {
            Some(e) => Err(e),
            None => Ok(changed || d.settled.len() > 0),
        },
        attempts: d.attempts,
    }
}

proof fn lemma_runs_alike(
    v: FlushView,
    t: Tables,
    event: FlushEventView,
    v2: FlushView,
    t2: Tables,
    event2: FlushEventView,
    answers: FlushAnswers,
)
    requires
        flush_step(v, t, event) == flush_step(v2, t2, event2),
    ensures
        run_flush(v, t, event, answers) == run_flush(v2, t2, event2, answers),
{
}

proof fn lemma_after_sending(
    v: FlushView,
    t: Tables,
    attempt: Attempt,
    answers: FlushAnswers,
    d: Delivery,
)
    requires
        match (answers.server)(attempt) {
            Ok(event_id) => if t.resolve_fault(attempt.send.txn_id) {
                d == (Delivery {
                    tables: t,
                    settled: seq![],
                    attempts: seq![],
                    fault: Some(
                        CoreErrorView::Storage(
                            "database error: "@ + "FOREIGN KEY constraint failed"@,
                        ),
                    ),
                })
            } else {
                run_flush(
                    FlushView { changed: true, ..v },
                    t.resolved(attempt.send.txn_id, event_id),
                    FlushEventView::Begin,
                    answers,
                ) == reported(d, true)
            },
            Err(ApiErrorView::Network(_)) => d == (Delivery {
                tables: t,
                settled: seq![],
                attempts: seq![],
                fault: None,
            }),
            Err(_) => run_flush(
                FlushView { changed: true, ..v },
                t.failed(attempt.send.txn_id),
                FlushEventView::Begin,
                answers,
            ) == reported(d, true),
        },
    ensures
        ({
            let sent = FlushEventView::Sent(attempt.send, (answers.server)(attempt));
            let run = run_flush(v, t, sent, answers);
            match (answers.server)(attempt) {
                Ok(_) => if t.resolve_fault(attempt.send.txn_id) {
                    run == reported(d, v.changed)
                } else {
                    run == reported(d, true)
                },
                Err(ApiErrorView::Network(_)) => run == reported(d, v.changed),
                Err(_) => run == reported(d, true),
            }
        }),
{
    let sent = FlushEventView::Sent(attempt.send, (answers.server)(attempt));
    let changed = FlushView { changed: true, ..v };
    match (answers.server)(attempt) {
        Ok(event_id) => {
            if !t.resolve_fault(attempt.send.txn_id) {
                lemma_runs_alike(
                    v,
                    t,
                    sent,
                    changed,
                    t.resolved(attempt.send.txn_id, event_id),
                    FlushEventView::Begin,
                    answers,
                );
            }
        },
        Err(ApiErrorView::Network(_)) => {},
        Err(_) => {
            lemma_runs_alike(
                v,
                t,
                sent,
                changed,
                t.failed(attempt.send.txn_id),
                FlushEventView::Begin,
                answers,
            );
        },
    }
}

/// A pass delivers its messages one by one, in their order, and reports a change
/// exactly where one was settled.
pub proof fn pass_delivers_in_order(v: FlushView, t: Tables, answers: FlushAnswers)
    ensures
        run_flush(v, t, FlushEventView::Begin, answers) == reported(
            deliver(v.rest, v.has_engine, t, answers),
            v.changed,
        ),
    decreases v.rest.len(),
{
    if v.rest.len() > 0 {
        let send = v.rest[0];
        let rest = v.rest.drop_first();
        let on = FlushView { rest, ..v };
        let changed = FlushView { rest, changed: true, ..v };
        let group = FlushEventView::Group(send, (answers.held)(send.room_id));
        let begin = FlushEventView::Begin;
        let run = run_flush(v, t, begin, answers);
        let first = fate(send, v.has_engine, t, answers);
        if v.has_engine {
            assert(run == run_flush(on, t, group, answers));
        }
        match first {
            Fate::HeldBack => {
                pass_delivers_in_order(on, t, answers);
                if v.has_engine {
                    lemma_runs_alike(on, t, group, on, t, begin, answers);
                } else {
                    lemma_runs_alike(v, t, begin, on, t, begin, answers);
                }
            },
            Fate::GivenUp => {
                let after = t.failed(send.txn_id);
                pass_delivers_in_order(changed, after, answers);
                if (answers.held)(send.room_id) is None {
                    lemma_runs_alike(on, t, group, changed, after, begin, answers);
                } else {
                    let failed = FlushEventView::Encrypted(send, None);
                    assert(run_flush(on, t, group, answers) == run_flush(on, t, failed, answers));
                    lemma_runs_alike(on, t, failed, changed, after, begin, answers);
                }
            },
            Fate::Tried(attempt) => {
                let reply = (answers.server)(attempt);
                let sent = FlushEventView::Sent(send, reply);
                let d = match reply {
                    Ok(event_id) => if t.resolve_fault(send.txn_id) {
                        Delivery {
                            tables: t,
                            settled: seq![],
                            attempts: seq![],
                            fault: Some(
                                CoreErrorView::Storage(
                                    "database error: "@ + "FOREIGN KEY constraint failed"@,
                                ),
                            ),
                        }
                    } else {
                        pass_delivers_in_order(
                            changed,
                            t.resolved(send.txn_id, event_id),
                            answers,
                        );
                        deliver(rest, v.has_engine, t.resolved(send.txn_id, event_id), answers)
                    },
                    Err(ApiErrorView::Network(_)) => Delivery {
                        tables: t,
                        settled: seq![],
                        attempts: seq![],
                        fault: None,
                    },
                    Err(_) => {
                        pass_delivers_in_order(changed, t.failed(send.txn_id), answers);
                        deliver(rest, v.has_engine, t.failed(send.txn_id), answers)
                    },
                };
                lemma_after_sending(on, t, attempt, answers, d);
                let after = run_flush(on, t, sent, answers);
                let whole = FlushOutcome { attempts: seq![attempt] + after.attempts, ..after };
                if v.has_engine && (answers.held)(send.room_id) == Some(true) {
                    let enc = FlushEventView::Encrypted(send, (answers.ciphertext)(send));
                    assert(run_flush(on, t, group, answers) == run_flush(on, t, enc, answers));
                    assert(run_flush(on, t, enc, answers) == whole);
                } else if v.has_engine {
                    assert(run_flush(on, t, group, answers) == whole);
                } else {
                    assert(run == whole);
                }
                assert(seq![attempt] + seq![] =~= seq![attempt]);
            },
        }
    }
}

/// Whether a pass finds the server out of reach at a message.
pub open spec fn is_unreached(
    send: PendingView,
    has_engine: bool,
    t: Tables,
    answers: FlushAnswers,
) -> bool {
    match fate(send, has_engine, t, answers) {
        Fate::Tried(attempt) => match (answers.server)(attempt) {
            Err(ApiErrorView::Network(_)) => true,
            _ => false,
        },
        _ => false,
    }
}

/// Whether a message goes to the server.
pub open spec fn is_tried(
    send: PendingView,
    has_engine: bool,
    t: Tables,
    answers: FlushAnswers,
) -> bool {
    fate(send, has_engine, t, answers) is Tried
}

/// Whether a message is done with once it had its turn: it was delivered, refused
/// or given up.
pub open spec fn is_settled(
    send: PendingView,
    has_engine: bool,
    t: Tables,
    answers: FlushAnswers,
) -> bool {
    !(fate(send, has_engine, t, answers) is HeldBack) && !is_unreached(
        send,
        has_engine,
        t,
        answers,
    )
}

/// How many messages have their turn before the server is out of reach.
pub open spec fn served(
    items: Seq<PendingView>,
    has_engine: bool,
    t: Tables,
    answers: FlushAnswers,
) -> nat
    decreases items.len(),
{
    if items.len() == 0 || is_unreached(items[0], has_engine, t, answers) {
        0
    } else {
        1 + served(items.drop_first(), has_engine, t, answers)
    }
}

/// Those of a list of messages that are done with.
pub open spec fn settled_of(
    items: Seq<PendingView>,
    has_engine: bool,
    t: Tables,
    answers: FlushAnswers,
) -> Seq<PendingView> {
    items.filter(|send: PendingView| is_settled(send, has_engine, t, answers))
}

/// What goes to the server of a list of messages.
pub open spec fn attempts_of(
    items: Seq<PendingView>,
    has_engine: bool,
    t: Tables,
    answers: FlushAnswers,
) -> Seq<Attempt> {
    items.filter(|send: PendingView| is_tried(send, has_engine, t, answers)).map_values(
        |send: PendingView| fate(send, has_engine, t, answers)->Tried_0,
    )
}

/// Whether a message with the given id is among those of a list.
pub open spec fn has_txn(items: Seq<PendingView>, txn: Seq<char>) -> bool {
    exists|i: int| 0 <= i < items.len() && (#[trigger] items[i]).txn_id == txn
}

/// The first unreached message is where the turns end.
proof fn lemma_served(
    items: Seq<PendingView>,
    has_engine: bool,
    t: Tables,
    answers: FlushAnswers,
)
    ensures
        served(items, has_engine, t, answers) <= items.len(),
        forall|i: int|
            0 <= i < served(items, has_engine, t, answers) ==> !is_unreached(
                #[trigger] items[i],
                has_engine,
                t,
                answers,
            ),
        served(items, has_engine, t, answers) < items.len() ==> is_unreached(
            items[served(items, has_engine, t, answers) as int],
            has_engine,
            t,
            answers,
        ),
    decreases items.len(),
{
    if items.len() > 0 && !is_unreached(items[0], has_engine, t, answers) {
        let rest = items.drop_first();
        lemma_served(rest, has_engine, t, answers);
        assert forall|i: int| 0 <= i < served(items, has_engine, t, answers) implies !is_unreached(
            #[trigger] items[i],
            has_engine,
            t,
            answers,
        ) by {
            if i > 0 {
                assert(items[i] == rest[i - 1]);
            }
        }
    }
}

/// Settling a message changes nothing for the next ones.
proof fn lemma_fates_alike(t: Tables, after: Tables, has_engine: bool, answers: FlushAnswers)
    requires
        t.state == after.state,
    ensures
        forall|send: PendingView|
            fate(send, has_engine, after, answers) == #[trigger] fate(
                send,
                has_engine,
                t,
                answers,
            ),
        forall|items: Seq<PendingView>|
            settled_of(items, has_engine, after, answers) == #[trigger] settled_of(
                items,
                has_engine,
                t,
                answers,
            ),
        forall|items: Seq<PendingView>|
            attempts_of(items, has_engine, after, answers) == #[trigger] attempts_of(
                items,
                has_engine,
                t,
                answers,
            ),
{
    assert forall|send: PendingView|
        fate(send, has_engine, after, answers) == #[trigger] fate(
            send,
            has_engine,
            t,
            answers,
        ) by {
        assert(after.is_encrypted(send.room_id) == t.is_encrypted(send.room_id));
    }
    assert((|send: PendingView| is_settled(send, has_engine, after, answers)) =~= (
        |send: PendingView| is_settled(send, has_engine, t, answers)));
    assert((|send: PendingView| is_tried(send, has_engine, after, answers)) =~= (
        |send: PendingView| is_tried(send, has_engine, t, answers)));
    assert((|send: PendingView| fate(send, has_engine, after, answers)->Tried_0) =~= (
        |send: PendingView| fate(send, has_engine, t, answers)->Tried_0));
}

proof fn lemma_served_alike(
    items: Seq<PendingView>,
    t: Tables,
    after: Tables,
    has_engine: bool,
    answers: FlushAnswers,
)
    requires
        t.state == after.state,
    ensures
        served(items, has_engine, after, answers) == served(items, has_engine, t, answers),
    decreases items.len(),
{
    lemma_fates_alike(t, after, has_engine, answers);
    if items.len() > 0 {
        assert(fate(items[0], has_engine, t, answers) == fate(
            items[0],
            has_engine,
            after,
            answers,
        ));
        lemma_served_alike(items.drop_first(), t, after, has_engine, answers);
    }
}

proof fn lemma_filter_twice<A>(
    s: Seq<A>,
    p: spec_fn(A) -> bool,
    q: spec_fn(A) -> bool,
    both: spec_fn(A) -> bool,
)
    requires
        forall|x: A| #[trigger] both(x) <==> p(x) && q(x),
    ensures
        s.filter(p).filter(q) == s.filter(both),
    decreases s.len(),
{
    reveal(Seq::filter);
    if s.len() > 0 {
        lemma_filter_twice(s.drop_last(), p, q, both);
        let front = s.drop_last().filter(p);
        assert(both(s.last()) <==> p(s.last()) && q(s.last()));
        if p(s.last()) {
            assert(front.push(s.last()).drop_last() =~= front);
        }
    }
}

/// What is left of a queue once the messages of a list are off it.
pub open spec fn left_of(sends: Seq<SendRec>, items: Seq<PendingView>) -> Seq<SendRec> {
    sends.filter(|row: SendRec| !has_txn(items, row.txn_id))
}

proof fn lemma_left_of_none(sends: Seq<SendRec>)
    ensures
        left_of(sends, seq![]) == sends,
{
    crate::store::lemma_filter_all(sends, |row: SendRec| !has_txn(seq![], row.txn_id));
}

proof fn lemma_left_of_more(sends: Seq<SendRec>, send: PendingView, rest: Seq<PendingView>)
    ensures
        left_of(crate::table::without_send(sends, send.txn_id), rest) == left_of(
            sends,
            seq![send] + rest,
        ),
{
    let all = seq![send] + rest;
    let both = |row: SendRec| !has_txn(all, row.txn_id);
    let first = |row: SendRec| row.txn_id != send.txn_id;
    let others = |row: SendRec| !has_txn(rest, row.txn_id);
    assert forall|row: SendRec| #[trigger] both(row) <==> first(row) && others(row) by {
        if has_txn(all, row.txn_id) {
            let i = choose|i: int| 0 <= i < all.len() && (#[trigger] all[i]).txn_id == row.txn_id;
            if i > 0 {
                assert(rest[i - 1].txn_id == row.txn_id);
            }
        }
        if !first(row) {
            assert(all[0].txn_id == row.txn_id);
        }
        if has_txn(rest, row.txn_id) {
            let i = choose|i: int| 0 <= i < rest.len() && (#[trigger] rest[i]).txn_id == row.txn_id;
            assert(all[i + 1].txn_id == row.txn_id);
        }
    }
    lemma_filter_twice(sends, first, others, both);
}

/// What is settled and tried of no message, and of one message and others.
proof fn lemma_one_by_one(
    send: PendingView,
    rest: Seq<PendingView>,
    has_engine: bool,
    t: Tables,
    answers: FlushAnswers,
)
    ensures
        settled_of(seq![], has_engine, t, answers) == Seq::<PendingView>::empty(),
        attempts_of(seq![], has_engine, t, answers) == Seq::<Attempt>::empty(),
        settled_of(seq![send] + rest, has_engine, t, answers) == (if is_settled(
            send,
            has_engine,
            t,
            answers,
        ) {
            seq![send] + settled_of(rest, has_engine, t, answers)
        } else {
            settled_of(rest, has_engine, t, answers)
        }),
        attempts_of(seq![send] + rest, has_engine, t, answers) == (match fate(
            send,
            has_engine,
            t,
            answers,
        ) {
            Fate::Tried(attempt) => seq![attempt] + attempts_of(rest, has_engine, t, answers),
            _ => attempts_of(rest, has_engine, t, answers),
        }),
{
    let done = |send: PendingView| is_settled(send, has_engine, t, answers);
    let sent = |send: PendingView| is_tried(send, has_engine, t, answers);
    let as_sent = |send: PendingView| fate(send, has_engine, t, answers)->Tried_0;
    let none = Seq::<PendingView>::empty();
    assert(none.filter(done) =~= none && none.filter(sent) =~= none) by {
        reveal(Seq::filter);
    }
    assert(attempts_of(none, has_engine, t, answers) =~= seq![]);
    rest.lemma_filter_prepend(send, done);
    rest.lemma_filter_prepend(send, sent);
    let back = rest.filter(sent);
    assert(none + rest.filter(done) =~= rest.filter(done));
    assert(none + back =~= back);
    assert((seq![send] + back).map_values(as_sent) =~= seq![as_sent(send)] + back.map_values(
        as_sent,
    ));
}

/// A store in which a message was settled is as good as before.
proof fn lemma_settling_goes_on(t: Tables, txn: Seq<char>, acked: Option<Seq<char>>)
    requires
        t.settled(),
        t.echoed(),
    ensures
        !t.resolve_fault(txn),
        ({
            let after = match acked {
                Some(event_id) => t.resolved(txn, event_id),
                None => t.failed(txn),
            };
            &&& after.settled()
            &&& after.echoed()
            &&& after.state == t.state
            &&& after.sends == crate::table::without_send(t.sends, txn)
        }),
{
    crate::store::echoes::acknowledged_sends_can_be_settled(t, txn);
    let call = match acked {
        Some(event_id) => crate::store::settled::StoreCall::Resolve(txn, event_id),
        None => crate::store::settled::StoreCall::Fail(txn),
    };
    crate::store::settled::call_keeps_settled(t, call);
    crate::store::echoes::call_keeps_echoes(t, call);
    if crate::table::send_at(t.sends, txn) is None {
        crate::table::lemma_send_at(t.sends, txn);
        crate::store::lemma_filter_all(t.sends, |row: SendRec| row.txn_id != txn);
    }
}

/// What [`deliver`] comes to, as a whole.
proof fn lemma_delivery(
    items: Seq<PendingView>,
    has_engine: bool,
    t: Tables,
    answers: FlushAnswers,
)
    requires
        t.settled(),
        t.echoed(),
    ensures
        ({
            let d = deliver(items, has_engine, t, answers);
            let n = served(items, has_engine, t, answers) as int;
            let tried = if n < items.len() {
                n + 1
            } else {
                n
            };
            &&& d.fault is None
            &&& d.settled == settled_of(items.take(n), has_engine, t, answers)
            &&& d.attempts == attempts_of(items.take(tried), has_engine, t, answers)
            &&& d.tables.sends == left_of(t.sends, d.settled)
            &&& d.tables.state == t.state
            &&& d.tables.settled()
            &&& d.tables.echoed()
        }),
    decreases items.len(),
{
    let d = deliver(items, has_engine, t, answers);
    let n = served(items, has_engine, t, answers) as int;
    lemma_served(items, has_engine, t, answers);
    lemma_left_of_none(t.sends);
    if items.len() == 0 {
        lemma_one_by_one(items[0], seq![], has_engine, t, answers);
        assert(items.take(0) =~= seq![]);
    } else {
        let send = items[0];
        let rest = items.drop_first();
        if is_unreached(send, has_engine, t, answers) {
            lemma_one_by_one(send, seq![], has_engine, t, answers);
            assert(items.take(0) =~= seq![]);
            assert(items.take(1) =~= seq![send] + seq![]);
            assert(seq![d.attempts[0]] + seq![] =~= d.attempts);
        } else {
            let acked = match fate(send, has_engine, t, answers) {
                Fate::Tried(attempt) => match (answers.server)(attempt) {
                    Ok(event_id) => Some(event_id),
                    Err(_) => None,
                },
                _ => None,
            };
            let after = match fate(send, has_engine, t, answers) {
                Fate::HeldBack => t,
                _ => match acked {
                    Some(event_id) => t.resolved(send.txn_id, event_id),
                    None => t.failed(send.txn_id),
                },
            };
            lemma_settling_goes_on(t, send.txn_id, acked);
            lemma_delivery(rest, has_engine, after, answers);
            lemma_fates_alike(t, after, has_engine, answers);
            lemma_served_alike(rest, t, after, has_engine, answers);
            lemma_served(rest, has_engine, t, answers);
            let m = served(rest, has_engine, t, answers) as int;
            let more: int = if m < rest.len() {
                m + 1
            } else {
                m
            };
            assert(items.take(n) =~= seq![send] + rest.take(m));
            assert(items.take(more + 1) =~= seq![send] + rest.take(more));
            lemma_one_by_one(send, rest.take(m), has_engine, t, answers);
            lemma_one_by_one(send, rest.take(more), has_engine, t, answers);
            lemma_left_of_more(
                t.sends,
                send,
                deliver(rest, has_engine, after, answers).settled,
            );
        }
    }
}

/// A pass goes through the queue in order and stops at the first message at which
/// the server is out of reach. Each message before that is settled, unless it is
/// held back; what is tried are those messages, as far as they are not held back or
/// given up, and the one at which the pass stops. What was settled is off the
/// queue, and the rest stays on it, in its order. The pass reports a change exactly
/// where a message was settled.
pub proof fn pass_stops_at_the_first_unreached(v: FlushView, t: Tables, answers: FlushAnswers)
    requires
        t.settled(),
        t.echoed(),
        !v.changed,
    ensures
        ({
            let run = run_flush(v, t, FlushEventView::Begin, answers);
            let n = served(v.rest, v.has_engine, t, answers) as int;
            let tried = if n < v.rest.len() {
                n + 1
            } else {
                n
            };
            let settled = settled_of(v.rest.take(n), v.has_engine, t, answers);
            &&& 0 <= n <= v.rest.len()
            &&& forall|i: int|
                0 <= i < n ==> !is_unreached(#[trigger] v.rest[i], v.has_engine, t, answers)
            &&& n < v.rest.len() ==> is_unreached(v.rest[n], v.has_engine, t, answers)
            &&& run.attempts == attempts_of(v.rest.take(tried), v.has_engine, t, answers)
            &&& run.tables.sends == left_of(t.sends, settled)
            &&& run.tables.state == t.state
            &&& run.tables.settled()
            &&& run.tables.echoed()
            &&& run.result == Ok::<bool, CoreErrorView>(settled.len() > 0)
        }),
{
    pass_delivers_in_order(v, t, answers);
    lemma_delivery(v.rest, v.has_engine, t, answers);
    lemma_served(v.rest, v.has_engine, t, answers);
}

impl FlushPass {
    /// A pass over the given queue.
    pub fn new(queue: Vec<PendingSend>, has_engine: bool) -> (r: FlushPass)
        ensures
            r@ == (FlushView {
                rest: crate::store::outbox::pending_views(queue@),
                has_engine,
                changed: false,
            }),
    {
        FlushPass { rest: queue, has_engine, changed: false }
    }

    fn advance(&mut self, store: &Store) -> (r: FlushAction)
        ensures
            (final(self)@, r@) == advance(old(self)@, store.tables()),
    {
        let ghost start = self@;
        while self.rest.len() > 0
            invariant
                start == old(self)@,
                advance(self@, store.tables()) == advance(start, store.tables()),
            decreases self.rest@.len(),
        {
            let ghost before = self@;
            let send = self.rest.remove(0);
            assert(before.rest[0] == send@);
            assert(self@.rest =~= before.rest.drop_first());
            if self.has_engine {
                return FlushAction::CheckGroup(send);
            }
            let held = match store.is_room_encrypted(send.room_id.as_str()) {
                Ok(b) => b,
                Err(_) => true,
            };
            if !held {
                let content = text_message(send.body.as_str());
                return FlushAction::Send {
                    send,
                    event_type: "p.room.message".to_owned(),
                    content,
                };
            }
        }
        FlushAction::Done { changed: self.changed }
    }

    fn give_up(&mut self, store: &mut Store, send: PendingSend) -> (r: Result<
        FlushAction,
        CoreError,
    >)
        requires
            old(store).wf(),
        ensures
            final(store).wf(),
            final(store).follows(*old(store)),
            ({
                let step = give_up(old(self)@, old(store).tables(), send@);
                &&& final(self)@ == step.pass
                &&& final(store).tables() == step.tables
                &&& crate::error::core_outcome(r) == step.action
            }),
    {
        match store.fail_send(send.txn_id.as_str()) {
            Ok(_) => {},
            Err(e) => return Err(CoreError::of_store(e)),
        }
        self.changed = true;
        Ok(self.advance(store))
    }

    /// One step of the pass.
    pub fn next(&mut self, store: &mut Store, event: FlushEvent) -> (r: Result<
        FlushAction,
        CoreError,
    >)
        requires
            old(store).wf(),
        ensures
            final(store).wf(),
            final(store).follows(*old(store)),
            ({
                let step = flush_step(old(self)@, old(store).tables(), event@);
                &&& final(self)@ == step.pass
                &&& final(store).tables() == step.tables
                &&& crate::error::core_outcome(r) == step.action
            }),
    {
        proof {
            crate::store::lemma_follows_itself(*store);
        }
        match event {
            FlushEvent::Begin => Ok(self.advance(store)),
            FlushEvent::Group(send, answer) => match answer {
                Err(_) => self.give_up(store, send),
                Ok(true) => Ok(FlushAction::Encrypt(send)),
                Ok(false) => {
                    let held = match store.is_room_encrypted(send.room_id.as_str()) {
                        Ok(b) => b,
                        Err(_) => true,
                    };
                    if held {
                        Ok(self.advance(store))
                    } else {
                        let content = text_message(send.body.as_str());
                        Ok(
                            FlushAction::Send {
                                send,
                                event_type: "p.room.message".to_owned(),
                                content,
                            },
                        )
                    }
                },
            },
            FlushEvent::Encrypted(send, answer) => match answer {
                Err(_) => self.give_up(store, send),
                Ok(ciphertext) => {
                    let content = encrypted_message(ciphertext.as_str());
                    Ok(
                        FlushAction::Send {
                            send,
                            event_type: "p.room.encrypted".to_owned(),
                            content,
                        },
                    )
                },
            },
            FlushEvent::Sent(send, answer) => match answer {
                Ok(event_id) => {
                    match store.resolve_send(send.txn_id.as_str(), event_id.as_str()) {
                        Ok(_) => {},
                        Err(e) => return Err(CoreError::of_store(e)),
                    }
                    self.changed = true;
                    Ok(self.advance(store))
                },
                Err(e) => match e {
                    ApiError::Network { reason } => {
                        self.rest = Vec::new();
                        assert(self@.rest =~= seq![]);
                        Ok(FlushAction::Done { changed: self.changed })
                    },
                    _ => self.give_up(store, send),
                },
            },
        }
    }
}

/// A message goes out as its room asks: encrypted, with the ciphertext that the engine
/// made of it, where the room's group is held; as the text that it is where the room is not
/// encrypted; and not at all where the room is encrypted and the group is not held. One
/// that the engine cannot deal with is given up.
pub proof fn message_goes_out_as_its_room_asks(
    send: PendingView,
    has_engine: bool,
    t: Tables,
    answers: FlushAnswers,
)
    ensures
        ({
            let held = if has_engine {
                (answers.held)(send.room_id)
            } else {
                Some(false)
            };
            let end = fate(send, has_engine, t, answers);
            &&& held is None ==> end is GivenUp
            &&& held == Some(true) && (answers.ciphertext)(send) is None ==> end is GivenUp
            &&& held == Some(true) ==> ((answers.ciphertext)(send) matches Some(c) ==> (end matches
                Fate::Tried(a) && a.send == send && a.kind == "p.room.encrypted"@ && a.content.at(
                "ciphertext"@,
            ) == JsonView::Str(c) && a.content.at("algorithm"@) == JsonView::Str("p.mls.1"@)))
            &&& held == Some(false) && t.is_encrypted(send.room_id) ==> end is HeldBack
            &&& held == Some(false) && !t.is_encrypted(send.room_id) ==> (end matches Fate::Tried(a)
                && a.send == send && a.kind == "p.room.message"@ && a.content.at("body"@)
                == JsonView::Str(send.body) && a.content.at("msgtype"@) == JsonView::Str("p.text"@))
        }),
{
    reveal_strlit("algorithm");
    reveal_strlit("ciphertext");
    reveal_strlit("body");
    reveal_strlit("msgtype");
    assert("algorithm"@.len() == 9 && "ciphertext"@.len() == 10);
    assert("body"@.len() == 4 && "msgtype"@.len() == 7);
    reveal_with_fuel(crate::json::find_member, 3);
    let plain = crate::store::outbox::text_content(send.body)->Object_0;
    assert(plain.drop_first()[0] == plain[1]);
    if let Some(c) = (answers.ciphertext)(send) {
        let secret = encrypted_content(c)->Object_0;
        assert(secret.drop_first()[0] == secret[1]);
    }
}

/// What becomes of a message is settled as the answer says: one that the server took is
/// acknowledged under the id that the server gave it; one that was refused, and one that
/// the engine cannot deal with, is marked as failed; and nothing is settled where the
/// server was not reached, or before it was asked.
pub proof fn settling_follows_the_answer(
    v: FlushView,
    t: Tables,
    send: PendingView,
    event_id: Seq<char>,
    e: ApiErrorView,
    ciphertext: Seq<char>,
)
    ensures
        !t.resolve_fault(send.txn_id) ==> flush_step(
            v,
            t,
            FlushEventView::Sent(send, Ok(event_id)),
        ).tables == t.resolved(send.txn_id, event_id),
        t.resolve_fault(send.txn_id) ==> flush_step(
            v,
            t,
            FlushEventView::Sent(send, Ok(event_id)),
        ).tables == t && flush_step(v, t, FlushEventView::Sent(send, Ok(event_id))).action is Err,
        e is Network ==> flush_step(v, t, FlushEventView::Sent(send, Err(e))).tables == t,
        !(e is Network) ==> flush_step(v, t, FlushEventView::Sent(send, Err(e))).tables == t.failed(
            send.txn_id,
        ),
        flush_step(v, t, FlushEventView::Group(send, None)).tables == t.failed(send.txn_id),
        flush_step(v, t, FlushEventView::Encrypted(send, None)).tables == t.failed(send.txn_id),
        flush_step(v, t, FlushEventView::Begin).tables == t,
        flush_step(v, t, FlushEventView::Group(send, Some(true))).tables == t,
        flush_step(v, t, FlushEventView::Group(send, Some(false))).tables == t,
        flush_step(v, t, FlushEventView::Encrypted(send, Some(ciphertext))).tables == t,
        flush_step(v, t, FlushEventView::Group(send, Some(true))).action == Ok::<
            FlushActionView,
            CoreErrorView,
        >(FlushActionView::Encrypt(send)),
        flush_step(v, t, FlushEventView::Encrypted(send, Some(ciphertext))).action matches Ok(
            FlushActionView::Send(s, kind, content),
        ) && s == send && kind == "p.room.encrypted"@ && content == encrypted_content(ciphertext),
{
}

/// What goes to the server in the course of a pass is of messages that were queued, each
/// in the form that its room asks for, in the order of the queue.
pub proof fn attempts_are_of_queued_messages(
    items: Seq<PendingView>,
    has_engine: bool,
    t: Tables,
    answers: FlushAnswers,
    k: int,
)
    requires
        0 <= k < attempts_of(items, has_engine, t, answers).len(),
    ensures
        exists|i: int|
            0 <= i < items.len() && fate(#[trigger] items[i], has_engine, t, answers)
                == Fate::Tried(attempts_of(items, has_engine, t, answers)[k]),
{
    let sent = |send: PendingView| is_tried(send, has_engine, t, answers);
    let tried = items.filter(sent);
    assert(tried.contains(tried[k]));
    items.lemma_filter_contains_rev(sent, tried[k]);
    items.lemma_filter_pred(sent, k);
    let i = choose|i: int| 0 <= i < items.len() && items[i] == tried[k];
    assert(is_tried(items[i], has_engine, t, answers));
}

/// A pass takes the messages one by one: the first of those that are left is next, a
/// message that was settled is reported as a change, and a server that is not reached ends
/// the pass at once.
pub proof fn pass_takes_one_message_at_a_time(
    v: FlushView,
    t: Tables,
    send: PendingView,
    event_id: Seq<char>,
    reason: Seq<char>,
    e: ApiErrorView,
)
    ensures
        v.rest.len() == 0 ==> flush_step(v, t, FlushEventView::Begin).action == Ok::<
            FlushActionView,
            CoreErrorView,
        >(FlushActionView::Done(v.changed)),
        v.rest.len() > 0 && v.has_engine ==> flush_step(v, t, FlushEventView::Begin).action == Ok::<
            FlushActionView,
            CoreErrorView,
        >(FlushActionView::CheckGroup(v.rest[0])) && flush_step(
            v,
            t,
            FlushEventView::Begin,
        ).pass.rest == v.rest.skip(1),
        v.rest.len() > 0 && !v.has_engine && !t.is_encrypted(v.rest[0].room_id) ==> (flush_step(
            v,
            t,
            FlushEventView::Begin,
        ).action matches Ok(FlushActionView::Send(s, kind, content)) && s == v.rest[0] && kind
            == "p.room.message"@ && content.at("body"@) == JsonView::Str(s.body) && flush_step(
            v,
            t,
            FlushEventView::Begin,
        ).pass.rest == v.rest.skip(1)),
        v.rest.len() == 1 && !v.has_engine && t.is_encrypted(v.rest[0].room_id) ==> flush_step(
            v,
            t,
            FlushEventView::Begin,
        ).action == Ok::<FlushActionView, CoreErrorView>(FlushActionView::Done(v.changed)),
        t.is_encrypted(send.room_id) ==> flush_step(v, t, FlushEventView::Group(send, Some(false)))
            == flush_step(v, t, FlushEventView::Begin),
        !t.resolve_fault(send.txn_id) ==> flush_step(
            v,
            t,
            FlushEventView::Sent(send, Ok(event_id)),
        ).pass.changed,
        flush_step(
            v,
            t,
            FlushEventView::Sent(send, Err(ApiErrorView::Network(reason))),
        ).action == Ok::<FlushActionView, CoreErrorView>(FlushActionView::Done(v.changed)),
        flush_step(
            v,
            t,
            FlushEventView::Sent(send, Err(ApiErrorView::Network(reason))),
        ).pass.rest.len() == 0,
        !(e is Network) ==> flush_step(v, t, FlushEventView::Sent(send, Err(e))).pass.changed,
        flush_step(v, t, FlushEventView::Group(send, None)).pass.changed,
        flush_step(v, t, FlushEventView::Encrypted(send, None)).pass.changed,
        flush_step(v, t, FlushEventView::Begin).pass.changed == v.changed,
        flush_step(v, t, FlushEventView::Begin).pass.has_engine == v.has_engine,
{
    lemma_advance_keeps(v, t);
    lemma_advance_keeps(FlushView { changed: true, ..v }, t.failed(send.txn_id));
    lemma_advance_keeps(FlushView { changed: true, ..v }, t.resolved(send.txn_id, event_id));
    reveal_with_fuel(advance, 2);
    reveal_strlit("body");
    reveal_strlit("msgtype");
    assert("body"@.len() == 4 && "msgtype"@.len() == 7);
    reveal_with_fuel(crate::json::find_member, 3);
}

proof fn lemma_advance_keeps(v: FlushView, t: Tables)
    ensures
        advance(v, t).0.changed == v.changed,
        advance(v, t).0.has_engine == v.has_engine,
        advance(v, t).1 matches FlushActionView::Done(changed) ==> changed == v.changed,
    decreases v.rest.len(),
{
    if v.rest.len() > 0 {
        lemma_advance_keeps(FlushView { rest: v.rest.drop_first(), ..v }, t);
    }
}

/// A pass reports a change exactly where it settled a message, and its attempts are those
/// that it made.
pub proof fn pass_reports_what_it_did(
    items: Seq<PendingView>,
    has_engine: bool,
    t: Tables,
    answers: FlushAnswers,
)
    ensures
        ({
            let d = deliver(items, has_engine, t, answers);
            let told = reported(d, false);
            &&& d.fault is None ==> told.result == Ok::<bool, CoreErrorView>(d.settled.len() > 0)
            &&& d.fault matches Some(e) ==> told.result == Err::<bool, CoreErrorView>(e)
            &&& told.tables == d.tables
            &&& told.attempts == d.attempts
        }),
{
}

} // verus!
