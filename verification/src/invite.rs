//! Inviting a user to a room, and into its encryption group.

use vstd::prelude::*;
use vstd::string::*;

use crate::api::{Api, ApiError, ApiErrorView, ApiView, HttpRequest, RequestView};
use crate::e2ee::AddOutcome;
use crate::error::{CoreError, CoreErrorView};
use crate::json::{object1, object2, Json, JsonView};
use crate::keys::{
    claim_all_devices, ClaimAction, ClaimActionView, ClaimEvent, ClaimEventView, ClaimPass, ClaimView,
    ClaimedKeyPackage, ClaimedView,
};
use crate::reply::text_of;
use crate::text::{decimal_u64, join2};

verus! {

/// The id of an attempt to send something that is not queued. `n` is a running
/// number.
pub fn next_txn_id(n: u64) -> (r: String)
    ensures
        r@ == txn_id(n as nat),
{
    let number = decimal_u64(n);
    join2("mob-td-", number.as_str())
}

/// The id of an attempt to send something that is not queued.
pub open spec fn txn_id(n: nat) -> Seq<char> {
    "mob-td-"@ + crate::text::decimal(n)
}

/// Two attempts have the same id only where their numbers are the same.
pub proof fn txn_ids_are_distinct(m: nat, n: nat)
    requires
        txn_id(m) == txn_id(n),
    ensures
        m == n,
{
    reveal_strlit("mob-td-");
    assert(txn_id(m).skip(7) =~= crate::text::decimal(m));
    assert(txn_id(n).skip(7) =~= crate::text::decimal(n));
    crate::text::decimal_is_injective(m, n);
}

/// Inviting a user to a room.
pub struct InvitePass {
    room_id: String,
    user_id: String,
    has_engine: bool,
    claim: ClaimPass,
    packages: Vec<ClaimedKeyPackage>,
}

/// What an [`InvitePass`] holds.
#[verifier::ext_equal]
pub struct InviteView {
    pub room_id: Seq<char>,
    pub user_id: Seq<char>,
    pub has_engine: bool,
    pub claim: ClaimView,
    pub packages: Seq<ClaimedView>,
}

impl View for InvitePass {
    type V = InviteView;

    closed spec fn view(&self) -> InviteView {
        InviteView {
            room_id: self.room_id@,
            user_id: self.user_id@,
            has_engine: self.has_engine,
            claim: self.claim@,
            packages: crate::keys::claimed_views(self.packages@),
        }
    }
}

/// What has happened in the course of an invitation. Where something is sent
/// next, `n` is the running number of the attempt.
pub enum InviteEvent {
    /// The server was asked to invite the user.
    Invited(Result<Json, ApiError>),
    /// The engine was asked whether it holds the room's group.
    Group(Result<bool, CoreError>),
    /// Key packages are being claimed.
    Claiming(ClaimEvent),
    /// The engine was asked to add a device.
    Added { device_id: String, outcome: Result<AddOutcome, CoreError>, n: u64 },
    /// The welcome was sent to the device. The commit is still to be sent.
    Shipped { commit: String, reply: Result<Json, ApiError>, n: u64 },
    /// The commit was sent to the room.
    Broadcast(Result<Json, ApiError>),
}

/// What is to be done next in the course of an invitation.
pub enum InviteAction {
    /// Ask the engine whether it holds the room's group.
    CheckGroup,
    /// Ask the server for the user's devices.
    Query(HttpRequest),
    /// Ask the server for a key package of a device.
    Claim(String, HttpRequest),
    /// Have the engine add a device to the room's group.
    Add(ClaimedKeyPackage),
    /// Send the welcome to the device.
    Ship { request: HttpRequest, commit: String },
    /// Send the commit to the room.
    Broadcast(HttpRequest),
    /// The user is invited.
    Done,
}

/// What an [`InviteEvent`] says.
pub enum InviteEventView {
    Invited(Result<JsonView, ApiErrorView>),
    Group(Result<bool, CoreErrorView>),
    Claiming(ClaimEventView),
    Added(Seq<char>, Result<(Seq<char>, Seq<char>), CoreErrorView>, u64),
    Shipped(Seq<char>, Result<JsonView, ApiErrorView>, u64),
    Broadcast(Result<JsonView, ApiErrorView>),
}

/// What an [`InviteAction`] says.
pub enum InviteActionView {
    CheckGroup,
    Query(RequestView),
    Claim(Seq<char>, RequestView),
    Add(ClaimedView),
    Ship(RequestView, Seq<char>),
    Broadcast(RequestView),
    Done,
}

impl View for InviteEvent {
    type V = InviteEventView;

    open spec fn view(&self) -> InviteEventView {
        match self {
            InviteEvent::Invited(r) => InviteEventView::Invited(crate::api::api_outcome(*r)),
            InviteEvent::Group(r) => InviteEventView::Group(crate::sync::change_outcome(*r)),
            InviteEvent::Claiming(e) => InviteEventView::Claiming(e@),
            InviteEvent::Added { device_id, outcome, n } => InviteEventView::Added(
                device_id@,
                match outcome {
                    Ok(o) => Ok((o.welcome@, o.commit@)),
                    Err(e) => Err(e@),
                },
                *n,
            ),
            InviteEvent::Shipped { commit, reply, n } => InviteEventView::Shipped(
                commit@,
                crate::api::api_outcome(*reply),
                *n,
            ),
            InviteEvent::Broadcast(r) => InviteEventView::Broadcast(crate::api::api_outcome(*r)),
        }
    }
}

impl View for InviteAction {
    type V = InviteActionView;

    open spec fn view(&self) -> InviteActionView {
        match self {
            InviteAction::CheckGroup => InviteActionView::CheckGroup,
            InviteAction::Query(request) => InviteActionView::Query(request@),
            InviteAction::Claim(device, request) => InviteActionView::Claim(device@, request@),
            InviteAction::Add(package) => InviteActionView::Add(package@),
            InviteAction::Ship { request, commit } => InviteActionView::Ship(request@, commit@),
            InviteAction::Broadcast(request) => InviteActionView::Broadcast(request@),
            InviteAction::Done => InviteActionView::Done,
        }
    }
}

/// The message that carries a welcome to one device of a user.
pub open spec fn welcome_message(
    user: Seq<char>,
    device: Seq<char>,
    welcome: Seq<char>,
    room: Seq<char>,
) -> JsonView {
    JsonView::Object(
        seq![
            (
                user,
                JsonView::Object(
                    seq![
                        (
                            device,
                            JsonView::Object(
                                seq![
                                    ("welcome"@, JsonView::Str(welcome)),
                                    ("room_id"@, JsonView::Str(room)),
                                ],
                            ),
                        ),
                    ],
                ),
            ),
        ],
    )
}

/// The request that sends a welcome to a device.
pub open spec fn ship_request(
    api: ApiView,
    v: InviteView,
    device: Seq<char>,
    welcome: Seq<char>,
    n: u64,
) -> RequestView {
    api.put(
        "/_pigeon/client/v1/sendToDevice/"@ + "p.mls.welcome"@ + "/"@ + txn_id(n as nat),
        JsonView::Object(
            seq![("messages"@, welcome_message(v.user_id, device, welcome, v.room_id))],
        ),
    )
}

/// The request that sends a commit to a room.
pub open spec fn broadcast_request(
    api: ApiView,
    room: Seq<char>,
    commit: Seq<char>,
    n: u64,
) -> RequestView {
    api.put(
        "/_pigeon/client/v1/rooms/"@ + room + "/send/"@ + "p.mls.commit"@ + "/"@ + txn_id(n as nat),
        JsonView::Object(seq![("commit"@, JsonView::Str(commit))]),
    )
}

/// The invitation goes on with the next device.
pub open spec fn next_device(v: InviteView) -> (InviteView, InviteActionView) {
    if v.packages.len() == 0 {
        (v, InviteActionView::Done)
    } else {
        (
            InviteView { packages: v.packages.drop_first(), ..v },
            InviteActionView::Add(v.packages[0]),
        )
    }
}

/// The invitation goes on after a step of claiming.
pub open spec fn after_claim(
    v: InviteView,
    claim: ClaimView,
    action: Result<ClaimActionView, CoreErrorView>,
) -> (InviteView, Result<InviteActionView, CoreErrorView>) {
    let with_claim = InviteView { claim, ..v };
    match action {
        Err(e) => (with_claim, Err(e)),
        Ok(ClaimActionView::Claim(device, request)) => (
            with_claim,
            Ok(InviteActionView::Claim(device, request)),
        ),
        Ok(ClaimActionView::Done(packages)) => {
            let (after, next) = next_device(InviteView { packages, ..with_claim });
            (after, Ok(next))
        },
    }
}

/// One step of an invitation.
///
/// The server invites the user first, by which the user gets to see the room.
/// Where this device holds the room's group, each of the user's devices is then
/// added to it: the welcome goes to the device, and the commit to the room, so
/// that those who are in the group follow. A failure ends the invitation, but for
/// one to send the commit: the device is in the group by then.
pub open spec fn invite_step(v: InviteView, api: ApiView, event: InviteEventView) -> (
    InviteView,
    Result<InviteActionView, CoreErrorView>,
) {
    match event {
        InviteEventView::Invited(Err(e)) => (v, Err(crate::error::of_api(e))),
        InviteEventView::Invited(Ok(body)) => match crate::reply::required_text(
            body,
            "event_id"@,
            crate::reply::lacks(),
        ) {
            Err(e) => (v, Err(crate::error::of_api(e))),
            Ok(_) => (
                v,
                Ok(
                    if v.has_engine {
                        InviteActionView::CheckGroup
                    } else {
                        InviteActionView::Done
                    },
                ),
            ),
        },
        InviteEventView::Group(Err(e)) => (v, Err(e)),
        InviteEventView::Group(Ok(false)) => (v, Ok(InviteActionView::Done)),
        InviteEventView::Group(Ok(true)) => (
            InviteView {
                claim: ClaimView { user_id: v.user_id, rest: seq![], claimed: seq![] },
                ..v
            },
            Ok(
                InviteActionView::Query(crate::keys::devices_request(api, v.user_id)),
            ),
        ),
        InviteEventView::Claiming(e) => {
            let (claim, action) = crate::keys::claim_step(v.claim, api, e);
            after_claim(v, claim, action)
        },
        InviteEventView::Added(_, Err(e), _) => (v, Err(e)),
        InviteEventView::Added(device, Ok((welcome, commit)), n) => (
            v,
            Ok(InviteActionView::Ship(ship_request(api, v, device, welcome, n), commit)),
        ),
        InviteEventView::Shipped(_, Err(e), _) => (v, Err(crate::error::of_api(e))),
        InviteEventView::Shipped(commit, Ok(_), n) => (
            v,
            Ok(InviteActionView::Broadcast(broadcast_request(api, v.room_id, commit, n))),
        ),
        InviteEventView::Broadcast(_) => {
            let (after, next) = next_device(v);
            (after, Ok(next))
        },
    }
}

/// Every welcome that was sent is followed by its commit: what follows a welcome
/// is either a failure or the commit of the same device, sent to the room.
pub proof fn welcome_is_followed_by_its_commit(
    v: InviteView,
    api: ApiView,
    commit: Seq<char>,
    body: JsonView,
    n: u64,
)
    ensures
        invite_step(v, api, InviteEventView::Shipped(commit, Ok(body), n)).1 == Ok::<
            InviteActionView,
            CoreErrorView,
        >(InviteActionView::Broadcast(broadcast_request(api, v.room_id, commit, n))),
{
}

/// In a room whose group is not held, or without an engine, an invitation is the
/// server's alone.
pub proof fn plain_room_needs_no_keys(v: InviteView, api: ApiView, body: JsonView)
    requires
        body.at("event_id"@).as_str() is Some,
    ensures
        !v.has_engine ==> invite_step(v, api, InviteEventView::Invited(Ok(body))).1 == Ok::<
            InviteActionView,
            CoreErrorView,
        >(InviteActionView::Done),
        invite_step(v, api, InviteEventView::Group(Ok(false))).1 == Ok::<
            InviteActionView,
            CoreErrorView,
        >(InviteActionView::Done),
{
}

/// What the engine and the server have to say in the course of an invitation, to
/// what is asked of them under a given number: whether the room's group is held, the
/// welcome and the commit by which a device is added, the server's replies, and the
/// running numbers of the attempts to send.
pub struct InviteAnswers {
    pub held: Result<bool, CoreErrorView>,
    pub added: spec_fn(nat, ClaimedView) -> Result<(Seq<char>, Seq<char>), CoreErrorView>,
    pub server: spec_fn(nat, RequestView) -> Result<JsonView, ApiErrorView>,
    pub number: spec_fn(nat) -> u64,
}

/// What an invitation comes to: how it ends, and which welcomes and commits were
/// sent, in order.
#[verifier::ext_equal]
pub struct InviteOutcome {
    pub result: Result<(), CoreErrorView>,
    pub sent: Seq<RequestView>,
}

/// How far an invitation still has to go: by its stage, by the devices that are left
/// in it, and by what is left to do for one.
pub open spec fn stages_left(event: InviteEventView) -> int {
    match event {
        InviteEventView::Invited(_) => 4,
        InviteEventView::Group(_) => 3,
        InviteEventView::Claiming(ClaimEventView::Queried(_)) => 2,
        InviteEventView::Claiming(ClaimEventView::Claimed(_, _)) => 1,
        _ => 0,
    }
}

/// The devices that are left in a stage.
pub open spec fn devices_left(v: InviteView, event: InviteEventView) -> nat {
    match event {
        InviteEventView::Claiming(_) => v.claim.rest.len(),
        _ => v.packages.len(),
    }
}

/// What is left to do for one device.
pub open spec fn steps_left(event: InviteEventView) -> int {
    match event {
        InviteEventView::Added(_, _, _) => 2,
        InviteEventView::Shipped(_, _, _) => 1,
        _ => 0,
    }
}

/// An invitation from an event to its end, step by step, with the given answers.
pub open spec fn run_invite(
    v: InviteView,
    api: ApiView,
    event: InviteEventView,
    answers: InviteAnswers,
    at: nat,
) -> InviteOutcome
    decreases stages_left(event), devices_left(v, event), steps_left(event),
{
    let (after, action) = invite_step(v, api, event);
    match action {
        Err(e) => InviteOutcome { result: Err(e), sent: seq![] },
        Ok(InviteActionView::Done) => InviteOutcome { result: Ok(()), sent: seq![] },
        Ok(InviteActionView::CheckGroup) => run_invite(
            after,
            api,
            InviteEventView::Group(answers.held),
            answers,
            at,
        ),
        Ok(InviteActionView::Query(request)) => run_invite(
            after,
            api,
            InviteEventView::Claiming(ClaimEventView::Queried((answers.server)(at, request))),
            answers,
            at + 1,
        ),
        Ok(InviteActionView::Claim(device, request)) => run_invite(
            after,
            api,
            InviteEventView::Claiming(
                ClaimEventView::Claimed(device, (answers.server)(at, request)),
            ),
            answers,
            at + 1,
        ),
        Ok(InviteActionView::Add(package)) => run_invite(
            after,
            api,
            InviteEventView::Added(
                package.device_id,
                (answers.added)(at, package),
                (answers.number)(at),
            ),
            answers,
            at + 1,
        ),
        Ok(InviteActionView::Ship(request, commit)) => {
            let rest = run_invite(
                after,
                api,
                InviteEventView::Shipped(
                    commit,
                    (answers.server)(at, request),
                    (answers.number)(at),
                ),
                answers,
                at + 1,
            );
            InviteOutcome { sent: seq![request] + rest.sent, ..rest }
        },
        Ok(InviteActionView::Broadcast(request)) => {
            let rest = run_invite(
                after,
                api,
                InviteEventView::Broadcast((answers.server)(at, request)),
                answers,
                at + 1,
            );
            InviteOutcome { sent: seq![request] + rest.sent, ..rest }
        },
    }
}

/// Adding a list of devices, one by one: the engine adds the device by its package,
/// the welcome goes to the device, and the commit to the room. A device that cannot
/// be added, or a welcome that cannot be sent, is the end; a commit that cannot be
/// sent is not.
pub open spec fn add_all(
    v: InviteView,
    packages: Seq<ClaimedView>,
    api: ApiView,
    answers: InviteAnswers,
    at: nat,
) -> InviteOutcome
    decreases packages.len(),
{
    if packages.len() == 0 {
        InviteOutcome { result: Ok(()), sent: seq![] }
    } else {
        match (answers.added)(at, packages[0]) {
            Err(e) => InviteOutcome { result: Err(e), sent: seq![] },
            Ok((welcome, commit)) => {
                let ship = ship_request(
                    api,
                    v,
                    packages[0].device_id,
                    welcome,
                    (answers.number)(at),
                );
                match (answers.server)(at + 1, ship) {
                    Err(e) => InviteOutcome {
                        result: Err(crate::error::of_api(e)),
                        sent: seq![ship],
                    },
                    Ok(_) => {
                        let broadcast = broadcast_request(
                            api,
                            v.room_id,
                            commit,
                            (answers.number)(at + 1),
                        );
                        let rest = add_all(v, packages.drop_first(), api, answers, at + 3);
                        InviteOutcome { sent: seq![ship, broadcast] + rest.sent, ..rest }
                    },
                }
            },
        }
    }
}

/// An invitation into a group that is held: the user's devices are asked for, a key
/// package is claimed from each, and then each device that gave one is added.
pub open spec fn invite_devices(
    v: InviteView,
    api: ApiView,
    answers: InviteAnswers,
    at: nat,
) -> InviteOutcome {
    match (answers.server)(at, crate::keys::devices_request(api, v.user_id)) {
        Err(e) => InviteOutcome { result: Err(crate::error::of_api(e)), sent: seq![] },
        Ok(body) => {
            let devices = crate::reply::device_ids(body, v.user_id);
            match crate::keys::claimed_from(v.user_id, devices, api, answers.server, at + 1) {
                Err(e) => InviteOutcome { result: Err(e), sent: seq![] },
                Ok(packages) => add_all(v, packages, api, answers, at + 1 + devices.len()),
            }
        },
    }
}

proof fn lemma_runs_alike(
    v: InviteView,
    w: InviteView,
    api: ApiView,
    event: InviteEventView,
    event2: InviteEventView,
    answers: InviteAnswers,
    at: nat,
)
    requires
        invite_step(v, api, event) == invite_step(w, api, event2),
    ensures
        run_invite(v, api, event, answers, at) == run_invite(w, api, event2, answers, at),
{
}

proof fn lemma_adds_alike(
    v: InviteView,
    w: InviteView,
    packages: Seq<ClaimedView>,
    api: ApiView,
    answers: InviteAnswers,
    at: nat,
)
    requires
        v.user_id == w.user_id,
        v.room_id == w.room_id,
    ensures
        add_all(v, packages, api, answers, at) == add_all(w, packages, api, answers, at),
    decreases packages.len(),
{
    if packages.len() > 0 {
        lemma_adds_alike(v, w, packages.drop_first(), api, answers, at + 3);
    }
}

/// The end of an invitation, from the first of the devices that are left.
proof fn lemma_run_adds_all(
    v: InviteView,
    api: ApiView,
    reply: Result<JsonView, ApiErrorView>,
    answers: InviteAnswers,
    at: nat,
)
    ensures
        run_invite(v, api, InviteEventView::Broadcast(reply), answers, at) == add_all(
            v,
            v.packages,
            api,
            answers,
            at,
        ),
    decreases v.packages.len(),
{
    let broadcast = InviteEventView::Broadcast(reply);
    if v.packages.len() > 0 {
        let package = v.packages[0];
        let after = InviteView { packages: v.packages.drop_first(), ..v };
        let outcome = (answers.added)(at, package);
        let added = InviteEventView::Added(package.device_id, outcome, (answers.number)(at));
        assert(run_invite(v, api, broadcast, answers, at) == run_invite(
            after,
            api,
            added,
            answers,
            at + 1,
        ));
        if let Ok((welcome, commit)) = outcome {
            let ship = ship_request(api, v, package.device_id, welcome, (answers.number)(at));
            let shipped_reply = (answers.server)(at + 1, ship);
            let shipped = InviteEventView::Shipped(
                commit,
                shipped_reply,
                (answers.number)(at + 1),
            );
            let run_shipped = run_invite(after, api, shipped, answers, at + 2);
            assert(run_invite(after, api, added, answers, at + 1) == InviteOutcome {
                sent: seq![ship] + run_shipped.sent,
                ..run_shipped
            });
            if shipped_reply is Ok {
                let request = broadcast_request(api, v.room_id, commit, (answers.number)(at + 1));
                let last = (answers.server)(at + 2, request);
                lemma_run_adds_all(after, api, last, answers, at + 3);
                lemma_adds_alike(v, after, after.packages, api, answers, at + 3);
                let rest = run_invite(
                    after,
                    api,
                    InviteEventView::Broadcast(last),
                    answers,
                    at + 3,
                );
                assert(run_shipped == InviteOutcome { sent: seq![request] + rest.sent, ..rest });
                assert(seq![ship] + (seq![request] + rest.sent) =~= seq![ship, request]
                    + rest.sent);
            } else {
                assert(seq![ship] + seq![] =~= seq![ship]);
            }
        }
    }
}

/// The claiming of an invitation, from the first of the devices that are left.
proof fn lemma_run_claims_all(
    v: InviteView,
    api: ApiView,
    event: ClaimEventView,
    claim: ClaimView,
    answers: InviteAnswers,
    at: nat,
)
    requires
        claim.user_id == v.user_id,
        crate::keys::claim_step(v.claim, api, event).0 == crate::keys::next_claim(claim, api).0,
        crate::keys::claim_step(v.claim, api, event).1 == Ok::<ClaimActionView, CoreErrorView>(
            crate::keys::next_claim(claim, api).1,
        ),
    ensures
        run_invite(v, api, InviteEventView::Claiming(event), answers, at) == (
        match crate::keys::claimed_from(v.user_id, claim.rest, api, answers.server, at) {
            Err(e) => InviteOutcome { result: Err(e), sent: seq![] },
            Ok(packages) => add_all(
                v,
                claim.claimed + packages,
                api,
                answers,
                at + claim.rest.len(),
            ),
        }),
    decreases claim.rest.len(),
{
    let now = InviteEventView::Claiming(event);
    if claim.rest.len() == 0 {
        let done = InviteView {
            claim: ClaimView { claimed: seq![], ..claim },
            packages: claim.claimed,
            ..v
        };
        let any = Ok::<JsonView, ApiErrorView>(JsonView::Null);
        lemma_runs_alike(v, done, api, now, InviteEventView::Broadcast(any), answers, at);
        lemma_run_adds_all(done, api, any, answers, at);
        lemma_adds_alike(v, done, claim.claimed, api, answers, at);
        assert(claim.claimed + seq![] =~= claim.claimed);
    } else {
        let device = claim.rest[0];
        let rest = claim.rest.drop_first();
        let request = crate::keys::claim_request(api, v.user_id, device);
        let reply = (answers.server)(at, request);
        let asked = ClaimEventView::Claimed(device, reply);
        let after = InviteView { claim: ClaimView { rest, ..claim }, ..v };
        assert(run_invite(v, api, now, answers, at) == run_invite(
            after,
            api,
            InviteEventView::Claiming(asked),
            answers,
            at + 1,
        ));
        if let Ok(body) = reply {
            let claimed = match crate::reply::claimed_package(body, v.user_id, device) {
                Some(package) => claim.claimed.push(
                    ClaimedView { device_id: device, key_package_b64: package },
                ),
                None => claim.claimed,
            };
            let next = ClaimView { rest, claimed, ..claim };
            lemma_run_claims_all(after, api, asked, next, answers, at + 1);
            if let Ok(packages) = crate::keys::claimed_from(
                v.user_id,
                rest,
                api,
                answers.server,
                at + 1,
            ) {
                let whole = crate::keys::claimed_from(
                    v.user_id,
                    claim.rest,
                    api,
                    answers.server,
                    at,
                )->Ok_0;
                assert(claimed + packages =~= claim.claimed + whole);
                lemma_adds_alike(
                    v,
                    after,
                    claimed + packages,
                    api,
                    answers,
                    at + claim.rest.len(),
                );
            }
        }
    }
}

/// An invitation, as a whole: where the server does not invite the user, the
/// invitation fails and nothing is sent; in a room whose group is not held, or
/// without an engine, it is done with that; and else every device that gave a key
/// package is added.
pub proof fn invitation_adds_the_devices(
    v: InviteView,
    api: ApiView,
    reply: Result<JsonView, ApiErrorView>,
    answers: InviteAnswers,
    at: nat,
)
    ensures
        ({
            let run = run_invite(v, api, InviteEventView::Invited(reply), answers, at);
            let invited = match reply {
                Err(e) => Err(e),
                Ok(body) => crate::reply::required_text(
                    body,
                    "event_id"@,
                    crate::reply::lacks(),
                ),
            };
            match invited {
                Err(e) => run == (InviteOutcome {
                    result: Err(crate::error::of_api(e)),
                    sent: seq![],
                }),
                Ok(_) => if !v.has_engine {
                    run == (InviteOutcome { result: Ok(()), sent: seq![] })
                } else {
                    match answers.held {
                        Err(e) => run == (InviteOutcome { result: Err(e), sent: seq![] }),
                        Ok(false) => run == (InviteOutcome { result: Ok(()), sent: seq![] }),
                        Ok(true) => run == invite_devices(v, api, answers, at),
                    }
                },
            }
        }),
{
    let invited = InviteEventView::Invited(reply);
    let group = InviteEventView::Group(answers.held);
    if let Ok(body) = reply {
        if body.at("event_id"@).as_str() is Some && v.has_engine {
            assert(run_invite(v, api, invited, answers, at) == run_invite(
                v,
                api,
                group,
                answers,
                at,
            ));
            if answers.held == Ok::<bool, CoreErrorView>(true) {
                let claim = ClaimView { user_id: v.user_id, rest: seq![], claimed: seq![] };
                let after = InviteView { claim, ..v };
                let asked = (answers.server)(at, crate::keys::devices_request(api, v.user_id));
                let queried = ClaimEventView::Queried(asked);
                assert(run_invite(v, api, group, answers, at) == run_invite(
                    after,
                    api,
                    InviteEventView::Claiming(queried),
                    answers,
                    at + 1,
                ));
                if let Ok(found) = asked {
                    let devices = crate::reply::device_ids(found, v.user_id);
                    let next = ClaimView { rest: devices, ..claim };
                    lemma_run_claims_all(after, api, queried, next, answers, at + 1);
                    if let Ok(packages) = crate::keys::claimed_from(
                        v.user_id,
                        devices,
                        api,
                        answers.server,
                        at + 1,
                    ) {
                        assert(seq![] + packages =~= packages);
                        lemma_adds_alike(
                            v,
                            after,
                            packages,
                            api,
                            answers,
                            at + 1 + devices.len(),
                        );
                    }
                }
            }
        }
    }
}

/// Whether a request is the welcome to the device of a package, made from that
/// package.
pub open spec fn is_welcome_of(
    v: InviteView,
    api: ApiView,
    answers: InviteAnswers,
    at: nat,
    package: ClaimedView,
    request: RequestView,
) -> bool {
    match (answers.added)(at, package) {
        Ok((welcome, _)) => request == ship_request(
            api,
            v,
            package.device_id,
            welcome,
            (answers.number)(at),
        ),
        Err(_) => false,
    }
}

/// Whether a request is the commit of the device of a package.
pub open spec fn is_commit_of(
    v: InviteView,
    api: ApiView,
    answers: InviteAnswers,
    at: nat,
    package: ClaimedView,
    request: RequestView,
) -> bool {
    match (answers.added)(at, package) {
        Ok((_, commit)) => request == broadcast_request(
            api,
            v.room_id,
            commit,
            (answers.number)(at + 1),
        ),
        Err(_) => false,
    }
}

/// Each claimed device is sent exactly one welcome, made from its own package, and
/// behind that its commit is sent to the room. Where no package was claimed nothing
/// is sent. An invitation that fails on the way has sent the first part of that.
pub proof fn each_claimed_device_gets_one_welcome(
    v: InviteView,
    packages: Seq<ClaimedView>,
    api: ApiView,
    answers: InviteAnswers,
    at: nat,
)
    ensures
        ({
            let sent = add_all(v, packages, api, answers, at).sent;
            &&& packages.len() == 0 ==> sent.len() == 0
            &&& sent.len() <= 2 * packages.len()
            &&& add_all(v, packages, api, answers, at).result is Ok <==> sent.len() == 2
                * packages.len()
            &&& forall|i: int|
                0 <= 2 * i < sent.len() ==> is_welcome_of(
                    v,
                    api,
                    answers,
                    (at + 3 * i) as nat,
                    #[trigger] packages[i],
                    sent[2 * i],
                )
            &&& forall|i: int|
                0 <= 2 * i + 1 < sent.len() ==> is_commit_of(
                    v,
                    api,
                    answers,
                    (at + 3 * i) as nat,
                    #[trigger] packages[i],
                    sent[2 * i + 1],
                )
        }),
    decreases packages.len(),
{
    let sent = add_all(v, packages, api, answers, at).sent;
    if packages.len() > 0 && sent.len() > 1 {
        let others = packages.drop_first();
        let rest = add_all(v, others, api, answers, at + 3).sent;
        each_claimed_device_gets_one_welcome(v, others, api, answers, at + 3);
        assert forall|i: int| 0 <= 2 * i < sent.len() implies is_welcome_of(
            v,
            api,
            answers,
            (at + 3 * i) as nat,
            #[trigger] packages[i],
            sent[2 * i],
        ) by {
            if i > 0 {
                assert(others[i - 1] == packages[i]);
                assert(sent[2 * i] == rest[2 * (i - 1)]);
            }
        }
        assert forall|i: int| 0 <= 2 * i + 1 < sent.len() implies is_commit_of(
            v,
            api,
            answers,
            (at + 3 * i) as nat,
            #[trigger] packages[i],
            sent[2 * i + 1],
        ) by {
            if i > 0 {
                assert(others[i - 1] == packages[i]);
                assert(sent[2 * i + 1] == rest[2 * (i - 1) + 1]);
            }
        }
    }
}

/// The devices that are added are those of the invited user: the user's devices are asked
/// for, what is claimed is claimed from them, and where either fails nothing is sent.
pub proof fn invited_devices_are_the_users(
    v: InviteView,
    api: ApiView,
    answers: InviteAnswers,
    at: nat,
    body: JsonView,
    packages: Seq<ClaimedView>,
    members: Seq<(Seq<char>, JsonView)>,
)
    requires
        (answers.server)(at, crate::keys::devices_request(api, v.user_id)) == Ok::<
            JsonView,
            ApiErrorView,
        >(body),
        body.at("device_keys"@).at(v.user_id) == JsonView::Object(members),
    ensures
        ({
            let claimed = crate::keys::claimed_from(
                v.user_id,
                Seq::new(members.len(), |i: int| members[i].0),
                api,
                answers.server,
                at + 1,
            );
            let run = invite_devices(v, api, answers, at);
            &&& claimed == Ok::<Seq<ClaimedView>, CoreErrorView>(packages) ==> run == add_all(
                v,
                packages,
                api,
                answers,
                at + 1 + members.len(),
            )
            &&& claimed is Err ==> run.result is Err && run.result->Err_0 == claimed->Err_0
                && run.sent.len() == 0
        }),
{
    assert(crate::reply::device_ids(body, v.user_id) =~= Seq::new(
        members.len(),
        |i: int| members[i].0,
    ));
}

/// An invitation goes on by what happened, step by step: a device that is to be added is
/// the first of those that are left, the welcome that the engine made goes to that device,
/// and the commit behind it. A failure ends it as it is, but that of a commit does not.
pub proof fn invitation_goes_on_by_what_happened(
    v: InviteView,
    api: ApiView,
    device: Seq<char>,
    welcome: Seq<char>,
    commit: Seq<char>,
    body: JsonView,
    reply: Result<JsonView, ApiErrorView>,
    e: ApiErrorView,
    why: CoreErrorView,
    n: u64,
)
    ensures
        invite_step(v, api, InviteEventView::Invited(Err(e))).1 == Err::<
            InviteActionView,
            CoreErrorView,
        >(crate::error::of_api(e)),
        !(body.at("event_id"@) is Str) ==> invite_step(v, api, InviteEventView::Invited(Ok(body))).1
            is Err,
        body.at("event_id"@) is Str && v.has_engine ==> invite_step(
            v,
            api,
            InviteEventView::Invited(Ok(body)),
        ).1 == Ok::<InviteActionView, CoreErrorView>(InviteActionView::CheckGroup),
        invite_step(v, api, InviteEventView::Group(Err(why))).1 == Err::<
            InviteActionView,
            CoreErrorView,
        >(why),
        invite_step(v, api, InviteEventView::Group(Ok(true))).1 == Ok::<
            InviteActionView,
            CoreErrorView,
        >(InviteActionView::Query(crate::keys::devices_request(api, v.user_id))),
        invite_step(v, api, InviteEventView::Added(device, Err(why), n)).1 == Err::<
            InviteActionView,
            CoreErrorView,
        >(why),
        invite_step(v, api, InviteEventView::Added(device, Ok((welcome, commit)), n)).1 == Ok::<
            InviteActionView,
            CoreErrorView,
        >(InviteActionView::Ship(ship_request(api, v, device, welcome, n), commit)),
        invite_step(v, api, InviteEventView::Shipped(commit, Err(e), n)).1 == Err::<
            InviteActionView,
            CoreErrorView,
        >(crate::error::of_api(e)),
        v.packages.len() > 0 ==> invite_step(v, api, InviteEventView::Broadcast(reply)).1 == Ok::<
            InviteActionView,
            CoreErrorView,
        >(InviteActionView::Add(v.packages[0])) && invite_step(
            v,
            api,
            InviteEventView::Broadcast(reply),
        ).0.packages == v.packages.skip(1),
        v.packages.len() == 0 ==> invite_step(v, api, InviteEventView::Broadcast(reply)).1 == Ok::<
            InviteActionView,
            CoreErrorView,
        >(InviteActionView::Done),
        invite_step(v, api, InviteEventView::Broadcast(reply)).0.user_id == v.user_id,
        invite_step(v, api, InviteEventView::Broadcast(reply)).0.room_id == v.room_id,
{
}

/// A welcome is sent to one device of the invited user, with the room's id, and a commit
/// to the room; each under the id of its own attempt.
pub proof fn welcomes_and_commits_go_where_they_belong(
    api: ApiView,
    v: InviteView,
    device: Seq<char>,
    welcome: Seq<char>,
    commit: Seq<char>,
    n: u64,
)
    ensures
        ({
            let r = ship_request(api, v, device, welcome, n);
            let message = r.body->Json_0.at("messages"@).at(v.user_id).at(device);
            &&& r.verb == crate::api::Verb::Put
            &&& r.bearer == api.token
            &&& r.url == api.base + ("/_pigeon/client/v1/sendToDevice/"@ + "p.mls.welcome"@ + "/"@
                + "mob-td-"@ + crate::text::decimal(n as nat))
            &&& r.body is Json
            &&& message.at("welcome"@) == JsonView::Str(welcome)
            &&& message.at("room_id"@) == JsonView::Str(v.room_id)
            &&& r.body->Json_0.at("messages"@)->Object_0.len() == 1
            &&& r.body->Json_0.at("messages"@).at(v.user_id)->Object_0.len() == 1
        }),
        ({
            let r = broadcast_request(api, v.room_id, commit, n);
            &&& r.verb == crate::api::Verb::Put
            &&& r.bearer == api.token
            &&& r.url == api.base + ("/_pigeon/client/v1/rooms/"@ + v.room_id + "/send/"@
                + "p.mls.commit"@ + "/"@ + "mob-td-"@ + crate::text::decimal(n as nat))
            &&& r.body is Json
            &&& r.body->Json_0.at("commit"@) == JsonView::Str(commit)
        }),
{
    reveal_strlit("welcome");
    reveal_strlit("room_id");
    assert("welcome"@.len() == 7 && "room_id"@.len() == 7);
    assert("welcome"@[0] != "room_id"@[0]);
    reveal_with_fuel(crate::json::find_member, 3);
    let r = ship_request(api, v, device, welcome, n);
    let message = r.body->Json_0.at("messages"@).at(v.user_id).at(device);
    let m = message->Object_0;
    assert(m.drop_first()[0] == m[1]);
    let a = "/_pigeon/client/v1/sendToDevice/"@ + "p.mls.welcome"@ + "/"@;
    let b = "/_pigeon/client/v1/rooms/"@ + v.room_id + "/send/"@ + "p.mls.commit"@ + "/"@;
    let d = crate::text::decimal(n as nat);
    assert(a + ("mob-td-"@ + d) =~= a + "mob-td-"@ + d);
    assert(b + ("mob-td-"@ + d) =~= b + "mob-td-"@ + d);
}

/// Adding devices succeeds where each can be added and each welcome gets through: that a
/// commit does not get through is no failure. Where it fails, it is with what the engine
/// said of a device or the server of a welcome, of the first of which that holds.
pub proof fn adding_fails_only_by_engine_or_welcome(
    v: InviteView,
    packages: Seq<ClaimedView>,
    api: ApiView,
    answers: InviteAnswers,
    at: nat,
    k: int,
)
    requires
        0 <= k <= packages.len(),
        forall|i: int|
            0 <= i < k ==> is_shipped(v, #[trigger] packages[i], api, answers, at + 3 * i),
    ensures
        k == packages.len() ==> add_all(v, packages, api, answers, at).result is Ok,
        k < packages.len() ==> match (answers.added)((at + 3 * k) as nat, packages[k]) {
            Err(e) => add_all(v, packages, api, answers, at).result == Err::<(), CoreErrorView>(e),
            Ok((welcome, _)) => match (answers.server)(
                (at + 3 * k + 1) as nat,
                ship_request(
                    api,
                    v,
                    packages[k].device_id,
                    welcome,
                    (answers.number)((at + 3 * k) as nat),
                ),
            ) {
                Err(e) => add_all(v, packages, api, answers, at).result == Err::<
                    (),
                    CoreErrorView,
                >(crate::error::of_api(e)),
                Ok(_) => true,
            },
        },
    decreases packages.len(),
{
    if packages.len() > 0 && k > 0 {
        let rest = packages.drop_first();
        assert(is_shipped(v, packages[0], api, answers, at + 3 * 0int));
        assert forall|i: int| 0 <= i < k - 1 implies is_shipped(
            v,
            #[trigger] rest[i],
            api,
            answers,
            at + 3 + 3 * i,
        ) by {
            assert(rest[i] == packages[i + 1]);
            assert(is_shipped(v, packages[i + 1], api, answers, at + 3 * (i + 1)));
        }
        adding_fails_only_by_engine_or_welcome(v, rest, api, answers, at + 3, k - 1);
        if k < packages.len() {
            assert(rest[k - 1] == packages[k]);
        }
    }
}

/// Whether a device is added and its welcome gets through, where the engine is asked under
/// the given number.
pub open spec fn is_shipped(
    v: InviteView,
    package: ClaimedView,
    api: ApiView,
    answers: InviteAnswers,
    at: int,
) -> bool {
    match (answers.added)(at as nat, package) {
        Err(_) => false,
        Ok((welcome, _)) => (answers.server)(
            (at + 1) as nat,
            ship_request(api, v, package.device_id, welcome, (answers.number)(at as nat)),
        ) is Ok,
    }
}

impl InvitePass {
    /// Inviting a user to a room, and the request that invites them.
    pub fn new(api: &Api, room_id: &str, user_id: &str, has_engine: bool) -> (r: (
        InvitePass,
        HttpRequest,
    ))
        ensures
            r.0@ == (InviteView {
                room_id: room_id@,
                user_id: user_id@,
                has_engine,
                claim: ClaimView { user_id: user_id@, rest: seq![], claimed: seq![] },
                packages: seq![],
            }),
            r.1@ == api@.post(
                crate::api::room_path(room_id@, "/invite"@),
                JsonView::Object(seq![("user_id"@, JsonView::Str(user_id@))]),
            ),
    {
        let (claim, _query) = claim_all_devices(api, user_id);
        let pass = InvitePass {
            room_id: room_id.to_owned(),
            user_id: user_id.to_owned(),
            has_engine,
            claim,
            packages: Vec::new(),
        };
        assert(pass@.packages =~= seq![]);
        (pass, api.invite(room_id, user_id))
    }

    fn next_device(&mut self) -> (r: InviteAction)
        ensures
            (final(self)@, r@) == next_device(old(self)@),
    {
        if self.packages.len() == 0 {
            return InviteAction::Done;
        }
        let ghost before = self@;
        let package = self.packages.remove(0);
        assert(before.packages[0] == package@);
        assert(self@.packages =~= before.packages.drop_first());
        InviteAction::Add(package)
    }

    /// One step of the invitation.
    pub fn next(&mut self, api: &Api, event: InviteEvent) -> (r: Result<InviteAction, CoreError>)
        ensures
            (final(self)@, crate::error::core_outcome(r)) == invite_step(old(self)@, api@, event@),
    {
        match event {
            InviteEvent::Invited(reply) => match text_of(reply, "event_id") {
                Err(e) => Err(CoreError::of_api(e)),
                Ok(_) => if self.has_engine {
                    Ok(InviteAction::CheckGroup)
                } else {
                    Ok(InviteAction::Done)
                },
            },
            InviteEvent::Group(answer) => match answer {
                Err(e) => Err(e),
                Ok(false) => Ok(InviteAction::Done),
                Ok(true) => {
                    let (claim, request) = claim_all_devices(api, self.user_id.as_str());
                    self.claim = claim;
                    Ok(InviteAction::Query(request))
                },
            },
            InviteEvent::Claiming(e) => match self.claim.next(api, e) {
                Err(e) => Err(e),
                Ok(action) => match action {
                    ClaimAction::Claim(device, request) => Ok(
                        InviteAction::Claim(device, request),
                    ),
                    ClaimAction::Done(packages) => {
                        self.packages = packages;
                        Ok(self.next_device())
                    },
                },
            },
            InviteEvent::Added { device_id, outcome, n } => match outcome {
                Err(e) => Err(e),
                Ok(o) => {
                    let content = object2(
                        "welcome",
                        Json::string(o.welcome.as_str()),
                        "room_id",
                        Json::string(self.room_id.as_str()),
                    );
                    let messages = object1(
                        self.user_id.as_str(),
                        object1(device_id.as_str(), content),
                    );
                    let txn = next_txn_id(n);
                    let request = api.send_to_device("p.mls.welcome", txn.as_str(), messages);
                    Ok(InviteAction::Ship { request, commit: o.commit })
                },
            },
            InviteEvent::Shipped { commit, reply, n } => match reply {
                Err(e) => Err(CoreError::of_api(e)),
                Ok(_) => {
                    let txn = next_txn_id(n);
                    let content = object1("commit", Json::string(commit.as_str()));
                    Ok(
                        InviteAction::Broadcast(
                            api.send_event(
                                self.room_id.as_str(),
                                "p.mls.commit",
                                txn.as_str(),
                                content,
                            ),
                        ),
                    )
                },
            },
            InviteEvent::Broadcast(_) => Ok(self.next_device()),
        }
    }
}

} // verus!
