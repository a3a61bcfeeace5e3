//! The sync loop: what is polled, how a response is folded into the store, and
//! what follows.

use vstd::prelude::*;
use vstd::string::*;

use crate::api::{Api, ApiError, ApiErrorView, ApiView, HttpRequest, RequestView};
use crate::error::{CoreError, CoreErrorView};
use crate::inbound::{EngineAnswers, InboundEventView, InboundView, PassOutcome};
use crate::json::{child, Json, JsonView};
use crate::send::{Attempt, FlushAnswers, FlushEventView, FlushOutcome, FlushView};
use crate::store::inbound::MlsView;
use crate::store::outbox::PendingView;
use crate::store::Store;
use crate::table::{SendRec, Tables};
use crate::text::opt_str_is;

verus! {

/// For how many milliseconds the server may hold a poll open.
pub const SYNC_TIMEOUT_MS: u64 = 30_000;

/// How many events of a room a response may hold.
pub const SYNC_LIMIT: u32 = 100;

/// How many milliseconds pass before the first retry.
pub const BACKOFF_START_MS: u64 = 1_000;

/// How many milliseconds pass at most before a retry.
pub const BACKOFF_MAX_MS: u64 = 30_000;

/// The host's observer of the sync loop.
pub trait SyncObserver: Send + Sync {
    /// The store has changed.
    fn on_change(&self);

    /// The server was reached, or not.
    fn on_status(&self, connected: bool);
}

/// The timeline events of one room of a response.
pub open spec fn room_events(room: JsonView) -> Seq<JsonView> {
    match room.at("timeline"@).at("events"@).as_array() {
        Some(events) => events,
        None => seq![],
    }
}

/// The timeline events of a list of rooms.
pub open spec fn rooms_events(rooms: Seq<(Seq<char>, JsonView)>) -> Seq<JsonView>
    decreases rooms.len(),
{
    if rooms.len() == 0 {
        seq![]
    } else {
        rooms_events(rooms.drop_last()) + room_events(rooms.last().1)
    }
}

/// The timeline events of every joined room of a response.
pub open spec fn timeline_events(resp: JsonView) -> Seq<JsonView> {
    match resp.at("rooms"@).at("join"@).as_object() {
        Some(rooms) => rooms_events(rooms),
        None => seq![],
    }
}

/// The token with which the next poll goes on.
pub open spec fn next_batch(resp: JsonView) -> Option<Seq<char>> {
    resp.at("next_batch"@).as_str()
}

/// The database with a token kept, where there is one.
pub open spec fn with_token(t: Tables, token: Option<Seq<char>>) -> Tables {
    match token {
        Some(_) => Tables { token, ..t },
        None => t,
    }
}

/// What folding the events of a response into the store comes to: whether one was
/// new, and what the store then holds.
pub open spec fn folded(t: Tables, resp: JsonView) -> Result<(bool, Tables), CoreErrorView> {
    match crate::store::parse_batch(timeline_events(resp)) {
        Ok(evs) => Ok((t.count_new(evs) > 0, t.apply_all(evs))),
        Err(e) => Err(CoreErrorView::Storage(e.words())),
    }
}

/// Rooms contribute their events one after the other: the events of two lists of
/// rooms are those of the first and then those of the second, and one room gives the
/// elements of its `timeline.events`, all of them, in their order.
pub proof fn every_room_contributes(
    first: Seq<(Seq<char>, JsonView)>,
    second: Seq<(Seq<char>, JsonView)>,
    one: (Seq<char>, JsonView),
    events: Seq<JsonView>,
)
    ensures
        rooms_events(first + second) == rooms_events(first) + rooms_events(second),
        rooms_events(seq![]) == Seq::<JsonView>::empty(),
        one.1.at("timeline"@).at("events"@) == JsonView::Array(events) ==> rooms_events(seq![one])
            == events,
        !(one.1.at("timeline"@).at("events"@) is Array) ==> rooms_events(seq![one]) == Seq::<
            JsonView,
        >::empty(),
    decreases second.len(),
{
    reveal_with_fuel(rooms_events, 2);
    assert(seq![one].drop_last() =~= seq![]);
    assert(Seq::<JsonView>::empty() + events =~= events);
    assert(rooms_events(seq![one]) =~= room_events(one.1));
    if second.len() == 0 {
        assert(first + second =~= first);
        assert(rooms_events(first) + rooms_events(second) =~= rooms_events(first));
    } else {
        let rest = second.drop_last();
        every_room_contributes(first, rest, one, events);
        assert((first + second).drop_last() =~= first + rest);
        assert(rooms_events(first) + (rooms_events(rest) + room_events(second.last().1)) =~= (
        rooms_events(first) + rooms_events(rest)) + room_events(second.last().1));
    }
}

/// Every element of the `timeline.events` of every joined room of a response is in
/// the batch that is folded.
pub proof fn no_event_of_a_room_is_left_out(
    resp: JsonView,
    rooms: Seq<(Seq<char>, JsonView)>,
    r: int,
    events: Seq<JsonView>,
    i: int,
)
    requires
        resp.at("rooms"@).at("join"@) == JsonView::Object(rooms),
        0 <= r < rooms.len(),
        rooms[r].1.at("timeline"@).at("events"@) == JsonView::Array(events),
        0 <= i < events.len(),
    ensures
        timeline_events(resp).contains(events[i]),
{
    lemma_rooms_events(rooms);
    assert(is_place(r, i));
}

/// The batch that is folded holds nothing but elements of the `timeline.events` of
/// the joined rooms: each of its elements has its room and its place there.
pub proof fn nothing_else_is_folded(resp: JsonView, k: int) -> (place: (int, int))
    requires
        0 <= k < timeline_events(resp).len(),
    ensures
        match resp.at("rooms"@).at("join"@) {
            JsonView::Object(rooms) => 0 <= place.0 < rooms.len() && (match rooms[place.0].1.at(
                "timeline"@,
            ).at("events"@) {
                JsonView::Array(events) => 0 <= place.1 < events.len() && events[place.1]
                    == timeline_events(resp)[k],
                _ => false,
            }),
            _ => false,
        },
{
    let rooms = resp.at("rooms"@).at("join"@)->Object_0;
    lemma_rooms_events(rooms);
    assert(comes_from(rooms, rooms_events(rooms)[k]));
    choose|r: int, i: int|
        0 <= r < rooms.len() && 0 <= i < events_brought(rooms[r].1) && rooms[r].1.at(
            "timeline"@,
        ).at("events"@)->Array_0[i] == rooms_events(rooms)[k] && #[trigger] is_place(r, i)
}

/// The batch that is folded is as long as the `timeline.events` of all the joined
/// rooms together.
pub proof fn batch_is_as_long_as_the_rooms_events(
    resp: JsonView,
    rooms: Seq<(Seq<char>, JsonView)>,
)
    requires
        resp.at("rooms"@).at("join"@) == JsonView::Object(rooms),
    ensures
        timeline_events(resp).len() == rooms.fold_left(
            0nat,
            |sum: nat, room: (Seq<char>, JsonView)|
                sum + (match room.1.at("timeline"@).at("events"@) {
                    JsonView::Array(events) => events.len(),
                    _ => 0,
                }),
        ),
{
    lemma_rooms_events(rooms);
    assert((|sum: nat, room: (Seq<char>, JsonView)|
        sum + (match room.1.at("timeline"@).at("events"@) {
            JsonView::Array(events) => events.len(),
            _ => 0,
        })) =~= (|sum: nat, room: (Seq<char>, JsonView)| sum + events_brought(room.1)));
}

/// After a response was folded in, the log holds, for every event of every joined
/// room, an event with its id; what it held before is still there, in its place; and
/// the fold reports something new exactly where the log has grown.
pub proof fn folding_keeps_every_event(
    t: Tables,
    resp: JsonView,
    rooms: Seq<(Seq<char>, JsonView)>,
    r: int,
    events: Seq<JsonView>,
    i: int,
)
    requires
        t.wf(),
        folded(t, resp) is Ok,
        resp.at("rooms"@).at("join"@) == JsonView::Object(rooms),
        0 <= r < rooms.len(),
        rooms[r].1.at("timeline"@).at("events"@) == JsonView::Array(events),
        0 <= i < events.len(),
    ensures
        ({
            let (new, after) = folded(t, resp)->Ok_0;
            &&& exists|k: int|
                0 <= k < after.events.len() && JsonView::Str((#[trigger] after.events[k]).event_id)
                    == events[i].at("event_id"@)
            &&& t.events.len() <= after.events.len()
            &&& after.events.take(t.events.len() as int) == t.events
            &&& new <==> after.events.len() > t.events.len()
            &&& after.sends == t.sends
            &&& after.token == t.token
        }),
{
    let batch = timeline_events(resp);
    let evs = crate::store::parse_batch(batch)->Ok_0;
    no_event_of_a_room_is_left_out(resp, rooms, r, events, i);
    let n = choose|n: int| 0 <= n < batch.len() && batch[n] == events[i];
    crate::store::faithful::batch_events_are_read(batch, n);
    crate::store::laws::applied_events_are_there(t, evs, n);
    crate::store::laws::log_is_append_only(t, evs);
    crate::store::laws::new_events_are_counted(t, evs);
    let after = t.apply_all(evs);
    crate::table::lemma_event_at(after.events, evs[n].event_id);
    let k = choose|k: int|
        0 <= k < after.events.len() && (#[trigger] after.events[k]).event_id == evs[n].event_id;
    assert(JsonView::Str(after.events[k].event_id) == events[i].at("event_id"@));
}

/// How many events a room of a response brings.
spec fn events_brought(room: JsonView) -> nat {
    match room.at("timeline"@).at("events"@) {
        JsonView::Array(events) => events.len(),
        _ => 0,
    }
}

/// A place in a response: a room, and an event of it.
spec fn is_place(r: int, i: int) -> bool {
    0 <= r && 0 <= i
}

spec fn comes_from(rooms: Seq<(Seq<char>, JsonView)>, ev: JsonView) -> bool {
    exists|r: int, i: int|
        0 <= r < rooms.len() && 0 <= i < events_brought(rooms[r].1) && rooms[r].1.at(
            "timeline"@,
        ).at("events"@)->Array_0[i] == ev && #[trigger] is_place(r, i)
}

proof fn lemma_rooms_events(rooms: Seq<(Seq<char>, JsonView)>)
    ensures
        forall|r: int, i: int|
            0 <= r < rooms.len() && 0 <= i < events_brought(rooms[r].1) && #[trigger] is_place(r, i)
                ==> rooms_events(rooms).contains(
                rooms[r].1.at("timeline"@).at("events"@)->Array_0[i],
            ),
        forall|k: int|
            0 <= k < rooms_events(rooms).len() ==> comes_from(
                rooms,
                #[trigger] rooms_events(rooms)[k],
            ),
        rooms_events(rooms).len() == rooms.fold_left(
            0nat,
            |sum: nat, room: (Seq<char>, JsonView)| sum + events_brought(room.1),
        ),
    decreases rooms.len(),
{
    reveal_with_fuel(Seq::fold_left, 2);
    if rooms.len() > 0 {
        let rest = rooms.drop_last();
        let last = room_events(rooms.last().1);
        lemma_rooms_events(rest);
        let all = rooms_events(rooms);
        let before = rooms_events(rest);
        assert forall|r: int, i: int|
            0 <= r < rooms.len() && 0 <= i < events_brought(rooms[r].1) && #[trigger] is_place(
                r,
                i,
            ) implies all.contains(rooms[r].1.at("timeline"@).at("events"@)->Array_0[i]) by {
            let ev = rooms[r].1.at("timeline"@).at("events"@)->Array_0[i];
            if r < rest.len() {
                assert(rest[r] == rooms[r]);
                let k = choose|k: int| 0 <= k < before.len() && before[k] == ev;
                assert(all[k] == ev);
            } else {
                assert(all[before.len() + i] == ev);
            }
        }
        assert forall|k: int| 0 <= k < all.len() implies comes_from(rooms, #[trigger] all[k]) by {
            if k < before.len() {
                assert(comes_from(rest, before[k]));
                let (r, i) = choose|r: int, i: int|
                    0 <= r < rest.len() && 0 <= i < events_brought(rest[r].1) && rest[r].1.at(
                        "timeline"@,
                    ).at("events"@)->Array_0[i] == before[k] && #[trigger] is_place(r, i);
                assert(rest[r] == rooms[r]);
                assert(is_place(r, i));
            } else {
                assert(is_place(rooms.len() - 1, k - before.len()));
            }
        }
    }
}

fn gather_events(resp: &Json) -> (r: Vec<Json>)
    ensures
        crate::store::json_views(r@) == timeline_events(resp@),
{
    let mut out: Vec<Json> = Vec::new();
    assert(crate::store::json_views(out@) =~= seq![]);
    let join = child(resp.get("rooms"), "join");
    match join {
        Some(j) => match j {
            Json::Object(rooms) => {
                let ghost shown = j@->Object_0;
                let mut i: usize = 0;
                assert(shown.take(0) =~= seq![]);
                while i < rooms.len()
                    invariant
                        i <= rooms@.len(),
                        shown.len() == rooms@.len(),
                        forall|k: int| 0 <= k < rooms@.len() ==> #[trigger] shown[k].1 == rooms@[k].1@,
                        crate::store::json_views(out@) == rooms_events(shown.take(i as int)),
                    decreases rooms@.len() - i,
                {
                    assert(shown.take(i + 1).drop_last() =~= shown.take(i as int));
                    assert(shown.take(i + 1).last() == shown[i as int]);
                    assert(shown[i as int].1 == rooms@[i as int].1@);
                    let ghost before = crate::store::json_views(out@);
                    let events = child(rooms[i].1.get("timeline"), "events");
                    let ghost wanted = room_events(shown[i as int].1);
                    match events {
                        Some(e) => match e {
                            Json::Array(list) => {
                                let mut k: usize = 0;
                                assert(wanted.take(0) =~= seq![]);
                                assert(before + seq![] =~= before);
                                while k < list.len()
                                    invariant
                                        k <= list@.len(),
                                        wanted.len() == list@.len(),
                                        forall|m: int|
                                            0 <= m < list@.len() ==> #[trigger] wanted[m] == list@[m]@,
                                        crate::store::json_views(out@) == before + wanted.take(
                                            k as int,
                                        ),
                                    decreases list@.len() - k,
                                {
                                    let ghost so_far = crate::store::json_views(out@);
                                    let one = list[k].clone();
                                    out.push(one);
                                    assert(crate::store::json_views(out@) =~= so_far.push(one@));
                                    assert(before + wanted.take(k + 1) =~= (before + wanted.take(
                                        k as int,
                                    )).push(wanted[k as int]));
                                    k += 1;
                                }
                                assert(wanted.take(k as int) =~= wanted);
                            },
                            _ => {
                                assert(before + wanted =~= before);
                            },
                        },
                        None => {
                            assert(before + wanted =~= before);
                        },
                    }
                    i += 1;
                }
                assert(shown.take(i as int) =~= shown);
            },
            _ => {},
        },
        None => {},
    }
    out
}

/// Folds the timeline events of a response into the store. Says whether one was
/// new. The token is not kept by this.
pub fn fold_sync(store: &mut Store, resp: &Json) -> (r: Result<bool, CoreError>)
    requires
        old(store).wf(),
    ensures
        final(store).wf(),
        final(store).follows(*old(store)),
        match folded(old(store).tables(), resp@) {
            Ok((new, t)) => r is Ok && r->Ok_0 == new && final(store).tables() == t,
            Err(e) => r is Err && r->Err_0@ == e && *final(store) == *old(store),
        },
{
    let events = gather_events(resp);
    match store.apply_events(events.as_slice()) {
        Ok(n) => Ok(n > 0),
        Err(e) => Err(CoreError::of_store(e)),
    }
}

/// Keeps the token of a response, as it is.
pub fn persist_sync_token(store: &mut Store, resp: &Json) -> (r: Result<(), CoreError>)
    requires
        old(store).wf(),
    ensures
        r is Ok,
        final(store).wf(),
        final(store).follows(*old(store)),
        final(store).tables() == with_token(old(store).tables(), next_batch(resp@)),
{
    match resp.str_at("next_batch") {
        Some(token) => match store.save_sync_token(token) {
            Ok(_) => Ok(()),
            Err(e) => Err(CoreError::of_store(e)),
        },
        None => {
            proof {
                crate::store::lemma_follows_itself(*store);
            }
            Ok(())
        },
    }
}

/// Folds a response into the store and keeps its token, also where nothing was
/// new. Says whether an event was new.
pub fn apply_sync(store: &mut Store, resp: &Json) -> (r: Result<bool, CoreError>)
    requires
        old(store).wf(),
    ensures
        final(store).wf(),
        final(store).follows(*old(store)),
        match folded(old(store).tables(), resp@) {
            Ok((new, t)) => r is Ok && r->Ok_0 == new && final(store).tables() == with_token(
                t,
                next_batch(resp@),
            ),
            Err(e) => r is Err && r->Err_0@ == e && *final(store) == *old(store),
        },
{
    let new = match fold_sync(store, resp) {
        Ok(b) => b,
        Err(e) => return Err(e),
    };
    let ghost between = *store;
    match persist_sync_token(store, resp) {
        Ok(_) => {},
        Err(e) => return Err(e),
    }
    proof {
        crate::store::changes_follow_in_turn(*old(store), between, *store);
    }
    Ok(new)
}

/// A response all of whose events the store holds changes nothing and has nothing
/// new, however long ago they came.
pub proof fn known_response_changes_nothing(t: Tables, resp: JsonView)
    requires
        crate::store::parse_batch(timeline_events(resp)) is Ok,
        forall|i: int|
            0 <= i < crate::store::parse_batch(timeline_events(resp))->Ok_0.len()
                ==> crate::table::event_at(
                t.events,
                (#[trigger] crate::store::parse_batch(timeline_events(resp))->Ok_0[i]).event_id,
            ) is Some,
    ensures
        folded(t, resp) == Ok::<(bool, Tables), CoreErrorView>((false, t)),
{
    crate::store::laws::known_events_change_nothing(
        t,
        crate::store::parse_batch(timeline_events(resp))->Ok_0,
    );
}

/// A response that is delivered again changes nothing and has nothing new.
pub proof fn replayed_response_changes_nothing(t: Tables, resp: JsonView)
    requires
        t.wf(),
        folded(t, resp) is Ok,
    ensures
        ({
            let once = with_token(folded(t, resp)->Ok_0.1, next_batch(resp));
            folded(once, resp) == Ok::<(bool, Tables), CoreErrorView>((false, once))
        }),
{
    let evs = crate::store::parse_batch(timeline_events(resp))->Ok_0;
    let once = with_token(t.apply_all(evs), next_batch(resp));
    assert forall|i: int| 0 <= i < evs.len() implies crate::table::event_at(
        once.events,
        (#[trigger] evs[i]).event_id,
    ) is Some by {
        crate::store::laws::applied_events_are_there(t, evs, i);
    }
    known_response_changes_nothing(once, resp);
}

/// An invitation to a group that came to this device.
#[derive(Debug)]
pub struct Welcome {
    pub welcome_b64: String,
    /// The room of the group, where it is said.
    pub room_id: Option<String>,
}

/// What a [`Welcome`] holds.
pub struct WelcomeView {
    pub welcome_b64: Seq<char>,
    pub room_id: Option<Seq<char>>,
}

impl View for Welcome {
    type V = WelcomeView;

    open spec fn view(&self) -> WelcomeView {
        WelcomeView {
            welcome_b64: self.welcome_b64@,
            room_id: crate::json::opt_string_view(self.room_id),
        }
    }
}

/// The values of a list of invitations.
pub open spec fn welcome_views(v: Seq<Welcome>) -> Seq<WelcomeView> {
    Seq::new(v.len(), |i: int| v[i]@)
}

/// The invitation that a message to this device is, if it is one.
pub open spec fn welcome_of(ev: JsonView) -> Option<WelcomeView> {
    if ev.at("type"@).as_str() != Some("p.mls.welcome"@) {
        None
    } else {
        match ev.at("content"@).at("welcome"@).as_str() {
            Some(welcome_b64) => Some(
                WelcomeView {
                    welcome_b64,
                    room_id: ev.at("content"@).at("room_id"@).as_str(),
                },
            ),
            None => None,
        }
    }
}

/// The invitations among a list of messages.
pub open spec fn welcomes_among(events: Seq<JsonView>) -> Seq<WelcomeView>
    decreases events.len(),
{
    if events.len() == 0 {
        seq![]
    } else {
        match welcome_of(events.last()) {
            Some(w) => welcomes_among(events.drop_last()).push(w),
            None => welcomes_among(events.drop_last()),
        }
    }
}

/// The invitations that a response holds.
pub open spec fn welcomes_in(resp: JsonView) -> Seq<WelcomeView> {
    match resp.at("to_device"@).at("events"@).as_array() {
        Some(events) => welcomes_among(events),
        None => seq![],
    }
}

/// A message to this device is an invitation exactly where it is of that type and holds a
/// welcome; the welcome and the room are those of its content.
pub proof fn invitation_is_read_as_it_came(ev: JsonView)
    ensures
        welcome_of(ev) is Some <==> ev.at("type"@) == JsonView::Str("p.mls.welcome"@) && ev.at(
            "content"@,
        ).at("welcome"@) is Str,
        welcome_of(ev) matches Some(w) ==> ev.at("content"@).at("welcome"@) == JsonView::Str(
            w.welcome_b64,
        ) && (match ev.at("content"@).at("room_id"@) {
            JsonView::Str(room) => w.room_id == Some(room),
            _ => w.room_id is None,
        }),
{
}

/// The invitations of a response are those among its messages to this device, each of
/// them, in their order: those of two lists are those of the first and then those of the
/// second, and one message is one invitation or none.
pub proof fn every_invitation_is_taken(
    resp: JsonView,
    first: Seq<JsonView>,
    second: Seq<JsonView>,
    one: JsonView,
)
    ensures
        welcomes_among(first + second) == welcomes_among(first) + welcomes_among(second),
        welcomes_among(seq![]) == Seq::<WelcomeView>::empty(),
        welcome_of(one) matches Some(w) ==> welcomes_among(seq![one]) == seq![w],
        welcome_of(one) is None ==> welcomes_among(seq![one]) == Seq::<WelcomeView>::empty(),
        resp.at("to_device"@).at("events"@) == JsonView::Array(first) ==> welcomes_in(resp)
            == welcomes_among(first),
        !(resp.at("to_device"@).at("events"@) is Array) ==> welcomes_in(resp).len() == 0,
    decreases second.len(),
{
    reveal_with_fuel(welcomes_among, 2);
    assert(seq![one].drop_last() =~= seq![]);
    if let Some(w) = welcome_of(one) {
        assert(welcomes_among(seq![one]) =~= seq![w]);
    }
    if second.len() == 0 {
        assert(first + second =~= first);
        assert(welcomes_among(first) + welcomes_among(second) =~= welcomes_among(first));
    } else {
        let rest = second.drop_last();
        every_invitation_is_taken(resp, first, rest, one);
        assert((first + second).drop_last() =~= first + rest);
        assert(welcomes_among(first + second) =~= welcomes_among(first) + welcomes_among(second));
    }
}

fn read_welcome(ev: &Json) -> (r: Option<Welcome>)
    ensures
        match r {
            Some(w) => welcome_of(ev@) == Some(w@),
            None => welcome_of(ev@) is None,
        },
{
    if !opt_str_is(ev.str_at("type"), "p.mls.welcome") {
        return None;
    }
    let content = ev.get("content");
    match child(content, "welcome") {
        Some(v) => match v.as_str() {
            Some(w) => {
                let room = match child(content, "room_id") {
                    Some(r) => match r.as_str() {
                        Some(s) => Some(s.to_owned()),
                        None => None,
                    },
                    None => None,
                };
                Some(Welcome { welcome_b64: w.to_owned(), room_id: room })
            },
            None => None,
        },
        None => None,
    }
}

/// The invitations that a response holds. Anything else that came to this device
/// is passed over.
pub fn find_welcomes(resp: &Json) -> (r: Vec<Welcome>)
    ensures
        welcome_views(r@) == welcomes_in(resp@),
{
    let mut out: Vec<Welcome> = Vec::new();
    assert(welcome_views(out@) =~= seq![]);
    match child(resp.get("to_device"), "events") {
        Some(e) => match e {
            Json::Array(list) => {
                let ghost shown = e@->Array_0;
                let mut i: usize = 0;
                assert(shown.take(0) =~= seq![]);
                while i < list.len()
                    invariant
                        i <= list@.len(),
                        shown.len() == list@.len(),
                        forall|k: int| 0 <= k < list@.len() ==> #[trigger] shown[k] == list@[k]@,
                        welcome_views(out@) == welcomes_among(shown.take(i as int)),
                    decreases list@.len() - i,
                {
                    assert(shown.take(i + 1).drop_last() =~= shown.take(i as int));
                    assert(shown.take(i + 1).last() == shown[i as int]);
                    let ghost before = welcome_views(out@);
                    match read_welcome(&list[i]) {
                        Some(w) => {
                            out.push(w);
                            assert(welcome_views(out@) =~= before.push(w@));
                        },
                        None => {},
                    }
                    i += 1;
                }
                assert(shown.take(i as int) =~= shown);
            },
            _ => {},
        },
        None => {},
    }
    out
}

/// A pass over invitations.
pub struct WelcomePass {
    rest: Vec<Welcome>,
    joined: bool,
}

/// What a [`WelcomePass`] holds: the invitations still to come, and whether a
/// group was joined.
#[verifier::ext_equal]
pub struct WelcomePassView {
    pub rest: Seq<WelcomeView>,
    pub joined: bool,
}

impl View for WelcomePass {
    type V = WelcomePassView;

    closed spec fn view(&self) -> WelcomePassView {
        WelcomePassView { rest: welcome_views(self.rest@), joined: self.joined }
    }
}

/// What has happened in the course of a pass over invitations.
pub enum WelcomeEvent {
    /// The pass begins.
    Begin,
    /// The engine was asked whether it holds the group of the invitation's room.
    Group(Welcome, Result<bool, CoreError>),
    /// The engine was asked to join.
    Joined(Result<(), CoreError>),
}

/// What is to be done next in the course of a pass over invitations.
pub enum WelcomeAction {
    /// Ask the engine whether it holds the group of the invitation's room.
    CheckGroup(Welcome),
    /// Have the engine join.
    Join(Welcome),
    /// The pass is over.
    Done { joined: bool },
}

/// What a [`WelcomeEvent`] says. Why the engine failed does not matter.
pub enum WelcomeEventView {
    Begin,
    Group(WelcomeView, Option<bool>),
    Joined(bool),
}

/// What a [`WelcomeAction`] says.
pub enum WelcomeActionView {
    CheckGroup(WelcomeView),
    Join(WelcomeView),
    Done(bool),
}

impl View for WelcomeEvent {
    type V = WelcomeEventView;

    open spec fn view(&self) -> WelcomeEventView {
        match self {
            WelcomeEvent::Begin => WelcomeEventView::Begin,
            WelcomeEvent::Group(w, r) => WelcomeEventView::Group(
                w@,
                match r {
                    Ok(held) => Some(*held),
                    Err(_) => None,
                },
            ),
            WelcomeEvent::Joined(r) => WelcomeEventView::Joined(*r is Ok),
        }
    }
}

impl View for WelcomeAction {
    type V = WelcomeActionView;

    open spec fn view(&self) -> WelcomeActionView {
        match self {
            WelcomeAction::CheckGroup(w) => WelcomeActionView::CheckGroup(w@),
            WelcomeAction::Join(w) => WelcomeActionView::Join(w@),
            WelcomeAction::Done { joined } => WelcomeActionView::Done(*joined),
        }
    }
}

/// The pass goes on with its next invitation. One that names its room is checked
/// first, one that does not is taken up at once.
pub open spec fn next_welcome(v: WelcomePassView) -> (WelcomePassView, WelcomeActionView) {
    if v.rest.len() == 0 {
        (v, WelcomeActionView::Done(v.joined))
    } else {
        let w = v.rest[0];
        (
            WelcomePassView { rest: v.rest.drop_first(), ..v },
            if w.room_id is Some {
                WelcomeActionView::CheckGroup(w)
            } else {
                WelcomeActionView::Join(w)
            },
        )
    }
}

/// One step of a pass over invitations. An invitation to a group that is held, or
/// of which that cannot be said, is passed over; so is one that cannot be taken
/// up. None of them stops the pass.
pub open spec fn welcome_step(v: WelcomePassView, event: WelcomeEventView) -> (
    WelcomePassView,
    WelcomeActionView,
) {
    match event {
        WelcomeEventView::Begin => next_welcome(v),
        WelcomeEventView::Group(w, Some(false)) => (v, WelcomeActionView::Join(w)),
        WelcomeEventView::Group(w, _) => next_welcome(v),
        WelcomeEventView::Joined(ok) => next_welcome(
            WelcomePassView { joined: v.joined || ok, ..v },
        ),
    }
}

/// An invitation that is delivered again, to a group that is held by then, is not
/// taken up again: the engine is asked about the next one, or the pass is over.
pub proof fn held_group_is_not_joined_again(v: WelcomePassView, w: WelcomeView)
    ensures
        welcome_step(v, WelcomeEventView::Group(w, Some(true))) == next_welcome(v),
        welcome_step(v, WelcomeEventView::Group(w, Some(true))).0.joined == v.joined,
{
}

/// A pass over invitations always ends: every event that is not a question about
/// the same invitation takes one more off the list.
pub proof fn welcome_pass_ends(v: WelcomePassView, event: WelcomeEventView)
    ensures
        ({
            let (after, action) = welcome_step(v, event);
            action is Done || after.rest.len() < v.rest.len() || (event matches
                WelcomeEventView::Group(w, Some(false)) && action == WelcomeActionView::Join(w))
        }),
{
}

/// A pass over invitations from an event to its end, step by step: which groups
/// are held then, and what the pass reports. `groups` are those held before, and
/// `joins` says to which group an invitation leads, none where it cannot be taken
/// up.
pub open spec fn run_welcomes(
    v: WelcomePassView,
    groups: Set<Seq<char>>,
    event: WelcomeEventView,
    joins: spec_fn(WelcomeView) -> Option<Seq<char>>,
) -> (Set<Seq<char>>, bool)
    decreases
            v.rest.len(),
            (if event is Group {
                1int
            } else {
                0int
            }),
{
    let (after, action) = welcome_step(v, event);
    match action {
        WelcomeActionView::CheckGroup(w) => run_welcomes(
            after,
            groups,
            WelcomeEventView::Group(w, Some(groups.contains(w.room_id->0))),
            joins,
        ),
        WelcomeActionView::Join(w) => match joins(w) {
            Some(group) => run_welcomes(
                after,
                groups.insert(group),
                WelcomeEventView::Joined(true),
                joins,
            ),
            None => run_welcomes(after, groups, WelcomeEventView::Joined(false), joins),
        },
        WelcomeActionView::Done(joined) => (groups, joined),
    }
}

/// The groups that are held after an invitation that names its room.
pub open spec fn after_welcome(
    groups: Set<Seq<char>>,
    w: WelcomeView,
    joins: spec_fn(WelcomeView) -> Option<Seq<char>>,
) -> Set<Seq<char>> {
    if groups.contains(w.room_id->0) || joins(w) is None {
        groups
    } else {
        groups.insert(joins(w)->0)
    }
}

/// The groups that are held after a list of invitations, taken in their order.
pub open spec fn after_welcomes(
    groups: Set<Seq<char>>,
    list: Seq<WelcomeView>,
    joins: spec_fn(WelcomeView) -> Option<Seq<char>>,
) -> Set<Seq<char>>
    decreases list.len(),
{
    if list.len() == 0 {
        groups
    } else {
        after_welcomes(after_welcome(groups, list[0], joins), list.drop_first(), joins)
    }
}

/// Every invitation names the room of the group to which it leads.
pub open spec fn rooms_are_named(
    list: Seq<WelcomeView>,
    joins: spec_fn(WelcomeView) -> Option<Seq<char>>,
) -> bool {
    forall|i: int|
        0 <= i < list.len() ==> (#[trigger] list[i]).room_id is Some && (joins(list[i]) is Some
            ==> joins(list[i]) == list[i].room_id)
}

proof fn lemma_rest_is_named(
    list: Seq<WelcomeView>,
    joins: spec_fn(WelcomeView) -> Option<Seq<char>>,
)
    requires
        rooms_are_named(list, joins),
        list.len() > 0,
    ensures
        rooms_are_named(list.drop_first(), joins),
{
    let rest = list.drop_first();
    assert forall|i: int| 0 <= i < rest.len() implies (#[trigger] rest[i]).room_id is Some && (
    joins(rest[i]) is Some ==> joins(rest[i]) == rest[i].room_id) by {
        assert(rest[i] == list[i + 1]);
    }
}

proof fn lemma_groups_only_grow(
    groups: Set<Seq<char>>,
    list: Seq<WelcomeView>,
    joins: spec_fn(WelcomeView) -> Option<Seq<char>>,
)
    ensures
        groups.subset_of(after_welcomes(groups, list, joins)),
    decreases list.len(),
{
    if list.len() > 0 {
        lemma_groups_only_grow(
            after_welcome(groups, list[0], joins),
            list.drop_first(),
            joins,
        );
    }
}

/// A pass takes up its invitations one by one, in their order: one to a group that
/// is held is passed over, and so is one that cannot be taken up; neither stops
/// those after it. It reports exactly whether a group was joined.
pub proof fn pass_takes_up_each_invitation(
    v: WelcomePassView,
    groups: Set<Seq<char>>,
    joins: spec_fn(WelcomeView) -> Option<Seq<char>>,
)
    requires
        rooms_are_named(v.rest, joins),
    ensures
        run_welcomes(v, groups, WelcomeEventView::Begin, joins) == (
            after_welcomes(groups, v.rest, joins),
            v.joined || after_welcomes(groups, v.rest, joins) != groups,
        ),
    decreases v.rest.len(),
{
    if v.rest.len() > 0 {
        let w = v.rest[0];
        let rest = v.rest.drop_first();
        let then_on = WelcomePassView { rest, ..v };
        let held = groups.contains(w.room_id->0);
        let group = WelcomeEventView::Group(w, Some(held));
        lemma_rest_is_named(v.rest, joins);
        assert(w.room_id is Some);
        assert(run_welcomes(v, groups, WelcomeEventView::Begin, joins) == run_welcomes(
            then_on,
            groups,
            group,
            joins,
        ));
        if held {
            pass_takes_up_each_invitation(then_on, groups, joins);
            assert(welcome_step(then_on, group) == welcome_step(
                then_on,
                WelcomeEventView::Begin,
            ));
        } else if joins(w) is None {
            pass_takes_up_each_invitation(then_on, groups, joins);
            let failed = WelcomeEventView::Joined(false);
            assert(welcome_step(then_on, failed) == welcome_step(
                then_on,
                WelcomeEventView::Begin,
            ));
            assert(run_welcomes(then_on, groups, group, joins) == run_welcomes(
                then_on,
                groups,
                failed,
                joins,
            ));
        } else {
            let more = groups.insert(joins(w)->0);
            let joined = WelcomePassView { joined: true, ..then_on };
            pass_takes_up_each_invitation(joined, more, joins);
            let done = WelcomeEventView::Joined(true);
            assert(welcome_step(then_on, done) == welcome_step(joined, WelcomeEventView::Begin));
            assert(run_welcomes(then_on, more, done, joins) == run_welcomes(
                joined,
                more,
                WelcomeEventView::Begin,
                joins,
            ));
            assert(run_welcomes(then_on, groups, group, joins) == run_welcomes(
                then_on,
                more,
                done,
                joins,
            ));
            lemma_groups_only_grow(more, rest, joins);
            assert(after_welcomes(groups, v.rest, joins).contains(joins(w)->0));
        }
    }
}

proof fn lemma_invitation_is_settled(
    groups: Set<Seq<char>>,
    list: Seq<WelcomeView>,
    joins: spec_fn(WelcomeView) -> Option<Seq<char>>,
    i: int,
)
    requires
        rooms_are_named(list, joins),
        0 <= i < list.len(),
    ensures
        joins(list[i]) is None || after_welcomes(groups, list, joins).contains(list[i].room_id->0),
    decreases list.len(),
{
    let first = after_welcome(groups, list[0], joins);
    let rest = list.drop_first();
    lemma_rest_is_named(list, joins);
    if i == 0 {
        lemma_groups_only_grow(first, rest, joins);
    } else {
        assert(rest[i - 1] == list[i]);
        lemma_invitation_is_settled(first, rest, joins, i - 1);
    }
}

proof fn lemma_settled_invitations_join_nothing(
    groups: Set<Seq<char>>,
    list: Seq<WelcomeView>,
    joins: spec_fn(WelcomeView) -> Option<Seq<char>>,
)
    requires
        forall|i: int|
            0 <= i < list.len() ==> joins(#[trigger] list[i]) is None || groups.contains(
                list[i].room_id->0,
            ),
    ensures
        after_welcomes(groups, list, joins) == groups,
    decreases list.len(),
{
    if list.len() > 0 {
        let rest = list.drop_first();
        assert(joins(list[0]) is None || groups.contains(list[0].room_id->0));
        assert forall|i: int| 0 <= i < rest.len() implies joins(#[trigger] rest[i]) is None
            || groups.contains(rest[i].room_id->0) by {
            assert(rest[i] == list[i + 1]);
        }
        lemma_settled_invitations_join_nothing(groups, rest, joins);
    }
}

/// Invitations may be delivered more than once: a second pass over those of a
/// response joins nothing, changes no group and reports that it joined none. What
/// could not be taken up the first time still cannot be.
pub proof fn second_pass_joins_nothing(
    resp: JsonView,
    groups: Set<Seq<char>>,
    joins: spec_fn(WelcomeView) -> Option<Seq<char>>,
)
    requires
        rooms_are_named(welcomes_in(resp), joins),
    ensures
        ({
            let pass = WelcomePassView { rest: welcomes_in(resp), joined: false };
            let held = run_welcomes(pass, groups, WelcomeEventView::Begin, joins).0;
            run_welcomes(pass, held, WelcomeEventView::Begin, joins) == (held, false)
        }),
{
    let list = welcomes_in(resp);
    let pass = WelcomePassView { rest: list, joined: false };
    let held = after_welcomes(groups, list, joins);
    pass_takes_up_each_invitation(pass, groups, joins);
    assert forall|i: int| 0 <= i < list.len() implies joins(#[trigger] list[i]) is None
        || held.contains(list[i].room_id->0) by {
        lemma_invitation_is_settled(groups, list, joins, i);
    }
    lemma_settled_invitations_join_nothing(held, list, joins);
    pass_takes_up_each_invitation(pass, held, joins);
}

impl WelcomePass {
    /// A pass over the invitations of a response. Without an engine none is taken
    /// up.
    pub fn new(resp: &Json, has_engine: bool) -> (r: WelcomePass)
        ensures
            r@ == (WelcomePassView {
                rest: if has_engine {
                    welcomes_in(resp@)
                } else {
                    seq![]
                },
                joined: false,
            }),
    {
        let rest = if has_engine {
            find_welcomes(resp)
        } else {
            Vec::new()
        };
        let r = WelcomePass { rest, joined: false };
        assert(!has_engine ==> r@.rest =~= seq![]);
        r
    }

    fn advance(&mut self) -> (r: WelcomeAction)
        ensures
            (final(self)@, r@) == next_welcome(old(self)@),
    {
        if self.rest.len() == 0 {
            return WelcomeAction::Done { joined: self.joined };
        }
        let ghost before = self@;
        let w = self.rest.remove(0);
        assert(before.rest[0] == w@);
        assert(self@.rest =~= before.rest.drop_first());
        if w.room_id.is_some() {
            WelcomeAction::CheckGroup(w)
        } else {
            WelcomeAction::Join(w)
        }
    }

    /// One step of the pass.
    pub fn next(&mut self, event: WelcomeEvent) -> (r: WelcomeAction)
        ensures
            (final(self)@, r@) == welcome_step(old(self)@, event@),
    {
        match event {
            WelcomeEvent::Begin => self.advance(),
            WelcomeEvent::Group(w, answer) => match answer {
                Ok(false) => WelcomeAction::Join(w),
                _ => self.advance(),
            },
            WelcomeEvent::Joined(answer) => {
                if answer.is_ok() {
                    self.joined = true;
                }
                self.advance()
            },
        }
    }
}

/// The sync loop. Between two polls it carries what the first has brought.
pub struct SyncLoop {
    backoff_ms: u64,
    changed: bool,
    token: Option<String>,
}

/// What a [`SyncLoop`] holds: the time before a retry, whether the store was
/// changed since the last poll, and the token that is still to be kept.
#[verifier::ext_equal]
pub struct SyncView {
    pub backoff_ms: u64,
    pub changed: bool,
    pub token: Option<Seq<char>>,
}

impl View for SyncLoop {
    type V = SyncView;

    closed spec fn view(&self) -> SyncView {
        SyncView {
            backoff_ms: self.backoff_ms,
            changed: self.changed,
            token: crate::json::opt_string_view(self.token),
        }
    }
}

impl SyncView {
    /// The time before a retry stays within its bounds.
    pub open spec fn wf(self) -> bool {
        BACKOFF_START_MS <= self.backoff_ms <= BACKOFF_MAX_MS
    }
}

/// What has happened in the course of the loop.
pub enum SyncEvent {
    /// The loop begins, or goes on.
    Ready,
    /// The server was polled.
    Polled(Result<Json, ApiError>),
    /// The invitations were taken up. Says whether a group was joined.
    Welcomed(bool),
    /// The inbound events were processed. Says whether something changed.
    Processed(Result<bool, CoreError>),
    /// The outbound queue was delivered. Says whether something changed.
    Flushed(Result<bool, CoreError>),
}

/// What is to be done next in the course of the loop.
pub enum SyncAction {
    /// Poll the server.
    Poll(HttpRequest),
    /// Take up the invitations of the response.
    TakeUpWelcomes(WelcomePass),
    /// Process the inbound events.
    ProcessInbound,
    /// Deliver the outbound queue.
    Flush,
    /// Tell the observer that the server was reached, and whether the store has
    /// changed.
    Connected { changed: bool },
    /// Tell the observer that the server was not reached, and wait.
    Disconnected { wait_ms: u64 },
}

/// What a [`SyncEvent`] says.
pub enum SyncEventView {
    Ready,
    Polled(Result<JsonView, ApiErrorView>),
    Welcomed(bool),
    Processed(Result<bool, CoreErrorView>),
    Flushed(Result<bool, CoreErrorView>),
}

/// What a [`SyncAction`] says.
pub enum SyncActionView {
    Poll(RequestView),
    TakeUpWelcomes(WelcomePassView),
    ProcessInbound,
    Flush,
    Connected(bool),
    Disconnected(u64),
}

/// The view of whether something changed.
pub open spec fn change_outcome(r: Result<bool, CoreError>) -> Result<bool, CoreErrorView> {
    match r {
        Ok(b) => Ok(b),
        Err(e) => Err(e@),
    }
}

impl View for SyncEvent {
    type V = SyncEventView;

    open spec fn view(&self) -> SyncEventView {
        match self {
            SyncEvent::Ready => SyncEventView::Ready,
            SyncEvent::Polled(r) => SyncEventView::Polled(crate::api::api_outcome(*r)),
            SyncEvent::Welcomed(joined) => SyncEventView::Welcomed(*joined),
            SyncEvent::Processed(r) => SyncEventView::Processed(change_outcome(*r)),
            SyncEvent::Flushed(r) => SyncEventView::Flushed(change_outcome(*r)),
        }
    }
}

impl View for SyncAction {
    type V = SyncActionView;

    open spec fn view(&self) -> SyncActionView {
        match self {
            SyncAction::Poll(request) => SyncActionView::Poll(request@),
            SyncAction::TakeUpWelcomes(pass) => SyncActionView::TakeUpWelcomes(pass@),
            SyncAction::ProcessInbound => SyncActionView::ProcessInbound,
            SyncAction::Flush => SyncActionView::Flush,
            SyncAction::Connected { changed } => SyncActionView::Connected(*changed),
            SyncAction::Disconnected { wait_ms } => SyncActionView::Disconnected(*wait_ms),
        }
    }
}

/// The poll for what is new since a token.
pub open spec fn poll(api: ApiView, since: Option<Seq<char>>) -> RequestView {
    RequestView {
        query: crate::api::sync_query(since, SYNC_TIMEOUT_MS as nat, SYNC_LIMIT as nat),
        timeout_ms: Some((SYNC_TIMEOUT_MS + 15_000) as u128),
        ..api.get("/_pigeon/client/v1/sync"@)
    }
}

/// The time before the retry after the next one.
pub open spec fn longer(backoff_ms: u64) -> u64 {
    if 2 * backoff_ms <= BACKOFF_MAX_MS {
        (2 * backoff_ms) as u64
    } else {
        BACKOFF_MAX_MS
    }
}

/// What one step of the loop comes to: how the loop goes on, what the store holds,
/// and what is to be done.
pub struct SyncStep {
    pub lap: SyncView,
    pub tables: Tables,
    pub action: Result<SyncActionView, CoreErrorView>,
}

/// One step of the loop.
///
/// A response is folded into the store; then its invitations are taken up, then
/// the inbound events processed, then the outbound queue delivered. The token of
/// the response is kept last: the server drops what it has delivered once it sees
/// the token, so nothing may be left to do by then. Where the server is not
/// reached, the loop waits, each time longer. Any other failure ends it.
pub open spec fn sync_step(
    v: SyncView,
    t: Tables,
    api: ApiView,
    has_engine: bool,
    event: SyncEventView,
) -> SyncStep {
    match event {
        SyncEventView::Ready => SyncStep {
            lap: v,
            tables: t,
            action: Ok(SyncActionView::Poll(poll(api, t.token))),
        },
        SyncEventView::Polled(Ok(resp)) => match folded(t, resp) {
            Err(e) => SyncStep { lap: v, tables: t, action: Err(e) },
            Ok((new, after)) => SyncStep {
                lap: SyncView { changed: new, token: next_batch(resp), ..v },
                tables: after,
                action: Ok(
                    SyncActionView::TakeUpWelcomes(
                        WelcomePassView {
                            rest: if has_engine {
                                welcomes_in(resp)
                            } else {
                                seq![]
                            },
                            joined: false,
                        },
                    ),
                ),
            },
        },
        SyncEventView::Polled(Err(ApiErrorView::Network(_))) => SyncStep {
            lap: SyncView { backoff_ms: longer(v.backoff_ms), ..v },
            tables: t,
            action: Ok(SyncActionView::Disconnected(v.backoff_ms)),
        },
        SyncEventView::Polled(Err(e)) => SyncStep {
            lap: v,
            tables: t,
            action: Err(crate::error::of_api(e)),
        },
        SyncEventView::Welcomed(joined) => SyncStep {
            lap: SyncView { changed: v.changed || joined, ..v },
            tables: t,
            action: Ok(SyncActionView::ProcessInbound),
        },
        SyncEventView::Processed(Err(e)) => SyncStep { lap: v, tables: t, action: Err(e) },
        SyncEventView::Processed(Ok(changed)) => SyncStep {
            lap: SyncView { changed: v.changed || changed, ..v },
            tables: t,
            action: Ok(SyncActionView::Flush),
        },
        SyncEventView::Flushed(Err(e)) => SyncStep { lap: v, tables: t, action: Err(e) },
        SyncEventView::Flushed(Ok(changed)) => SyncStep {
            lap: SyncView { backoff_ms: BACKOFF_START_MS, changed: false, token: None },
            tables: with_token(t, v.token),
            action: Ok(SyncActionView::Connected(v.changed || changed)),
        },
    }
}

/// The token is kept last: no step keeps it but the one that follows when all
/// that the response asked for is done.
pub proof fn token_is_kept_last(
    v: SyncView,
    t: Tables,
    api: ApiView,
    has_engine: bool,
    event: SyncEventView,
)
    ensures
        sync_step(v, t, api, has_engine, event).tables.token != t.token ==> event matches
            SyncEventView::Flushed(Ok(_)),
{
    if let SyncEventView::Polled(Ok(resp)) = event {
        if let Ok(evs) = crate::store::parse_batch(timeline_events(resp)) {
            crate::store::laws::log_is_append_only(t, evs);
        }
    }
}

/// The time before a retry stays within its bounds, doubles while the server is
/// not reached, and starts anew once it was.
pub proof fn backoff_stays_in_bounds(
    v: SyncView,
    t: Tables,
    api: ApiView,
    has_engine: bool,
    event: SyncEventView,
)
    requires
        v.wf(),
    ensures
        sync_step(v, t, api, has_engine, event).lap.wf(),
        event matches SyncEventView::Polled(Err(ApiErrorView::Network(_))) ==> sync_step(
            v,
            t,
            api,
            has_engine,
            event,
        ).lap.backoff_ms == (if 2 * v.backoff_ms <= BACKOFF_MAX_MS {
            2 * v.backoff_ms
        } else {
            BACKOFF_MAX_MS as int
        }),
        event matches SyncEventView::Flushed(Ok(_)) ==> sync_step(
            v,
            t,
            api,
            has_engine,
            event,
        ).lap.backoff_ms == BACKOFF_START_MS,
{
}

/// Not reaching the server never ends the loop, and leaves the store as it is.
pub proof fn being_offline_is_not_fatal(
    v: SyncView,
    t: Tables,
    api: ApiView,
    has_engine: bool,
    reason: Seq<char>,
)
    ensures
        ({
            let step = sync_step(
                v,
                t,
                api,
                has_engine,
                SyncEventView::Polled(Err(ApiErrorView::Network(reason))),
            );
            step.action is Ok && step.tables == t
        }),
{
}

/// What the engine and the server have to say in the course of a round: the answer
/// to the poll, the group to which an invitation leads, the text of a message that
/// came, the ciphertext of one that is sent, and the answer to an attempt to send.
pub struct RoundAnswers {
    pub polled: spec_fn(RequestView) -> Result<JsonView, ApiErrorView>,
    pub joins: spec_fn(WelcomeView) -> Option<Seq<char>>,
    pub text: spec_fn(MlsView) -> Option<Seq<char>>,
    pub ciphertext: spec_fn(PendingView) -> Option<Seq<char>>,
    pub server: spec_fn(Attempt) -> Result<Seq<char>, ApiErrorView>,
}

/// Who runs the loop: the user, and whether there is an engine.
pub struct Runner {
    pub user_id: Seq<char>,
    pub has_engine: bool,
}

/// What a round comes to: how the loop goes on, what the store then holds, which
/// groups are held, and what the round ends with.
pub struct RoundOutcome {
    pub lap: SyncView,
    pub tables: Tables,
    pub groups: Set<Seq<char>>,
    pub last: Result<SyncActionView, CoreErrorView>,
}

/// How many steps of a round an event leaves.
pub open spec fn steps_left(event: SyncEventView) -> int {
    match event {
        SyncEventView::Ready => 4,
        SyncEventView::Polled(_) => 3,
        SyncEventView::Welcomed(_) => 2,
        SyncEventView::Processed(_) => 1,
        SyncEventView::Flushed(_) => 0,
    }
}

/// The pass over the inbound events that wait, where the given groups are held.
pub open spec fn inbound_pass(
    t: Tables,
    runner: Runner,
    groups: Set<Seq<char>>,
    answers: RoundAnswers,
) -> Result<PassOutcome, CoreErrorView> {
    let found = if runner.has_engine {
        crate::store::inbound::inbound_of(t.waiting(true))
    } else {
        Ok(seq![])
    };
    match found {
        Err(e) => Err(CoreErrorView::Storage(e.words())),
        Ok(items) => Ok(
            crate::inbound::run_pass(
                InboundView { rest: items, user_id: runner.user_id, changed: false },
                t,
                InboundEventView::Begin,
                EngineAnswers {
                    held: |room: Seq<char>| groups.contains(room),
                    text: answers.text,
                },
            ),
        ),
    }
}

/// The messages that wait to be sent, oldest first.
pub open spec fn waiting_sends(t: Tables) -> Seq<PendingView> {
    t.outbox().map_values(|row: SendRec| crate::store::outbox::pending_of(row))
}

/// What is said to a pass over the outbound queue, where the given groups are held.
pub open spec fn flush_answers(groups: Set<Seq<char>>, answers: RoundAnswers) -> FlushAnswers {
    FlushAnswers {
        held: |room: Seq<char>| Some(groups.contains(room)),
        ciphertext: answers.ciphertext,
        server: answers.server,
    }
}

/// The pass over the outbound queue, where the given groups are held.
pub open spec fn outbound_pass(
    t: Tables,
    runner: Runner,
    groups: Set<Seq<char>>,
    answers: RoundAnswers,
) -> FlushOutcome {
    crate::send::run_flush(
        FlushView { rest: waiting_sends(t), has_engine: runner.has_engine, changed: false },
        t,
        FlushEventView::Begin,
        flush_answers(groups, answers),
    )
}

/// A round of the loop from an event to its end, step by step, each of its passes
/// run to its own end, with the given answers.
pub open spec fn run_round(
    v: SyncView,
    t: Tables,
    api: ApiView,
    runner: Runner,
    groups: Set<Seq<char>>,
    event: SyncEventView,
    answers: RoundAnswers,
) -> RoundOutcome
    decreases steps_left(event),
{
    let step = sync_step(v, t, api, runner.has_engine, event);
    match step.action {
        Ok(SyncActionView::Poll(request)) => run_round(
            step.lap,
            step.tables,
            api,
            runner,
            groups,
            SyncEventView::Polled((answers.polled)(request)),
            answers,
        ),
        Ok(SyncActionView::TakeUpWelcomes(pass)) => {
            let (held, joined) = run_welcomes(
                pass,
                groups,
                WelcomeEventView::Begin,
                answers.joins,
            );
            run_round(
                step.lap,
                step.tables,
                api,
                runner,
                held,
                SyncEventView::Welcomed(joined),
                answers,
            )
        },
        Ok(SyncActionView::ProcessInbound) => match inbound_pass(
            step.tables,
            runner,
            groups,
            answers,
        ) {
            Ok(pass) => run_round(
                step.lap,
                pass.tables,
                api,
                runner,
                groups,
                SyncEventView::Processed(Ok(pass.changed)),
                answers,
            ),
            Err(e) => run_round(
                step.lap,
                step.tables,
                api,
                runner,
                groups,
                SyncEventView::Processed(Err(e)),
                answers,
            ),
        },
        Ok(SyncActionView::Flush) => {
            let pass = outbound_pass(step.tables, runner, groups, answers);
            run_round(
                step.lap,
                pass.tables,
                api,
                runner,
                groups,
                SyncEventView::Flushed(pass.result),
                answers,
            )
        },
        _ => RoundOutcome { lap: step.lap, tables: step.tables, groups, last: step.action },
    }
}

proof fn lemma_processing_keeps_the_store(
    t: Tables,
    items: Seq<MlsView>,
    user: Seq<char>,
    engine: EngineAnswers,
)
    requires
        t.settled(),
        t.echoed(),
    ensures
        crate::inbound::after_items(t, items, user, engine).settled(),
        crate::inbound::after_items(t, items, user, engine).echoed(),
        crate::inbound::after_items(t, items, user, engine).token == t.token,
    decreases items.len(),
{
    if items.len() > 0 {
        let item = items[0];
        let after = crate::inbound::after_item(t, item, user, engine);
        let call = if item.is_commit {
            crate::store::settled::StoreCall::SetCommitProcessed(item.event_id)
        } else {
            match (engine.text)(item) {
                Some(text) => crate::store::settled::StoreCall::SetDecrypted(item.event_id, text),
                None => crate::store::settled::StoreCall::SetDecryptFailed(item.event_id),
            }
        };
        crate::store::settled::call_keeps_settled(t, call);
        crate::store::echoes::call_keeps_echoes(t, call);
        assert(after == t || after == t.after_call(call));
        lemma_processing_keeps_the_store(after, items.drop_first(), user, engine);
    }
}

/// One round from a response that can be folded in: the response is folded into the
/// store, its invitations are taken up, the events that wait are processed with the
/// groups held by then, and the outbound queue is delivered. The round ends with the
/// token of the response kept. It reports a change exactly where an event was new, a
/// group was joined, a message was processed or a queued message was settled. Where
/// the events that wait cannot be read, the round fails, and the token is not kept.
pub proof fn round_ends_with_the_token_kept(
    v: SyncView,
    t: Tables,
    api: ApiView,
    runner: Runner,
    groups: Set<Seq<char>>,
    answers: RoundAnswers,
    resp: JsonView,
)
    requires
        t.settled(),
        t.echoed(),
        (answers.polled)(poll(api, t.token)) == Ok::<JsonView, ApiErrorView>(resp),
        folded(t, resp) is Ok,
    ensures
        ({
            let round = run_round(v, t, api, runner, groups, SyncEventView::Ready, answers);
            let (new, after) = folded(t, resp)->Ok_0;
            let (held, joined) = run_welcomes(
                WelcomePassView {
                    rest: if runner.has_engine {
                        welcomes_in(resp)
                    } else {
                        seq![]
                    },
                    joined: false,
                },
                groups,
                WelcomeEventView::Begin,
                answers.joins,
            );
            match inbound_pass(after, runner, held, answers) {
                Err(e) => {
                    &&& round.last == Err::<SyncActionView, CoreErrorView>(e)
                    &&& round.tables == after
                    &&& round.tables.token == t.token
                },
                Ok(processed) => {
                    let flushed = outbound_pass(processed.tables, runner, held, answers);
                    let sends = waiting_sends(processed.tables);
                    let reached = crate::send::served(
                        sends,
                        runner.has_engine,
                        processed.tables,
                        flush_answers(held, answers),
                    );
                    let settled = crate::send::settled_of(
                        sends.take(reached as int),
                        runner.has_engine,
                        processed.tables,
                        flush_answers(held, answers),
                    );
                    &&& round.groups == held
                    &&& round.tables == with_token(flushed.tables, next_batch(resp))
                    &&& next_batch(resp) is Some ==> round.tables.token == next_batch(resp)
                    &&& round.lap == (SyncView {
                        backoff_ms: BACKOFF_START_MS,
                        changed: false,
                        token: None,
                    })
                    &&& round.last == Ok::<SyncActionView, CoreErrorView>(
                        SyncActionView::Connected(
                            new || joined || processed.asked.len() > 0 || settled.len() > 0,
                        ),
                    )
                },
            }
        }),
{
    let (new, after) = folded(t, resp)->Ok_0;
    let evs = crate::store::parse_batch(timeline_events(resp))->Ok_0;
    crate::store::settled::applying_keeps_settled(t, evs);
    crate::store::echoes::applying_keeps_echoes(t, evs);
    crate::store::laws::log_is_append_only(t, evs);
    let pass = WelcomePassView {
        rest: if runner.has_engine {
            welcomes_in(resp)
        } else {
            seq![]
        },
        joined: false,
    };
    let (held, joined) = run_welcomes(pass, groups, WelcomeEventView::Begin, answers.joins);
    let polled = SyncEventView::Polled(Ok(resp));
    let welcomed = SyncEventView::Welcomed(joined);
    let lap1 = SyncView { changed: new, token: next_batch(resp), ..v };
    let lap2 = SyncView { changed: new || joined, ..lap1 };
    assert(run_round(v, t, api, runner, groups, SyncEventView::Ready, answers) == run_round(
        v,
        t,
        api,
        runner,
        groups,
        polled,
        answers,
    ));
    assert(run_round(v, t, api, runner, groups, polled, answers) == run_round(
        lap1,
        after,
        api,
        runner,
        held,
        welcomed,
        answers,
    ));
    match inbound_pass(after, runner, held, answers) {
        Err(e) => {
            assert(run_round(lap1, after, api, runner, held, welcomed, answers) == run_round(
                lap2,
                after,
                api,
                runner,
                held,
                SyncEventView::Processed(Err(e)),
                answers,
            ));
        },
        Ok(processed) => {
            let items = if runner.has_engine {
                crate::store::inbound::inbound_of(after.waiting(true))->Ok_0
            } else {
                seq![]
            };
            let engine = EngineAnswers {
                held: |room: Seq<char>| held.contains(room),
                text: answers.text,
            };
            crate::inbound::pass_deals_with_each_item(
                InboundView { rest: items, user_id: runner.user_id, changed: false },
                after,
                engine,
            );
            lemma_processing_keeps_the_store(after, items, runner.user_id, engine);
            crate::send::pass_stops_at_the_first_unreached(
                FlushView {
                    rest: waiting_sends(processed.tables),
                    has_engine: runner.has_engine,
                    changed: false,
                },
                processed.tables,
                flush_answers(held, answers),
            );
            let flushed = outbound_pass(processed.tables, runner, held, answers);
            let lap3 = SyncView { changed: new || joined || processed.changed, ..lap2 };
            let done = SyncEventView::Processed(Ok(processed.changed));
            assert(run_round(lap1, after, api, runner, held, welcomed, answers) == run_round(
                lap2,
                processed.tables,
                api,
                runner,
                held,
                done,
                answers,
            ));
            assert(run_round(lap2, processed.tables, api, runner, held, done, answers)
                == run_round(
                lap3,
                flushed.tables,
                api,
                runner,
                held,
                SyncEventView::Flushed(flushed.result),
                answers,
            ));
        },
    }
}

/// A poll asks for what is new since the token that is kept, for half a minute and for a
/// hundred events of a room, and it is given up a quarter of a minute after that.
pub proof fn poll_goes_on_from_the_token(v: SyncView, t: Tables, api: ApiView, has_engine: bool)
    ensures
        sync_step(v, t, api, has_engine, SyncEventView::Ready).action matches Ok(
            SyncActionView::Poll(request),
        ) && request.verb == crate::api::Verb::Get && request.url == api.base
            + "/_pigeon/client/v1/sync"@ && request.bearer == api.token && request.timeout_ms
            == Some(45_000u128) && request.query.len() == (if t.token is Some {
            3int
        } else {
            2int
        }) && request.query[0] == ("timeout"@, crate::text::decimal(30_000)) && request.query[1] == (
            "limit"@,
            crate::text::decimal(100),
        ) && (t.token matches Some(token) ==> request.query[2] == ("since"@, token)),
        sync_step(v, t, api, has_engine, SyncEventView::Ready).tables == t,
{
}

/// The token of a response is its `next_batch`, and keeping it changes nothing else; a
/// response without one keeps what is there.
pub proof fn token_is_that_of_the_response(t: Tables, resp: JsonView)
    ensures
        ({
            let after = with_token(t, next_batch(resp));
            &&& resp.at("next_batch"@) matches JsonView::Str(token) ==> after.token == Some(token)
            &&& !(resp.at("next_batch"@) is Str) ==> after.token == t.token
            &&& after.events == t.events
            &&& after.state == t.state
            &&& after.sends == t.sends
        }),
{
}

/// A refusal of the server, and a response that cannot be folded in, end the loop with
/// what they say, and leave the store as it is; not reaching the server does not end it,
/// and the wait is the one that was due.
pub proof fn loop_ends_on_refusals(
    v: SyncView,
    t: Tables,
    api: ApiView,
    has_engine: bool,
    e: ApiErrorView,
    resp: JsonView,
    why: CoreErrorView,
)
    ensures
        !(e is Network) ==> sync_step(v, t, api, has_engine, SyncEventView::Polled(Err(e))).action
            == Err::<SyncActionView, CoreErrorView>(crate::error::of_api(e)),
        e is Network ==> sync_step(v, t, api, has_engine, SyncEventView::Polled(Err(e))).action
            == Ok::<SyncActionView, CoreErrorView>(SyncActionView::Disconnected(v.backoff_ms)),
        sync_step(v, t, api, has_engine, SyncEventView::Polled(Err(e))).tables == t,
        folded(t, resp) matches Err(fault) ==> sync_step(
            v,
            t,
            api,
            has_engine,
            SyncEventView::Polled(Ok(resp)),
        ).action == Err::<SyncActionView, CoreErrorView>(fault) && sync_step(
            v,
            t,
            api,
            has_engine,
            SyncEventView::Polled(Ok(resp)),
        ).tables == t,
        sync_step(v, t, api, has_engine, SyncEventView::Processed(Err(why))).action == Err::<
            SyncActionView,
            CoreErrorView,
        >(why),
        sync_step(v, t, api, has_engine, SyncEventView::Flushed(Err(why))).action == Err::<
            SyncActionView,
            CoreErrorView,
        >(why),
        sync_step(v, t, api, has_engine, SyncEventView::Flushed(Err(why))).tables == t,
{
}

/// A response can be folded in exactly where each of its events can be read; where one
/// cannot, the complaint is that of the store.
pub proof fn response_is_folded_whole(t: Tables, resp: JsonView)
    ensures
        folded(t, resp) is Ok <==> forall|i: int|
            0 <= i < timeline_events(resp).len() ==> crate::event::parse_event(
                #[trigger] timeline_events(resp)[i],
            ) is Ok,
        folded(t, resp) matches Err(e) ==> e is Storage,
{
    crate::store::faithful::batch_is_read_one_by_one(timeline_events(resp));
}

/// An invitation is taken up as it asks: one that names a room only after the room's group
/// was looked for, and only where it is not held; one that names none at once. The next
/// one is the first of those that are left.
pub proof fn invitations_are_taken_up_in_order(
    v: WelcomePassView,
    w: WelcomeView,
    groups: Set<Seq<char>>,
    joins: spec_fn(WelcomeView) -> Option<Seq<char>>,
)
    ensures
        v.rest.len() == 0 ==> welcome_step(v, WelcomeEventView::Begin).1
            == WelcomeActionView::Done(v.joined),
        v.rest.len() > 0 ==> welcome_step(v, WelcomeEventView::Begin).0.rest == v.rest.skip(1),
        v.rest.len() > 0 && v.rest[0].room_id is Some ==> welcome_step(
            v,
            WelcomeEventView::Begin,
        ).1 == WelcomeActionView::CheckGroup(v.rest[0]),
        v.rest.len() > 0 && v.rest[0].room_id is None ==> welcome_step(
            v,
            WelcomeEventView::Begin,
        ).1 == WelcomeActionView::Join(v.rest[0]),
        welcome_step(v, WelcomeEventView::Group(w, Some(false))) == (
            v,
            WelcomeActionView::Join(w),
        ),
        welcome_step(v, WelcomeEventView::Group(w, None)) == welcome_step(
            v,
            WelcomeEventView::Begin,
        ),
        welcome_step(v, WelcomeEventView::Group(w, Some(true))) == welcome_step(
            v,
            WelcomeEventView::Begin,
        ),
        welcome_step(v, WelcomeEventView::Joined(false)) == welcome_step(
            v,
            WelcomeEventView::Begin,
        ),
        welcome_step(v, WelcomeEventView::Joined(true)).0.joined,
        groups.contains(w.room_id->0) ==> after_welcome(groups, w, joins) == groups,
        !groups.contains(w.room_id->0) ==> (joins(w) matches Some(group) ==> after_welcome(
            groups,
            w,
            joins,
        ) == groups.insert(group)),
        joins(w) is None ==> after_welcome(groups, w, joins) == groups,
{
}

impl SyncLoop {
    /// A loop that has not begun.
    pub fn new() -> (r: SyncLoop)
        ensures
            r@ == (SyncView { backoff_ms: BACKOFF_START_MS, changed: false, token: None }),
            r@.wf(),
    {
        SyncLoop { backoff_ms: BACKOFF_START_MS, changed: false, token: None }
    }

    /// One step of the loop.
    pub fn next(&mut self, store: &mut Store, api: &Api, has_engine: bool, event: SyncEvent) -> (r:
        Result<SyncAction, CoreError>)
        requires
            old(store).wf(),
            old(self)@.wf(),
        ensures
            final(store).wf(),
            final(self)@.wf(),
            final(store).follows(*old(store)),
            ({
                let step = sync_step(old(self)@, old(store).tables(), api@, has_engine, event@);
                &&& final(self)@ == step.lap
                &&& final(store).tables() == step.tables
                &&& crate::error::core_outcome(r) == step.action
            }),
    {
        proof {
            crate::store::lemma_follows_itself(*store);
        }
        match event {
            SyncEvent::Ready => {
                let since = match store.load_sync_token() {
                    Ok(s) => s,
                    Err(e) => return Err(CoreError::of_store(e)),
                };
                let request = match &since {
                    Some(s) => api.sync(Some(s.as_str()), SYNC_TIMEOUT_MS, SYNC_LIMIT),
                    None => api.sync(None, SYNC_TIMEOUT_MS, SYNC_LIMIT),
                };
                Ok(SyncAction::Poll(request))
            },
            SyncEvent::Polled(reply) => match reply {
                Ok(resp) => {
                    let new = match fold_sync(store, &resp) {
                        Ok(b) => b,
                        Err(e) => return Err(e),
                    };
                    self.changed = new;
                    self.token = resp.string_at("next_batch");
                    Ok(SyncAction::TakeUpWelcomes(WelcomePass::new(&resp, has_engine)))
                },
                Err(e) => match e {
                    ApiError::Network { reason } => {
                        let wait_ms: u64 = self.backoff_ms;
                        self.backoff_ms = if 2 * wait_ms <= BACKOFF_MAX_MS {
                            2 * wait_ms
                        } else {
                            BACKOFF_MAX_MS
                        };
                        Ok(SyncAction::Disconnected { wait_ms })
                    },
                    _ => Err(CoreError::of_api(e)),
                },
            },
            SyncEvent::Welcomed(joined) => {
                self.changed = self.changed || joined;
                Ok(SyncAction::ProcessInbound)
            },
            SyncEvent::Processed(answer) => match answer {
                Err(e) => Err(e),
                Ok(changed) => {
                    self.changed = self.changed || changed;
                    Ok(SyncAction::Flush)
                },
            },
            SyncEvent::Flushed(answer) => match answer {
                Err(e) => Err(e),
                Ok(changed) => {
                    let all = self.changed || changed;
                    match &self.token {
                        Some(token) => match store.save_sync_token(token.as_str()) {
                            Ok(_) => {},
                            Err(e) => return Err(CoreError::of_store(e)),
                        },
                        None => {},
                    }
                    self.backoff_ms = BACKOFF_START_MS;
                    self.changed = false;
                    self.token = None;
                    Ok(SyncAction::Connected { changed: all })
                },
            },
        }
    }
}

/// A lap of the loop goes on by what happened, stage after stage: what came is folded in,
/// then the invitations are taken up, what waits is processed, and the outbox is flushed;
/// the lap has changed something exactly where one of its stages did.
pub proof fn lap_goes_on_by_what_happened(
    v: SyncView,
    t: Tables,
    api: ApiView,
    has_engine: bool,
    resp: JsonView,
    evs: Seq<crate::event::StoredView>,
    flag: bool,
)
    ensures
        crate::store::parse_batch(timeline_events(resp)) == Ok::<
            Seq<crate::event::StoredView>,
            crate::event::StoreErrorView,
        >(evs) ==> ({
            let step = sync_step(v, t, api, has_engine, SyncEventView::Polled(Ok(resp)));
            &&& step.tables == t.apply_all(evs)
            &&& step.lap.changed == (t.apply_all(evs).events.len() > t.events.len())
            &&& step.lap.backoff_ms == v.backoff_ms
            &&& match resp.at("next_batch"@) {
                JsonView::Str(token) => step.lap.token == Some(token),
                _ => step.lap.token is None,
            }
            &&& step.action matches Ok(SyncActionView::TakeUpWelcomes(pass)) && !pass.joined
                && pass.rest == (if has_engine {
                welcomes_in(resp)
            } else {
                seq![]
            })
        }),
        ({
            let step = sync_step(v, t, api, has_engine, SyncEventView::Welcomed(flag));
            &&& step.tables == t
            &&& step.lap.changed == (v.changed || flag)
            &&& step.lap.token == v.token
            &&& step.lap.backoff_ms == v.backoff_ms
            &&& step.action == Ok::<SyncActionView, CoreErrorView>(SyncActionView::ProcessInbound)
        }),
        ({
            let step = sync_step(v, t, api, has_engine, SyncEventView::Processed(Ok(flag)));
            &&& step.tables == t
            &&& step.lap.changed == (v.changed || flag)
            &&& step.lap.token == v.token
            &&& step.lap.backoff_ms == v.backoff_ms
            &&& step.action == Ok::<SyncActionView, CoreErrorView>(SyncActionView::Flush)
        }),
        ({
            let step = sync_step(v, t, api, has_engine, SyncEventView::Flushed(Ok(flag)));
            &&& step.tables.events == t.events
            &&& step.tables.state == t.state
            &&& step.tables.sends == t.sends
            &&& step.tables.token == (if v.token is Some {
                v.token
            } else {
                t.token
            })
            &&& !step.lap.changed
            &&& step.lap.backoff_ms == 1_000
            &&& step.action == Ok::<SyncActionView, CoreErrorView>(
                SyncActionView::Connected(v.changed || flag),
            )
        }),
{
    crate::store::laws::new_events_are_counted(t, evs);
}

/// The wait after a server was not reached is twice the one before, and half a minute at
/// most.
pub proof fn waits_double_up_to_a_bound(
    v: SyncView,
    t: Tables,
    api: ApiView,
    has_engine: bool,
    reason: Seq<char>,
)
    ensures
        ({
            let step = sync_step(
                v,
                t,
                api,
                has_engine,
                SyncEventView::Polled(Err(ApiErrorView::Network(reason))),
            );
            &&& 2 * v.backoff_ms <= 30_000 ==> step.lap.backoff_ms == 2 * v.backoff_ms
            &&& 2 * v.backoff_ms > 30_000 ==> step.lap.backoff_ms == 30_000
            &&& step.lap.changed == v.changed
            &&& step.lap.token == v.token
        }),
{
}

/// What a pass over the outbox sends is each message that is queued, oldest first, and
/// nothing else.
pub proof fn outbox_is_what_is_sent(t: Tables, i: int)
    ensures
        waiting_sends(t).len() == t.outbox().len(),
        0 <= i < t.outbox().len() ==> waiting_sends(t)[i].txn_id == t.outbox()[i].txn_id
            && waiting_sends(t)[i].room_id == t.outbox()[i].room_id && waiting_sends(t)[i].body
            == t.outbox()[i].body,
{
}

/// A list of invitations shows its invitations, each at its own place with its own
/// fields.
pub proof fn invitations_show_their_fields(v: Seq<Welcome>, i: int)
    ensures
        welcome_views(v).len() == v.len(),
        0 <= i < v.len() ==> welcome_views(v)[i].welcome_b64 == v[i].welcome_b64@ && (
        match v[i].room_id {
            Some(room) => welcome_views(v)[i].room_id == Some(room@),
            None => welcome_views(v)[i].room_id is None,
        }),
{
}

/// In a lap a message is encrypted, and an event decrypted, for the rooms whose groups are
/// held, and for no others.
pub proof fn lap_uses_the_held_groups(
    groups: Set<Seq<char>>,
    answers: RoundAnswers,
    room: Seq<char>,
)
    ensures
        (flush_answers(groups, answers).held)(room) == Some(groups.contains(room)),
        flush_answers(groups, answers).ciphertext == answers.ciphertext,
        flush_answers(groups, answers).server == answers.server,
{
}

} // verus!
