//! The room list.

use vstd::prelude::*;
use vstd::string::*;

use crate::codec::write_json;
use crate::event::{StoreError, StoreErrorView};
use crate::json::{child, Json, JsonView};
use crate::order::{order_of, KeyView, SortKey};
use crate::store::Store;
use crate::table::{EventRec, StateRec, Tables};
use crate::text::{join3, str_eq};

verus! {

/// Where the room list reads the name of a room, in the words of the database.
pub const NAME_COLUMN: &'static str = " at index: 1, name: (SELECT json_extract(e.payload, '$.content.name')\n                      FROM room_state s JOIN events e ON e.event_id = s.event_id\n                     WHERE s.room_id = r.room_id AND s.type = 'p.room.name' AND s.state_key = '')";

/// Where the room list reads the topic of a room, in the words of the database.
pub const TOPIC_COLUMN: &'static str = " at index: 2, name: (SELECT json_extract(e.payload, '$.content.topic')\n                      FROM room_state s JOIN events e ON e.event_id = s.event_id\n                     WHERE s.room_id = r.room_id AND s.type = 'p.room.topic' AND s.state_key = '')";

/// A room as the room list shows it.
#[derive(Debug, Clone, PartialEq, Eq)]
pub struct RoomSummary {
    pub room_id: String,
    pub name: Option<String>,
    pub topic: Option<String>,
    pub encrypted: bool,
    /// The latest sender clock in the room, in milliseconds.
    pub last_activity_ts: i64,
}

/// What a [`RoomSummary`] holds.
pub struct SummaryView {
    pub room_id: Seq<char>,
    pub name: Option<Seq<char>>,
    pub topic: Option<Seq<char>>,
    pub encrypted: bool,
    pub last_activity_ts: i64,
}

impl View for RoomSummary {
    type V = SummaryView;

    open spec fn view(&self) -> SummaryView {
        SummaryView {
            room_id: self.room_id@,
            name: crate::json::opt_string_view(self.name),
            topic: crate::json::opt_string_view(self.topic),
            encrypted: self.encrypted,
            last_activity_ts: self.last_activity_ts,
        }
    }
}

/// The complaint about a column that holds no text.
pub open spec fn no_text(kind: Seq<char>, column: Seq<char>) -> StoreErrorView {
    StoreErrorView::Db("Invalid column type "@ + kind + column)
}

/// A JSON value as a text column of a query: a string as it is, an array or an
/// object as JSON text, null where there is none. A number or a truth value is
/// no text.
pub open spec fn extract_text(j: JsonView, column: Seq<char>) -> Result<
    Option<Seq<char>>,
    StoreErrorView,
> {
    match j {
        JsonView::Null => Ok(None),
        JsonView::Str(s) => Ok(Some(s)),
        JsonView::Array(_) => Ok(Some(crate::codec::json_text(crate::codec::normal(j)))),
        JsonView::Object(_) => Ok(Some(crate::codec::json_text(crate::codec::normal(j)))),
        JsonView::Bool(_) => Err(no_text("Integer"@, column)),
        JsonView::NegInt(_) => Err(no_text("Integer"@, column)),
        JsonView::PosInt(n) => if n <= i64::MAX {
            Err(no_text("Integer"@, column))
        } else {
            Err(no_text("Real"@, column))
        },
        JsonView::Float(_) => Err(no_text("Real"@, column)),
    }
}

/// The rooms that have state, each once.
pub open spec fn room_ids(state: Seq<StateRec>) -> Seq<Seq<char>>
    decreases state.len(),
{
    if state.len() == 0 {
        seq![]
    } else {
        let before = room_ids(state.drop_last());
        if before.contains(state.last().room_id) {
            before
        } else {
            before.push(state.last().room_id)
        }
    }
}

/// The latest sender clock among a room's events.
pub open spec fn latest_ts(events: Seq<EventRec>, room: Seq<char>) -> Option<i64>
    decreases events.len(),
{
    if events.len() == 0 {
        None
    } else {
        let before = latest_ts(events.drop_last(), room);
        let ts = events.last().origin_server_ts;
        if events.last().room_id != room {
            before
        } else {
            match before {
                Some(b) if b >= ts => Some(b),
                _ => Some(ts),
            }
        }
    }
}

impl Tables {
    /// The latest sender clock in a room, zero where it has no events.
    pub open spec fn activity(self, room: Seq<char>) -> i64 {
        match latest_ts(self.events, room) {
            Some(ts) => ts,
            None => 0,
        }
    }

    /// A member of the content of the event that sets a piece of a room's state.
    pub open spec fn state_text(
        self,
        room: Seq<char>,
        event_type: Seq<char>,
        member: Seq<char>,
        column: Seq<char>,
    ) -> Result<Option<Seq<char>>, StoreErrorView> {
        match self.state_event(room, event_type, ""@) {
            Some(row) => extract_text(row.payload.at("content"@).at(member), column),
            None => Ok(None),
        }
    }

    /// A room as the room list shows it.
    pub open spec fn summary(self, room: Seq<char>) -> Result<SummaryView, StoreErrorView> {
        match self.state_text(room, "p.room.name"@, "name"@, NAME_COLUMN@) {
            Err(e) => Err(e),
            Ok(name) => match self.state_text(
                room,
                "p.room.topic"@,
                "topic"@,
                TOPIC_COLUMN@,
            ) {
                Err(e) => Err(e),
                Ok(topic) => Ok(
                    SummaryView {
                        room_id: room,
                        name,
                        topic,
                        encrypted: self.is_encrypted(room),
                        last_activity_ts: self.activity(room),
                    },
                ),
            },
        }
    }

    /// Rooms are ordered by their latest activity, the newest first; those of one
    /// time by their id.
    pub open spec fn room_key(self) -> spec_fn(Seq<char>) -> KeyView {
        |room: Seq<char>| KeyView { num: -(self.activity(room) as int), text: room }
    }

    /// The rooms of the room list, in its order.
    pub open spec fn rooms(self) -> Seq<Seq<char>> {
        crate::order::order_by(room_ids(self.state), self.room_key())
    }

    /// The summaries of a list of rooms, or the complaint about the first that
    /// has none.
    pub open spec fn summaries(self, rooms: Seq<Seq<char>>) -> Result<
        Seq<SummaryView>,
        StoreErrorView,
    >
        decreases rooms.len(),
    {
        if rooms.len() == 0 {
            Ok(seq![])
        } else {
            match self.summaries(rooms.drop_last()) {
                Err(e) => Err(e),
                Ok(before) => match self.summary(rooms.last()) {
                    Err(e) => Err(e),
                    Ok(one) => Ok(before.push(one)),
                },
            }
        }
    }
}

proof fn lemma_latest(events: Seq<EventRec>, room: Seq<char>)
    ensures
        forall|i: int|
            0 <= i < events.len() && (#[trigger] events[i]).room_id == room ==> latest_ts(
                events,
                room,
            ) is Some && events[i].origin_server_ts <= latest_ts(events, room)->0,
        latest_ts(events, room) is Some ==> exists|i: int|
            0 <= i < events.len() && (#[trigger] events[i]).room_id == room
                && events[i].origin_server_ts == latest_ts(events, room)->0,
    decreases events.len(),
{
    if events.len() > 0 {
        let rest = events.drop_last();
        lemma_latest(rest, room);
        assert forall|i: int|
            0 <= i < events.len() && (#[trigger] events[i]).room_id == room implies latest_ts(
            events,
            room,
        ) is Some && events[i].origin_server_ts <= latest_ts(events, room)->0 by {
            if i < rest.len() {
                assert(rest[i] == events[i]);
            }
        }
        if latest_ts(events, room) is Some {
            if latest_ts(events, room) == latest_ts(rest, room) {
                let k = choose|i: int|
                    0 <= i < rest.len() && (#[trigger] rest[i]).room_id == room
                        && rest[i].origin_server_ts == latest_ts(rest, room)->0;
                assert(events[k] == rest[k]);
            } else {
                assert(events[events.len() - 1].room_id == room);
            }
        }
    }
}

/// The activity of a room is the greatest clock of its events: none of them is later,
/// and one of them is of that time. A room without events has none.
pub proof fn activity_is_the_latest_clock(t: Tables, room: Seq<char>)
    ensures
        forall|i: int|
            0 <= i < t.events.len() && (#[trigger] t.events[i]).room_id == room
                ==> t.events[i].origin_server_ts <= t.activity(room),
        (exists|i: int| 0 <= i < t.events.len() && (#[trigger] t.events[i]).room_id == room)
            ==> exists|k: int|
            0 <= k < t.events.len() && (#[trigger] t.events[k]).room_id == room
                && t.events[k].origin_server_ts == t.activity(room),
        (forall|i: int| 0 <= i < t.events.len() ==> (#[trigger] t.events[i]).room_id != room)
            ==> t.activity(room) == 0,
{
    lemma_latest(t.events, room);
}

/// What the room list says of a room is what the room holds: its id, its greatest
/// clock, that it is encrypted where state says so, and as its name and its topic the
/// texts of the events that currently set them.
pub proof fn summary_says_what_the_room_holds(t: Tables, room: Seq<char>)
    requires
        t.summary(room) is Ok,
    ensures
        ({
            let s = t.summary(room)->Ok_0;
            &&& s.room_id == room
            &&& s.last_activity_ts == t.activity(room)
            &&& s.encrypted <==> exists|i: int|
                0 <= i < t.state.len() && (#[trigger] t.state[i]).room_id == room
                    && t.state[i].event_type == "p.room.encryption"@
            &&& match t.state_event(room, "p.room.name"@, ""@) {
                Some(row) => match row.payload.at("content"@).at("name"@) {
                    JsonView::Str(text) => s.name == Some(text),
                    JsonView::Null => s.name is None,
                    other => s.name == Some(
                        crate::codec::json_text(crate::codec::normal(other)),
                    ),
                },
                None => s.name is None,
            }
            &&& match t.state_event(room, "p.room.topic"@, ""@) {
                Some(row) => match row.payload.at("content"@).at("topic"@) {
                    JsonView::Str(text) => s.topic == Some(text),
                    JsonView::Null => s.topic is None,
                    other => s.topic == Some(
                        crate::codec::json_text(crate::codec::normal(other)),
                    ),
                },
                None => s.topic is None,
            }
        }),
{
}

proof fn lemma_summaries(t: Tables, rooms: Seq<Seq<char>>, i: int)
    requires
        t.summaries(rooms) is Ok,
        0 <= i < rooms.len(),
    ensures
        t.summaries(rooms)->Ok_0.len() == rooms.len(),
        t.summary(rooms[i]) is Ok,
        t.summaries(rooms)->Ok_0[i] == t.summary(rooms[i])->Ok_0,
    decreases rooms.len(),
{
    reveal_with_fuel(Tables::summaries, 2);
    let rest = rooms.drop_last();
    if rest.len() > 0 {
        lemma_summaries(t, rest, 0);
    }
    if i < rest.len() {
        lemma_summaries(t, rest, i);
        assert(rest[i] == rooms[i]);
    }
}

/// The room list shows each room that has state once, the room of the latest activity
/// first, and of two with the same activity the one whose id is less: what is shown at
/// a place is the summary of its room.
pub proof fn room_list_is_by_latest_activity(t: Tables, i: int, j: int, k: int)
    requires
        t.summaries(t.rooms()) is Ok,
    ensures
        ({
            let list = t.summaries(t.rooms())->Ok_0;
            &&& 0 <= i < list.len() ==> t.summary(list[i].room_id) == Ok::<
                SummaryView,
                StoreErrorView,
            >(list[i])
            &&& 0 <= i < list.len() ==> exists|n: int|
                0 <= n < t.state.len() && (#[trigger] t.state[n]).room_id == list[i].room_id
            &&& 0 <= i < j < list.len() ==> list[i].room_id != list[j].room_id
            &&& 0 <= i < j < list.len() ==> list[i].last_activity_ts >= list[j].last_activity_ts
            &&& 0 <= i < j < list.len() && list[i].last_activity_ts == list[j].last_activity_ts
                ==> crate::text::text_lt(list[i].room_id, list[j].room_id)
            &&& 0 <= k < t.state.len() ==> exists|n: int|
                0 <= n < list.len() && (#[trigger] list[n]).room_id == t.state[k].room_id
        }),
{
    let rooms = t.rooms();
    let list = t.summaries(rooms)->Ok_0;
    if rooms.len() > 0 {
        lemma_summaries(t, rooms, 0);
    }
    if 0 <= i < list.len() {
        lemma_summaries(t, rooms, i);
        assert(rooms.contains(rooms[i]));
        crate::store::pages::rooms_are_listed_by_activity(t, rooms[i], i, j);
    }
    if 0 <= i < j < list.len() {
        lemma_summaries(t, rooms, j);
    }
    if 0 <= k < t.state.len() {
        crate::store::pages::rooms_are_listed_by_activity(t, t.state[k].room_id, i, j);
        let n = choose|n: int| 0 <= n < rooms.len() && rooms[n] == t.state[k].room_id;
        lemma_summaries(t, rooms, n);
        assert(list[n].room_id == t.state[k].room_id);
    }
}

/// The rooms can be listed exactly where each of them can be summed up; where one cannot,
/// the complaint is that of the first such room.
pub proof fn room_list_fault_is_that_of_a_room(t: Tables, rooms: Seq<Seq<char>>, k: int)
    ensures
        t.summaries(rooms) is Ok <==> forall|i: int|
            0 <= i < rooms.len() ==> t.summary(#[trigger] rooms[i]) is Ok,
        0 <= k < rooms.len() && t.summary(rooms[k]) is Err && (forall|i: int|
            0 <= i < k ==> t.summary(#[trigger] rooms[i]) is Ok) ==> t.summaries(rooms) == Err::<
            Seq<SummaryView>,
            StoreErrorView,
        >(t.summary(rooms[k])->Err_0),
    decreases rooms.len(),
{
    if rooms.len() > 0 {
        let rest = rooms.drop_last();
        room_list_fault_is_that_of_a_room(t, rest, k);
        assert(rooms[rooms.len() - 1] == rooms.last());
        assert(forall|i: int| 0 <= i < rest.len() ==> #[trigger] rest[i] == rooms[i]);
        assert(forall|i: int| 0 <= i < rest.len() ==> #[trigger] rooms[i] == rest[i]);
    }
}

/// A summary shows its own fields.
pub proof fn summaries_show_their_fields(r: RoomSummary)
    ensures
        r@.room_id == r.room_id@,
        r.name matches Some(s) ==> r@.name == Some(s@),
        r.name is None ==> r@.name is None,
        r.topic matches Some(s) ==> r@.topic == Some(s@),
        r.topic is None ==> r@.topic is None,
        r@.encrypted == r.encrypted,
        r@.last_activity_ts == r.last_activity_ts,
{
}

/// The values of a list of summaries.
pub open spec fn summary_views(rooms: Seq<RoomSummary>) -> Seq<SummaryView> {
    Seq::new(rooms.len(), |i: int| rooms[i]@)
}

/// The texts of a list of strings.
pub open spec fn string_views(v: Seq<String>) -> Seq<Seq<char>> {
    Seq::new(v.len(), |i: int| v[i]@)
}

proof fn lemma_summaries_fault(t: Tables, rooms: Seq<Seq<char>>, n: int)
    requires
        0 <= n <= rooms.len(),
        t.summaries(rooms.take(n)) is Err,
    ensures
        t.summaries(rooms) == t.summaries(rooms.take(n)),
    decreases rooms.len(),
{
    if n < rooms.len() {
        assert(rooms.drop_last().take(n) =~= rooms.take(n));
        lemma_summaries_fault(t, rooms.drop_last(), n);
    } else {
        assert(rooms.take(n) =~= rooms);
    }
}

/// Reads a JSON value as a text column.
pub(crate) fn column_text(j: Option<&Json>, column: &str) -> (r: Result<
    Option<String>,
    StoreError,
>)
    ensures
        match r {
            Ok(s) => extract_text(crate::json::opt_view(j), column@) == Ok::<
                Option<Seq<char>>,
                StoreErrorView,
            >(crate::json::opt_string_view(s)),
            Err(e) => extract_text(crate::json::opt_view(j), column@) == Err::<
                Option<Seq<char>>,
                StoreErrorView,
            >(e@),
        },
{
    let kind = match j {
        None => return Ok(None),
        Some(v) => match v {
            Json::Null => return Ok(None),
            Json::Str(s) => return Ok(Some(s.clone())),
            Json::Array(_) => return Ok(Some(write_json(v))),
            Json::Object(_) => return Ok(Some(write_json(v))),
            Json::Bool(_) => "Integer",
            Json::NegInt(_) => "Integer",
            Json::PosInt(n) => if *n <= i64::MAX as u64 {
                "Integer"
            } else {
                "Real"
            },
            Json::Float(_) => "Real",
        },
    };
    Err(StoreError::Db { reason: join3("Invalid column type ", kind, column) })
}

fn holds(ids: &Vec<String>, id: &str) -> (r: bool)
    ensures
        r == string_views(ids@).contains(id@),
{
    let mut i: usize = 0;
    while i < ids.len()
        invariant
            i <= ids@.len(),
            forall|j: int| 0 <= j < i ==> (#[trigger] string_views(ids@)[j]) != id@,
        decreases ids@.len() - i,
    {
        if str_eq(ids[i].as_str(), id) {
            assert(string_views(ids@)[i as int] == id@);
            return true;
        }
        i += 1;
    }
    false
}

impl Store {
    fn known_rooms(&self) -> (r: Vec<String>)
        ensures
            string_views(r@) == room_ids(self.tables().state),
    {
        let ghost state = self.tables().state;
        let mut ids: Vec<String> = Vec::new();
        let mut i: usize = 0;
        assert(state.take(0) =~= seq![]);
        assert(string_views(ids@) =~= seq![]);
        while i < self.state.len()
            invariant
                i <= self.state@.len(),
                state == self.tables().state,
                string_views(ids@) == room_ids(state.take(i as int)),
            decreases self.state@.len() - i,
        {
            assert(state.take(i + 1).drop_last() =~= state.take(i as int));
            assert(state.take(i + 1).last() == self.state@[i as int]@);
            let ghost before = string_views(ids@);
            let id = self.state[i].room_id.clone();
            if !holds(&ids, id.as_str()) {
                ids.push(id);
                assert(string_views(ids@) =~= before.push(id@));
            }
            i += 1;
        }
        assert(state.take(i as int) =~= state);
        ids
    }

    fn activity(&self, room: &str) -> (r: i64)
        ensures
            r == self.tables().activity(room@),
    {
        let ghost events = self.tables().events;
        let mut latest: Option<i64> = None;
        let mut i: usize = 0;
        assert(events.take(0) =~= seq![]);
        while i < self.events.len()
            invariant
                i <= self.events@.len(),
                events == self.tables().events,
                latest == latest_ts(events.take(i as int), room@),
            decreases self.events@.len() - i,
        {
            assert(events.take(i + 1).drop_last() =~= events.take(i as int));
            assert(events.take(i + 1).last() == self.events@[i as int]@);
            if str_eq(self.events[i].room_id.as_str(), room) {
                let ts: i64 = self.events[i].origin_server_ts;
                let later = match latest {
                    Some(b) => b < ts,
                    None => true,
                };
                if later {
                    latest = Some(ts);
                }
            }
            i += 1;
        }
        assert(events.take(i as int) =~= events);
        match latest {
            Some(ts) => ts,
            None => 0,
        }
    }

    fn state_text(&self, room: &str, event_type: &str, member: &str, column: &str) -> (r: Result<
        Option<String>,
        StoreError,
    >)
        requires
            self.wf(),
        ensures
            match r {
                Ok(s) => self.tables().state_text(room@, event_type@, member@, column@) == Ok::<
                    Option<Seq<char>>,
                    StoreErrorView,
                >(crate::json::opt_string_view(s)),
                Err(e) => self.tables().state_text(room@, event_type@, member@, column@) == Err::<
                    Option<Seq<char>>,
                    StoreErrorView,
                >(e@),
            },
    {
        match self.find_state(room, event_type, "") {
            None => Ok(None),
            Some(i) => {
                assert(self.tables().state[i as int] == self.state@[i as int]@);
                match self.find_event(self.state[i].event_id.as_str()) {
                    None => Ok(None),
                    Some(j) => {
                        assert(self.tables().events[j as int] == self.events@[j as int]@);
                        let payload = &self.events[j].payload;
                        column_text(child(payload.get("content"), member), column)
                    },
                }
            },
        }
    }

    fn summary(&self, room: &str) -> (r: Result<RoomSummary, StoreError>)
        requires
            self.wf(),
        ensures
            crate::event::outcome(r) == self.tables().summary(room@),
    {
        let name = match self.state_text(room, "p.room.name", "name", NAME_COLUMN) {
            Ok(n) => n,
            Err(e) => return Err(e),
        };
        let topic = match self.state_text(room, "p.room.topic", "topic", TOPIC_COLUMN) {
            Ok(t) => t,
            Err(e) => return Err(e),
        };
        let encrypted = match self.is_room_encrypted(room) {
            Ok(b) => b,
            Err(e) => return Err(e),
        };
        Ok(
            RoomSummary {
                room_id: room.to_owned(),
                name,
                topic,
                encrypted,
                last_activity_ts: self.activity(room),
            },
        )
    }

    /// The room list, the room with the latest activity first.
    pub fn list_rooms(&self) -> (r: Result<Vec<RoomSummary>, StoreError>)
        requires
            self.wf(),
        ensures
            match r {
                Ok(rooms) => self.tables().summaries(self.tables().rooms()) == Ok::<
                    Seq<SummaryView>,
                    StoreErrorView,
                >(summary_views(rooms@)),
                Err(e) => self.tables().summaries(self.tables().rooms()) == Err::<
                    Seq<SummaryView>,
                    StoreErrorView,
                >(e@),
            },
    {
        let ids = self.known_rooms();
        let ghost t = self.tables();
        let ghost rows = string_views(ids@);
        let mut keys: Vec<SortKey> = Vec::new();
        let mut i: usize = 0;
        while i < ids.len()
            invariant
                i <= ids@.len(),
                t == self.tables(),
                rows == string_views(ids@),
                keys@.len() == i,
                forall|j: int| 0 <= j < i ==> (#[trigger] keys@[j])@ == t.room_key()(rows[j]),
            decreases ids@.len() - i,
        {
            let key = SortKey {
                num: -(self.activity(ids[i].as_str()) as i128),
                text: ids[i].clone(),
            };
            assert(key@ == t.room_key()(rows[i as int]));
            keys.push(key);
            i += 1;
        }
        let order = order_of(&keys);
        let ghost rooms = t.rooms();
        proof {
            let pkey = crate::order::place_key(keys@);
            assert forall|j: int| 0 <= j < rows.len() implies #[trigger] pkey(j) == t.room_key()(
                rows[j],
            ) by {
                assert(keys@[j]@ == t.room_key()(rows[j]));
            }
            crate::order::lemma_order_places(rows, t.room_key(), rows.len(), pkey);
            assert(rows.take(rows.len() as int) =~= rows);
            assert(rooms =~= crate::order::rows_at(rows, crate::order::named_places(order@)));
        }
        let mut out: Vec<RoomSummary> = Vec::new();
        let mut k: usize = 0;
        assert(rooms.take(0) =~= seq![]);
        assert(summary_views(out@) =~= seq![]);
        while k < order.len()
            invariant
                k <= order@.len(),
                self.wf(),
                t == self.tables(),
                rows == string_views(ids@),
                rooms == t.rooms(),
                rooms == crate::order::rows_at(rows, crate::order::named_places(order@)),
                forall|j: int| 0 <= j < order@.len() ==> #[trigger] order@[j] < ids@.len(),
                t.summaries(rooms.take(k as int)) == Ok::<Seq<SummaryView>, StoreErrorView>(
                    summary_views(out@),
                ),
            decreases order@.len() - k,
        {
            let place: usize = order[k];
            assert(rooms[k as int] == ids@[place as int]@);
            assert(rooms.take(k + 1).drop_last() =~= rooms.take(k as int));
            match self.summary(ids[place].as_str()) {
                Ok(one) => {
                    let ghost before = summary_views(out@);
                    out.push(one);
                    assert(summary_views(out@) =~= before.push(one@));
                },
                Err(e) => {
                    proof {
                        lemma_summaries_fault(t, rooms, k + 1);
                    }
                    return Err(e);
                },
            }
            k += 1;
        }
        assert(rooms.take(k as int) =~= rooms);
        Ok(out)
    }
}

} // verus!
