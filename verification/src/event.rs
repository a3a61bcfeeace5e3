//! Timeline events as the store keeps them, read from their wire form.

use vstd::prelude::*;
use vstd::string::*;

use crate::json::{Json, JsonView};
use crate::text::{join3, str_eq};

verus! {

/// A failure of the local store.
#[derive(Debug)]
pub enum StoreError {
    /// The database refused an operation.
    Db { reason: String },
    /// An event lacks a field that the store needs to index it.
    Malformed { reason: String },
}

/// What a [`StoreError`] says.
pub enum StoreErrorView {
    Db(Seq<char>),
    Malformed(Seq<char>),
}

impl View for StoreError {
    type V = StoreErrorView;

    open spec fn view(&self) -> StoreErrorView {
        match self {
            StoreError::Db { reason } => StoreErrorView::Db(reason@),
            StoreError::Malformed { reason } => StoreErrorView::Malformed(reason@),
        }
    }
}

impl StoreErrorView {
    /// The error in words.
    pub open spec fn words(self) -> Seq<char> {
        match self {
            StoreErrorView::Db(reason) => "database error: "@ + reason,
            StoreErrorView::Malformed(reason) => "malformed event: "@ + reason,
        }
    }
}

impl StoreError {
    /// The error in words.
    pub fn describe(&self) -> (r: String)
        ensures
            r@ == self@.words(),
    {
        match self {
            StoreError::Db { reason } => crate::text::join2("database error: ", reason.as_str()),
            StoreError::Malformed { reason } => crate::text::join2(
                "malformed event: ",
                reason.as_str(),
            ),
        }
    }
}

/// A room member's membership. A wire value that is not known is kept as it is.
#[derive(Debug, Clone, PartialEq, Eq)]
pub enum Membership {
    Join,
    Invite,
    Leave,
    Ban,
    Knock,
    Other(String),
}

/// What a [`Membership`] says.
pub enum MembershipView {
    Join,
    Invite,
    Leave,
    Ban,
    Knock,
    Other(Seq<char>),
}

impl View for Membership {
    type V = MembershipView;

    open spec fn view(&self) -> MembershipView {
        match self {
            Membership::Join => MembershipView::Join,
            Membership::Invite => MembershipView::Invite,
            Membership::Leave => MembershipView::Leave,
            Membership::Ban => MembershipView::Ban,
            Membership::Knock => MembershipView::Knock,
            Membership::Other(s) => MembershipView::Other(s@),
        }
    }
}

/// The membership that a wire value names.
pub open spec fn membership_of(s: Seq<char>) -> MembershipView {
    if s == "join"@ {
        MembershipView::Join
    } else if s == "invite"@ {
        MembershipView::Invite
    } else if s == "leave"@ {
        MembershipView::Leave
    } else if s == "ban"@ {
        MembershipView::Ban
    } else if s == "knock"@ {
        MembershipView::Knock
    } else {
        MembershipView::Other(s)
    }
}

impl MembershipView {
    /// The wire value of a membership.
    pub open spec fn wire(self) -> Seq<char> {
        match self {
            MembershipView::Join => "join"@,
            MembershipView::Invite => "invite"@,
            MembershipView::Leave => "leave"@,
            MembershipView::Ban => "ban"@,
            MembershipView::Knock => "knock"@,
            MembershipView::Other(s) => s,
        }
    }
}

/// No wire value is lost: the membership read from it has it as its wire value.
pub proof fn membership_keeps_the_wire_value(s: Seq<char>)
    ensures
        membership_of(s).wire() == s,
{
}

impl Membership {
    /// The membership that a wire `content.membership` names.
    pub fn from_wire(s: &str) -> (r: Membership)
        ensures
            r@ == membership_of(s@),
    {
        if str_eq(s, "join") {
            Membership::Join
        } else if str_eq(s, "invite") {
            Membership::Invite
        } else if str_eq(s, "leave") {
            Membership::Leave
        } else if str_eq(s, "ban") {
            Membership::Ban
        } else if str_eq(s, "knock") {
            Membership::Knock
        } else {
            Membership::Other(s.to_owned())
        }
    }
}

/// How the sending of an event stands. Only an event of our own that is still
/// queued, or that was refused, is anything but confirmed.
#[derive(Debug, Clone, Copy, PartialEq, Eq, Structural)]
pub enum SendState {
    /// The server has the event.
    Confirmed,
    /// The event waits to be sent.
    Sending,
    /// The event was refused for good.
    Failed,
}

/// The state that a row's `local` column stands for.
pub open spec fn send_state_of(local: i64) -> SendState {
    if local == 1 {
        SendState::Sending
    } else if local == 2 {
        SendState::Failed
    } else {
        SendState::Confirmed
    }
}

impl SendState {
    /// The state that a row's `local` column stands for.
    pub fn from_local(local: i64) -> (r: SendState)
        ensures
            r == send_state_of(local),
    {
        if local == 1 {
            SendState::Sending
        } else if local == 2 {
            SendState::Failed
        } else {
            SendState::Confirmed
        }
    }
}

/// A timeline event: the fields by which it is found and shown, and the whole
/// event as it came.
#[derive(Debug, Clone)]
pub struct StoredEvent {
    pub event_id: String,
    pub room_id: String,
    pub sender: String,
    pub event_type: String,
    /// Present on a state event: what the state is about.
    pub state_key: Option<String>,
    /// The sender's clock in milliseconds, for display only.
    pub origin_server_ts: i64,
    /// The position in the room's history.
    pub depth: i64,
    pub content: Json,
    pub payload: Json,
    pub send_state: SendState,
    /// The text of an encrypted event that was decrypted.
    pub decrypted: Option<String>,
    /// An encrypted event that cannot be decrypted.
    pub decrypt_failed: bool,
}

/// What a [`StoredEvent`] holds.
pub struct StoredView {
    pub event_id: Seq<char>,
    pub room_id: Seq<char>,
    pub sender: Seq<char>,
    pub event_type: Seq<char>,
    pub state_key: Option<Seq<char>>,
    pub origin_server_ts: i64,
    pub depth: i64,
    pub content: JsonView,
    pub payload: JsonView,
    pub send_state: SendState,
    pub decrypted: Option<Seq<char>>,
    pub decrypt_failed: bool,
}

impl View for StoredEvent {
    type V = StoredView;

    open spec fn view(&self) -> StoredView {
        StoredView {
            event_id: self.event_id@,
            room_id: self.room_id@,
            sender: self.sender@,
            event_type: self.event_type@,
            state_key: crate::json::opt_string_view(self.state_key),
            origin_server_ts: self.origin_server_ts,
            depth: self.depth,
            content: self.content@,
            payload: self.payload@,
            send_state: self.send_state,
            decrypted: crate::json::opt_string_view(self.decrypted),
            decrypt_failed: self.decrypt_failed,
        }
    }
}

/// The complaint about a field that is not there.
pub open spec fn missing(kind: Seq<char>, key: Seq<char>) -> Seq<char> {
    kind + key + "`"@
}

/// The complaint about a text field that an event lacks.
pub open spec fn missing_text(key: Seq<char>) -> Seq<char> {
    missing("event missing string field `"@, key)
}

/// The complaint about a number that an event lacks.
pub open spec fn missing_number(key: Seq<char>) -> Seq<char> {
    missing("event missing integer field `"@, key)
}

/// The complaint about the first field that a wire event lacks.
pub open spec fn event_fault(e: JsonView) -> Option<Seq<char>> {
    if e.at("event_id"@).as_str() is None {
        Some(missing_text("event_id"@))
    } else if e.at("room_id"@).as_str() is None {
        Some(missing_text("room_id"@))
    } else if e.at("sender"@).as_str() is None {
        Some(missing_text("sender"@))
    } else if e.at("type"@).as_str() is None {
        Some(missing_text("type"@))
    } else if e.at("origin_server_ts"@).as_i64() is None {
        Some(missing_number("origin_server_ts"@))
    } else if e.at("depth"@).as_i64() is None {
        Some(missing_number("depth"@))
    } else {
        None
    }
}

/// The fields of a wire event that lacks none.
pub open spec fn event_fields(e: JsonView) -> StoredView {
    StoredView {
        event_id: e.at("event_id"@).as_str()->0,
        room_id: e.at("room_id"@).as_str()->0,
        sender: e.at("sender"@).as_str()->0,
        event_type: e.at("type"@).as_str()->0,
        state_key: e.at("state_key"@).as_str(),
        origin_server_ts: e.at("origin_server_ts"@).as_i64()->0,
        depth: e.at("depth"@).as_i64()->0,
        content: e.at("content"@),
        payload: e,
        send_state: SendState::Confirmed,
        decrypted: None,
        decrypt_failed: false,
    }
}

/// What a wire event is read as.
pub open spec fn parse_event(e: JsonView) -> Result<StoredView, StoreErrorView> {
    match event_fault(e) {
        Some(why) => Err(StoreErrorView::Malformed(why)),
        None => Ok(event_fields(e)),
    }
}

/// A wire event is read exactly where it has each of its fields, and it is read as it
/// came: each field is the member of its name, a state key is there exactly where the
/// member is a text, and the whole event is kept. It counts as confirmed, and as not
/// decrypted.
pub proof fn wire_event_is_read_as_it_came(e: JsonView)
    ensures
        parse_event(e) is Ok <==> e.at("event_id"@) is Str && e.at("room_id"@) is Str && e.at(
            "sender"@,
        ) is Str && e.at("type"@) is Str && e.at("origin_server_ts"@).as_i64() is Some && e.at(
            "depth"@,
        ).as_i64() is Some,
        parse_event(e) matches Ok(ev) ==> {
            &&& e.at("event_id"@) == JsonView::Str(ev.event_id)
            &&& e.at("room_id"@) == JsonView::Str(ev.room_id)
            &&& e.at("sender"@) == JsonView::Str(ev.sender)
            &&& e.at("type"@) == JsonView::Str(ev.event_type)
            &&& match e.at("state_key"@) {
                JsonView::Str(key) => ev.state_key == Some(key),
                _ => ev.state_key is None,
            }
            &&& match e.at("origin_server_ts"@) {
                JsonView::PosInt(n) => ev.origin_server_ts == n,
                JsonView::NegInt(n) => ev.origin_server_ts == n,
                _ => false,
            }
            &&& match e.at("depth"@) {
                JsonView::PosInt(n) => ev.depth == n,
                JsonView::NegInt(n) => ev.depth == n,
                _ => false,
            }
            &&& ev.content == e.at("content"@)
            &&& ev.payload == e
            &&& ev.send_state == SendState::Confirmed
            &&& ev.decrypted is None
            &&& !ev.decrypt_failed
        },
{
}

/// A wire event that lacks fields is refused as malformed, and what is complained
/// about is a field that it lacks, the first in a fixed order.
pub proof fn first_missing_field_is_named(e: JsonView)
    ensures
        parse_event(e) matches Err(why) ==> why is Malformed,
        !(e.at("event_id"@) is Str) ==> parse_event(e) == Err::<StoredView, StoreErrorView>(
            StoreErrorView::Malformed("event missing string field `"@ + "event_id"@ + "`"@),
        ),
        e.at("event_id"@) is Str && !(e.at("room_id"@) is Str) ==> parse_event(e) == Err::<
            StoredView,
            StoreErrorView,
        >(StoreErrorView::Malformed("event missing string field `"@ + "room_id"@ + "`"@)),
        e.at("event_id"@) is Str && e.at("room_id"@) is Str && !(e.at("sender"@) is Str)
            ==> parse_event(e) == Err::<StoredView, StoreErrorView>(
            StoreErrorView::Malformed("event missing string field `"@ + "sender"@ + "`"@),
        ),
        e.at("event_id"@) is Str && e.at("room_id"@) is Str && e.at("sender"@) is Str && !(e.at(
            "type"@,
        ) is Str) ==> parse_event(e) == Err::<StoredView, StoreErrorView>(
            StoreErrorView::Malformed("event missing string field `"@ + "type"@ + "`"@),
        ),
        e.at("event_id"@) is Str && e.at("room_id"@) is Str && e.at("sender"@) is Str && e.at(
            "type"@,
        ) is Str && e.at("origin_server_ts"@).as_i64() is None ==> parse_event(e) == Err::<
            StoredView,
            StoreErrorView,
        >(
            StoreErrorView::Malformed(
                "event missing integer field `"@ + "origin_server_ts"@ + "`"@,
            ),
        ),
        e.at("event_id"@) is Str && e.at("room_id"@) is Str && e.at("sender"@) is Str && e.at(
            "type"@,
        ) is Str && e.at("origin_server_ts"@).as_i64() is Some && e.at("depth"@).as_i64() is None
            ==> parse_event(e) == Err::<StoredView, StoreErrorView>(
            StoreErrorView::Malformed("event missing integer field `"@ + "depth"@ + "`"@),
        ),
{
}

/// Each membership has one wire value, and any other value is kept as it is.
pub proof fn memberships_have_their_wire_values(s: Seq<char>)
    ensures
        membership_of(s) is Join <==> s == "join"@,
        membership_of(s) is Invite <==> s == "invite"@,
        membership_of(s) is Leave <==> s == "leave"@,
        membership_of(s) is Ban <==> s == "ban"@,
        membership_of(s) is Knock <==> s == "knock"@,
        membership_of(s) matches MembershipView::Other(kept) ==> kept == s,
{
    reveal_strlit("join");
    reveal_strlit("invite");
    reveal_strlit("leave");
    reveal_strlit("ban");
    reveal_strlit("knock");
    assert("join"@.len() == 4);
    assert("invite"@.len() == 6);
    assert("leave"@.len() == 5);
    assert("ban"@.len() == 3);
    assert("knock"@.len() == 5);
    assert("leave"@[0] != "knock"@[0]);
}

/// A row stands for a send in progress, or for one that failed, by one value of its
/// `local` column each; anything else is confirmed.
pub proof fn local_column_tells_the_send_state(local: i64)
    ensures
        send_state_of(local) == SendState::Sending <==> local == 1,
        send_state_of(local) == SendState::Failed <==> local == 2,
        send_state_of(local) == SendState::Confirmed <==> local != 1 && local != 2,
{
}

/// A stored event shows its own fields.
pub proof fn stored_events_show_their_fields(ev: StoredEvent)
    ensures
        ev@.event_id == ev.event_id@,
        ev@.room_id == ev.room_id@,
        ev@.sender == ev.sender@,
        ev@.event_type == ev.event_type@,
        ev.state_key matches Some(k) ==> ev@.state_key == Some(k@),
        ev.state_key is None ==> ev@.state_key is None,
        ev@.origin_server_ts == ev.origin_server_ts,
        ev@.depth == ev.depth,
        ev@.content == ev.content@,
        ev@.payload == ev.payload@,
        ev@.send_state == ev.send_state,
        ev.decrypted matches Some(d) ==> ev@.decrypted == Some(d@),
        ev.decrypted is None ==> ev@.decrypted is None,
        ev@.decrypt_failed == ev.decrypt_failed,
{
}

/// The view of a result of the store.
pub open spec fn outcome<T: View>(r: Result<T, StoreError>) -> Result<T::V, StoreErrorView> {
    match r {
        Ok(x) => Ok(x@),
        Err(e) => Err(e@),
    }
}

fn text_field(event: &Json, key: &str) -> (r: Result<String, StoreError>)
    ensures
        outcome(r) == match event@.at(key@).as_str() {
            Some(s) => Ok::<Seq<char>, StoreErrorView>(s),
            None => Err(StoreErrorView::Malformed(missing_text(key@))),
        },
{
    match event.string_at(key) {
        Some(s) => Ok(s),
        None => Err(
            StoreError::Malformed { reason: join3("event missing string field `", key, "`") },
        ),
    }
}

fn number_field(event: &Json, key: &str) -> (r: Result<i64, StoreError>)
    ensures
        match (r, event@.at(key@).as_i64()) {
            (Ok(n), Some(m)) => n == m,
            (Err(e), None) => e@ == StoreErrorView::Malformed(missing_number(key@)),
            _ => false,
        },
{
    let found = match event.get(key) {
        Some(v) => v.as_i64(),
        None => None,
    };
    match found {
        Some(n) => Ok(n),
        None => Err(
            StoreError::Malformed { reason: join3("event missing integer field `", key, "`") },
        ),
    }
}

impl StoredEvent {
    /// Reads a wire event. An event that lacks a field is refused with the first
    /// that it lacks.
    pub fn from_wire(event: &Json) -> (r: Result<StoredEvent, StoreError>)
        ensures
            outcome(r) == parse_event(event@),
    {
        let event_id = match text_field(event, "event_id") {
            Ok(s) => s,
            Err(e) => return Err(e),
        };
        let room_id = match text_field(event, "room_id") {
            Ok(s) => s,
            Err(e) => return Err(e),
        };
        let sender = match text_field(event, "sender") {
            Ok(s) => s,
            Err(e) => return Err(e),
        };
        let event_type = match text_field(event, "type") {
            Ok(s) => s,
            Err(e) => return Err(e),
        };
        let origin_server_ts: i64 = match number_field(event, "origin_server_ts") {
            Ok(n) => n,
            Err(e) => return Err(e),
        };
        let depth: i64 = match number_field(event, "depth") {
            Ok(n) => n,
            Err(e) => return Err(e),
        };
        let content = match event.get("content") {
            Some(c) => c.clone(),
            None => Json::Null,
        };
        Ok(
            StoredEvent {
                event_id,
                room_id,
                sender,
                event_type,
                state_key: event.string_at("state_key"),
                origin_server_ts,
                depth,
                content,
                payload: event.clone(),
                send_state: SendState::Confirmed,
                decrypted: None,
                decrypt_failed: false,
            },
        )
    }
}

} // verus!
