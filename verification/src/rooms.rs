//! Rooms and timelines as the user interface shows them.

use vstd::prelude::*;
use vstd::string::*;

use crate::event::{SendState, StoredEvent, StoredView};
use crate::json::{child, Json, JsonView};
use crate::store::RoomSummary;
use crate::text::{join2, join3, opt_str_is, str_eq};

verus! {

/// An image that a message refers to. Width, height and size are zero where they
/// are not known.
#[derive(Debug, Clone)]
pub struct ImageContent {
    pub uri: String,
    pub mimetype: String,
    pub width: u32,
    pub height: u32,
    pub size: u64,
}

/// What an [`ImageContent`] holds.
pub struct ImageView {
    pub uri: Seq<char>,
    pub mimetype: Seq<char>,
    pub width: u32,
    pub height: u32,
    pub size: u64,
}

impl View for ImageContent {
    type V = ImageView;

    open spec fn view(&self) -> ImageView {
        ImageView {
            uri: self.uri@,
            mimetype: self.mimetype@,
            width: self.width,
            height: self.height,
            size: self.size,
        }
    }
}

/// A room in the room list.
#[derive(Debug, Clone)]
pub struct Room {
    pub room_id: String,
    pub name: Option<String>,
    pub topic: Option<String>,
    pub encrypted: bool,
    pub last_activity_ts: i64,
}

impl From<RoomSummary> for Room {
    fn from(r: RoomSummary) -> (room: Room) {
        Room {
            room_id: r.room_id,
            name: r.name,
            topic: r.topic,
            encrypted: r.encrypted,
            last_activity_ts: r.last_activity_ts,
        }
    }
}

impl vstd::std_specs::convert::FromSpecImpl<RoomSummary> for Room {
    open spec fn obeys_from_spec() -> bool {
        true
    }

    open spec fn from_spec(r: RoomSummary) -> Room {
        Room {
            room_id: r.room_id,
            name: r.name,
            topic: r.topic,
            encrypted: r.encrypted,
            last_activity_ts: r.last_activity_ts,
        }
    }
}

/// An entry of a timeline. A message has a `body`, any other event that is shown
/// has a `system_text`, and an event that is not shown has neither.
#[derive(Debug, Clone)]
pub struct TimelineEvent {
    pub event_id: String,
    pub sender: String,
    /// The sender's clock in milliseconds, for display only.
    pub origin_server_ts: i64,
    /// What to pass as `before` to read what is older.
    pub cursor: i64,
    pub body: Option<String>,
    pub system_text: Option<String>,
    /// An event of our own that is still being sent.
    pub pending: bool,
    /// An event of our own that could not be sent.
    pub failed: bool,
    pub image: Option<ImageContent>,
}

/// What a [`TimelineEvent`] holds.
pub struct TimelineView {
    pub event_id: Seq<char>,
    pub sender: Seq<char>,
    pub origin_server_ts: i64,
    pub cursor: i64,
    pub body: Option<Seq<char>>,
    pub system_text: Option<Seq<char>>,
    pub pending: bool,
    pub failed: bool,
    pub image: Option<ImageView>,
}

impl View for TimelineEvent {
    type V = TimelineView;

    open spec fn view(&self) -> TimelineView {
        TimelineView {
            event_id: self.event_id@,
            sender: self.sender@,
            origin_server_ts: self.origin_server_ts,
            cursor: self.cursor,
            body: crate::json::opt_string_view(self.body),
            system_text: crate::json::opt_string_view(self.system_text),
            pending: self.pending,
            failed: self.failed,
            image: match self.image {
                Some(i) => Some(i@),
                None => None,
            },
        }
    }
}

/// A number of an image's `info`, zero where it is not there.
pub open spec fn info_number(info: JsonView, key: Seq<char>) -> u64 {
    match info.at(key).as_u64() {
        Some(n) => n,
        None => 0,
    }
}

/// The image that a message refers to, if it refers to one.
pub open spec fn image_of(content: JsonView) -> Option<ImageView> {
    match content.at("url"@).as_str() {
        None => None,
        Some(uri) => {
            let info = content.at("info"@);
            Some(
                ImageView {
                    uri,
                    mimetype: match info.at("mimetype"@).as_str() {
                        Some(m) => m,
                        None => "application/octet-stream"@,
                    },
                    width: crate::reply::low_u32(info_number(info, "w"@)),
                    height: crate::reply::low_u32(info_number(info, "h"@)),
                    size: info_number(info, "size"@),
                },
            )
        },
    }
}

/// The line about a change of membership.
pub open spec fn member_line(membership: Seq<char>, sender: Seq<char>, target: Seq<char>) -> Seq<
    char,
> {
    if membership == "join"@ {
        target + " joined"@
    } else if membership == "leave"@ {
        target + " left"@
    } else if membership == "invite"@ {
        sender + " invited "@ + target
    } else if membership == "ban"@ {
        sender + " banned "@ + target
    } else if membership == "knock"@ {
        target + " requested to join"@
    } else {
        target + ": "@ + membership
    }
}

/// The line that a state event is shown as, if it is shown.
pub open spec fn system_line(ev: StoredView) -> Option<Seq<char>> {
    if ev.event_type == "p.room.member"@ {
        Some(
            member_line(
                match ev.content.at("membership"@).as_str() {
                    Some(m) => m,
                    None => ""@,
                },
                ev.sender,
                match ev.state_key {
                    Some(k) => k,
                    None => ev.sender,
                },
            ),
        )
    } else if ev.event_type == "p.room.name"@ {
        Some(
            match ev.content.at("name"@).as_str() {
                Some(name) => "Room name set to \u{201c}"@ + name + "\u{201d}"@,
                None => "Room name removed"@,
            },
        )
    } else if ev.event_type == "p.room.topic"@ {
        Some("Topic updated"@)
    } else if ev.event_type == "p.room.encryption"@ {
        Some("Encryption enabled"@)
    } else if ev.event_type == "p.room.create"@ {
        Some("Room created"@)
    } else {
        None
    }
}

/// The text of a message, where an event is one that can be read.
pub open spec fn message_text(ev: StoredView) -> Option<Seq<char>> {
    if ev.event_type == "p.room.message"@ {
        ev.content.at("body"@).as_str()
    } else if ev.event_type == "p.room.encrypted"@ {
        ev.decrypted
    } else {
        None
    }
}

/// What a timeline shows of an event.
pub open spec fn shown(ev: StoredView) -> TimelineView {
    let body = message_text(ev);
    TimelineView {
        event_id: ev.event_id,
        sender: ev.sender,
        origin_server_ts: ev.origin_server_ts,
        cursor: ev.depth,
        body,
        system_text: if body is Some {
            None
        } else if ev.event_type == "p.room.encrypted"@ {
            if ev.decrypt_failed {
                Some("\u{26a0} Unable to decrypt this message"@)
            } else {
                None
            }
        } else {
            system_line(ev)
        },
        pending: ev.send_state == SendState::Sending,
        failed: ev.send_state == SendState::Failed,
        image: if ev.event_type == "p.room.message"@ && ev.content.at("msgtype"@).as_str() == Some(
            "p.image"@,
        ) {
            image_of(ev.content)
        } else {
            None
        },
    }
}

/// A timeline entry never has both a body and a line.
pub proof fn body_or_line(ev: StoredView)
    ensures
        !(shown(ev).body is Some && shown(ev).system_text is Some),
{
}

/// An encrypted event that was not decrypted yet, and was not given up, shows
/// nothing.
pub proof fn undecrypted_events_are_hidden(ev: StoredView)
    requires
        ev.event_type == "p.room.encrypted"@,
        ev.decrypted is None,
        !ev.decrypt_failed,
    ensures
        shown(ev).body is None,
        shown(ev).system_text is None,
        shown(ev).image is None,
{
    reveal_strlit("p.room.encrypted");
    reveal_strlit("p.room.message");
    assert("p.room.encrypted"@.len() == 16);
    assert("p.room.message"@.len() == 14);
}

/// A timeline entry is about its event: the id, the sender and the clock are those of
/// the event, the cursor is its depth, and it is pending or failed as its sending
/// stands.
pub proof fn entry_is_about_its_event(ev: StoredView)
    ensures
        shown(ev).event_id == ev.event_id,
        shown(ev).sender == ev.sender,
        shown(ev).origin_server_ts == ev.origin_server_ts,
        shown(ev).cursor == ev.depth,
        shown(ev).pending <==> ev.send_state == SendState::Sending,
        shown(ev).failed <==> ev.send_state == SendState::Failed,
{
}

proof fn lemma_type_names()
    ensures
        "p.room.message"@ != "p.room.encrypted"@,
        "p.room.member"@ != "p.room.message"@,
        "p.room.member"@ != "p.room.encrypted"@,
        "p.room.name"@ != "p.room.message"@,
        "p.room.name"@ != "p.room.encrypted"@,
        "p.room.name"@ != "p.room.member"@,
        "p.room.topic"@ != "p.room.message"@,
        "p.room.topic"@ != "p.room.encrypted"@,
        "p.room.topic"@ != "p.room.member"@,
        "p.room.topic"@ != "p.room.name"@,
        "p.room.encryption"@ != "p.room.message"@,
        "p.room.encryption"@ != "p.room.encrypted"@,
        "p.room.encryption"@ != "p.room.member"@,
        "p.room.encryption"@ != "p.room.name"@,
        "p.room.encryption"@ != "p.room.topic"@,
        "p.room.create"@ != "p.room.message"@,
        "p.room.create"@ != "p.room.encrypted"@,
        "p.room.create"@ != "p.room.member"@,
        "p.room.create"@ != "p.room.name"@,
        "p.room.create"@ != "p.room.topic"@,
        "p.room.create"@ != "p.room.encryption"@,
{
    reveal_strlit("p.room.message");
    reveal_strlit("p.room.encrypted");
    reveal_strlit("p.room.member");
    reveal_strlit("p.room.name");
    reveal_strlit("p.room.topic");
    reveal_strlit("p.room.encryption");
    reveal_strlit("p.room.create");
    assert("p.room.message"@.len() == 14);
    assert("p.room.encrypted"@.len() == 16);
    assert("p.room.member"@.len() == 13);
    assert("p.room.name"@.len() == 11);
    assert("p.room.topic"@.len() == 12);
    assert("p.room.encryption"@.len() == 17);
    assert("p.room.create"@.len() == 13);
    assert("p.room.member"@[7] != "p.room.create"@[7]);
}

/// An event that the wire brought is shown with the id, the sender, the clock and the
/// depth that it came with. A message shows the text of its `body`; an encrypted
/// event shows none until it is decrypted.
pub proof fn wire_event_is_shown_as_it_came(e: JsonView)
    requires
        crate::event::parse_event(e) is Ok,
    ensures
        ({
            let entry = shown(crate::event::parse_event(e)->Ok_0);
            &&& e.at("event_id"@) == JsonView::Str(entry.event_id)
            &&& e.at("sender"@) == JsonView::Str(entry.sender)
            &&& e.at("origin_server_ts"@).as_i64() == Some(entry.origin_server_ts)
            &&& e.at("depth"@).as_i64() == Some(entry.cursor)
            &&& !entry.pending
            &&& !entry.failed
            &&& e.at("type"@) == JsonView::Str("p.room.message"@) ==> match e.at("content"@).at(
                "body"@,
            ) {
                JsonView::Str(text) => entry.body == Some(text) && entry.system_text is None,
                _ => entry.body is None && entry.system_text is None,
            }
            &&& e.at("type"@) != JsonView::Str("p.room.message"@) ==> entry.body is None
                && entry.image is None
        }),
{
    lemma_type_names();
}

/// What is shown of the body of an event: a message shows its `body`, an encrypted
/// event its decrypted text, and no other event has one.
pub proof fn body_is_the_text_of_the_message(ev: StoredView)
    ensures
        ev.event_type == "p.room.message"@ ==> match ev.content.at("body"@) {
            JsonView::Str(text) => shown(ev).body == Some(text),
            _ => shown(ev).body is None,
        },
        ev.event_type == "p.room.encrypted"@ ==> shown(ev).body == ev.decrypted,
        ev.event_type != "p.room.message"@ && ev.event_type != "p.room.encrypted"@
            ==> shown(ev).body is None,
        shown(ev).body is Some ==> shown(ev).system_text is None,
{
    lemma_type_names();
}

/// The line that is shown of an event: what happened to whom, for a change of
/// membership; the name, for a change of the name; and a fixed line for the other
/// kinds that have one. An encrypted event that cannot be decrypted says so. No other
/// event has a line.
pub proof fn line_tells_what_happened(ev: StoredView, target: Seq<char>, value: Seq<char>)
    requires
        ev.state_key == Some(target) || (ev.state_key is None && target == ev.sender),
    ensures
        ({
            let line = shown(ev).system_text;
            let named = ev.content.at("name"@);
            let member = ev.content.at("membership"@);
            &&& ev.event_type == "p.room.member"@ ==> {
                &&& member == JsonView::Str("join"@) ==> line == Some(target + " joined"@)
                &&& member == JsonView::Str("leave"@) ==> line == Some(target + " left"@)
                &&& member == JsonView::Str("invite"@) ==> line == Some(
                    ev.sender + " invited "@ + target,
                )
                &&& member == JsonView::Str("ban"@) ==> line == Some(
                    ev.sender + " banned "@ + target,
                )
                &&& member == JsonView::Str("knock"@) ==> line == Some(
                    target + " requested to join"@,
                )
                &&& member == JsonView::Str(value) && value != "join"@ && value != "leave"@ && value
                    != "invite"@ && value != "ban"@ && value != "knock"@ ==> line == Some(
                    target + ": "@ + value,
                )
                &&& !(member is Str) ==> line == Some(target + ": "@ + ""@)
            }
            &&& ev.event_type == "p.room.name"@ ==> {
                &&& named == JsonView::Str(value) ==> line == Some(
                    "Room name set to \u{201c}"@ + value + "\u{201d}"@,
                )
                &&& !(named is Str) ==> line == Some("Room name removed"@)
            }
            &&& ev.event_type == "p.room.topic"@ ==> line == Some("Topic updated"@)
            &&& ev.event_type == "p.room.encryption"@ ==> line == Some("Encryption enabled"@)
            &&& ev.event_type == "p.room.create"@ ==> line == Some("Room created"@)
            &&& ev.event_type == "p.room.encrypted"@ ==> (if ev.decrypted is None
                && ev.decrypt_failed {
                line == Some("\u{26a0} Unable to decrypt this message"@)
            } else {
                line is None
            })
            &&& ev.event_type != "p.room.member"@ && ev.event_type != "p.room.name"@
                && ev.event_type != "p.room.topic"@ && ev.event_type != "p.room.encryption"@
                && ev.event_type != "p.room.create"@ && ev.event_type != "p.room.encrypted"@
                ==> line is None
        }),
{
    lemma_type_names();
    reveal_strlit("join");
    reveal_strlit("leave");
    reveal_strlit("invite");
    reveal_strlit("ban");
    reveal_strlit("knock");
    reveal_strlit("");
    assert("join"@.len() == 4);
    assert("leave"@.len() == 5);
    assert("invite"@.len() == 6);
    assert("ban"@.len() == 3);
    assert("knock"@.len() == 5);
    assert("leave"@[0] != "knock"@[0]);
    assert(""@.len() == 0);
}

/// The image of a message is read from its content: only a plain message of type
/// `p.image` with a `url` has one; the address, the type and the sizes are those of
/// the content, and what is not given is zero, or bytes of any kind.
pub proof fn image_is_that_of_the_content(ev: StoredView)
    ensures
        shown(ev).image is Some <==> ev.event_type == "p.room.message"@ && ev.content.at(
            "msgtype"@,
        ) == JsonView::Str("p.image"@) && ev.content.at("url"@) is Str,
        shown(ev).image matches Some(image) ==> {
            let info = ev.content.at("info"@);
            &&& ev.content.at("url"@) == JsonView::Str(image.uri)
            &&& match info.at("mimetype"@) {
                JsonView::Str(kind) => image.mimetype == kind,
                _ => image.mimetype == "application/octet-stream"@,
            }
            &&& match info.at("w"@) {
                JsonView::PosInt(n) => image.width as int == n % 0x1_0000_0000,
                _ => image.width == 0,
            }
            &&& match info.at("h"@) {
                JsonView::PosInt(n) => image.height as int == n % 0x1_0000_0000,
                _ => image.height == 0,
            }
            &&& match info.at("size"@) {
                JsonView::PosInt(n) => image.size == n,
                _ => image.size == 0,
            }
        },
{
}

/// What the user interface is handed shows its own fields, and a room of the list is
/// its summary.
pub proof fn shown_records_show_their_fields(e: TimelineEvent, i: ImageContent, r: RoomSummary)
    ensures
        e@.event_id == e.event_id@,
        e@.sender == e.sender@,
        e@.origin_server_ts == e.origin_server_ts,
        e@.cursor == e.cursor,
        e.body matches Some(b) ==> e@.body == Some(b@),
        e.body is None ==> e@.body is None,
        e.system_text matches Some(b) ==> e@.system_text == Some(b@),
        e.system_text is None ==> e@.system_text is None,
        e@.pending == e.pending,
        e@.failed == e.failed,
        e.image matches Some(x) ==> e@.image == Some(x@),
        e.image is None ==> e@.image is None,
        i@.uri == i.uri@,
        i@.mimetype == i.mimetype@,
        i@.width == i.width,
        i@.height == i.height,
        i@.size == i.size,
        ({
            let room = <Room as vstd::std_specs::convert::FromSpec<RoomSummary>>::from_spec(r);
            &&& room.room_id == r.room_id
            &&& room.name == r.name
            &&& room.topic == r.topic
            &&& room.encrypted == r.encrypted
            &&& room.last_activity_ts == r.last_activity_ts
        }),
{
}

fn number_at(info: Option<&Json>, key: &str) -> (r: u64)
    ensures
        r == info_number(crate::json::opt_view(info), key@),
{
    let found = match child(info, key) {
        Some(v) => v.as_u64(),
        None => None,
    };
    match found {
        Some(n) => n,
        None => 0,
    }
}

/// The image that a message's content refers to, if it refers to one.
pub fn parse_image(content: &Json) -> (r: Option<ImageContent>)
    ensures
        match r {
            Some(i) => image_of(content@) == Some(i@),
            None => image_of(content@) is None,
        },
{
    let uri = match content.string_at("url") {
        Some(u) => u,
        None => return None,
    };
    let info = content.get("info");
    let named = match child(info, "mimetype") {
        Some(v) => v.as_str(),
        None => None,
    };
    let mimetype = match named {
        Some(m) => m.to_owned(),
        None => "application/octet-stream".to_owned(),
    };
    Some(
        ImageContent {
            uri,
            mimetype,
            width: (number_at(info, "w") % 0x1_0000_0000) as u32,
            height: (number_at(info, "h") % 0x1_0000_0000) as u32,
            size: number_at(info, "size"),
        },
    )
}

fn render_member(membership: &str, sender: &str, target: &str) -> (r: String)
    ensures
        r@ == member_line(membership@, sender@, target@),
{
    if str_eq(membership, "join") {
        join2(target, " joined")
    } else if str_eq(membership, "leave") {
        join2(target, " left")
    } else if str_eq(membership, "invite") {
        join3(sender, " invited ", target)
    } else if str_eq(membership, "ban") {
        join3(sender, " banned ", target)
    } else if str_eq(membership, "knock") {
        join2(target, " requested to join")
    } else {
        join3(target, ": ", membership)
    }
}

/// The line that a state event is shown as, if it is shown.
pub fn render_system(ev: &StoredEvent) -> (r: Option<String>)
    ensures
        crate::json::opt_string_view(r) == system_line(ev@),
{
    let kind = ev.event_type.as_str();
    if str_eq(kind, "p.room.member") {
        let membership = match ev.content.str_at("membership") {
            Some(m) => m,
            None => "",
        };
        let target = match &ev.state_key {
            Some(k) => k.as_str(),
            None => ev.sender.as_str(),
        };
        Some(render_member(membership, ev.sender.as_str(), target))
    } else if str_eq(kind, "p.room.name") {
        match ev.content.str_at("name") {
            Some(name) => Some(join3("Room name set to \u{201c}", name, "\u{201d}")),
            None => Some("Room name removed".to_owned()),
        }
    } else if str_eq(kind, "p.room.topic") {
        Some("Topic updated".to_owned())
    } else if str_eq(kind, "p.room.encryption") {
        Some("Encryption enabled".to_owned())
    } else if str_eq(kind, "p.room.create") {
        Some("Room created".to_owned())
    } else {
        None
    }
}

impl TimelineEvent {
    /// What a timeline shows of an event.
    pub fn from(ev: StoredEvent) -> (r: TimelineEvent)
        ensures
            r@ == shown(ev@),
    {
        let is_message = str_eq(ev.event_type.as_str(), "p.room.message");
        let is_encrypted = str_eq(ev.event_type.as_str(), "p.room.encrypted");
        let image = if is_message && opt_str_is(ev.content.str_at("msgtype"), "p.image") {
            parse_image(&ev.content)
        } else {
            None
        };
        let body = if is_message {
            ev.content.string_at("body")
        } else if is_encrypted {
            match &ev.decrypted {
                Some(t) => Some(t.clone()),
                None => None,
            }
        } else {
            None
        };
        let system_text = if body.is_some() {
            None
        } else if is_encrypted {
            if ev.decrypt_failed {
                Some("\u{26a0} Unable to decrypt this message".to_owned())
            } else {
                None
            }
        } else {
            render_system(&ev)
        };
        TimelineEvent {
            event_id: ev.event_id,
            sender: ev.sender,
            origin_server_ts: ev.origin_server_ts,
            cursor: ev.depth,
            body,
            system_text,
            pending: ev.send_state == SendState::Sending,
            failed: ev.send_state == SendState::Failed,
            image,
        }
    }
}

/// A room that is made of a summary has the summary's fields.
pub proof fn room_is_its_summary(r: RoomSummary)
    ensures
        ({
            let room = <Room as vstd::std_specs::convert::FromSpec<RoomSummary>>::from_spec(r);
            &&& room.room_id == r.room_id
            &&& room.name == r.name
            &&& room.topic == r.topic
            &&& room.encrypted == r.encrypted
            &&& room.last_activity_ts == r.last_activity_ts
        }),
{
}

} // verus!
