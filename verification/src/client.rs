//! A logged-in client: what it reads from its store, what it asks of the server,
//! and what it makes of the answers.

use vstd::prelude::*;
use vstd::string::*;

use crate::api::{Api, ApiError, ApiErrorView, BodyView, HttpRequest, RequestView, Verb};
use crate::error::{CoreError, CoreErrorView};
use crate::image::{ImageAction, ImageEvent, ImageEventView, ImagePass, ImagePassView};
use crate::inbound::{InboundPass, InboundView};
use crate::invite::{InvitePass, InviteView};
use crate::json::{Json, JsonView};
use crate::keys::ClaimView;
use crate::media::{check_upload, parse_content_uri, MAX_UPLOAD_BYTES};
use crate::reply::backup_of;
use crate::rooms::{Room, TimelineEvent, TimelineView};
use crate::send::{FlushPass, FlushView};
use crate::session::Session;
use crate::store::summary::SummaryView;
use crate::store::Store;
use crate::sync::{SyncAction, SyncEvent, SyncLoop, SyncObserver};

verus! {

/// The room under which the backup of a device's keys is kept.
pub const BACKUP_ROOM: &'static str = "!e2ee-backup";

/// The session under which the backup of a device's keys is kept.
pub const BACKUP_SESSION: &'static str = "mls-device-state";

/// A logged-in client. The token stays inside.
pub struct PigeonClient {
    pub api: Api,
    pub session: Session,
    pub store: Store,
    /// Whether there is an encryption engine.
    pub has_engine: bool,
}

/// What a [`Room`] shows.
pub open spec fn room_view(r: Room) -> SummaryView {
    SummaryView {
        room_id: r.room_id@,
        name: crate::json::opt_string_view(r.name),
        topic: crate::json::opt_string_view(r.topic),
        encrypted: r.encrypted,
        last_activity_ts: r.last_activity_ts,
    }
}

/// What a list of rooms shows.
pub open spec fn room_views(rooms: Seq<Room>) -> Seq<SummaryView> {
    Seq::new(rooms.len(), |i: int| room_view(rooms[i]))
}

/// What a list of timeline entries shows.
pub open spec fn timeline_views(evs: Seq<TimelineEvent>) -> Seq<TimelineView> {
    Seq::new(evs.len(), |i: int| evs[i]@)
}

/// The events of a reply with the latest events of a room.
pub open spec fn chunk_of(resp: JsonView) -> Seq<JsonView> {
    match resp.at("chunk"@).as_array() {
        Some(events) => events,
        None => seq![],
    }
}

/// The events of a reply with the latest events of a room are the elements of its
/// `chunk`, all of them, in their order; a reply without one brings none.
pub proof fn chunk_is_taken_whole(resp: JsonView, events: Seq<JsonView>)
    ensures
        resp.at("chunk"@) == JsonView::Array(events) ==> chunk_of(resp) == events,
        !(resp.at("chunk"@) is Array) ==> chunk_of(resp).len() == 0,
{
}

/// A room that is shown shows its own fields.
pub proof fn rooms_show_their_fields(r: Room)
    ensures
        room_view(r).room_id == r.room_id@,
        r.name matches Some(s) ==> room_view(r).name == Some(s@),
        r.name is None ==> room_view(r).name is None,
        r.topic matches Some(s) ==> room_view(r).topic == Some(s@),
        r.topic is None ==> room_view(r).topic is None,
        room_view(r).encrypted == r.encrypted,
        room_view(r).last_activity_ts == r.last_activity_ts,
{
}

impl PigeonClient {
    /// What holds of a client at all times.
    pub open spec fn wf(self) -> bool {
        self.store.wf()
    }

    /// Who is logged in.
    pub fn session(&self) -> (r: Session)
        ensures
            r@ == self.session@,
    {
        self.session.clone()
    }

    /// The room list, the room with the latest activity first.
    pub fn list_rooms(&self) -> (r: Result<Vec<Room>, CoreError>)
        requires
            self.wf(),
        ensures
            match self.store.tables().summaries(self.store.tables().rooms()) {
                Ok(rooms) => r is Ok && room_views(r->Ok_0@) == rooms,
                Err(e) => r is Err && r->Err_0@ == CoreErrorView::Storage(e.words()),
            },
    {
        let rooms = match self.store.list_rooms() {
            Ok(v) => v,
            Err(e) => return Err(CoreError::of_store(e)),
        };
        let ghost shown = crate::store::summary::summary_views(rooms@);
        let ghost given = rooms@;
        let mut out: Vec<Room> = Vec::new();
        for one in it: rooms
            invariant
                it.seq() == given,
                shown == crate::store::summary::summary_views(given),
                out@.len() == it.index(),
                forall|j: int| 0 <= j < it.index() ==> room_view(#[trigger] out@[j]) == shown[j],
        {
            let room = Room::from(one);
            assert(room_view(room) == shown[it.index() as int]);
            out.push(room);
        }
        assert(room_views(out@) =~= shown);
        Ok(out)
    }

    /// A page of a room's timeline, oldest entry first: the newest `limit` entries,
    /// or the newest of those before the cursor `before`.
    pub fn timeline(&self, room_id: &str, limit: u32, before: Option<i64>) -> (r: Result<
        Vec<TimelineEvent>,
        CoreError,
    >)
        ensures
            ({
                let page = self.store.tables().page(room_id@, limit as int, before);
                match crate::store::timeline::page_fault(page) {
                    None => r is Ok && timeline_views(r->Ok_0@)
                        == crate::store::timeline::page_events(page).map_values(
                        |ev: crate::event::StoredView| crate::rooms::shown(ev),
                    ),
                    Some(e) => r is Err && r->Err_0@ == CoreErrorView::Storage(e.words()),
                }
            }),
    {
        let page = match self.store.timeline(room_id, limit, before) {
            Ok(v) => v,
            Err(e) => return Err(CoreError::of_store(e)),
        };
        let ghost given = page@;
        let ghost events = crate::store::stored_views(page@);
        let mut out: Vec<TimelineEvent> = Vec::new();
        for one in it: page
            invariant
                it.seq() == given,
                events == crate::store::stored_views(given),
                out@.len() == it.index(),
                forall|j: int|
                    0 <= j < it.index() ==> (#[trigger] out@[j])@ == crate::rooms::shown(events[j]),
        {
            assert(events[it.index() as int] == one@);
            out.push(TimelineEvent::from(one));
        }
        assert(timeline_views(out@) =~= events.map_values(
            |ev: crate::event::StoredView| crate::rooms::shown(ev),
        ));
        Ok(out)
    }

    /// The request for a new room that is not encrypted.
    pub fn create_room(&self, name: Option<&str>, topic: Option<&str>) -> (r: HttpRequest)
        ensures
            r@ == self.api@.post(
                "/_pigeon/client/v1/createRoom"@,
                crate::api::room_options(
                    crate::json::opt_str_view(name),
                    crate::json::opt_str_view(topic),
                    false,
                ),
            ),
    {
        self.api.create_room(name, topic, false)
    }

    /// The request for a new encrypted room. Without an engine there is none: the
    /// room could not be used.
    pub fn create_encrypted_room(&self, name: Option<&str>, topic: Option<&str>) -> (r: Result<
        HttpRequest,
        CoreError,
    >)
        ensures
            match r {
                Ok(request) => self.has_engine && request@ == self.api@.post(
                    "/_pigeon/client/v1/createRoom"@,
                    crate::api::room_options(
                        crate::json::opt_str_view(name),
                        crate::json::opt_str_view(topic),
                        true,
                    ),
                ),
                Err(e) => !self.has_engine && e@ == CoreErrorView::Crypto(
                    "E2EE is unavailable for this session; cannot create an encrypted room"@,
                ),
            },
    {
        if self.has_engine {
            Ok(self.api.create_room(name, topic, true))
        } else {
            Err(
                CoreError::crypto(
                    "E2EE is unavailable for this session; cannot create an encrypted room",
                ),
            )
        }
    }

    /// The request to join a room.
    pub fn join_room(&self, room_id: &str) -> (r: HttpRequest)
        ensures
            r@ == self.api@.post(
                crate::api::room_path(room_id@, "/join"@),
                JsonView::Object(seq![]),
            ),
    {
        self.api.join_room(room_id)
    }

    /// The request that revokes the token. Whatever becomes of it, the key store is
    /// cleared next.
    pub fn logout(&self) -> (r: HttpRequest)
        ensures
            r@ == self.api@.post("/_pigeon/client/v1/logout"@, JsonView::Object(seq![])),
    {
        self.api.logout()
    }

    /// Inviting a user to a room, and the request that invites them.
    pub fn invite(&self, room_id: &str, user_id: &str) -> (r: (InvitePass, HttpRequest))
        ensures
            r.0@ == (InviteView {
                room_id: room_id@,
                user_id: user_id@,
                has_engine: self.has_engine,
                claim: ClaimView { user_id: user_id@, rest: seq![], claimed: seq![] },
                packages: seq![],
            }),
            r.1@ == self.api@.post(
                crate::api::room_path(room_id@, "/invite"@),
                JsonView::Object(seq![("user_id"@, JsonView::Str(user_id@))]),
            ),
    {
        InvitePass::new(&self.api, room_id, user_id, self.has_engine)
    }

    /// Sending an image to a room, and what is to be done first.
    pub fn send_image(
        &self,
        room_id: &str,
        bytes: Vec<u8>,
        mimetype: &str,
        width: u32,
        height: u32,
        caption: &str,
    ) -> (r: Result<(ImagePass, ImageAction), CoreError>)
        ensures
            ({
                let pass = ImagePassView {
                    room_id: room_id@,
                    mimetype: mimetype@,
                    width,
                    height,
                    size: bytes@.len() as u64,
                    caption: caption@,
                };
                match crate::image::image_step(
                    pass,
                    self.store.tables(),
                    self.api@,
                    ImageEventView::Begin(self.has_engine, bytes@),
                ) {
                    Ok(first) => r is Ok && r->Ok_0.0@ == pass && r->Ok_0.1@ == first,
                    Err(e) => r is Err && r->Err_0@ == e,
                }
            }),
    {
        let size: u64 = bytes.len() as u64;
        let pass = ImagePass::new(room_id, mimetype, width, height, size, caption);
        let begin = ImageEvent::Begin { has_engine: self.has_engine, bytes };
        match pass.next(&self.store, &self.api, begin) {
            Ok(first) => Ok((pass, first)),
            Err(e) => Err(e),
        }
    }

    /// One step of the sync loop.
    pub fn run_sync(&mut self, lap: &mut SyncLoop, event: SyncEvent) -> (r: Result<
        SyncAction,
        CoreError,
    >)
        requires
            old(self).wf(),
            old(lap)@.wf(),
        ensures
            final(self).wf(),
            final(lap)@.wf(),
            final(self).api == old(self).api,
            final(self).session == old(self).session,
            final(self).has_engine == old(self).has_engine,
            final(self).store.follows(old(self).store),
            ({
                let step = crate::sync::sync_step(
                    old(lap)@,
                    old(self).store.tables(),
                    old(self).api@,
                    old(self).has_engine,
                    event@,
                );
                &&& final(lap)@ == step.lap
                &&& final(self).store.tables() == step.tables
                &&& crate::error::core_outcome(r) == step.action
            }),
    {
        lap.next(&mut self.store, &self.api, self.has_engine, event)
    }

    /// The request to upload bytes, where the server would take them.
    pub fn upload_media(&self, bytes: Vec<u8>, content_type: &str) -> (r: Result<
        HttpRequest,
        CoreError,
    >)
        ensures
            match r {
                Ok(request) => bytes@.len() <= MAX_UPLOAD_BYTES && request@ == self.api@.request(
                    Verb::Post,
                    "/_pigeon/media/v1/upload"@,
                    BodyView::Raw(content_type@, bytes@),
                ),
                Err(e) => bytes@.len() > MAX_UPLOAD_BYTES && e@ == crate::image::too_large(),
            },
    {
        match check_upload(bytes.len()) {
            Ok(_) => Ok(self.api.upload_media(bytes, content_type)),
            Err(e) => Err(e),
        }
    }

    /// The request for the bytes that a content URI names.
    pub fn download_media(&self, uri: &str) -> (r: Result<HttpRequest, CoreError>)
        ensures
            match crate::media::uri_parts(uri@) {
                Ok((server, media_id)) => r is Ok && r->Ok_0@ == self.api@.get(
                    "/_pigeon/media/v1/download/"@ + server + "/"@ + media_id,
                ),
                Err(e) => r is Err && r->Err_0@ == e,
            },
    {
        match parse_content_uri(uri) {
            Ok(parts) => Ok(self.api.download_media(parts.0.as_str(), parts.1.as_str())),
            Err(e) => Err(e),
        }
    }

    /// The request for the latest events of a room.
    pub fn fetch_messages(&self, room_id: &str, limit: u32) -> (r: HttpRequest)
        ensures
            r@ == (RequestView {
                query: seq![("limit"@, crate::text::decimal(limit as nat))],
                ..self.api@.get(crate::api::room_path(room_id@, "/messages"@))
            }),
    {
        self.api.messages(room_id, limit)
    }

    /// Folds the latest events of a room into the store. Returns how many were new,
    /// cut to 32 bits.
    pub fn apply_messages(&mut self, resp: &Json) -> (r: Result<u32, CoreError>)
        requires
            old(self).wf(),
        ensures
            final(self).wf(),
            final(self).api == old(self).api,
            final(self).session == old(self).session,
            final(self).has_engine == old(self).has_engine,
            final(self).store.follows(old(self).store),
            match crate::store::parse_batch(chunk_of(resp@)) {
                Ok(evs) => r is Ok && r->Ok_0 == crate::reply::low_u32(
                    old(self).store.tables().count_new(evs) as u64,
                ) && final(self).store.tables() == old(self).store.tables().apply_all(evs),
                Err(e) => r is Err && r->Err_0@ == CoreErrorView::Storage(e.words())
                    && final(self).store == old(self).store,
            },
    {
        let applied = match resp.get("chunk") {
            Some(chunk) => match chunk {
                Json::Array(list) => {
                    assert(crate::store::json_views(list@) =~= chunk_of(resp@));
                    self.store.apply_events(list.as_slice())
                },
                _ => {
                    let none: Vec<Json> = Vec::new();
                    assert(crate::store::json_views(none@) =~= chunk_of(resp@));
                    self.store.apply_events(none.as_slice())
                },
            },
            None => {
                let none: Vec<Json> = Vec::new();
                assert(crate::store::json_views(none@) =~= chunk_of(resp@));
                self.store.apply_events(none.as_slice())
            },
        };
        match applied {
            Ok(n) => Ok(((n as u64) % 0x1_0000_0000) as u32),
            Err(e) => Err(CoreError::of_store(e)),
        }
    }

    /// Queues a message of the user's, to be delivered by the next pass over the
    /// queue. `ids` are the ids of the attempt and of the echo.
    pub fn send_message(&mut self, room_id: &str, body: &str, ids: (String, String), ts: i64) -> (r:
        Result<(), CoreError>)
        requires
            old(self).wf(),
        ensures
            final(self).wf(),
            final(self).api == old(self).api,
            final(self).session == old(self).session,
            final(self).has_engine == old(self).has_engine,
            final(self).store.follows(old(self).store),
            match old(self).store.tables().queue_fault(room_id@, ids.0@, ids.1@) {
                Some(e) => r is Err && r->Err_0@ == CoreErrorView::Storage(e.words())
                    && final(self).store == old(self).store,
                None => r is Ok && final(self).store.tables() == old(self).store.tables().queued(
                    room_id@,
                    old(self).session@.user_id,
                    body@,
                    ids.0@,
                    ids.1@,
                    ts,
                ),
            },
    {
        let sender = self.session.user_id.clone();
        match self.store.queue_send(room_id, sender.as_str(), body, ids, ts) {
            Ok(_) => Ok(()),
            Err(e) => Err(CoreError::of_store(e)),
        }
    }

    /// A pass over the outbound queue as it is.
    pub fn flush_pending(&self) -> (r: Result<FlushPass, CoreError>)
        ensures
            r is Ok && r->Ok_0@ == (FlushView {
                rest: self.store.tables().outbox().map_values(
                    |row: crate::table::SendRec| crate::store::outbox::pending_of(row),
                ),
                has_engine: self.has_engine,
                changed: false,
            }),
    {
        match self.store.pending_sends() {
            Ok(queue) => Ok(FlushPass::new(queue, self.has_engine)),
            Err(e) => Err(CoreError::of_store(e)),
        }
    }

    /// A pass over the inbound events that wait, as they are. Without an engine it
    /// is over none, and the store is not read.
    pub fn process_inbound_mls(&self) -> (r: Result<InboundPass, CoreError>)
        ensures
            if !self.has_engine {
                r is Ok && r->Ok_0@ == (InboundView {
                    rest: seq![],
                    user_id: self.session@.user_id,
                    changed: false,
                })
            } else {
                match crate::store::inbound::inbound_of(self.store.tables().waiting(true)) {
                    Ok(items) => r is Ok && r->Ok_0@ == (InboundView {
                        rest: items,
                        user_id: self.session@.user_id,
                        changed: false,
                    }),
                    Err(e) => r is Err && r->Err_0@ == CoreErrorView::Storage(e.words()),
                }
            },
    {
        if !self.has_engine {
            return Ok(InboundPass::new(Vec::new(), self.session.user_id.as_str(), false));
        }
        match self.store.pending_mls() {
            Ok(items) => Ok(InboundPass::new(items, self.session.user_id.as_str(), true)),
            Err(e) => Err(CoreError::of_store(e)),
        }
    }

    /// The request to store an encrypted backup of the device's keys.
    pub fn backup(&self, blob_b64: &str) -> (r: HttpRequest)
        ensures
            r@ == self.api@.put(
                crate::api::backup_path("!e2ee-backup"@, "mls-device-state"@),
                JsonView::Object(seq![("blob"@, JsonView::Str(blob_b64@))]),
            ),
    {
        self.api.put_room_key(BACKUP_ROOM, BACKUP_SESSION, blob_b64)
    }

    /// The request for the encrypted backup of the device's keys.
    pub fn restore_backup(&self) -> (r: HttpRequest)
        ensures
            r@ == self.api@.get(crate::api::backup_path("!e2ee-backup"@, "mls-device-state"@)),
    {
        self.api.get_room_key(BACKUP_ROOM, BACKUP_SESSION)
    }
}

/// The backup that a reply holds. That the server has none is an error here.
pub fn found_backup(reply: Result<Json, ApiError>) -> (r: Result<String, CoreError>)
    ensures
        crate::error::core_outcome(r) == match crate::api::api_outcome(reply) {
            Ok(body) => match body.at("blob"@).as_str() {
                Some(blob) => Ok(blob),
                None => Err(no_backup()),
            },
            Err(e) => if e matches ApiErrorView::Server(_, code, _) && code is NotFound {
                Err(no_backup())
            } else {
                Err(crate::error::of_api(e))
            },
        },
{
    match backup_of(reply) {
        Ok(Some(blob)) => Ok(blob),
        Ok(None) => Err(CoreError::crypto("no encryption-key backup found on the server")),
        Err(e) => Err(CoreError::of_api(e)),
    }
}

/// The complaint that the server has no backup.
pub open spec fn no_backup() -> CoreErrorView {
    CoreErrorView::Crypto("no encryption-key backup found on the server"@)
}

/// Tells the observer of the sync loop that the server was reached, and that the
/// store has changed where it has.
pub fn notify_connected<O: SyncObserver>(observer: &O, changed: bool) -> (told: bool)
    ensures
        call_ensures(O::on_status, (observer, true), ()),
        told == changed,
        told ==> call_ensures(O::on_change, (observer,), ()),
{
    observer.on_status(true);
    if changed {
        observer.on_change();
    }
    changed
}

/// The rooms and the entries that are handed out are shown one by one, each at its own
/// place.
pub proof fn lists_show_their_elements(rooms: Seq<Room>, evs: Seq<TimelineEvent>, i: int)
    ensures
        room_views(rooms).len() == rooms.len(),
        0 <= i < rooms.len() ==> room_views(rooms)[i] == room_view(rooms[i]),
        timeline_views(evs).len() == evs.len(),
        0 <= i < evs.len() ==> timeline_views(evs)[i] == evs[i]@,
{
}

} // verus!
