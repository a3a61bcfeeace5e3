//! Sending an image.

use vstd::prelude::*;
use vstd::string::*;

use crate::api::{Api, ApiError, ApiErrorView, ApiView, BodyView, HttpRequest, RequestView, Verb};
use crate::codec::write_json;
use crate::error::{CoreError, CoreErrorView};
use crate::invite::next_txn_id;
use crate::json::{Json, JsonView};
use crate::media::{check_upload, MAX_UPLOAD_BYTES};
use crate::reply::text_of;
use crate::send::encrypted_message;
use crate::store::Store;
use crate::table::Tables;

verus! {

/// An image that is being sent: what is said about it. Its bytes are handed over
/// when they are needed.
pub struct ImagePass {
    room_id: String,
    mimetype: String,
    width: u32,
    height: u32,
    size: u64,
    caption: String,
}

/// What an [`ImagePass`] holds.
#[verifier::ext_equal]
pub struct ImagePassView {
    pub room_id: Seq<char>,
    pub mimetype: Seq<char>,
    pub width: u32,
    pub height: u32,
    pub size: u64,
    pub caption: Seq<char>,
}

impl View for ImagePass {
    type V = ImagePassView;

    closed spec fn view(&self) -> ImagePassView {
        ImagePassView {
            room_id: self.room_id@,
            mimetype: self.mimetype@,
            width: self.width,
            height: self.height,
            size: self.size,
            caption: self.caption@,
        }
    }
}

/// What has happened in the course of sending an image.
pub enum ImageEvent {
    /// Sending begins. The bytes are those of the image.
    Begin { has_engine: bool, bytes: Vec<u8> },
    /// The engine was asked whether it holds the room's group.
    Group { held: Result<bool, CoreError>, bytes: Vec<u8> },
    /// The engine was asked to encrypt the bytes. It answered with the key, in
    /// base64, and the ciphertext.
    MediaEncrypted(Result<(String, Vec<u8>), CoreError>),
    /// The bytes were uploaded. The key is that under which they were encrypted, if
    /// they were. `n` is the running number of the attempt.
    Uploaded { key: Option<String>, reply: Result<Json, ApiError>, n: u64 },
    /// The engine was asked to encrypt the message.
    Encrypted { answer: Result<String, CoreError>, n: u64 },
    /// The message was sent.
    Sent(Result<Json, ApiError>),
}

/// What is to be done next in the course of sending an image.
pub enum ImageAction {
    /// Ask the engine whether it holds the room's group.
    CheckGroup { bytes: Vec<u8> },
    /// Have the engine encrypt the bytes.
    EncryptMedia { bytes: Vec<u8> },
    /// Upload the bytes.
    Upload { key: Option<String>, request: HttpRequest },
    /// Have the engine encrypt the message for the room's group.
    Encrypt { text: String },
    /// Send the message.
    Send(HttpRequest),
    /// The image was sent.
    Done,
}

/// What an [`ImageEvent`] says.
pub enum ImageEventView {
    Begin(bool, Seq<u8>),
    Group(Result<bool, CoreErrorView>, Seq<u8>),
    MediaEncrypted(Result<(Seq<char>, Seq<u8>), CoreErrorView>),
    Uploaded(Option<Seq<char>>, Result<JsonView, ApiErrorView>, u64),
    Encrypted(Result<Seq<char>, CoreErrorView>, u64),
    Sent(Result<JsonView, ApiErrorView>),
}

/// What an [`ImageAction`] says.
pub enum ImageActionView {
    CheckGroup(Seq<u8>),
    EncryptMedia(Seq<u8>),
    Upload(Option<Seq<char>>, RequestView),
    Encrypt(Seq<char>),
    Send(RequestView),
    Done,
}

impl View for ImageEvent {
    type V = ImageEventView;

    open spec fn view(&self) -> ImageEventView {
        match self {
            ImageEvent::Begin { has_engine, bytes } => ImageEventView::Begin(*has_engine, bytes@),
            ImageEvent::Group { held, bytes } => ImageEventView::Group(
                crate::sync::change_outcome(*held),
                bytes@,
            ),
            ImageEvent::MediaEncrypted(r) => ImageEventView::MediaEncrypted(
                match r {
                    Ok(pair) => Ok((pair.0@, pair.1@)),
                    Err(e) => Err(e@),
                },
            ),
            ImageEvent::Uploaded { key, reply, n } => ImageEventView::Uploaded(
                crate::json::opt_string_view(*key),
                crate::api::api_outcome(*reply),
                *n,
            ),
            ImageEvent::Encrypted { answer, n } => ImageEventView::Encrypted(
                crate::error::core_outcome(*answer),
                *n,
            ),
            ImageEvent::Sent(r) => ImageEventView::Sent(crate::api::api_outcome(*r)),
        }
    }
}

impl View for ImageAction {
    type V = ImageActionView;

    open spec fn view(&self) -> ImageActionView {
        match self {
            ImageAction::CheckGroup { bytes } => ImageActionView::CheckGroup(bytes@),
            ImageAction::EncryptMedia { bytes } => ImageActionView::EncryptMedia(bytes@),
            ImageAction::Upload { key, request } => ImageActionView::Upload(
                crate::json::opt_string_view(*key),
                request@,
            ),
            ImageAction::Encrypt { text } => ImageActionView::Encrypt(text@),
            ImageAction::Send(request) => ImageActionView::Send(request@),
            ImageAction::Done => ImageActionView::Done,
        }
    }
}

/// The content of the message that refers to an image. Where the image was
/// encrypted, it holds the key.
pub open spec fn image_content(v: ImagePassView, uri: Seq<char>, key: Option<Seq<char>>) -> JsonView {
    let plain = seq![
        ("msgtype"@, JsonView::Str("p.image"@)),
        ("body"@, JsonView::Str(v.caption)),
        ("url"@, JsonView::Str(uri)),
        (
            "info"@,
            JsonView::Object(
                seq![
                    ("mimetype"@, JsonView::Str(v.mimetype)),
                    ("w"@, JsonView::PosInt(v.width as u64)),
                    ("h"@, JsonView::PosInt(v.height as u64)),
                    ("size"@, JsonView::PosInt(v.size)),
                ],
            ),
        ),
    ];
    JsonView::Object(
        match key {
            Some(k) => plain.push(("key"@, JsonView::Str(k))),
            None => plain,
        },
    )
}

/// The content of an image message says of the image what the caller said: reading the
/// image of it gives the address, the type, the width, the height and the size, its
/// body is the caption, and it holds the key exactly where there is one.
pub proof fn image_message_reads_back(v: ImagePassView, uri: Seq<char>, key: Option<Seq<char>>)
    ensures
        ({
            let content = image_content(v, uri, key);
            let info = content.at("info"@);
            &&& content.at("msgtype"@) == JsonView::Str("p.image"@)
            &&& content.at("body"@) == JsonView::Str(v.caption)
            &&& content.at("url"@) == JsonView::Str(uri)
            &&& info.at("mimetype"@) == JsonView::Str(v.mimetype)
            &&& info.at("w"@) == JsonView::PosInt(v.width as u64)
            &&& info.at("h"@) == JsonView::PosInt(v.height as u64)
            &&& info.at("size"@) == JsonView::PosInt(v.size)
            &&& match key {
                Some(k) => content.at("key"@) == JsonView::Str(k),
                None => content.field("key"@) is None,
            }
            &&& crate::rooms::image_of(content) == Some(
                crate::rooms::ImageView {
                    uri,
                    mimetype: v.mimetype,
                    width: v.width,
                    height: v.height,
                    size: v.size,
                },
            )
        }),
{
    reveal_strlit("msgtype");
    reveal_strlit("body");
    reveal_strlit("url");
    reveal_strlit("info");
    reveal_strlit("key");
    reveal_strlit("mimetype");
    reveal_strlit("w");
    reveal_strlit("h");
    reveal_strlit("size");
    assert("msgtype"@.len() == 7);
    assert("body"@.len() == 4 && "info"@.len() == 4 && "size"@.len() == 4);
    assert("body"@[0] != "info"@[0]);
    assert("url"@.len() == 3 && "key"@.len() == 3);
    assert("url"@[0] != "key"@[0]);
    assert("mimetype"@.len() == 8);
    assert("w"@.len() == 1 && "h"@.len() == 1);
    assert("w"@[0] != "h"@[0]);
    reveal_with_fuel(crate::json::find_member, 6);
    let content = image_content(v, uri, key);
    let m = content->Object_0;
    assert(m.drop_first()[0] == m[1]);
    assert(m.drop_first().drop_first()[0] == m[2]);
    assert(m.drop_first().drop_first().drop_first()[0] == m[3]);
    if key is Some {
        assert(m.drop_first().drop_first().drop_first().drop_first()[0] == m[4]);
    }
    let i = content.at("info"@)->Object_0;
    assert(i.drop_first()[0] == i[1]);
    assert(i.drop_first().drop_first()[0] == i[2]);
    assert(i.drop_first().drop_first().drop_first()[0] == i[3]);
    assert((v.width as u64) % 0x1_0000_0000 == v.width as u64);
    assert((v.height as u64) % 0x1_0000_0000 == v.height as u64);
}

/// The complaint about an upload that the server would not take.
pub open spec fn too_large() -> CoreErrorView {
    CoreErrorView::Api(
        crate::api::ErrorCodeView::LimitExceeded,
        "file exceeds the 50 MiB media upload limit"@,
    )
}

/// The upload of bytes of a content type.
pub open spec fn upload(
    api: ApiView,
    key: Option<Seq<char>>,
    bytes: Seq<u8>,
    content_type: Seq<char>,
) -> Result<ImageActionView, CoreErrorView> {
    if bytes.len() > MAX_UPLOAD_BYTES {
        Err(too_large())
    } else {
        Ok(
            ImageActionView::Upload(
                key,
                api.request(
                    Verb::Post,
                    "/_pigeon/media/v1/upload"@,
                    BodyView::Raw(content_type, bytes),
                ),
            ),
        )
    }
}

/// The request that sends an event to the room.
pub open spec fn send_request(
    api: ApiView,
    room: Seq<char>,
    event_type: Seq<char>,
    n: u64,
    content: JsonView,
) -> RequestView {
    api.put(
        "/_pigeon/client/v1/rooms/"@ + room + "/send/"@ + event_type + "/"@ + crate::invite::txn_id(
            n as nat,
        ),
        content,
    )
}

/// Sending goes on where no group is held: as it is into a room that is not
/// encrypted, not at all into one that is.
pub open spec fn without_group(v: ImagePassView, t: Tables, api: ApiView, bytes: Seq<u8>) -> Result<
    ImageActionView,
    CoreErrorView,
> {
    if t.is_encrypted(v.room_id) {
        Err(
            CoreErrorView::Crypto(
                "cannot send media: the room is encrypted and its group is not joined"@,
            ),
        )
    } else {
        upload(api, None, bytes, v.mimetype)
    }
}

/// One step of sending an image.
///
/// Into a room whose group is held, the bytes go encrypted under a key of their
/// own, and the key goes in the encrypted message; the server sees neither the
/// image nor the key. Into any other room bytes and message go as they are, unless
/// the room is marked as encrypted.
pub open spec fn image_step(v: ImagePassView, t: Tables, api: ApiView, event: ImageEventView) -> Result<
    ImageActionView,
    CoreErrorView,
> {
    match event {
        ImageEventView::Begin(has_engine, bytes) => if has_engine {
            Ok(ImageActionView::CheckGroup(bytes))
        } else {
            without_group(v, t, api, bytes)
        },
        ImageEventView::Group(Err(e), _) => Err(e),
        ImageEventView::Group(Ok(true), bytes) => Ok(ImageActionView::EncryptMedia(bytes)),
        ImageEventView::Group(Ok(false), bytes) => without_group(v, t, api, bytes),
        ImageEventView::MediaEncrypted(Err(e)) => Err(e),
        ImageEventView::MediaEncrypted(Ok((key, ciphertext))) => upload(
            api,
            Some(key),
            ciphertext,
            "application/octet-stream"@,
        ),
        ImageEventView::Uploaded(_, Err(e), _) => Err(crate::error::of_api(e)),
        ImageEventView::Uploaded(key, Ok(body), n) => match crate::reply::required_text(
            body,
            "content_uri"@,
            crate::reply::lacks(),
        ) {
            Err(e) => Err(crate::error::of_api(e)),
            Ok(uri) => match key {
                None => Ok(
                    ImageActionView::Send(
                        send_request(
                            api,
                            v.room_id,
                            "p.room.message"@,
                            n,
                            image_content(v, uri, None),
                        ),
                    ),
                ),
                Some(k) => Ok(
                    ImageActionView::Encrypt(
                        crate::codec::json_text(
                            crate::codec::normal(image_content(v, uri, Some(k))),
                        ),
                    ),
                ),
            },
        },
        ImageEventView::Encrypted(Err(e), _) => Err(e),
        ImageEventView::Encrypted(Ok(ciphertext), n) => Ok(
            ImageActionView::Send(
                send_request(
                    api,
                    v.room_id,
                    "p.room.encrypted"@,
                    n,
                    crate::send::encrypted_content(ciphertext),
                ),
            ),
        ),
        ImageEventView::Sent(Err(e)) => Err(crate::error::of_api(e)),
        ImageEventView::Sent(Ok(body)) => match crate::reply::required_text(
            body,
            "event_id"@,
            crate::reply::lacks(),
        ) {
            Err(e) => Err(crate::error::of_api(e)),
            Ok(_) => Ok(ImageActionView::Done),
        },
    }
}

/// The bytes of an image are uploaded as they are only into a room that is not
/// marked as encrypted, and only where no group is held for it.
pub proof fn encrypted_rooms_get_no_plain_image(
    v: ImagePassView,
    t: Tables,
    api: ApiView,
    event: ImageEventView,
    request: RequestView,
)
    requires
        image_step(v, t, api, event) == Ok::<ImageActionView, CoreErrorView>(
            ImageActionView::Upload(None, request),
        ),
    ensures
        !t.is_encrypted(v.room_id),
        event matches ImageEventView::Begin(false, _) || event matches ImageEventView::Group(
            Ok(false),
            _,
        ),
{
}

/// The key of an encrypted image is never sent but inside an encrypted message:
/// what follows its upload is that the engine encrypts the message.
pub proof fn image_key_is_encrypted(
    v: ImagePassView,
    t: Tables,
    api: ApiView,
    key: Seq<char>,
    reply: Result<JsonView, ApiErrorView>,
    n: u64,
)
    ensures
        image_step(v, t, api, ImageEventView::Uploaded(Some(key), reply, n)) matches Ok(action)
            ==> action is Encrypt,
{
}

/// What the engine and the server have to say in the course of sending an image:
/// whether the room's group is held, the key and the ciphertext of the bytes, the
/// ciphertext of the message, and the server's replies. The numbers are those of the
/// attempts to send the message, as it is and encrypted.
pub struct ImageAnswers {
    pub held: Result<bool, CoreErrorView>,
    pub media: spec_fn(Seq<u8>) -> Result<(Seq<char>, Seq<u8>), CoreErrorView>,
    pub ciphertext: spec_fn(Seq<char>) -> Result<Seq<char>, CoreErrorView>,
    pub server: spec_fn(RequestView) -> Result<JsonView, ApiErrorView>,
    pub plain_number: u64,
    pub secret_number: u64,
}

/// What sending an image comes to: how it ends, and what went to the server, in
/// order.
#[verifier::ext_equal]
pub struct ImageOutcome {
    pub result: Result<(), CoreErrorView>,
    pub requests: Seq<RequestView>,
}

/// How many steps an event leaves.
pub open spec fn steps_left(event: ImageEventView) -> int {
    match event {
        ImageEventView::Begin(_, _) => 5,
        ImageEventView::Group(_, _) => 4,
        ImageEventView::MediaEncrypted(_) => 3,
        ImageEventView::Uploaded(_, _, _) => 2,
        ImageEventView::Encrypted(_, _) => 1,
        ImageEventView::Sent(_) => 0,
    }
}

/// Sending an image, from an event to its end, step by step, with the given answers.
pub open spec fn run_image(
    v: ImagePassView,
    t: Tables,
    api: ApiView,
    event: ImageEventView,
    answers: ImageAnswers,
) -> ImageOutcome
    decreases steps_left(event),
{
    match image_step(v, t, api, event) {
        Err(e) => ImageOutcome { result: Err(e), requests: seq![] },
        Ok(ImageActionView::Done) => ImageOutcome { result: Ok(()), requests: seq![] },
        Ok(ImageActionView::CheckGroup(bytes)) => run_image(
            v,
            t,
            api,
            ImageEventView::Group(answers.held, bytes),
            answers,
        ),
        Ok(ImageActionView::EncryptMedia(bytes)) => run_image(
            v,
            t,
            api,
            ImageEventView::MediaEncrypted((answers.media)(bytes)),
            answers,
        ),
        Ok(ImageActionView::Upload(key, request)) => {
            let rest = run_image(
                v,
                t,
                api,
                ImageEventView::Uploaded(key, (answers.server)(request), answers.plain_number),
                answers,
            );
            ImageOutcome { requests: seq![request] + rest.requests, ..rest }
        },
        Ok(ImageActionView::Encrypt(text)) => run_image(
            v,
            t,
            api,
            ImageEventView::Encrypted((answers.ciphertext)(text), answers.secret_number),
            answers,
        ),
        Ok(ImageActionView::Send(request)) => {
            let rest = run_image(
                v,
                t,
                api,
                ImageEventView::Sent((answers.server)(request)),
                answers,
            );
            ImageOutcome { requests: seq![request] + rest.requests, ..rest }
        },
    }
}

/// The request that uploads bytes of a content type.
pub open spec fn upload_request(
    api: ApiView,
    bytes: Seq<u8>,
    content_type: Seq<char>,
) -> RequestView {
    api.request(Verb::Post, "/_pigeon/media/v1/upload"@, BodyView::Raw(content_type, bytes))
}

/// The text that a reply has to hold under a key.
pub open spec fn text_in(reply: Result<JsonView, ApiErrorView>, key: Seq<char>) -> Result<
    Seq<char>,
    CoreErrorView,
> {
    match reply {
        Err(e) => Err(crate::error::of_api(e)),
        Ok(body) => match crate::reply::required_text(body, key, crate::reply::lacks()) {
            Err(e) => Err(crate::error::of_api(e)),
            Ok(text) => Ok(text),
        },
    }
}

/// What the last request of an image comes to, behind its upload.
pub open spec fn message_sent(
    uploading: RequestView,
    message: RequestView,
    answers: ImageAnswers,
) -> ImageOutcome {
    ImageOutcome {
        result: match text_in((answers.server)(message), "event_id"@) {
            Ok(_) => Ok(()),
            Err(e) => Err(e),
        },
        requests: seq![uploading, message],
    }
}

/// What an image comes to in a room whose group is held: its ciphertext is uploaded,
/// and the message that holds where it is, and its key, goes out encrypted.
pub open spec fn secret_image(
    v: ImagePassView,
    api: ApiView,
    bytes: Seq<u8>,
    answers: ImageAnswers,
) -> ImageOutcome {
    match (answers.media)(bytes) {
        Err(e) => ImageOutcome { result: Err(e), requests: seq![] },
        Ok((key, secret)) => if secret.len() > MAX_UPLOAD_BYTES {
            ImageOutcome { result: Err(too_large()), requests: seq![] }
        } else {
            let uploading = upload_request(api, secret, "application/octet-stream"@);
            match text_in((answers.server)(uploading), "content_uri"@) {
                Err(e) => ImageOutcome { result: Err(e), requests: seq![uploading] },
                Ok(uri) => {
                    let content = image_content(v, uri, Some(key));
                    match (answers.ciphertext)(
                        crate::codec::json_text(crate::codec::normal(content)),
                    ) {
                        Err(e) => ImageOutcome { result: Err(e), requests: seq![uploading] },
                        Ok(text) => message_sent(
                            uploading,
                            send_request(
                                api,
                                v.room_id,
                                "p.room.encrypted"@,
                                answers.secret_number,
                                crate::send::encrypted_content(text),
                            ),
                            answers,
                        ),
                    }
                },
            }
        },
    }
}

/// What an image comes to in a room that is not encrypted: it is uploaded as it is,
/// and so goes the message.
pub open spec fn plain_image(
    v: ImagePassView,
    api: ApiView,
    bytes: Seq<u8>,
    answers: ImageAnswers,
) -> ImageOutcome {
    if bytes.len() > MAX_UPLOAD_BYTES {
        ImageOutcome { result: Err(too_large()), requests: seq![] }
    } else {
        let uploading = upload_request(api, bytes, v.mimetype);
        match text_in((answers.server)(uploading), "content_uri"@) {
            Err(e) => ImageOutcome { result: Err(e), requests: seq![uploading] },
            Ok(uri) => message_sent(
                uploading,
                send_request(
                    api,
                    v.room_id,
                    "p.room.message"@,
                    answers.plain_number,
                    image_content(v, uri, None),
                ),
                answers,
            ),
        }
    }
}

proof fn lemma_run_sends(
    v: ImagePassView,
    t: Tables,
    api: ApiView,
    event: ImageEventView,
    message: RequestView,
    uploading: RequestView,
    answers: ImageAnswers,
)
    requires
        image_step(v, t, api, event) == Ok::<ImageActionView, CoreErrorView>(
            ImageActionView::Send(message),
        ),
    ensures
        ({
            let rest = run_image(v, t, api, event, answers);
            message_sent(uploading, message, answers) == ImageOutcome {
                requests: seq![uploading] + rest.requests,
                ..rest
            }
        }),
{
    let sent = ImageEventView::Sent((answers.server)(message));
    assert(run_image(v, t, api, sent, answers).requests =~= seq![]);
    assert(seq![uploading] + (seq![message] + seq![]) =~= seq![uploading, message]);
}

proof fn lemma_run_without_group(
    v: ImagePassView,
    t: Tables,
    api: ApiView,
    event: ImageEventView,
    bytes: Seq<u8>,
    answers: ImageAnswers,
)
    requires
        !t.is_encrypted(v.room_id),
        image_step(v, t, api, event) == without_group(v, t, api, bytes),
    ensures
        run_image(v, t, api, event, answers) == plain_image(v, api, bytes, answers),
{
    if bytes.len() <= MAX_UPLOAD_BYTES {
        let uploading = upload_request(api, bytes, v.mimetype);
        let reply = (answers.server)(uploading);
        let uploaded = ImageEventView::Uploaded(None, reply, answers.plain_number);
        let rest = run_image(v, t, api, uploaded, answers);
        assert(run_image(v, t, api, event, answers) == ImageOutcome {
            requests: seq![uploading] + rest.requests,
            ..rest
        });
        if let Ok(uri) = text_in(reply, "content_uri"@) {
            let message = send_request(
                api,
                v.room_id,
                "p.room.message"@,
                answers.plain_number,
                image_content(v, uri, None),
            );
            lemma_run_sends(v, t, api, uploaded, message, uploading, answers);
        } else {
            assert(seq![uploading] + seq![] =~= seq![uploading]);
        }
    }
}

/// An image into a room whose group is held is one upload, of the ciphertext, and
/// one encrypted message; into an encrypted room whose group is not held nothing
/// goes at all; and only into a room that is not encrypted the image goes as it is,
/// with a plain message.
pub proof fn image_goes_as_its_room_asks(
    v: ImagePassView,
    t: Tables,
    api: ApiView,
    has_engine: bool,
    bytes: Seq<u8>,
    answers: ImageAnswers,
)
    ensures
        ({
            let run = run_image(v, t, api, ImageEventView::Begin(has_engine, bytes), answers);
            let held = if has_engine {
                answers.held
            } else {
                Ok(false)
            };
            match held {
                Err(e) => run == (ImageOutcome { result: Err(e), requests: seq![] }),
                Ok(true) => run == secret_image(v, api, bytes, answers),
                Ok(false) => if t.is_encrypted(v.room_id) {
                    run.result is Err && run.requests == Seq::<RequestView>::empty()
                } else {
                    run == plain_image(v, api, bytes, answers)
                },
            }
        }),
{
    let begin = ImageEventView::Begin(has_engine, bytes);
    let group = ImageEventView::Group(answers.held, bytes);
    if has_engine {
        assert(run_image(v, t, api, begin, answers) == run_image(v, t, api, group, answers));
        if answers.held == Ok::<bool, CoreErrorView>(true) {
            lemma_run_with_group(v, t, api, bytes, answers);
        } else if answers.held is Ok && !t.is_encrypted(v.room_id) {
            lemma_run_without_group(v, t, api, group, bytes, answers);
        }
    } else if !t.is_encrypted(v.room_id) {
        lemma_run_without_group(v, t, api, begin, bytes, answers);
    }
}

proof fn lemma_run_with_group(
    v: ImagePassView,
    t: Tables,
    api: ApiView,
    bytes: Seq<u8>,
    answers: ImageAnswers,
)
    ensures
        run_image(v, t, api, ImageEventView::Group(Ok(true), bytes), answers) == secret_image(
            v,
            api,
            bytes,
            answers,
        ),
{
    let media = ImageEventView::MediaEncrypted((answers.media)(bytes));
    assert(run_image(v, t, api, ImageEventView::Group(Ok(true), bytes), answers) == run_image(
        v,
        t,
        api,
        media,
        answers,
    ));
    if let Ok((key, secret)) = (answers.media)(bytes) {
        if secret.len() <= MAX_UPLOAD_BYTES {
            let uploading = upload_request(api, secret, "application/octet-stream"@);
            let reply = (answers.server)(uploading);
            let uploaded = ImageEventView::Uploaded(Some(key), reply, answers.plain_number);
            let rest = run_image(v, t, api, uploaded, answers);
            assert(run_image(v, t, api, media, answers) == ImageOutcome {
                requests: seq![uploading] + rest.requests,
                ..rest
            });
            if let Ok(uri) = text_in(reply, "content_uri"@) {
                let text = crate::codec::json_text(
                    crate::codec::normal(image_content(v, uri, Some(key))),
                );
                let answer = (answers.ciphertext)(text);
                let encrypted = ImageEventView::Encrypted(answer, answers.secret_number);
                assert(rest == run_image(v, t, api, encrypted, answers));
                if let Ok(c) = answer {
                    let message = send_request(
                        api,
                        v.room_id,
                        "p.room.encrypted"@,
                        answers.secret_number,
                        crate::send::encrypted_content(c),
                    );
                    lemma_run_sends(v, t, api, encrypted, message, uploading, answers);
                } else {
                    assert(seq![uploading] + seq![] =~= seq![uploading]);
                }
            } else {
                assert(seq![uploading] + seq![] =~= seq![uploading]);
            }
        }
    }
}

/// What goes to the server of an image into a room whose group is held is at most
/// one upload, of the ciphertext, and one message, which is a ciphertext; where the
/// image was sent it is both.
pub proof fn held_group_gets_only_ciphertext(
    v: ImagePassView,
    t: Tables,
    api: ApiView,
    bytes: Seq<u8>,
    answers: ImageAnswers,
)
    requires
        answers.held == Ok::<bool, CoreErrorView>(true),
    ensures
        ({
            let run = run_image(v, t, api, ImageEventView::Begin(true, bytes), answers);
            &&& run.requests.len() <= 2
            &&& run.result is Ok ==> run.requests.len() == 2
            &&& run.requests.len() > 0 ==> (match (answers.media)(bytes) {
                Ok((_, secret)) => run.requests[0] == upload_request(
                    api,
                    secret,
                    "application/octet-stream"@,
                ),
                Err(_) => false,
            })
            &&& run.requests.len() > 1 ==> exists|c: Seq<char>|
                run.requests[1] == send_request(
                    api,
                    v.room_id,
                    "p.room.encrypted"@,
                    answers.secret_number,
                    #[trigger] crate::send::encrypted_content(c),
                )
        }),
{
    image_goes_as_its_room_asks(v, t, api, true, bytes, answers);
    let run = run_image(v, t, api, ImageEventView::Begin(true, bytes), answers);
    if run.requests.len() > 1 {
        let (key, secret) = (answers.media)(bytes)->Ok_0;
        let uploading = upload_request(api, secret, "application/octet-stream"@);
        let uri = text_in((answers.server)(uploading), "content_uri"@)->Ok_0;
        let content = image_content(v, uri, Some(key));
        let c = (answers.ciphertext)(
            crate::codec::json_text(crate::codec::normal(content)),
        )->Ok_0;
        assert(run.requests[1] == send_request(
            api,
            v.room_id,
            "p.room.encrypted"@,
            answers.secret_number,
            crate::send::encrypted_content(c),
        ));
    }
}

/// The requests that carry an image: the upload carries the bytes under their type, and
/// the message goes to the room under the id of its attempt, with its content.
pub proof fn image_requests_carry_the_image(
    api: ApiView,
    room: Seq<char>,
    event_type: Seq<char>,
    n: u64,
    content: JsonView,
    bytes: Seq<u8>,
    content_type: Seq<char>,
)
    ensures
        upload_request(api, bytes, content_type).verb == Verb::Post,
        upload_request(api, bytes, content_type).url == api.base + "/_pigeon/media/v1/upload"@,
        upload_request(api, bytes, content_type).bearer == api.token,
        upload_request(api, bytes, content_type).body == BodyView::Raw(content_type, bytes),
        send_request(api, room, event_type, n, content).verb == Verb::Put,
        send_request(api, room, event_type, n, content).url == api.base + (
        "/_pigeon/client/v1/rooms/"@ + room + "/send/"@ + event_type + "/"@ + ("mob-td-"@
            + crate::text::decimal(n as nat))),
        send_request(api, room, event_type, n, content).bearer == api.token,
        send_request(api, room, event_type, n, content).body == BodyView::Json(content),
{
}

/// An image into a room that is not encrypted, and whose group is not held, is sent where
/// it is not too large and the server takes it: its bytes are uploaded as they are, under
/// their type, and the message names the address that the server gave, and says of the
/// image what the caller said.
pub proof fn plain_image_is_sent_as_it_is(
    v: ImagePassView,
    t: Tables,
    api: ApiView,
    bytes: Seq<u8>,
    answers: ImageAnswers,
    uri: Seq<char>,
)
    requires
        !t.is_encrypted(v.room_id),
        bytes.len() <= 52_428_800,
        (answers.server)(upload_request(api, bytes, v.mimetype)) matches Ok(body) && body.at(
            "content_uri"@,
        ) == JsonView::Str(uri),
    ensures
        ({
            let run = run_image(v, t, api, ImageEventView::Begin(false, bytes), answers);
            let content = run.requests[1].body->Json_0;
            &&& run.requests.len() == 2
            &&& run.requests[0] == upload_request(api, bytes, v.mimetype)
            &&& run.requests[1] == send_request(
                api,
                v.room_id,
                "p.room.message"@,
                answers.plain_number,
                content,
            )
            &&& content.at("msgtype"@) == JsonView::Str("p.image"@)
            &&& content.at("body"@) == JsonView::Str(v.caption)
            &&& content.at("url"@) == JsonView::Str(uri)
            &&& content.at("info"@).at("mimetype"@) == JsonView::Str(v.mimetype)
            &&& content.at("info"@).at("w"@) == JsonView::PosInt(v.width as u64)
            &&& content.at("info"@).at("h"@) == JsonView::PosInt(v.height as u64)
            &&& content.at("info"@).at("size"@) == JsonView::PosInt(v.size)
            &&& content.field("key"@) is None
            &&& run.result is Ok <==> ((answers.server)(run.requests[1]) matches Ok(body)
                && body.at("event_id"@) is Str)
        }),
{
    image_goes_as_its_room_asks(v, t, api, false, bytes, answers);
    image_message_reads_back(v, uri, None);
}

/// What is encrypted of an image into a room whose group is held is the bytes of the image
/// and the message that names the address that the server gave, the key, and what the
/// caller said of the image; it is sent where the engine can do both, the ciphertext is
/// not too large and the server takes both.
pub proof fn secret_image_is_sent_encrypted(
    v: ImagePassView,
    t: Tables,
    api: ApiView,
    bytes: Seq<u8>,
    answers: ImageAnswers,
    key: Seq<char>,
    secret: Seq<u8>,
    uri: Seq<char>,
    c: Seq<char>,
)
    requires
        answers.held == Ok::<bool, CoreErrorView>(true),
        (answers.media)(bytes) == Ok::<(Seq<char>, Seq<u8>), CoreErrorView>((key, secret)),
        secret.len() <= 52_428_800,
        (answers.server)(upload_request(api, secret, "application/octet-stream"@)) matches Ok(body)
            && body.at("content_uri"@) == JsonView::Str(uri),
        (answers.ciphertext)(
            crate::codec::json_text(crate::codec::normal(image_content(v, uri, Some(key)))),
        ) == Ok::<Seq<char>, CoreErrorView>(c),
    ensures
        ({
            let run = run_image(v, t, api, ImageEventView::Begin(true, bytes), answers);
            &&& run.requests.len() == 2
            &&& run.requests[0] == upload_request(api, secret, "application/octet-stream"@)
            &&& run.requests[1] == send_request(
                api,
                v.room_id,
                "p.room.encrypted"@,
                answers.secret_number,
                crate::send::encrypted_content(c),
            )
            &&& run.result is Ok <==> ((answers.server)(run.requests[1]) matches Ok(body)
                && body.at("event_id"@) is Str)
        }),
{
    image_goes_as_its_room_asks(v, t, api, true, bytes, answers);
}

/// An image that the server would not take is not sent: nothing goes out, and the
/// complaint is that it is too large.
pub proof fn large_image_is_not_sent(
    v: ImagePassView,
    t: Tables,
    api: ApiView,
    bytes: Seq<u8>,
    answers: ImageAnswers,
)
    requires
        !t.is_encrypted(v.room_id),
        bytes.len() > 52_428_800,
    ensures
        ({
            let run = run_image(v, t, api, ImageEventView::Begin(false, bytes), answers);
            &&& run.requests.len() == 0
            &&& run.result == Err::<(), CoreErrorView>(
                CoreErrorView::Api(
                    crate::api::ErrorCodeView::LimitExceeded,
                    "file exceeds the 50 MiB media upload limit"@,
                ),
            )
        }),
{
    image_goes_as_its_room_asks(v, t, api, false, bytes, answers);
}

impl ImagePass {
    /// Sending an image to a room.
    pub fn new(
        room_id: &str,
        mimetype: &str,
        width: u32,
        height: u32,
        size: u64,
        caption: &str,
    ) -> (r: ImagePass)
        ensures
            r@ == (ImagePassView {
                room_id: room_id@,
                mimetype: mimetype@,
                width,
                height,
                size,
                caption: caption@,
            }),
    {
        ImagePass {
            room_id: room_id.to_owned(),
            mimetype: mimetype.to_owned(),
            width,
            height,
            size,
            caption: caption.to_owned(),
        }
    }

    fn content(&self, uri: &str, key: Option<&str>) -> (r: Json)
        ensures
            r@ == image_content(self@, uri@, crate::json::opt_str_view(key)),
    {
        let mut info: Vec<(String, Json)> = Vec::new();
        info.push(("mimetype".to_owned(), Json::string(self.mimetype.as_str())));
        info.push(("w".to_owned(), Json::natural(self.width as u64)));
        info.push(("h".to_owned(), Json::natural(self.height as u64)));
        info.push(("size".to_owned(), Json::natural(self.size)));
        let about = Json::Object(info);
        assert(about@->Object_0 =~= seq![
            ("mimetype"@, JsonView::Str(self.mimetype@)),
            ("w"@, JsonView::PosInt(self.width as u64)),
            ("h"@, JsonView::PosInt(self.height as u64)),
            ("size"@, JsonView::PosInt(self.size)),
        ]);
        let mut m: Vec<(String, Json)> = Vec::new();
        m.push(("msgtype".to_owned(), Json::string("p.image")));
        m.push(("body".to_owned(), Json::string(self.caption.as_str())));
        m.push(("url".to_owned(), Json::string(uri)));
        m.push(("info".to_owned(), about));
        match key {
            Some(k) => {
                m.push(("key".to_owned(), Json::string(k)));
            },
            None => {},
        }
        let r = Json::Object(m);
        assert(r@->Object_0 =~= image_content(
            self@,
            uri@,
            crate::json::opt_str_view(key),
        )->Object_0);
        r
    }

    fn upload(api: &Api, key: Option<String>, bytes: Vec<u8>, content_type: &str) -> (r: Result<
        ImageAction,
        CoreError,
    >)
        ensures
            crate::error::core_outcome(r) == upload(
                api@,
                crate::json::opt_string_view(key),
                bytes@,
                content_type@,
            ),
    {
        match check_upload(bytes.len()) {
            Err(e) => Err(e),
            Ok(_) => Ok(ImageAction::Upload { key, request: api.upload_media(bytes, content_type) }),
        }
    }

    fn without_group(&self, store: &Store, api: &Api, bytes: Vec<u8>) -> (r: Result<
        ImageAction,
        CoreError,
    >)
        ensures
            crate::error::core_outcome(r) == without_group(self@, store.tables(), api@, bytes@),
    {
        let encrypted = match store.is_room_encrypted(self.room_id.as_str()) {
            Ok(b) => b,
            Err(e) => return Err(CoreError::of_store(e)),
        };
        if encrypted {
            Err(
                CoreError::crypto(
                    "cannot send media: the room is encrypted and its group is not joined",
                ),
            )
        } else {
            ImagePass::upload(api, None, bytes, self.mimetype.as_str())
        }
    }

    /// One step of sending the image.
    pub fn next(&self, store: &Store, api: &Api, event: ImageEvent) -> (r: Result<
        ImageAction,
        CoreError,
    >)
        ensures
            crate::error::core_outcome(r) == image_step(self@, store.tables(), api@, event@),
    {
        match event {
            ImageEvent::Begin { has_engine, bytes } => if has_engine {
                Ok(ImageAction::CheckGroup { bytes })
            } else {
                self.without_group(store, api, bytes)
            },
            ImageEvent::Group { held, bytes } => match held {
                Err(e) => Err(e),
                Ok(true) => Ok(ImageAction::EncryptMedia { bytes }),
                Ok(false) => self.without_group(store, api, bytes),
            },
            ImageEvent::MediaEncrypted(answer) => match answer {
                Err(e) => Err(e),
                Ok(pair) => {
                    let (key, ciphertext) = pair;
                    ImagePass::upload(api, Some(key), ciphertext, "application/octet-stream")
                },
            },
            ImageEvent::Uploaded { key, reply, n } => match text_of(reply, "content_uri") {
                Err(e) => Err(CoreError::of_api(e)),
                Ok(uri) => match key {
                    None => {
                        let content = self.content(uri.as_str(), None);
                        let txn = next_txn_id(n);
                        Ok(
                            ImageAction::Send(
                                api.send_event(
                                    self.room_id.as_str(),
                                    "p.room.message",
                                    txn.as_str(),
                                    content,
                                ),
                            ),
                        )
                    },
                    Some(k) => {
                        let content = self.content(uri.as_str(), Some(k.as_str()));
                        Ok(ImageAction::Encrypt { text: write_json(&content) })
                    },
                },
            },
            ImageEvent::Encrypted { answer, n } => match answer {
                Err(e) => Err(e),
                Ok(ciphertext) => {
                    let txn = next_txn_id(n);
                    let content = encrypted_message(ciphertext.as_str());
                    Ok(
                        ImageAction::Send(
                            api.send_event(
                                self.room_id.as_str(),
                                "p.room.encrypted",
                                txn.as_str(),
                                content,
                            ),
                        ),
                    )
                },
            },
            ImageEvent::Sent(reply) => match text_of(reply, "event_id") {
                Err(e) => Err(CoreError::of_api(e)),
                Ok(_) => Ok(ImageAction::Done),
            },
        }
    }
}

/// An image that cannot be sent is answered with what went wrong: a fault of the engine
/// and a refusal of the server as they are, a reply that lacks what it should hold as
/// malformed, and a room whose group is not held with a complaint of its own.
pub proof fn failed_image_says_what_happened(
    v: ImagePassView,
    t: Tables,
    api: ApiView,
    bytes: Seq<u8>,
    key: Option<Seq<char>>,
    body: JsonView,
    e: ApiErrorView,
    why: CoreErrorView,
    n: u64,
)
    ensures
        image_step(v, t, api, ImageEventView::Group(Err(why), bytes)) == Err::<
            ImageActionView,
            CoreErrorView,
        >(why),
        image_step(v, t, api, ImageEventView::MediaEncrypted(Err(why))) == Err::<
            ImageActionView,
            CoreErrorView,
        >(why),
        image_step(v, t, api, ImageEventView::Encrypted(Err(why), n)) == Err::<
            ImageActionView,
            CoreErrorView,
        >(why),
        image_step(v, t, api, ImageEventView::Uploaded(key, Err(e), n)) == Err::<
            ImageActionView,
            CoreErrorView,
        >(crate::error::of_api(e)),
        image_step(v, t, api, ImageEventView::Sent(Err(e))) == Err::<
            ImageActionView,
            CoreErrorView,
        >(crate::error::of_api(e)),
        !(body.at("content_uri"@) is Str) ==> image_step(
            v,
            t,
            api,
            ImageEventView::Uploaded(key, Ok(body), n),
        ) is Err,
        image_step(v, t, api, ImageEventView::Sent(Ok(body))) is Ok <==> body.at("event_id"@)
            is Str,
        t.is_encrypted(v.room_id) ==> (image_step(
            v,
            t,
            api,
            ImageEventView::Begin(false, bytes),
        ) matches Err(CoreErrorView::Crypto(_))),
        t.is_encrypted(v.room_id) ==> (image_step(
            v,
            t,
            api,
            ImageEventView::Group(Ok(false), bytes),
        ) matches Err(CoreErrorView::Crypto(_))),
        image_step(v, t, api, ImageEventView::Begin(true, bytes)) == Ok::<
            ImageActionView,
            CoreErrorView,
        >(ImageActionView::CheckGroup(bytes)),
        image_step(v, t, api, ImageEventView::Group(Ok(true), bytes)) == Ok::<
            ImageActionView,
            CoreErrorView,
        >(ImageActionView::EncryptMedia(bytes)),
{
}

} // verus!
