//! The Client–Server API: the requests that are sent to a homeserver, and how its
//! replies are read.

use vstd::prelude::*;
use vstd::string::*;

use crate::json::{
    array0, array1, object0, object1, object2, object3, Json, JsonView,
};
use crate::text::{decimal_u64, hex_prefix, join2, join3, str_eq};

verus! {

/// A typed error code of the server. A code that is not known is kept as it is.
#[derive(Debug, Clone, PartialEq, Eq)]
pub enum ErrorCode {
    Forbidden,
    UnknownToken,
    MissingToken,
    BadJson,
    NotJson,
    NotFound,
    LimitExceeded,
    BadSignature,
    Unrecognized,
    UserInUse,
    InvalidUsername,
    Unknown,
    Other { code: String },
}

/// What an [`ErrorCode`] says.
pub enum ErrorCodeView {
    Forbidden,
    UnknownToken,
    MissingToken,
    BadJson,
    NotJson,
    NotFound,
    LimitExceeded,
    BadSignature,
    Unrecognized,
    UserInUse,
    InvalidUsername,
    Unknown,
    Other(Seq<char>),
}

impl View for ErrorCode {
    type V = ErrorCodeView;

    open spec fn view(&self) -> ErrorCodeView {
        match self {
            ErrorCode::Forbidden => ErrorCodeView::Forbidden,
            ErrorCode::UnknownToken => ErrorCodeView::UnknownToken,
            ErrorCode::MissingToken => ErrorCodeView::MissingToken,
            ErrorCode::BadJson => ErrorCodeView::BadJson,
            ErrorCode::NotJson => ErrorCodeView::NotJson,
            ErrorCode::NotFound => ErrorCodeView::NotFound,
            ErrorCode::LimitExceeded => ErrorCodeView::LimitExceeded,
            ErrorCode::BadSignature => ErrorCodeView::BadSignature,
            ErrorCode::Unrecognized => ErrorCodeView::Unrecognized,
            ErrorCode::UserInUse => ErrorCodeView::UserInUse,
            ErrorCode::InvalidUsername => ErrorCodeView::InvalidUsername,
            ErrorCode::Unknown => ErrorCodeView::Unknown,
            ErrorCode::Other { code } => ErrorCodeView::Other(code@),
        }
    }
}

/// The code that a wire `errcode` names.
pub open spec fn code_of(s: Seq<char>) -> ErrorCodeView {
    if s == "P_FORBIDDEN"@ {
        ErrorCodeView::Forbidden
    } else if s == "P_UNKNOWN_TOKEN"@ {
        ErrorCodeView::UnknownToken
    } else if s == "P_MISSING_TOKEN"@ {
        ErrorCodeView::MissingToken
    } else if s == "P_BAD_JSON"@ {
        ErrorCodeView::BadJson
    } else if s == "P_NOT_JSON"@ {
        ErrorCodeView::NotJson
    } else if s == "P_NOT_FOUND"@ {
        ErrorCodeView::NotFound
    } else if s == "P_LIMIT_EXCEEDED"@ {
        ErrorCodeView::LimitExceeded
    } else if s == "P_BAD_SIGNATURE"@ {
        ErrorCodeView::BadSignature
    } else if s == "P_UNRECOGNIZED"@ {
        ErrorCodeView::Unrecognized
    } else if s == "P_USER_IN_USE"@ {
        ErrorCodeView::UserInUse
    } else if s == "P_INVALID_USERNAME"@ {
        ErrorCodeView::InvalidUsername
    } else if s == "P_UNKNOWN"@ {
        ErrorCodeView::Unknown
    } else {
        ErrorCodeView::Other(s)
    }
}

impl ErrorCodeView {
    /// The wire `errcode` of a code.
    pub open spec fn wire(self) -> Seq<char> {
        match self {
            ErrorCodeView::Forbidden => "P_FORBIDDEN"@,
            ErrorCodeView::UnknownToken => "P_UNKNOWN_TOKEN"@,
            ErrorCodeView::MissingToken => "P_MISSING_TOKEN"@,
            ErrorCodeView::BadJson => "P_BAD_JSON"@,
            ErrorCodeView::NotJson => "P_NOT_JSON"@,
            ErrorCodeView::NotFound => "P_NOT_FOUND"@,
            ErrorCodeView::LimitExceeded => "P_LIMIT_EXCEEDED"@,
            ErrorCodeView::BadSignature => "P_BAD_SIGNATURE"@,
            ErrorCodeView::Unrecognized => "P_UNRECOGNIZED"@,
            ErrorCodeView::UserInUse => "P_USER_IN_USE"@,
            ErrorCodeView::InvalidUsername => "P_INVALID_USERNAME"@,
            ErrorCodeView::Unknown => "P_UNKNOWN"@,
            ErrorCodeView::Other(s) => s,
        }
    }
}

/// No code is lost: what was read from an `errcode` has it as its wire form,
/// whether the code is known or not.
pub proof fn codes_round_trip(s: Seq<char>)
    ensures
        code_of(s).wire() == s,
{
}

impl ErrorCode {
    /// The code that a wire `errcode` names.
    pub fn from_wire(code: &str) -> (r: ErrorCode)
        ensures
            r@ == code_of(code@),
    {
        if str_eq(code, "P_FORBIDDEN") {
            ErrorCode::Forbidden
        } else if str_eq(code, "P_UNKNOWN_TOKEN") {
            ErrorCode::UnknownToken
        } else if str_eq(code, "P_MISSING_TOKEN") {
            ErrorCode::MissingToken
        } else if str_eq(code, "P_BAD_JSON") {
            ErrorCode::BadJson
        } else if str_eq(code, "P_NOT_JSON") {
            ErrorCode::NotJson
        } else if str_eq(code, "P_NOT_FOUND") {
            ErrorCode::NotFound
        } else if str_eq(code, "P_LIMIT_EXCEEDED") {
            ErrorCode::LimitExceeded
        } else if str_eq(code, "P_BAD_SIGNATURE") {
            ErrorCode::BadSignature
        } else if str_eq(code, "P_UNRECOGNIZED") {
            ErrorCode::Unrecognized
        } else if str_eq(code, "P_USER_IN_USE") {
            ErrorCode::UserInUse
        } else if str_eq(code, "P_INVALID_USERNAME") {
            ErrorCode::InvalidUsername
        } else if str_eq(code, "P_UNKNOWN") {
            ErrorCode::Unknown
        } else {
            ErrorCode::Other { code: code.to_owned() }
        }
    }

    /// The wire `errcode` of this code.
    pub fn as_str(&self) -> (r: &str)
        ensures
            r@ == self@.wire(),
    {
        match self {
            ErrorCode::Forbidden => "P_FORBIDDEN",
            ErrorCode::UnknownToken => "P_UNKNOWN_TOKEN",
            ErrorCode::MissingToken => "P_MISSING_TOKEN",
            ErrorCode::BadJson => "P_BAD_JSON",
            ErrorCode::NotJson => "P_NOT_JSON",
            ErrorCode::NotFound => "P_NOT_FOUND",
            ErrorCode::LimitExceeded => "P_LIMIT_EXCEEDED",
            ErrorCode::BadSignature => "P_BAD_SIGNATURE",
            ErrorCode::Unrecognized => "P_UNRECOGNIZED",
            ErrorCode::UserInUse => "P_USER_IN_USE",
            ErrorCode::InvalidUsername => "P_INVALID_USERNAME",
            ErrorCode::Unknown => "P_UNKNOWN",
            ErrorCode::Other { code } => code.as_str(),
        }
    }
}

/// A failure of a request.
#[derive(Debug)]
pub enum ApiError {
    /// The server refused the request.
    Server { status: u16, code: ErrorCode, message: String },
    /// No response came.
    Network { reason: String },
    /// The response is not of the promised shape.
    Malformed { reason: String },
}

/// What an [`ApiError`] says.
pub enum ApiErrorView {
    Server(u16, ErrorCodeView, Seq<char>),
    Network(Seq<char>),
    Malformed(Seq<char>),
}

impl View for ApiError {
    type V = ApiErrorView;

    open spec fn view(&self) -> ApiErrorView {
        match self {
            ApiError::Server { status, code, message } => ApiErrorView::Server(
                *status,
                code@,
                message@,
            ),
            ApiError::Network { reason } => ApiErrorView::Network(reason@),
            ApiError::Malformed { reason } => ApiErrorView::Malformed(reason@),
        }
    }
}

impl ApiErrorView {
    /// The error in words.
    pub open spec fn words(self) -> Seq<char> {
        match self {
            ApiErrorView::Server(status, code, message) => "server error "@ + crate::text::decimal(
                status as nat,
            ) + " "@ + code.wire() + ": "@ + message,
            ApiErrorView::Network(reason) => "network error: "@ + reason,
            ApiErrorView::Malformed(reason) => "malformed response: "@ + reason,
        }
    }
}

impl ApiError {
    /// The error in words.
    pub fn describe(&self) -> (r: String)
        ensures
            r@ == self@.words(),
    {
        match self {
            ApiError::Server { status, code, message } => {
                let number = decimal_u64(*status as u64);
                let mut s = join3("server error ", number.as_str(), " ");
                s.append(code.as_str());
                s.append(": ");
                s.append(message.as_str());
                s
            },
            ApiError::Network { reason } => join2("network error: ", reason.as_str()),
            ApiError::Malformed { reason } => join2("malformed response: ", reason.as_str()),
        }
    }
}

/// The view of a result of a request.
pub open spec fn api_outcome<T: View>(r: Result<T, ApiError>) -> Result<T::V, ApiErrorView> {
    match r {
        Ok(x) => Ok(x@),
        Err(e) => Err(e@),
    }
}

/// What the server answers to a registration or a login. It holds the access
/// token, so it does not leave the core.
#[derive(Debug, Clone)]
pub struct AuthResponse {
    pub user_id: String,
    pub device_id: String,
    pub access_token: String,
}

/// What an [`AuthResponse`] holds.
pub struct AuthView {
    pub user_id: Seq<char>,
    pub device_id: Seq<char>,
    pub access_token: Seq<char>,
}

impl View for AuthResponse {
    type V = AuthView;

    open spec fn view(&self) -> AuthView {
        AuthView {
            user_id: self.user_id@,
            device_id: self.device_id@,
            access_token: self.access_token@,
        }
    }
}

/// The verb of a request.
#[derive(Debug, Clone, Copy, PartialEq, Eq, Structural)]
pub enum Verb {
    Get,
    Post,
    Put,
}

/// The body of a request.
#[derive(Debug)]
pub enum Body {
    Empty,
    /// JSON.
    Json(Json),
    /// Bytes of the given content type.
    Raw { content_type: String, bytes: Vec<u8> },
}

/// What a [`Body`] holds.
pub enum BodyView {
    Empty,
    Json(JsonView),
    Raw(Seq<char>, Seq<u8>),
}

impl View for Body {
    type V = BodyView;

    open spec fn view(&self) -> BodyView {
        match self {
            Body::Empty => BodyView::Empty,
            Body::Json(j) => BodyView::Json(j@),
            Body::Raw { content_type, bytes } => BodyView::Raw(content_type@, bytes@),
        }
    }
}

/// A request to the homeserver.
#[derive(Debug)]
pub struct HttpRequest {
    pub verb: Verb,
    pub url: String,
    /// The token that authorises the request.
    pub bearer: Option<String>,
    pub query: Vec<(String, String)>,
    pub body: Body,
    /// After how many milliseconds the request is given up, if ever.
    pub timeout_ms: Option<u128>,
}

/// What an [`HttpRequest`] holds.
#[verifier::ext_equal]
pub struct RequestView {
    pub verb: Verb,
    pub url: Seq<char>,
    pub bearer: Option<Seq<char>>,
    pub query: Seq<(Seq<char>, Seq<char>)>,
    pub body: BodyView,
    pub timeout_ms: Option<u128>,
}

/// The parameters that a vector of pairs shows.
pub open spec fn query_view(query: Seq<(String, String)>) -> Seq<(Seq<char>, Seq<char>)> {
    Seq::new(query.len(), |i: int| (query[i].0@, query[i].1@))
}

impl View for HttpRequest {
    type V = RequestView;

    open spec fn view(&self) -> RequestView {
        RequestView {
            verb: self.verb,
            url: self.url@,
            bearer: crate::json::opt_string_view(self.bearer),
            query: query_view(self.query@),
            body: self.body@,
            timeout_ms: self.timeout_ms,
        }
    }
}

/// A response of the homeserver.
pub struct HttpResponse {
    pub status: u16,
    pub body: Vec<u8>,
}

/// Without the slashes at the end.
pub open spec fn trimmed(s: Seq<char>) -> Seq<char>
    decreases s.len(),
{
    if s.len() > 0 && s.last() == '/' {
        trimmed(s.drop_last())
    } else {
        s
    }
}

/// A base URL without the slashes at its end.
pub fn normalize_base(base: &str) -> (r: String)
    ensures
        r@ == trimmed(base@),
{
    let mut n: usize = base.unicode_len();
    assert(base@.take(n as int) =~= base@);
    while n > 0 && base.get_char(n - 1) == '/'
        invariant
            n <= base@.len(),
            trimmed(base@.take(n as int)) == trimmed(base@),
        decreases n,
    {
        assert(base@.take(n as int).drop_last() =~= base@.take(n - 1));
        n -= 1;
    }
    assert(base@.subrange(0, n as int) =~= base@.take(n as int));
    base.substring_char(0, n).to_owned()
}

/// A normalised base URL ends in no slash, and normalising it again leaves it.
pub proof fn normalizing_settles(s: Seq<char>)
    ensures
        trimmed(s).len() == 0 || trimmed(s).last() != '/',
        trimmed(trimmed(s)) == trimmed(s),
    decreases s.len(),
{
    if s.len() > 0 && s.last() == '/' {
        normalizing_settles(s.drop_last());
    }
}

/// A base URL and an absolute path, one behind the other.
pub fn join_url(base: &str, path: &str) -> (r: String)
    ensures
        r@ == base@ + path@,
{
    join2(base, path)
}

/// The API of one homeserver for one session: where it is, and the token that
/// authorises requests.
pub struct Api {
    base: String,
    token: Option<String>,
}

/// What an [`Api`] holds.
pub struct ApiView {
    pub base: Seq<char>,
    pub token: Option<Seq<char>>,
}

impl View for Api {
    type V = ApiView;

    closed spec fn view(&self) -> ApiView {
        ApiView { base: self.base@, token: crate::json::opt_string_view(self.token) }
    }
}

impl ApiView {
    /// A request for a path of this homeserver, with the token where there is
    /// one.
    pub open spec fn request(self, verb: Verb, path: Seq<char>, body: BodyView) -> RequestView {
        RequestView {
            verb,
            url: self.base + path,
            bearer: self.token,
            query: seq![],
            body,
            timeout_ms: None,
        }
    }

    pub open spec fn get(self, path: Seq<char>) -> RequestView {
        self.request(Verb::Get, path, BodyView::Empty)
    }

    pub open spec fn post(self, path: Seq<char>, body: JsonView) -> RequestView {
        self.request(Verb::Post, path, BodyView::Json(body))
    }

    pub open spec fn put(self, path: Seq<char>, body: JsonView) -> RequestView {
        self.request(Verb::Put, path, BodyView::Json(body))
    }
}

/// The path of something that belongs to a room.
pub open spec fn room_path(room: Seq<char>, rest: Seq<char>) -> Seq<char> {
    "/_pigeon/client/v1/rooms/"@ + room + rest
}

/// The path of a key backup.
pub open spec fn backup_path(room: Seq<char>, session: Seq<char>) -> Seq<char> {
    "/_pigeon/client/v1/room_keys/key/"@ + room + "/"@ + session
}

/// The body of a request for a new room.
pub open spec fn room_options(
    name: Option<Seq<char>>,
    topic: Option<Seq<char>>,
    encryption: bool,
) -> JsonView {
    let empty = JsonView::Object(seq![]);
    let named = match name {
        Some(n) => empty.set("name"@, JsonView::Str(n)),
        None => empty,
    };
    let described = match topic {
        Some(t) => named.set("topic"@, JsonView::Str(t)),
        None => named,
    };
    if encryption {
        described.set("encryption"@, JsonView::Bool(true))
    } else {
        described
    }
}

/// The id under which a key package is published: made of its hash, or of its
/// place where there is no hash.
pub open spec fn package_id(hash: Option<Seq<u8>>, index: nat) -> Seq<char> {
    match hash {
        Some(h) => "kp-"@ + crate::text::hex(if h.len() <= 8 { h } else { h.take(8) }),
        None => "kp-"@ + crate::text::decimal(index),
    }
}

/// The id under which a key package is published. `hash` is the content hash of
/// the package: publishing a package again gives it the id that it had, and a new
/// package gets a new one.
pub fn key_package_id(hash: Option<&[u8]>, index: usize) -> (r: String)
    ensures
        r@ == package_id(
            match hash {
                Some(h) => Some(h@),
                None => None,
            },
            index as nat,
        ),
{
    match hash {
        Some(h) => {
            let digits = hex_prefix(h, 8);
            assert(h@.len() <= 8 ==> h@.take(h@.len() as int) =~= h@);
            join2("kp-", digits.as_str())
        },
        None => {
            let number = decimal_u64(index as u64);
            join2("kp-", number.as_str())
        },
    }
}

/// A key package and its content hash, where it could be hashed.
pub struct HashedPackage {
    pub package_b64: String,
    pub hash: Option<Vec<u8>>,
}

/// The entry of one key package in an upload.
pub open spec fn package_entry(package: HashedPackage, index: nat) -> JsonView {
    JsonView::Object(
        seq![
            (
                "key_id"@,
                JsonView::Str(
                    package_id(
                        match package.hash {
                            Some(h) => Some(h@),
                            None => None,
                        },
                        index,
                    ),
                ),
            ),
            ("package"@, JsonView::Str(package.package_b64@)),
        ],
    )
}

fn entry_of(package: &HashedPackage, index: usize) -> (r: Json)
    ensures
        r@ == package_entry(*package, index as nat),
{
    let id = match &package.hash {
        Some(h) => key_package_id(Some(h.as_slice()), index),
        None => key_package_id(None, index),
    };
    let entry = object2(
        "key_id",
        Json::string(id.as_str()),
        "package",
        Json::string(package.package_b64.as_str()),
    );
    assert(entry@->Object_0 == package_entry(*package, index as nat)->Object_0);
    entry
}

/// The member of an upload that holds the last-resort key package. No message of
/// the server's shows its name or its form: the name is set here alone, and the
/// form is that of an entry of the pool.
pub const LAST_RESORT_MEMBER: &'static str = "last_resort_key_package";

/// The package behind an optional reference.
pub open spec fn opt_package(package: Option<&HashedPackage>) -> Option<HashedPackage> {
    match package {
        Some(p) => Some(*p),
        None => None,
    }
}

/// The body of an upload of keys: the identity key, the pool of packages, and the
/// last-resort package where there is one.
pub open spec fn upload_body(
    device_id: Seq<char>,
    public_key: Seq<char>,
    packages: Seq<HashedPackage>,
    last_resort: Option<HashedPackage>,
) -> JsonView {
    let always = seq![
        (
            "device_keys"@,
            JsonView::Object(
                seq![
                    ("algorithms"@, JsonView::Array(seq![JsonView::Str("p.mls.1"@)])),
                    (
                        "keys"@,
                        JsonView::Object(
                            seq![("ed25519:"@ + device_id, JsonView::Str(public_key))],
                        ),
                    ),
                    ("signatures"@, JsonView::Object(seq![])),
                ],
            ),
        ),
        (
            "key_packages"@,
            JsonView::Array(
                Seq::new(packages.len(), |i: int| package_entry(packages[i], i as nat)),
            ),
        ),
    ];
    JsonView::Object(
        match last_resort {
            Some(p) => always.push((LAST_RESORT_MEMBER@, package_entry(p, packages.len()))),
            None => always,
        },
    )
}

/// The parameters of a sync.
pub open spec fn sync_query(since: Option<Seq<char>>, timeout_ms: nat, limit: nat) -> Seq<
    (Seq<char>, Seq<char>),
> {
    let always = seq![
        ("timeout"@, crate::text::decimal(timeout_ms)),
        ("limit"@, crate::text::decimal(limit)),
    ];
    match since {
        Some(s) => always.push(("since"@, s)),
        None => always,
    }
}

/// Each known code has one wire form, and any other code is kept as it is.
pub proof fn codes_have_their_wire_forms(s: Seq<char>)
    ensures
        s == "P_FORBIDDEN"@ <==> code_of(s) is Forbidden,
        s == "P_UNKNOWN_TOKEN"@ <==> code_of(s) is UnknownToken,
        s == "P_MISSING_TOKEN"@ <==> code_of(s) is MissingToken,
        s == "P_BAD_JSON"@ <==> code_of(s) is BadJson,
        s == "P_NOT_JSON"@ <==> code_of(s) is NotJson,
        s == "P_NOT_FOUND"@ <==> code_of(s) is NotFound,
        s == "P_LIMIT_EXCEEDED"@ <==> code_of(s) is LimitExceeded,
        s == "P_BAD_SIGNATURE"@ <==> code_of(s) is BadSignature,
        s == "P_UNRECOGNIZED"@ <==> code_of(s) is Unrecognized,
        s == "P_USER_IN_USE"@ <==> code_of(s) is UserInUse,
        s == "P_INVALID_USERNAME"@ <==> code_of(s) is InvalidUsername,
        s == "P_UNKNOWN"@ <==> code_of(s) is Unknown,
        code_of(s) matches ErrorCodeView::Other(kept) ==> kept == s,
{
    reveal_strlit("P_FORBIDDEN");
    reveal_strlit("P_UNKNOWN_TOKEN");
    reveal_strlit("P_MISSING_TOKEN");
    reveal_strlit("P_BAD_JSON");
    reveal_strlit("P_NOT_JSON");
    reveal_strlit("P_NOT_FOUND");
    reveal_strlit("P_LIMIT_EXCEEDED");
    reveal_strlit("P_BAD_SIGNATURE");
    reveal_strlit("P_UNRECOGNIZED");
    reveal_strlit("P_USER_IN_USE");
    reveal_strlit("P_INVALID_USERNAME");
    reveal_strlit("P_UNKNOWN");
    assert("P_FORBIDDEN"@.len() == 11 && "P_NOT_FOUND"@.len() == 11);
    assert("P_FORBIDDEN"@[2] != "P_NOT_FOUND"@[2]);
    assert("P_UNKNOWN_TOKEN"@.len() == 15 && "P_MISSING_TOKEN"@.len() == 15
        && "P_BAD_SIGNATURE"@.len() == 15);
    assert("P_UNKNOWN_TOKEN"@[2] == 'U' && "P_MISSING_TOKEN"@[2] == 'M'
        && "P_BAD_SIGNATURE"@[2] == 'B');
    assert("P_BAD_JSON"@.len() == 10 && "P_NOT_JSON"@.len() == 10);
    assert("P_BAD_JSON"@[2] != "P_NOT_JSON"@[2]);
    assert("P_LIMIT_EXCEEDED"@.len() == 16);
    assert("P_UNRECOGNIZED"@.len() == 14);
    assert("P_USER_IN_USE"@.len() == 13);
    assert("P_INVALID_USERNAME"@.len() == 18);
    assert("P_UNKNOWN"@.len() == 9);
}

/// A base URL is trimmed of slashes at its end and of nothing else.
pub proof fn trimming_takes_only_slashes(s: Seq<char>)
    ensures
        trimmed(s).len() <= s.len(),
        s.take(trimmed(s).len() as int) == trimmed(s),
        forall|i: int| trimmed(s).len() <= i < s.len() ==> #[trigger] s[i] == '/',
        trimmed(s).len() > 0 ==> trimmed(s).last() != '/',
    decreases s.len(),
{
    if s.len() > 0 && s.last() == '/' {
        let rest = s.drop_last();
        trimming_takes_only_slashes(rest);
        assert(s.take(trimmed(s).len() as int) =~= rest.take(trimmed(rest).len() as int));
        assert forall|i: int| trimmed(s).len() <= i < s.len() implies #[trigger] s[i] == '/' by {
            if i < rest.len() {
                assert(rest[i] == s[i]);
            }
        }
    } else {
        assert(s.take(s.len() as int) =~= s);
    }
}

/// A request goes to its path on the homeserver, with the token where there is one, and
/// carries its body; it has no parameters and no time limit of its own.
pub proof fn requests_go_to_their_server(
    api: ApiView,
    verb: Verb,
    path: Seq<char>,
    body: BodyView,
    json: JsonView,
)
    ensures
        api.request(verb, path, body).verb == verb,
        api.request(verb, path, body).url == api.base + path,
        api.request(verb, path, body).bearer == api.token,
        api.request(verb, path, body).query.len() == 0,
        api.request(verb, path, body).body == body,
        api.request(verb, path, body).timeout_ms is None,
        api.get(path).verb == Verb::Get,
        api.get(path).url == api.base + path,
        api.get(path).bearer == api.token,
        api.get(path).query.len() == 0,
        api.get(path).body is Empty,
        api.get(path).timeout_ms is None,
        api.post(path, json).verb == Verb::Post,
        api.post(path, json).url == api.base + path,
        api.post(path, json).bearer == api.token,
        api.post(path, json).query.len() == 0,
        api.post(path, json).body == BodyView::Json(json),
        api.post(path, json).timeout_ms is None,
        api.put(path, json).verb == Verb::Put,
        api.put(path, json).url == api.base + path,
        api.put(path, json).bearer == api.token,
        api.put(path, json).query.len() == 0,
        api.put(path, json).body == BodyView::Json(json),
        api.put(path, json).timeout_ms is None,
{
}

/// The path of something that belongs to a room, and that of a backup, name the room.
pub proof fn paths_name_what_they_are_of(room: Seq<char>, rest: Seq<char>)
    ensures
        room_path(room, rest) == "/_pigeon/client/v1/rooms/"@ + room + rest,
        backup_path(room, rest) == "/_pigeon/client/v1/room_keys/key/"@ + room + "/"@ + rest,
{
}

/// A new room is asked for with the name and the topic that are given, and as encrypted
/// exactly where it is to be; nothing is said of what is not given.
pub proof fn new_room_is_asked_for_as_given(
    name: Option<Seq<char>>,
    topic: Option<Seq<char>>,
    encryption: bool,
    member: Seq<char>,
)
    ensures
        ({
            let body = room_options(name, topic, encryption);
            &&& body is Object
            &&& match name {
                Some(n) => body.field("name"@) == Some(JsonView::Str(n)),
                None => body.field("name"@) is None,
            }
            &&& match topic {
                Some(t) => body.field("topic"@) == Some(JsonView::Str(t)),
                None => body.field("topic"@) is None,
            }
            &&& if encryption {
                body.field("encryption"@) == Some(JsonView::Bool(true))
            } else {
                body.field("encryption"@) is None
            }
            &&& member != "name"@ && member != "topic"@ && member != "encryption"@ ==> body.field(
                member,
            ) is None
        }),
{
    reveal_strlit("name");
    reveal_strlit("topic");
    reveal_strlit("encryption");
    assert("name"@.len() == 4 && "topic"@.len() == 5 && "encryption"@.len() == 10);
    let empty = JsonView::Object(seq![]);
    let named = match name {
        Some(n) => empty.set("name"@, JsonView::Str(n)),
        None => empty,
    };
    let described = match topic {
        Some(t) => named.set("topic"@, JsonView::Str(t)),
        None => named,
    };
    assert forall|k: Seq<char>| #[trigger] empty.field(k) is None by {}
    let keys = seq!["name"@, "topic"@, "encryption"@, member];
    assert forall|i: int| 0 <= i < keys.len() implies is_asked_for(
        name,
        topic,
        encryption,
        #[trigger] keys[i],
    ) by {
        let k = keys[i];
        if let Some(n) = name {
            crate::json::set_then_read(empty, "name"@, JsonView::Str(n), k);
        }
        if let Some(t) = topic {
            crate::json::set_then_read(named, "topic"@, JsonView::Str(t), k);
        }
        if encryption {
            crate::json::set_then_read(described, "encryption"@, JsonView::Bool(true), k);
        }
    }
    assert(is_asked_for(name, topic, encryption, keys[0]));
    assert(is_asked_for(name, topic, encryption, keys[1]));
    assert(is_asked_for(name, topic, encryption, keys[2]));
    assert(is_asked_for(name, topic, encryption, keys[3]));
}

spec fn is_asked_for(
    name: Option<Seq<char>>,
    topic: Option<Seq<char>>,
    encryption: bool,
    key: Seq<char>,
) -> bool {
    room_options(name, topic, encryption).field(key) == (if key == "encryption"@ && encryption {
        Some(JsonView::Bool(true))
    } else if key == "topic"@ && topic is Some {
        Some(JsonView::Str(topic->0))
    } else if key == "name"@ && name is Some {
        Some(JsonView::Str(name->0))
    } else {
        None
    })
}

/// A sync asks for what is new since a token exactly where there is one, and says for how
/// long it may be held open and how much it may hold.
pub proof fn sync_asks_since_the_token(since: Option<Seq<char>>, timeout_ms: nat, limit: nat)
    ensures
        ({
            let query = sync_query(since, timeout_ms, limit);
            &&& query.len() == if since is Some { 3int } else { 2int }
            &&& query[0] == ("timeout"@, crate::text::decimal(timeout_ms))
            &&& query[1] == ("limit"@, crate::text::decimal(limit))
            &&& since matches Some(token) ==> query[2] == ("since"@, token)
        }),
{
}

/// An upload of keys holds the device's public key under the device's id, and each of
/// the packages, in their order, whole and under its id; the last-resort package is in it
/// exactly where there is one.
pub proof fn upload_holds_the_keys(
    device_id: Seq<char>,
    public_key: Seq<char>,
    packages: Seq<HashedPackage>,
    last_resort: Option<HashedPackage>,
    i: int,
)
    ensures
        ({
            let body = upload_body(device_id, public_key, packages, last_resort);
            let device = body.at("device_keys"@);
            let pool = body.at("key_packages"@);
            &&& device.at("keys"@).at("ed25519:"@ + device_id) == JsonView::Str(public_key)
            &&& device.at("algorithms"@) == JsonView::Array(seq![JsonView::Str("p.mls.1"@)])
            &&& device.at("signatures"@) == JsonView::Object(seq![])
            &&& pool is Array
            &&& pool->Array_0.len() == packages.len()
            &&& 0 <= i < packages.len() ==> pool->Array_0[i].at("package"@) == JsonView::Str(
                packages[i].package_b64@,
            ) && pool->Array_0[i].at("key_id"@) == JsonView::Str(
                package_id(
                    match packages[i].hash {
                        Some(h) => Some(h@),
                        None => None,
                    },
                    i as nat,
                ),
            )
            &&& match last_resort {
                Some(p) => body.at(LAST_RESORT_MEMBER@).at("package"@) == JsonView::Str(
                    p.package_b64@,
                ) && body.at(LAST_RESORT_MEMBER@).at("key_id"@) == JsonView::Str(
                    package_id(
                        match p.hash {
                            Some(h) => Some(h@),
                            None => None,
                        },
                        packages.len(),
                    ),
                ),
                None => body.field(LAST_RESORT_MEMBER@) is None,
            }
        }),
{
    reveal_strlit("device_keys");
    reveal_strlit("key_packages");
    reveal_strlit("algorithms");
    reveal_strlit("keys");
    reveal_strlit("signatures");
    reveal_strlit("key_id");
    reveal_strlit("package");
    reveal_strlit("last_resort_key_package");
    assert("device_keys"@.len() == 11 && "key_packages"@.len() == 12);
    assert("algorithms"@.len() == 10 && "keys"@.len() == 4 && "signatures"@.len() == 10);
    assert("key_id"@.len() == 6 && "package"@.len() == 7);
    assert(LAST_RESORT_MEMBER@.len() == 23);
    reveal_with_fuel(crate::json::find_member, 4);
    let body = upload_body(device_id, public_key, packages, last_resort);
    let m = body->Object_0;
    assert(m.drop_first()[0] == m[1]);
    if last_resort is Some {
        assert(m.drop_first().drop_first()[0] == m[2]);
        let e = package_entry(last_resort->0, packages.len())->Object_0;
        assert(e.drop_first()[0] == e[1]);
    }
    let d = body.at("device_keys"@)->Object_0;
    assert(d.drop_first()[0] == d[1]);
    assert(d.drop_first().drop_first()[0] == d[2]);
    assert("signatures"@[0] == 's' && "algorithms"@[0] == 'a');
    let k = body.at("device_keys"@).at("keys"@)->Object_0;
    assert(k[0].0 == "ed25519:"@ + device_id);
    if 0 <= i < packages.len() {
        let e = package_entry(packages[i], i as nat)->Object_0;
        assert(e.drop_first()[0] == e[1]);
    }
}

/// The id of a key package is made of the beginning of its hash, in hexadecimal, and of
/// its place where it has no hash.
pub proof fn package_id_is_made_of_the_hash(hash: Seq<u8>, index: nat)
    ensures
        hash.len() >= 8 ==> package_id(Some(hash), index) == "kp-"@ + crate::text::hex(
            hash.take(8),
        ),
        hash.len() < 8 ==> package_id(Some(hash), index) == "kp-"@ + crate::text::hex(hash),
        package_id(None, index) == "kp-"@ + crate::text::decimal(index),
{
    if hash.len() == 8 {
        assert(hash.take(8) =~= hash);
    }
}

/// A request and a login reply show their own fields.
pub proof fn requests_show_their_fields(r: HttpRequest, a: AuthResponse, i: int)
    ensures
        r@.verb == r.verb,
        r@.url == r.url@,
        r.bearer matches Some(t) ==> r@.bearer == Some(t@),
        r.bearer is None ==> r@.bearer is None,
        r@.query.len() == r.query@.len(),
        0 <= i < r.query@.len() ==> r@.query[i] == (r.query@[i].0@, r.query@[i].1@),
        r@.body == r.body@,
        r@.timeout_ms == r.timeout_ms,
        a@.user_id == a.user_id@,
        a@.device_id == a.device_id@,
        a@.access_token == a.access_token@,
{
}

fn set_opt(body: Json, key: &str, value: Option<&str>) -> (r: Json)
    ensures
        r@ == match value {
            Some(v) => body@.set(key@, JsonView::Str(v@)),
            None => body@,
        },
{
    let mut out = body;
    match value {
        Some(v) => {
            out.set(key, Json::string(v));
        },
        None => {},
    }
    out
}

impl Api {
    /// The API of the homeserver at `base`.
    pub fn new(base: &str, token: Option<String>) -> (r: Api)
        ensures
            r@.base == trimmed(base@),
            r@.token == crate::json::opt_string_view(token),
    {
        Api { base: normalize_base(base), token }
    }

    /// Takes another token, or none.
    pub fn set_token(&mut self, token: Option<String>)
        ensures
            final(self)@.base == old(self)@.base,
            final(self)@.token == crate::json::opt_string_view(token),
    {
        self.token = token;
    }

    fn request(&self, verb: Verb, path: &str, body: Body) -> (r: HttpRequest)
        ensures
            r@ == self@.request(verb, path@, body@),
    {
        let r = HttpRequest {
            verb,
            url: join_url(self.base.as_str(), path),
            bearer: match &self.token {
                Some(t) => Some(t.clone()),
                None => None,
            },
            query: Vec::new(),
            body,
            timeout_ms: None,
        };
        assert(r@.query =~= seq![]);
        r
    }

    /// `GET` of a path.
    pub fn get(&self, path: &str) -> (r: HttpRequest)
        ensures
            r@ == self@.get(path@),
    {
        self.request(Verb::Get, path, Body::Empty)
    }

    /// `POST` of JSON to a path.
    pub fn post(&self, path: &str, body: Json) -> (r: HttpRequest)
        ensures
            r@ == self@.post(path@, body@),
    {
        self.request(Verb::Post, path, Body::Json(body))
    }

    /// `PUT` of JSON to a path.
    pub fn put(&self, path: &str, body: Json) -> (r: HttpRequest)
        ensures
            r@ == self@.put(path@, body@),
    {
        self.request(Verb::Put, path, Body::Json(body))
    }

    /// Asks for a new account.
    pub fn register(&self, username: &str, password: &str) -> (r: HttpRequest)
        ensures
            r@ == self@.post(
                "/_pigeon/client/v1/register"@,
                JsonView::Object(
                    seq![
                        ("username"@, JsonView::Str(username@)),
                        ("password"@, JsonView::Str(password@)),
                    ],
                ),
            ),
    {
        self.post(
            "/_pigeon/client/v1/register",
            object2("username", Json::string(username), "password", Json::string(password)),
        )
    }

    /// Asks for a session of an account.
    pub fn login(&self, user: &str, password: &str) -> (r: HttpRequest)
        ensures
            r@ == self@.post(
                "/_pigeon/client/v1/login"@,
                JsonView::Object(
                    seq![
                        ("type"@, JsonView::Str("p.login.password"@)),
                        ("user"@, JsonView::Str(user@)),
                        ("password"@, JsonView::Str(password@)),
                    ],
                ),
            ),
    {
        self.post(
            "/_pigeon/client/v1/login",
            object3(
                "type",
                Json::string("p.login.password"),
                "user",
                Json::string(user),
                "password",
                Json::string(password),
            ),
        )
    }

    /// Asks for the token to be revoked.
    pub fn logout(&self) -> (r: HttpRequest)
        ensures
            r@ == self@.post("/_pigeon/client/v1/logout"@, JsonView::Object(seq![])),
    {
        self.post("/_pigeon/client/v1/logout", object0())
    }

    /// Asks whose token this is.
    pub fn whoami(&self) -> (r: HttpRequest)
        ensures
            r@ == self@.get("/_pigeon/client/v1/account/whoami"@),
    {
        self.get("/_pigeon/client/v1/account/whoami")
    }

    /// The long poll for what is new since the opaque token `since`. The server
    /// may hold it open for `timeout_ms`; it is given up fifteen seconds after
    /// that.
    pub fn sync(&self, since: Option<&str>, timeout_ms: u64, limit: u32) -> (r: HttpRequest)
        ensures
            r@ == (RequestView {
                query: sync_query(
                    crate::json::opt_str_view(since),
                    timeout_ms as nat,
                    limit as nat,
                ),
                timeout_ms: Some((timeout_ms + 15_000) as u128),
                ..self@.get("/_pigeon/client/v1/sync"@)
            }),
    {
        let mut r = self.get("/_pigeon/client/v1/sync");
        let mut query: Vec<(String, String)> = Vec::new();
        query.push(("timeout".to_owned(), decimal_u64(timeout_ms)));
        query.push(("limit".to_owned(), decimal_u64(limit as u64)));
        match since {
            Some(s) => {
                query.push(("since".to_owned(), s.to_owned()));
            },
            None => {},
        }
        assert(query_view(query@) =~= sync_query(
            crate::json::opt_str_view(since),
            timeout_ms as nat,
            limit as nat,
        ));
        r.query = query;
        r.timeout_ms = Some(timeout_ms as u128 + 15_000);
        r
    }

    /// Asks for a new room.
    pub fn create_room(&self, name: Option<&str>, topic: Option<&str>, encryption: bool) -> (r:
        HttpRequest)
        ensures
            r@ == self@.post(
                "/_pigeon/client/v1/createRoom"@,
                room_options(
                    crate::json::opt_str_view(name),
                    crate::json::opt_str_view(topic),
                    encryption,
                ),
            ),
    {
        let mut body = set_opt(set_opt(object0(), "name", name), "topic", topic);
        if encryption {
            body.set("encryption", Json::Bool(true));
        }
        self.post("/_pigeon/client/v1/createRoom", body)
    }

    /// Asks to join a room.
    pub fn join_room(&self, room_id: &str) -> (r: HttpRequest)
        ensures
            r@ == self@.post(room_path(room_id@, "/join"@), JsonView::Object(seq![])),
    {
        let path = join3("/_pigeon/client/v1/rooms/", room_id, "/join");
        self.post(path.as_str(), object0())
    }

    /// Publishes a device's identity key, a pool of key packages, and the
    /// last-resort package where there is one.
    pub fn upload_keys(
        &self,
        device_id: &str,
        public_key_b64: &str,
        packages: &Vec<HashedPackage>,
        last_resort: Option<&HashedPackage>,
    ) -> (r: HttpRequest)
        ensures
            r@ == self@.post(
                "/_pigeon/client/v1/keys/upload"@,
                upload_body(device_id@, public_key_b64@, packages@, opt_package(last_resort)),
            ),
    {
        let mut entries: Vec<Json> = Vec::new();
        let mut i: usize = 0;
        while i < packages.len()
            invariant
                i <= packages@.len(),
                entries@.len() == i,
                forall|j: int|
                    0 <= j < i ==> (#[trigger] entries@[j])@ == package_entry(
                        packages@[j],
                        j as nat,
                    ),
            decreases packages@.len() - i,
        {
            entries.push(entry_of(&packages[i], i));
            i += 1;
        }
        let ghost wanted = upload_body(
            device_id@,
            public_key_b64@,
            packages@,
            opt_package(last_resort),
        );
        let list = Json::Array(entries);
        assert(list@ == wanted->Object_0[1].1) by {
            assert(list@->Array_0 =~= wanted->Object_0[1].1->Array_0);
        }
        let key_name = join2("ed25519:", device_id);
        let device_keys = object3(
            "algorithms",
            array1(Json::string("p.mls.1")),
            "keys",
            object1(key_name.as_str(), Json::string(public_key_b64)),
            "signatures",
            object0(),
        );
        let mut members: Vec<(String, Json)> = Vec::new();
        members.push(("device_keys".to_owned(), device_keys));
        members.push(("key_packages".to_owned(), list));
        match last_resort {
            Some(p) => {
                members.push((LAST_RESORT_MEMBER.to_owned(), entry_of(p, packages.len())));
            },
            None => {},
        }
        let body = Json::Object(members);
        assert(body@->Object_0 =~= wanted->Object_0);
        self.post("/_pigeon/client/v1/keys/upload", body)
    }

    /// Asks for the devices that a user has published.
    pub fn query_keys(&self, user_id: &str) -> (r: HttpRequest)
        ensures
            r@ == self@.post(
                "/_pigeon/client/v1/keys/query"@,
                JsonView::Object(
                    seq![
                        (
                            "device_keys"@,
                            JsonView::Object(seq![(user_id@, JsonView::Array(seq![]))]),
                        ),
                    ],
                ),
            ),
    {
        self.post(
            "/_pigeon/client/v1/keys/query",
            object1("device_keys", object1(user_id, array0())),
        )
    }

    /// Asks for a key package of one device.
    pub fn claim_keys(&self, user_id: &str, device_id: &str) -> (r: HttpRequest)
        ensures
            r@ == self@.post(
                "/_pigeon/client/v1/keys/claim"@,
                JsonView::Object(
                    seq![
                        (
                            "one_time_keys"@,
                            JsonView::Object(
                                seq![(user_id@, JsonView::Array(seq![JsonView::Str(device_id@)]))],
                            ),
                        ),
                    ],
                ),
            ),
    {
        self.post(
            "/_pigeon/client/v1/keys/claim",
            object1("one_time_keys", object1(user_id, array1(Json::string(device_id)))),
        )
    }

    /// Sends a message to devices. `messages` maps users to devices to contents.
    pub fn send_to_device(&self, event_type: &str, txn_id: &str, messages: Json) -> (r:
        HttpRequest)
        ensures
            r@ == self@.put(
                "/_pigeon/client/v1/sendToDevice/"@ + event_type@ + "/"@ + txn_id@,
                JsonView::Object(seq![("messages"@, messages@)]),
            ),
    {
        let mut path = join3("/_pigeon/client/v1/sendToDevice/", event_type, "/");
        path.append(txn_id);
        self.put(path.as_str(), object1("messages", messages))
    }

    /// Asks for a user to be invited to a room.
    pub fn invite(&self, room_id: &str, user_id: &str) -> (r: HttpRequest)
        ensures
            r@ == self@.post(
                room_path(room_id@, "/invite"@),
                JsonView::Object(seq![("user_id"@, JsonView::Str(user_id@))]),
            ),
    {
        let path = join3("/_pigeon/client/v1/rooms/", room_id, "/invite");
        self.post(path.as_str(), object1("user_id", Json::string(user_id)))
    }

    /// Asks for the latest events of a room.
    pub fn messages(&self, room_id: &str, limit: u32) -> (r: HttpRequest)
        ensures
            r@ == (RequestView {
                query: seq![("limit"@, crate::text::decimal(limit as nat))],
                ..self@.get(room_path(room_id@, "/messages"@))
            }),
    {
        let path = join3("/_pigeon/client/v1/rooms/", room_id, "/messages");
        let mut r = self.get(path.as_str());
        let mut query: Vec<(String, String)> = Vec::new();
        query.push(("limit".to_owned(), decimal_u64(limit as u64)));
        assert(query_view(query@) =~= seq![("limit"@, crate::text::decimal(limit as nat))]);
        r.query = query;
        r
    }

    /// Stores an encrypted backup.
    pub fn put_room_key(&self, room_id: &str, session_id: &str, blob_b64: &str) -> (r: HttpRequest)
        ensures
            r@ == self@.put(
                backup_path(room_id@, session_id@),
                JsonView::Object(seq![("blob"@, JsonView::Str(blob_b64@))]),
            ),
    {
        let mut path = join3("/_pigeon/client/v1/room_keys/key/", room_id, "/");
        path.append(session_id);
        self.put(path.as_str(), object1("blob", Json::string(blob_b64)))
    }

    /// Asks for an encrypted backup.
    pub fn get_room_key(&self, room_id: &str, session_id: &str) -> (r: HttpRequest)
        ensures
            r@ == self@.get(backup_path(room_id@, session_id@)),
    {
        let mut path = join3("/_pigeon/client/v1/room_keys/key/", room_id, "/");
        path.append(session_id);
        self.get(path.as_str())
    }

    /// Sends an event to a room.
    pub fn send_event(&self, room_id: &str, event_type: &str, txn_id: &str, content: Json) -> (r:
        HttpRequest)
        ensures
            r@ == self@.put(
                "/_pigeon/client/v1/rooms/"@ + room_id@ + "/send/"@ + event_type@ + "/"@ + txn_id@,
                content@,
            ),
    {
        let mut path = join3("/_pigeon/client/v1/rooms/", room_id, "/send/");
        path.append(event_type);
        path.append("/");
        path.append(txn_id);
        self.put(path.as_str(), content)
    }

    /// Sends a plain message to a room.
    pub fn send_message(&self, room_id: &str, txn_id: &str, content: Json) -> (r: HttpRequest)
        ensures
            r@ == self@.put(
                "/_pigeon/client/v1/rooms/"@ + room_id@ + "/send/"@ + "p.room.message"@ + "/"@
                    + txn_id@,
                content@,
            ),
    {
        self.send_event(room_id, "p.room.message", txn_id, content)
    }

    /// Uploads bytes.
    pub fn upload_media(&self, bytes: Vec<u8>, content_type: &str) -> (r: HttpRequest)
        ensures
            r@ == self@.request(
                Verb::Post,
                "/_pigeon/media/v1/upload"@,
                BodyView::Raw(content_type@, bytes@),
            ),
    {
        self.request(
            Verb::Post,
            "/_pigeon/media/v1/upload",
            Body::Raw { content_type: content_type.to_owned(), bytes },
        )
    }

    /// Asks for uploaded bytes.
    pub fn download_media(&self, server: &str, media_id: &str) -> (r: HttpRequest)
        ensures
            r@ == self@.get("/_pigeon/media/v1/download/"@ + server@ + "/"@ + media_id@),
    {
        let mut path = join3("/_pigeon/media/v1/download/", server, "/");
        path.append(media_id);
        self.get(path.as_str())
    }
}

/// A failed request in words ends with what went wrong, and names its kind, with the
/// status and the code where the server gave them.
pub proof fn failed_requests_say_what_happened(
    status: u16,
    code: ErrorCodeView,
    reason: Seq<char>,
)
    ensures
        ApiErrorView::Server(status, code, reason).words() == "server error "@
            + crate::text::decimal(status as nat) + " "@ + code.wire() + ": "@ + reason,
        ApiErrorView::Network(reason).words() == "network error: "@ + reason,
        ApiErrorView::Malformed(reason).words() == "malformed response: "@ + reason,
{
}

/// An error of a request shows its kind and its fields.
pub proof fn errors_show_their_fields(e: ApiError)
    ensures
        match e {
            ApiError::Server { status, code, message } => e@ == ApiErrorView::Server(
                status,
                code@,
                message@,
            ),
            ApiError::Network { reason } => e@ == ApiErrorView::Network(reason@),
            ApiError::Malformed { reason } => e@ == ApiErrorView::Malformed(reason@),
        },
{
}

/// An error code shows itself: the code of each name reads as the wire form of that name,
/// and any other as the form that it carries.
pub proof fn code_shows_its_wire_form(c: ErrorCode)
    ensures
        c is Forbidden ==> c@.wire() == "P_FORBIDDEN"@,
        c is UnknownToken ==> c@.wire() == "P_UNKNOWN_TOKEN"@,
        c is MissingToken ==> c@.wire() == "P_MISSING_TOKEN"@,
        c is BadJson ==> c@.wire() == "P_BAD_JSON"@,
        c is NotJson ==> c@.wire() == "P_NOT_JSON"@,
        c is NotFound ==> c@.wire() == "P_NOT_FOUND"@,
        c is LimitExceeded ==> c@.wire() == "P_LIMIT_EXCEEDED"@,
        c is BadSignature ==> c@.wire() == "P_BAD_SIGNATURE"@,
        c is Unrecognized ==> c@.wire() == "P_UNRECOGNIZED"@,
        c is UserInUse ==> c@.wire() == "P_USER_IN_USE"@,
        c is InvalidUsername ==> c@.wire() == "P_INVALID_USERNAME"@,
        c is Unknown ==> c@.wire() == "P_UNKNOWN"@,
        c matches ErrorCode::Other { code } ==> c@.wire() == code@,
{
}

/// The body of a request shows what it holds.
pub proof fn bodies_show_what_they_hold(b: Body)
    ensures
        match b {
            Body::Empty => b@ == BodyView::Empty,
            Body::Json(j) => b@ == BodyView::Json(j@),
            Body::Raw { content_type, bytes } => b@ == BodyView::Raw(content_type@, bytes@),
        },
{
}

} // verus!
