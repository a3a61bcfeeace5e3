//! How the replies of a homeserver are read.

use vstd::prelude::*;
use vstd::string::*;

use crate::api::{
    ApiError, ApiErrorView, AuthResponse, AuthView, ErrorCode, ErrorCodeView, HttpResponse,
};
use crate::codec::read_body;
use crate::json::{child, Json, JsonView};
use crate::text::join3;

verus! {

/// Whether a status says that a request was carried out.
pub open spec fn is_success(status: u16) -> bool {
    200 <= status < 300
}

/// The error that a refusal stands for. A body that says nothing is tolerated.
pub open spec fn server_error(status: u16, body: JsonView) -> ApiErrorView {
    ApiErrorView::Server(
        status,
        match body.at("errcode"@).as_str() {
            Some(code) => crate::api::code_of(code),
            None => ErrorCodeView::Unknown,
        },
        match body.at("error"@).as_str() {
            Some(text) => text,
            None => "(no error message)"@,
        },
    )
}

/// What a response with a status and a JSON body comes to.
pub open spec fn settled(status: u16, body: JsonView) -> Result<JsonView, ApiErrorView> {
    if is_success(status) {
        Ok(body)
    } else {
        Err(server_error(status, body))
    }
}

/// What the bytes of a response say; nothing where they are no JSON.
pub open spec fn body_of(bytes: Seq<u8>) -> JsonView {
    match crate::codec::json_parse(bytes) {
        Ok(v) => v,
        Err(_) => JsonView::Null,
    }
}

/// Turns a refusal into a typed error.
pub fn parse_error(status: u16, body: &Json) -> (r: ApiError)
    ensures
        r@ == server_error(status, body@),
{
    let code = match body.str_at("errcode") {
        Some(c) => ErrorCode::from_wire(c),
        None => ErrorCode::Unknown,
    };
    let message = match body.str_at("error") {
        Some(t) => t.to_owned(),
        None => "(no error message)".to_owned(),
    };
    ApiError::Server { status, code, message }
}

/// What a response with a status and a JSON body comes to.
pub fn settle(status: u16, body: Json) -> (r: Result<Json, ApiError>)
    ensures
        crate::api::api_outcome(r) == settled(status, body@),
{
    if 200 <= status && status < 300 {
        Ok(body)
    } else {
        Err(parse_error(status, &body))
    }
}

/// What an attempt at a request comes to: the JSON of the response, the typed
/// error of a refusal, or a network error where no response came.
pub fn read_reply(reply: Result<HttpResponse, String>) -> (r: Result<Json, ApiError>)
    ensures
        crate::api::api_outcome(r) == match reply {
            Ok(resp) => settled(resp.status, body_of(resp.body@)),
            Err(reason) => Err(ApiErrorView::Network(reason@)),
        },
{
    match reply {
        Ok(resp) => {
            let body = read_body(resp.body.as_slice());
            settle(resp.status, body)
        },
        Err(reason) => Err(ApiError::Network { reason }),
    }
}

/// What an attempt to download comes to: the bytes of the response as they are.
pub fn read_download(reply: Result<HttpResponse, String>) -> (r: Result<Vec<u8>, ApiError>)
    ensures
        crate::api::api_outcome(r) == match reply {
            Ok(resp) => if is_success(resp.status) {
                Ok(resp.body@)
            } else {
                Err(server_error(resp.status, body_of(resp.body@)))
            },
            Err(reason) => Err(ApiErrorView::Network(reason@)),
        },
{
    match reply {
        Ok(resp) => {
            if 200 <= resp.status && resp.status < 300 {
                Ok(resp.body)
            } else {
                let body = read_body(resp.body.as_slice());
                Err(parse_error(resp.status, &body))
            }
        },
        Err(reason) => Err(ApiError::Network { reason }),
    }
}

/// The text that a response has to hold under a key.
pub open spec fn required_text(body: JsonView, key: Seq<char>, complaint: Seq<char>) -> Result<
    Seq<char>,
    ApiErrorView,
> {
    match body.at(key).as_str() {
        Some(s) => Ok(s),
        None => Err(ApiErrorView::Malformed(complaint + key + "`"@)),
    }
}

/// The complaint about a field that a response lacks.
pub open spec fn lacks() -> Seq<char> {
    "response missing string field `"@
}

/// The complaint about a field that a reply to a login lacks.
pub open spec fn auth_lacks() -> Seq<char> {
    "auth response missing string field `"@
}

/// What a reply to a registration or a login holds, or the complaint about the
/// first field that it lacks.
pub open spec fn auth_fields(body: JsonView) -> Result<AuthView, ApiErrorView> {
    match required_text(body, "user_id"@, auth_lacks()) {
        Err(e) => Err(e),
        Ok(user_id) => match required_text(body, "device_id"@, auth_lacks()) {
            Err(e) => Err(e),
            Ok(device_id) => match required_text(body, "access_token"@, auth_lacks()) {
                Err(e) => Err(e),
                Ok(access_token) => Ok(AuthView { user_id, device_id, access_token }),
            },
        },
    }
}

fn required(body: &Json, key: &str, complaint: &str) -> (r: Result<String, ApiError>)
    ensures
        crate::api::api_outcome(r) == required_text(body@, key@, complaint@),
{
    match body.string_at(key) {
        Some(s) => Ok(s),
        None => Err(ApiError::Malformed { reason: join3(complaint, key, "`") }),
    }
}

/// The text that a response has to hold under a key.
pub fn json_string(body: &Json, key: &str) -> (r: Result<String, ApiError>)
    ensures
        crate::api::api_outcome(r) == required_text(body@, key@, lacks()),
{
    required(body, key, "response missing string field `")
}

/// What a reply to a registration or a login holds.
pub fn parse_auth(body: &Json) -> (r: Result<AuthResponse, ApiError>)
    ensures
        crate::api::api_outcome(r) == auth_fields(body@),
{
    let user_id = match required(body, "user_id", "auth response missing string field `") {
        Ok(s) => s,
        Err(e) => return Err(e),
    };
    let device_id = match required(body, "device_id", "auth response missing string field `") {
        Ok(s) => s,
        Err(e) => return Err(e),
    };
    let access_token = match required(body, "access_token", "auth response missing string field `") {
        Ok(s) => s,
        Err(e) => return Err(e),
    };
    Ok(AuthResponse { user_id, device_id, access_token })
}

/// What a reply to a registration or a login comes to.
pub fn auth_of(reply: Result<Json, ApiError>) -> (r: Result<AuthResponse, ApiError>)
    ensures
        crate::api::api_outcome(r) == match reply {
            Ok(body) => auth_fields(body@),
            Err(e) => Err(e@),
        },
{
    match reply {
        Ok(body) => parse_auth(&body),
        Err(e) => Err(e),
    }
}

/// What a reply that holds one text comes to.
pub fn text_of(reply: Result<Json, ApiError>, key: &str) -> (r: Result<String, ApiError>)
    ensures
        crate::api::api_outcome(r) == match reply {
            Ok(body) => required_text(body@, key@, lacks()),
            Err(e) => Err(e@),
        },
{
    match reply {
        Ok(body) => json_string(&body, key),
        Err(e) => Err(e),
    }
}

/// What a reply whose content does not matter comes to.
pub fn done_of(reply: Result<Json, ApiError>) -> (r: Result<(), ApiError>)
    ensures
        match reply {
            Ok(_) => r is Ok,
            Err(e) => r is Err && r->Err_0@ == e@,
        },
{
    match reply {
        Ok(_) => Ok(()),
        Err(e) => Err(e),
    }
}

/// A number cut to 32 bits.
pub open spec fn low_u32(n: u64) -> u32 {
    (n % 0x1_0000_0000) as u32
}

/// How many key packages a device has left, by the reply to an upload.
pub open spec fn package_count(body: JsonView) -> u32 {
    match body.at("key_package_count"@).as_u64() {
        Some(n) => low_u32(n),
        None => 0,
    }
}

/// How many key packages the device has left, by the reply to an upload.
pub fn key_count_of(reply: Result<Json, ApiError>) -> (r: Result<u32, ApiError>)
    ensures
        match reply {
            Ok(body) => r is Ok && r->Ok_0 == package_count(body@),
            Err(e) => r is Err && r->Err_0@ == e@,
        },
{
    match reply {
        Ok(body) => {
            let count = match body.get("key_package_count") {
                Some(v) => v.as_u64(),
                None => None,
            };
            match count {
                Some(n) => Ok((n % 0x1_0000_0000) as u32),
                None => Ok(0),
            }
        },
        Err(e) => Err(e),
    }
}

/// The ids of the devices that a user has published, by the reply to a query.
pub open spec fn device_ids(body: JsonView, user: Seq<char>) -> Seq<Seq<char>> {
    match body.at("device_keys"@).at(user).as_object() {
        Some(members) => Seq::new(members.len(), |i: int| members[i].0),
        None => seq![],
    }
}

/// The ids of the devices that a user has published, by the reply to a query.
pub fn devices_of(reply: Result<Json, ApiError>, user_id: &str) -> (r: Result<
    Vec<String>,
    ApiError,
>)
    ensures
        match reply {
            Ok(body) => r is Ok && crate::store::summary::string_views(r->Ok_0@) == device_ids(
                body@,
                user_id@,
            ),
            Err(e) => r is Err && r->Err_0@ == e@,
        },
{
    let body = match reply {
        Ok(b) => b,
        Err(e) => return Err(e),
    };
    let ghost wanted = device_ids(body@, user_id@);
    let mut out: Vec<String> = Vec::new();
    assert(crate::store::summary::string_views(out@) =~= seq![]);
    match child(body.get("device_keys"), user_id) {
        Some(v) => match v {
            Json::Object(m) => {
                let mut i: usize = 0;
                while i < m.len()
                    invariant
                        i <= m@.len(),
                        wanted.len() == m@.len(),
                        forall|j: int| 0 <= j < m@.len() ==> #[trigger] wanted[j] == m@[j].0@,
                        out@.len() == i,
                        forall|j: int| 0 <= j < i ==> (#[trigger] out@[j])@ == m@[j].0@,
                    decreases m@.len() - i,
                {
                    out.push(m[i].0.clone());
                    i += 1;
                }
                assert(crate::store::summary::string_views(out@) =~= wanted);
            },
            _ => {},
        },
        None => {},
    }
    Ok(out)
}

/// The key package that a device gave, by the reply to a claim.
pub open spec fn claimed_package(body: JsonView, user: Seq<char>, device: Seq<char>) -> Option<
    Seq<char>,
> {
    body.at("one_time_keys"@).at(user).at(device).at("package"@).as_str()
}

/// The key package that a device gave, if it had one left.
pub fn package_of(reply: Result<Json, ApiError>, user_id: &str, device_id: &str) -> (r: Result<
    Option<String>,
    ApiError,
>)
    ensures
        match reply {
            Ok(body) => r is Ok && crate::json::opt_string_view(r->Ok_0) == claimed_package(
                body@,
                user_id@,
                device_id@,
            ),
            Err(e) => r is Err && r->Err_0@ == e@,
        },
{
    match reply {
        Ok(body) => {
            let device = child(child(body.get("one_time_keys"), user_id), device_id);
            match device {
                Some(d) => Ok(d.string_at("package")),
                None => Ok(None),
            }
        },
        Err(e) => Err(e),
    }
}

/// A response counts exactly where its status is one of success, and then it is its body;
/// any other is an error of the server, with its status, the code that its `errcode`
/// names and the words of its `error`.
pub proof fn responses_are_settled_by_their_status(status: u16, body: JsonView)
    ensures
        200 <= status < 300 ==> settled(status, body) == Ok::<JsonView, ApiErrorView>(body),
        !(200 <= status < 300) ==> (settled(status, body) matches Err(
            ApiErrorView::Server(s, code, words),
        ) && s == status && (match body.at("errcode"@) {
            JsonView::Str(wire) => code.wire() == wire && code == crate::api::code_of(wire),
            _ => code is Unknown,
        }) && (match body.at("error"@) {
            JsonView::Str(text) => words == text,
            _ => words == "(no error message)"@,
        })),
{
}

/// A response that is no JSON counts as one that says nothing, and any other as what it
/// says.
pub proof fn bodies_are_read_as_they_are(bytes: Seq<u8>)
    ensures
        crate::codec::json_parse(bytes) matches Ok(v) ==> body_of(bytes) == v,
        crate::codec::json_parse(bytes) is Err ==> body_of(bytes) == JsonView::Null,
{
}

/// A text that a response has to hold is the member of its name, and where that is no
/// text the response is malformed.
pub proof fn required_text_is_the_member(body: JsonView, key: Seq<char>, complaint: Seq<char>)
    ensures
        match body.at(key) {
            JsonView::Str(s) => required_text(body, key, complaint) == Ok::<
                Seq<char>,
                ApiErrorView,
            >(s),
            _ => required_text(body, key, complaint) == Err::<Seq<char>, ApiErrorView>(
                ApiErrorView::Malformed(complaint + key + "`"@),
            ),
        },
{
}

/// A login reply gives the user, the device and the token that it holds, and it is taken
/// exactly where it holds all three.
pub proof fn login_reply_is_read_as_it_is(body: JsonView)
    ensures
        auth_fields(body) is Ok <==> body.at("user_id"@) is Str && body.at("device_id"@) is Str
            && body.at("access_token"@) is Str,
        auth_fields(body) matches Ok(auth) ==> body.at("user_id"@) == JsonView::Str(auth.user_id)
            && body.at("device_id"@) == JsonView::Str(auth.device_id) && body.at("access_token"@)
            == JsonView::Str(auth.access_token),
        auth_fields(body) matches Err(e) ==> e is Malformed,
{
}

/// The number of key packages left is what the reply says, cut to 32 bits, and zero where
/// it says none.
pub proof fn package_count_is_what_the_reply_says(body: JsonView)
    ensures
        match body.at("key_package_count"@) {
            JsonView::PosInt(n) => package_count(body) as int == n % 0x1_0000_0000,
            _ => package_count(body) == 0,
        },
{
}

/// The devices of a user are the members of what the reply holds under the user, each
/// one, in their order; and the package of a device is the text under the user and the
/// device.
pub proof fn devices_are_those_of_the_user(
    body: JsonView,
    user: Seq<char>,
    device: Seq<char>,
    i: int,
)
    ensures
        match body.at("device_keys"@).at(user) {
            JsonView::Object(members) => device_ids(body, user).len() == members.len() && (0 <= i
                < members.len() ==> device_ids(body, user)[i] == members[i].0),
            _ => device_ids(body, user).len() == 0,
        },
        match body.at("one_time_keys"@).at(user).at(device).at("package"@) {
            JsonView::Str(package) => claimed_package(body, user, device) == Some(package),
            _ => claimed_package(body, user, device) is None,
        },
{
}

/// The backup that the server holds, if it holds one. That there is none is no
/// error.
pub fn backup_of(reply: Result<Json, ApiError>) -> (r: Result<Option<String>, ApiError>)
    ensures
        match reply {
            Ok(body) => r is Ok && crate::json::opt_string_view(r->Ok_0) == body@.at(
                "blob"@,
            ).as_str(),
            Err(e) => if e@ is Server && e@->Server_1 is NotFound {
                r is Ok && r->Ok_0 is None
            } else {
                r is Err && r->Err_0@ == e@
            },
        },
{
    match reply {
        Ok(body) => Ok(body.string_at("blob")),
        Err(e) => match e {
            ApiError::Server { status, code, message } => match code {
                ErrorCode::NotFound => Ok(None),
                _ => Err(ApiError::Server { status, code, message }),
            },
            _ => Err(e),
        },
    }
}

} // verus!
