use pigeon_mobile_core::api::{
    join_url, key_package_id, normalize_base, Api, ApiError, Body, ErrorCode, HashedPackage,
    HttpResponse, Verb,
    LAST_RESORT_MEMBER,
};
use pigeon_mobile_core::codec::write_json;
use pigeon_mobile_core::json::Json;
use pigeon_mobile_core::reply::{
    auth_of, backup_of, devices_of, done_of, json_string, key_count_of, package_of, parse_auth,
    parse_error, read_download, read_reply, settle, text_of,
};
use pigeon_mobile_core::CoreError;

fn obj(members: Vec<(&str, Json)>) -> Json {
    Json::Object(members.into_iter().map(|(k, v)| (k.to_owned(), v)).collect())
}

fn text(s: &str) -> Json {
    Json::Str(s.to_owned())
}

fn api() -> Api {
    Api::new("https://pigeon.example/", Some("secret-token".to_owned()))
}

fn body_text(body: &Body) -> String {
    match body {
        Body::Json(j) => write_json(j),
        _ => panic!("expected a JSON body"),
    }
}

fn reply(status: u16, body: &str) -> Result<HttpResponse, String> {
    Ok(HttpResponse {
        status,
        body: body.as_bytes().to_vec(),
    })
}

#[test]
fn known_error_codes_round_trip() {
    for wire in [
        "P_FORBIDDEN",
        "P_UNKNOWN_TOKEN",
        "P_MISSING_TOKEN",
        "P_BAD_JSON",
        "P_NOT_JSON",
        "P_NOT_FOUND",
        "P_LIMIT_EXCEEDED",
        "P_BAD_SIGNATURE",
        "P_UNRECOGNIZED",
        "P_USER_IN_USE",
        "P_INVALID_USERNAME",
        "P_UNKNOWN",
    ] {
        assert_eq!(ErrorCode::from_wire(wire).as_str(), wire);
        assert!(!matches!(ErrorCode::from_wire(wire), ErrorCode::Other { .. }));
    }
}

#[test]
fn unknown_error_code_is_preserved_verbatim() {
    let code = ErrorCode::from_wire("P_SOME_FUTURE_CODE");
    assert_eq!(
        code,
        ErrorCode::Other {
            code: "P_SOME_FUTURE_CODE".to_owned()
        }
    );
    assert_eq!(code.as_str(), "P_SOME_FUTURE_CODE");
}

#[test]
fn parse_error_extracts_typed_code_and_message() {
    let body = obj(vec![
        ("errcode", text("P_USER_IN_USE")),
        ("error", text("user already exists: @a:x")),
    ]);
    match parse_error(403, &body) {
        ApiError::Server {
            status,
            code,
            message,
        } => {
            assert_eq!(status, 403);
            assert_eq!(code, ErrorCode::UserInUse);
            assert_eq!(message, "user already exists: @a:x");
        }
        other => panic!("expected Server error, got {other:?}"),
    }
}

#[test]
fn parse_error_tolerates_missing_body_fields() {
    match parse_error(500, &Json::Null) {
        ApiError::Server {
            status,
            code,
            message,
        } => {
            assert_eq!(status, 500);
            assert_eq!(code, ErrorCode::Unknown);
            assert_eq!(message, "(no error message)");
        }
        other => panic!("expected Server error, got {other:?}"),
    }
}

#[test]
fn parse_auth_reads_all_three_fields() {
    let body = obj(vec![
        ("user_id", text("@alice:pigeon.example")),
        ("device_id", text("ABCD1234")),
        ("access_token", text("secret-token")),
    ]);
    let auth = parse_auth(&body).unwrap_or_else(|e| panic!("{}", e.describe()));
    assert_eq!(auth.user_id, "@alice:pigeon.example");
    assert_eq!(auth.device_id, "ABCD1234");
    assert_eq!(auth.access_token, "secret-token");
}

#[test]
fn parse_auth_rejects_missing_field() {
    let body = obj(vec![("user_id", text("@a:x")), ("device_id", text("D1"))]);
    match parse_auth(&body) {
        Err(ApiError::Malformed { reason }) => assert!(reason.contains("access_token")),
        _ => panic!("expected Malformed"),
    }
}

#[test]
fn base_url_trailing_slash_is_normalized() {
    assert_eq!(
        normalize_base("https://pigeon.example/"),
        "https://pigeon.example"
    );
    assert_eq!(
        normalize_base("https://pigeon.example"),
        "https://pigeon.example"
    );
    assert_eq!(
        join_url(
            &normalize_base("https://pigeon.example/"),
            "/_pigeon/client/v1/sync"
        ),
        "https://pigeon.example/_pigeon/client/v1/sync"
    );
}

#[test]
fn every_trailing_slash_goes() {
    assert_eq!(normalize_base("https://h///"), "https://h");
    assert_eq!(normalize_base("///"), "");
    assert_eq!(normalize_base(""), "");
    assert_eq!(normalize_base("a/b\u{e9}/"), "a/b\u{e9}");
}

#[test]
fn register_sends_expected_request_and_parses_auth() {
    let r = Api::new("http://h", None).register("alice", "hunter2");
    assert_eq!(r.verb, Verb::Post);
    assert_eq!(r.url, "http://h/_pigeon/client/v1/register");
    assert_eq!(r.bearer, None);
    assert_eq!(
        body_text(&r.body),
        "{\"password\":\"hunter2\",\"username\":\"alice\"}"
    );
    let auth = auth_of(read_reply(reply(
        200,
        "{\"user_id\":\"@alice:test.example\",\"device_id\":\"DEVICE1\",\"access_token\":\"secret-token\"}",
    )))
    .unwrap_or_else(|e| panic!("{}", e.describe()));
    assert_eq!(auth.user_id, "@alice:test.example");
    assert_eq!(auth.device_id, "DEVICE1");
    assert_eq!(auth.access_token, "secret-token");
}

#[test]
fn login_uses_password_flow_shape() {
    let r = api().login("alice", "hunter2");
    assert_eq!(r.url, "https://pigeon.example/_pigeon/client/v1/login");
    assert_eq!(
        body_text(&r.body),
        "{\"password\":\"hunter2\",\"type\":\"p.login.password\",\"user\":\"alice\"}"
    );
}

#[test]
fn bearer_token_is_attached_when_set() {
    let mut a = api();
    let r = a.whoami();
    assert_eq!(r.verb, Verb::Get);
    assert_eq!(
        r.url,
        "https://pigeon.example/_pigeon/client/v1/account/whoami"
    );
    assert_eq!(r.bearer.as_deref(), Some("secret-token"));
    assert!(matches!(r.body, Body::Empty));
    a.set_token(None);
    assert_eq!(a.logout().bearer, None);
    assert_eq!(body_text(&a.logout().body), "{}");
}

#[test]
fn server_p_error_maps_to_typed_code() {
    let r = read_reply(reply(
        403,
        "{\"errcode\":\"P_USER_IN_USE\",\"error\":\"user already exists\"}",
    ));
    match r {
        Err(ApiError::Server { status, code, .. }) => {
            assert_eq!(status, 403);
            assert_eq!(code, ErrorCode::UserInUse);
        }
        _ => panic!("expected a Server error"),
    }
}

#[test]
fn sync_sends_since_timeout_limit_and_bearer() {
    let r = api().sync(None, 30_000, 100);
    assert_eq!(r.url, "https://pigeon.example/_pigeon/client/v1/sync");
    assert_eq!(r.bearer.as_deref(), Some("secret-token"));
    assert_eq!(
        r.query,
        vec![
            ("timeout".to_owned(), "30000".to_owned()),
            ("limit".to_owned(), "100".to_owned())
        ]
    );
    assert_eq!(r.timeout_ms, Some(45_000));

    let later = api().sync(Some("9_0"), u64::MAX, 0);
    assert_eq!(later.query[2], ("since".to_owned(), "9_0".to_owned()));
    assert_eq!(later.timeout_ms, Some(u64::MAX as u128 + 15_000));
}

#[test]
fn create_room_posts_name_topic_and_returns_id() {
    let r = api().create_room(Some("General"), Some("chatter"), false);
    assert_eq!(r.url, "https://pigeon.example/_pigeon/client/v1/createRoom");
    assert_eq!(
        body_text(&r.body),
        "{\"name\":\"General\",\"topic\":\"chatter\"}"
    );
    assert_eq!(
        text_of(read_reply(reply(200, "{\"room_id\":\"!new:test.example\"}")), "room_id").unwrap(),
        "!new:test.example"
    );
}

#[test]
fn create_room_omits_unset_fields() {
    assert_eq!(body_text(&api().create_room(None, None, false).body), "{}");
    assert_eq!(
        body_text(&api().create_room(Some("Secret"), None, true).body),
        "{\"encryption\":true,\"name\":\"Secret\"}"
    );
}

#[test]
fn join_room_posts_to_join_path() {
    let r = api().join_room("!r:test.example");
    assert_eq!(r.verb, Verb::Post);
    assert_eq!(
        r.url,
        "https://pigeon.example/_pigeon/client/v1/rooms/!r:test.example/join"
    );
    assert_eq!(body_text(&r.body), "{}");
}

#[test]
fn every_other_endpoint_has_its_path_and_body() {
    let a = api();
    let base = "https://pigeon.example";
    let r = a.invite("!r:s", "@b:s");
    assert_eq!(r.url, format!("{base}/_pigeon/client/v1/rooms/!r:s/invite"));
    assert_eq!(body_text(&r.body), "{\"user_id\":\"@b:s\"}");

    let r = a.messages("!r:s", 50);
    assert_eq!(r.url, format!("{base}/_pigeon/client/v1/rooms/!r:s/messages"));
    assert_eq!(r.query, vec![("limit".to_owned(), "50".to_owned())]);

    let r = a.query_keys("@b:s");
    assert_eq!(r.url, format!("{base}/_pigeon/client/v1/keys/query"));
    assert_eq!(body_text(&r.body), "{\"device_keys\":{\"@b:s\":[]}}");

    let r = a.claim_keys("@b:s", "D1");
    assert_eq!(r.url, format!("{base}/_pigeon/client/v1/keys/claim"));
    assert_eq!(body_text(&r.body), "{\"one_time_keys\":{\"@b:s\":[\"D1\"]}}");

    let r = a.send_to_device("p.mls.welcome", "t1", obj(vec![]));
    assert_eq!(r.verb, Verb::Put);
    assert_eq!(
        r.url,
        format!("{base}/_pigeon/client/v1/sendToDevice/p.mls.welcome/t1")
    );
    assert_eq!(body_text(&r.body), "{\"messages\":{}}");

    let r = a.send_message("!r:s", "t2", text("x"));
    assert_eq!(
        r.url,
        format!("{base}/_pigeon/client/v1/rooms/!r:s/send/p.room.message/t2")
    );

    let r = a.put_room_key("!k", "s", "BLOB");
    assert_eq!(r.url, format!("{base}/_pigeon/client/v1/room_keys/key/!k/s"));
    assert_eq!(body_text(&r.body), "{\"blob\":\"BLOB\"}");
    assert_eq!(
        a.get_room_key("!k", "s").url,
        format!("{base}/_pigeon/client/v1/room_keys/key/!k/s")
    );

    let r = a.upload_media(vec![1, 2], "image/png");
    assert_eq!(r.url, format!("{base}/_pigeon/media/v1/upload"));
    match r.body {
        Body::Raw {
            content_type,
            bytes,
        } => {
            assert_eq!(content_type, "image/png");
            assert_eq!(bytes, vec![1, 2]);
        }
        _ => panic!("expected raw bytes"),
    }
    assert_eq!(
        a.download_media("s", "m").url,
        format!("{base}/_pigeon/media/v1/download/s/m")
    );
    assert_eq!(a.get("/x").url, format!("{base}/x"));
    assert_eq!(body_text(&a.post("/x", text("y")).body), "\"y\"");
}

#[test]
fn key_package_ids_go_by_hash() {
    let hash = [0x00u8, 0x01, 0x0f, 0x10, 0xff, 0xab, 0xcd, 0xef, 0x99];
    assert_eq!(key_package_id(Some(&hash), 0), "kp-00010f10ffabcdef");
    assert_eq!(key_package_id(Some(&hash), 0), key_package_id(Some(&hash), 3));
    assert_eq!(key_package_id(Some(&[7u8]), 0), "kp-07");
    assert_eq!(key_package_id(None, 12), "kp-12");
}

#[test]
fn key_upload_names_every_package() {
    let packages = vec![
        HashedPackage {
            package_b64: "AAAA".to_owned(),
            hash: Some(vec![1; 32]),
        },
        HashedPackage {
            package_b64: "BBBB".to_owned(),
            hash: None,
        },
    ];
    let r = api().upload_keys("DEV", "PUB", &packages, None);
    assert_eq!(r.url, "https://pigeon.example/_pigeon/client/v1/keys/upload");
    assert_eq!(
        body_text(&r.body),
        "{\"device_keys\":{\"algorithms\":[\"p.mls.1\"],\"keys\":{\"ed25519:DEV\":\"PUB\"},\
         \"signatures\":{}},\"key_packages\":[{\"key_id\":\"kp-0101010101010101\",\
         \"package\":\"AAAA\"},{\"key_id\":\"kp-1\",\"package\":\"BBBB\"}]}"
    );
    let last = HashedPackage {
        package_b64: "LLLL".to_owned(),
        hash: Some(vec![2; 32]),
    };
    let r = api().upload_keys("DEV", "PUB", &packages, Some(&last));
    assert!(body_text(&r.body).ends_with(&format!(
        "\"{LAST_RESORT_MEMBER}\":{{\"key_id\":\"kp-0202020202020202\",\"package\":\"LLLL\"}}}}"
    )));
    let nameless = HashedPackage {
        package_b64: "LLLL".to_owned(),
        hash: None,
    };
    let r = api().upload_keys("DEV", "PUB", &packages, Some(&nameless));
    assert!(body_text(&r.body).contains("\"kp-2\""));
}

#[test]
fn replies_are_settled_by_status() {
    assert!(settle(200, Json::Null).is_ok());
    assert!(settle(299, Json::Null).is_ok());
    assert!(settle(199, Json::Null).is_err());
    assert!(settle(300, Json::Null).is_err());
    // A success without JSON is a success that says nothing.
    assert!(matches!(read_reply(reply(204, "")), Ok(Json::Null)));
    assert!(matches!(
        read_reply(reply(502, "<html>")),
        Err(ApiError::Server { status: 502, .. })
    ));
    match read_reply(Err("connection refused".to_owned())) {
        Err(e) => assert_eq!(e.describe(), "network error: connection refused"),
        Ok(_) => panic!("expected a network error"),
    }
    assert!(done_of(read_reply(reply(200, "{}"))).is_ok());
    assert!(done_of(read_reply(reply(404, "{}"))).is_err());
}

#[test]
fn downloads_are_taken_verbatim() {
    assert_eq!(read_download(reply(200, "raw")).unwrap(), b"raw".to_vec());
    match read_download(reply(
        404,
        "{\"errcode\":\"P_NOT_FOUND\",\"error\":\"no such media\"}",
    )) {
        Err(ApiError::Server { code, message, .. }) => {
            assert_eq!(code, ErrorCode::NotFound);
            assert_eq!(message, "no such media");
        }
        _ => panic!("expected a refusal"),
    }
    assert!(matches!(
        read_download(Err("x".to_owned())),
        Err(ApiError::Network { .. })
    ));
}

#[test]
fn key_replies_are_read() {
    assert_eq!(
        key_count_of(read_reply(reply(200, "{\"key_package_count\":4294967301}"))).unwrap(),
        5
    );
    assert_eq!(key_count_of(read_reply(reply(200, "{}"))).unwrap(), 0);
    assert_eq!(
        devices_of(
            read_reply(reply(200, "{\"device_keys\":{\"@b:s\":{\"D2\":{},\"D1\":{}}}}")),
            "@b:s"
        )
        .unwrap(),
        vec!["D1", "D2"]
    );
    assert!(devices_of(read_reply(reply(200, "{\"device_keys\":{}}")), "@b:s")
        .unwrap()
        .is_empty());
    let claimed = "{\"one_time_keys\":{\"@b:s\":{\"D1\":{\"key_id\":\"kp-0\",\"package\":\"AAAA\"}}}}";
    assert_eq!(
        package_of(read_reply(reply(200, claimed)), "@b:s", "D1")
            .unwrap()
            .as_deref(),
        Some("AAAA")
    );
    assert_eq!(
        package_of(read_reply(reply(200, claimed)), "@b:s", "D2").unwrap(),
        None
    );
    assert!(package_of(read_reply(reply(500, "")), "@b:s", "D1").is_err());
}

#[test]
fn a_missing_backup_is_no_error_of_the_api() {
    assert_eq!(
        backup_of(read_reply(reply(200, "{\"blob\":\"B\"}")))
            .unwrap()
            .as_deref(),
        Some("B")
    );
    assert_eq!(
        backup_of(read_reply(reply(404, "{\"errcode\":\"P_NOT_FOUND\"}"))).unwrap(),
        None
    );
    assert!(backup_of(read_reply(reply(403, "{\"errcode\":\"P_FORBIDDEN\"}"))).is_err());
    assert!(backup_of(read_reply(Err("x".to_owned()))).is_err());
}

#[test]
fn errors_are_told_in_words() {
    let server = ApiError::Server {
        status: 403,
        code: ErrorCode::UserInUse,
        message: "taken".to_owned(),
    };
    assert_eq!(server.describe(), "server error 403 P_USER_IN_USE: taken");
    assert_eq!(
        CoreError::from(server).describe(),
        "server rejected the request [P_USER_IN_USE]: taken"
    );
    let missing = json_string(&Json::Null, "room_id").unwrap_err();
    assert_eq!(
        missing.describe(),
        "malformed response: response missing string field `room_id`"
    );
    assert_eq!(
        CoreError::from(missing).describe(),
        "protocol error: response missing string field `room_id`"
    );
    let network = ApiError::Network {
        reason: "down".to_owned(),
    };
    assert_eq!(CoreError::from(network).describe(), "network error: down");
}
