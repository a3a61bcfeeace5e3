use std::sync::{Arc, Mutex};

use pigeon_mobile_core::api::{Api, ApiError, Body, HashedPackage, HttpResponse};
use pigeon_mobile_core::codec::{
    from_base64, read_body, read_json, text_of_bytes, to_base64, write_json,
};
use pigeon_mobile_core::json::{child, object2, Json};
use pigeon_mobile_core::keys::{publish_device_keys, PublishAction, PublishEvent};
use pigeon_mobile_core::order::{order_of, SortKey};
use pigeon_mobile_core::reply::read_reply;
use pigeon_mobile_core::store::schema::{pending_migrations, read_payload, SCHEMA_VERSION};
use pigeon_mobile_core::text::{decimal_i64, decimal_u64, hex_prefix, str_lt};
use pigeon_mobile_core::{core_version, emit, emit_test_log, CoreError, LogLevel, LogSink};

#[derive(Clone)]
struct Capturing(Arc<Mutex<Vec<String>>>);

impl LogSink for Capturing {
    fn log(&self, _level: LogLevel, target: String, message: String) {
        self.0.lock().unwrap().push(format!("{target}: {message}"));
    }
}

#[test]
fn version_is_reported() {
    assert!(core_version().starts_with("pigeon-mobile-core"));
    assert_eq!(core_version(), "pigeon-mobile-core 0.1.0");
}

#[test]
fn log_sink_callback_round_trips() {
    let captured = Arc::new(Mutex::new(Vec::new()));
    let sink = Capturing(captured.clone());
    assert!(emit_test_log(Some(&sink), "hello from rust"));
    let lines = captured.lock().unwrap();
    assert_eq!(lines.len(), 1);
    assert_eq!(lines[0], "pigeon_mobile_core: hello from rust");
}

#[test]
fn without_a_sink_nothing_is_logged() {
    let none: Option<&Capturing> = None;
    assert!(!emit_test_log(none, "x"));
    assert!(!emit(none, LogLevel::Warn, "t", "x"));
}

#[test]
fn numerals_are_decimal() {
    assert_eq!(decimal_u64(0), "0");
    assert_eq!(decimal_u64(u64::MAX), "18446744073709551615");
    assert_eq!(decimal_i64(i64::MIN), "-9223372036854775808");
    assert_eq!(decimal_i64(-7), "-7");
    assert_eq!(decimal_i64(1700000000123), "1700000000123");
}

#[test]
fn hex_is_lower_case_and_padded() {
    assert_eq!(hex_prefix(&[0, 10, 255], 8), "000aff");
    assert_eq!(hex_prefix(&[0, 10, 255], 2), "000a");
    assert_eq!(hex_prefix(&[], 8), "");
}

#[test]
fn texts_are_ordered_by_their_bytes() {
    let mut texts = vec!["$z", "", "$\u{e9}", "$a", "$ab", "\u{1f54a}", "$A"];
    let mut by_bytes = texts.clone();
    by_bytes.sort();
    texts.sort_by(|a, b| {
        if str_lt(a, b) {
            std::cmp::Ordering::Less
        } else if str_lt(b, a) {
            std::cmp::Ordering::Greater
        } else {
            std::cmp::Ordering::Equal
        }
    });
    assert_eq!(texts, by_bytes);
    assert!(!str_lt("$a", "$a"));
}

#[test]
fn rows_are_ordered_by_number_then_text() {
    let key = |num: i128, text: &str| SortKey {
        num,
        text: text.to_owned(),
    };
    let keys = vec![key(2, "b"), key(1, "z"), key(2, "a"), key(1, "z"), key(-5, "")];
    assert_eq!(order_of(&keys), vec![4, 1, 3, 2, 0]);
    assert!(order_of(&Vec::new()).is_empty());
}

#[test]
fn json_is_read_and_written() {
    let text = "{\"b\":[1,-2,1.5,true,null,\"\\u00e9\\n\"],\"a\":{}, \"b\" : {\"x\":18446744073709551615}}";
    let j = read_json(text.as_bytes()).unwrap();
    assert_eq!(write_json(&j), "{\"a\":{},\"b\":{\"x\":18446744073709551615}}");
    assert_eq!(
        child(j.get("b"), "x").and_then(|v| v.as_u64()),
        Some(u64::MAX)
    );
    assert_eq!(child(j.get("b"), "x").and_then(|v| v.as_i64()), None);

    let list = read_json(b"[1,-2,1.50,true,null,\"\\u00e9\\n\",1e400]");
    assert!(list.is_err());
    let list = read_json(b"[1,-2,1.50,true,null,\"\\u00e9\\n\"]").unwrap();
    assert_eq!(write_json(&list), "[1,-2,1.5,true,null,\"\u{e9}\\n\"]");
    match &list {
        Json::Array(items) => {
            assert!(matches!(items[0], Json::PosInt(1)));
            assert!(matches!(items[1], Json::NegInt(-2)));
            assert!(matches!(&items[2], Json::Float(t) if t == "1.5"));
            assert!(matches!(items[3], Json::Bool(true)));
            assert!(matches!(items[4], Json::Null));
        }
        _ => panic!("expected an array"),
    }
    assert_eq!(
        read_json(b"nope").unwrap_err(),
        "expected ident at line 1 column 2"
    );
    assert!(matches!(read_body(b"<html>"), Json::Null));
    assert!(matches!(read_body(b"true"), Json::Bool(true)));
}

#[test]
fn written_json_is_put_in_order() {
    let j = Json::Object(vec![
        ("z".to_owned(), Json::NegInt(5)),
        ("a".to_owned(), Json::Float("2.50".to_owned())),
        ("z".to_owned(), Json::string("last")),
        ("n".to_owned(), Json::Float("x".to_owned())),
    ]);
    assert_eq!(write_json(&j), "{\"a\":2.5,\"n\":null,\"z\":\"last\"}");
    let flat = object2("k\"", Json::string("\u{0}\u{1f54a}"), "a", Json::string(""));
    let back = read_json(write_json(&flat).as_bytes()).unwrap();
    assert_eq!(back.str_at("k\""), Some("\u{0}\u{1f54a}"));
    assert_eq!(back.str_at("a"), Some(""));
}

#[test]
fn members_are_set_in_place() {
    let mut j = object2("a", Json::number(-1), "b", Json::number(2));
    assert!(matches!(j.get("b"), Some(Json::PosInt(2))));
    j.set("b", Json::string("x"));
    j.set("c", Json::natural(3));
    assert_eq!(j.str_at("b"), Some("x"));
    assert_eq!(j.get("a").and_then(|v| v.as_i64()), Some(-1));
    assert_eq!(write_json(&j), "{\"a\":-1,\"b\":\"x\",\"c\":3}");
    assert!(j.get("d").is_none());
    assert!(Json::Null.get("a").is_none());
}

#[test]
fn base64_round_trips() {
    for bytes in [vec![], vec![0], vec![255, 254], vec![1, 2, 3], (0..=255).collect()] {
        let text = to_base64(&bytes);
        assert_eq!(from_base64(&text).unwrap(), bytes);
    }
    assert_eq!(to_base64(b"garbage"), "Z2FyYmFnZQ==");
    assert_eq!(
        from_base64("Z2FyYmFnZQ").unwrap_err(),
        "Invalid padding"
    );
    assert!(from_base64("a b=").is_err());
}

#[test]
fn bytes_are_text_where_they_are_utf8() {
    assert_eq!(text_of_bytes(b"h\xc3\xa9".to_vec()).unwrap(), "h\u{e9}");
    assert_eq!(
        text_of_bytes(vec![b'a', 0xc3]).unwrap_err(),
        "incomplete utf-8 byte sequence from index 1"
    );
}

#[test]
fn migrations_are_taken_in_order() {
    assert_eq!(SCHEMA_VERSION, 3);
    assert_eq!(pending_migrations(0), vec![1, 2, 3]);
    assert_eq!(pending_migrations(1), vec![2, 3]);
    assert_eq!(pending_migrations(2), vec![3]);
    assert!(pending_migrations(3).is_empty());
    assert!(pending_migrations(99).is_empty());
    assert_eq!(pending_migrations(i64::MIN), vec![1, 2, 3]);
}

#[test]
fn stored_payloads_are_json() {
    let event = read_payload("{\"type\":\"p.room.message\"}").unwrap();
    assert_eq!(event.str_at("type"), Some("p.room.message"));
    assert_eq!(
        read_payload("nope").unwrap_err().describe(),
        "malformed event: corrupt stored event payload: expected ident at line 1 column 2"
    );
}

fn report(action: PublishAction) -> (LogLevel, String) {
    match action {
        PublishAction::Report { level, message } => (level, message),
        _ => panic!("expected a report"),
    }
}

#[test]
fn publishing_keys_is_best_effort() {
    let api = Api::new("http://h", Some("t".to_owned()));
    assert!(matches!(
        publish_device_keys(&api, "DEV", PublishEvent::Begin { has_engine: false }),
        PublishAction::Nothing
    ));
    assert!(matches!(
        publish_device_keys(&api, "DEV", PublishEvent::Begin { has_engine: true }),
        PublishAction::Make { count: 5 }
    ));
    let package = |text: &str| HashedPackage {
        package_b64: text.to_owned(),
        hash: None,
    };
    // The last-resort package is asked for next, and the pool goes out either way.
    for (made, wanted, warned) in [
        (Ok(package("LLLL")), true, None),
        (
            Err(CoreError::crypto("no")),
            false,
            Some("could not generate the last-resort KeyPackage: crypto error: no"),
        ),
    ] {
        let action = publish_device_keys(
            &api,
            "DEV",
            PublishEvent::Made(Ok(("PUB".to_owned(), vec![package("AAAA")]))),
        );
        let (public_key, packages) = match action {
            PublishAction::MakeLastResort {
                public_key,
                packages,
            } => (public_key, packages),
            _ => panic!("expected the last-resort package to be asked for"),
        };
        let event = PublishEvent::LastResort {
            public_key,
            packages,
            made,
        };
        match publish_device_keys(&api, "DEV", event) {
            PublishAction::Upload { warning, request } => {
                assert_eq!(warning.as_deref(), warned);
                assert_eq!(request.url, "http://h/_pigeon/client/v1/keys/upload");
                match &request.body {
                    Body::Json(j) => {
                        let body = write_json(j);
                        assert!(body.contains("\"ed25519:DEV\":\"PUB\""));
                        assert!(body.contains("\"AAAA\""));
                        assert_eq!(body.contains("\"LLLL\""), wanted);
                    }
                    _ => panic!("expected JSON"),
                }
            }
            _ => panic!("expected an upload"),
        }
    }
    let reply = read_reply(Ok(HttpResponse {
        status: 200,
        body: b"{\"key_package_count\":5}".to_vec(),
    }));
    assert_eq!(
        report(publish_device_keys(&api, "DEV", PublishEvent::Uploaded(reply))),
        (
            LogLevel::Info,
            "published device keys (5 KeyPackages available)".to_owned()
        )
    );
    let offline = ApiError::Network {
        reason: "down".to_owned(),
    };
    assert_eq!(
        report(publish_device_keys(
            &api,
            "DEV",
            PublishEvent::Uploaded(Err(offline))
        )),
        (
            LogLevel::Warn,
            "device key upload failed (E2EE limited until next login): network error: down"
                .to_owned()
        )
    );
    assert_eq!(
        report(publish_device_keys(
            &api,
            "DEV",
            PublishEvent::Made(Err(CoreError::crypto("no")))
        )),
        (
            LogLevel::Warn,
            "could not generate KeyPackages: crypto error: no".to_owned()
        )
    );
}
