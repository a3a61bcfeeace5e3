use pigeon_mobile_core::api::ErrorCode;
use pigeon_mobile_core::media::{check_upload, parse_content_uri};
use pigeon_mobile_core::CoreError;

#[test]
fn parses_a_valid_content_uri() {
    let (server, id) = parse_content_uri("pigeon://pigeon.example/AbC123").unwrap();
    assert_eq!(server, "pigeon.example");
    assert_eq!(id, "AbC123");
}

#[test]
fn rejects_malformed_uris() {
    for bad in [
        "https://pigeon.example/x",
        "pigeon://pigeon.example",
        "pigeon:///AbC123",
        "pigeon://pigeon.example/",
        "pigeon://pigeon.example/a/b",
    ] {
        assert!(
            matches!(parse_content_uri(bad), Err(CoreError::Protocol { .. })),
            "expected {bad} to be rejected"
        );
    }
}

#[test]
fn complaints_name_the_uri() {
    let why = |uri: &str| parse_content_uri(uri).unwrap_err().describe();
    assert_eq!(why("x"), "protocol error: not a pigeon:// content URI: x");
    assert_eq!(
        why("pigeon://s"),
        "protocol error: content URI missing media id: pigeon://s"
    );
    assert_eq!(
        why("pigeon:///i"),
        "protocol error: malformed content URI: pigeon:///i"
    );
    assert_eq!(
        parse_content_uri("pigeon://s\u{e9}r/\u{1f54a}").unwrap(),
        ("s\u{e9}r".to_owned(), "\u{1f54a}".to_owned())
    );
}

#[test]
fn the_upload_limit_is_exact() {
    match check_upload(50 * 1024 * 1024 + 1) {
        Err(CoreError::Api {
            code: ErrorCode::LimitExceeded,
            reason,
        }) => assert_eq!(reason, "file exceeds the 50 MiB media upload limit"),
        _ => panic!("expected a LimitExceeded error"),
    }
    assert!(check_upload(50 * 1024 * 1024).is_ok());
}
