//! Firefox: mapping cookies, opening the login page, and what a reply means.
use cookie_snatch::firefox;
use cookie_snatch::firefox::Argument;
use cookie_snatch::firefox::Connect;
use cookie_snatch::firefox::Retry;
use cookie_snatch::firefox::cookie;
use cookie_snatch::transport::Wire;
use cookie_snatch::Error;
use serde_json::Value;
use std::time::Duration;

fn json(text: &str) -> Value {
    serde_json::from_str(text).unwrap()
}

fn malformed(error: Error) -> String {
    match error {
        Error::Malformed { protocol: "bidi", detail } => detail,
        other => panic!("unexpected error {other:?}"),
    }
}

#[test]
fn maps_string_value() {
    let raw = json(
        r#"{
            "name": "SID", "value": { "type": "string", "value": "abc" },
            "domain": "corp.example", "path": "/", "secure": true, "httpOnly": true,
            "expiry": 1800000000.0
        }"#,
    );
    assert_eq!(cookie(&raw).unwrap().value, "abc");
}

#[test]
fn marks_session_when_no_expiry() {
    let raw = json(
        r#"{
            "name": "SID", "value": { "type": "string", "value": "abc" },
            "domain": "corp.example", "path": "/"
        }"#,
    );
    assert!(cookie(&raw).unwrap().session);
}

#[test]
fn decodes_base64_value() {
    let raw = json(
        r#"{
            "name": "SID", "value": { "type": "base64", "value": "YWJj" },
            "domain": "corp.example", "path": "/"
        }"#,
    );
    assert_eq!(cookie(&raw).unwrap().value, "abc");
}

#[test]
fn rejects_non_utf8_base64_value() {
    let raw = json(
        r#"{
            "name": "SID", "value": { "type": "base64", "value": "/w==" },
            "domain": "corp.example", "path": "/"
        }"#,
    );
    assert!(cookie(&raw).is_err());
}

#[test]
fn rejects_unknown_encoding() {
    let raw = json(
        r#"{
            "name": "SID", "value": { "type": "weird", "value": "x" },
            "domain": "corp.example", "path": "/"
        }"#,
    );
    assert!(cookie(&raw).is_err());
}

#[test]
fn maps_every_attribute() {
    let raw = json(
        r#"{
            "name": "SID", "value": { "type": "string", "value": "abc" },
            "domain": "corp.example", "path": "/app", "secure": true, "httpOnly": true,
            "expiry": 1800000000.5
        }"#,
    );
    let mapped = cookie(&raw).unwrap();
    assert_eq!(mapped.name, "SID");
    assert_eq!(mapped.domain, "corp.example");
    assert_eq!(mapped.path, "/app");
    assert_eq!(mapped.expires.bits, 1_800_000_000.5_f64.to_bits());
    assert!(mapped.http_only);
    assert!(mapped.secure);
    assert!(!mapped.session);
}

#[test]
fn whole_expiry_is_read_as_a_double() {
    let raw = json(
        r#"{ "name": "SID", "value": { "type": "string", "value": "abc" }, "expiry": 1800000000 }"#,
    );
    let mapped = cookie(&raw).unwrap();
    assert_eq!(mapped.expires.bits, 1_800_000_000.0_f64.to_bits());
    assert!(!mapped.session);

    let past = json(r#"{ "name": "SID", "value": { "value": "abc" }, "expiry": -5 }"#);
    assert_eq!(cookie(&past).unwrap().expires.bits, (-5.0_f64).to_bits());
}

#[test]
fn missing_attributes_take_their_defaults() {
    let raw = json(r#"{ "name": "SID", "value": { "value": "abc" } }"#);
    let mapped = cookie(&raw).unwrap();
    assert_eq!(mapped.value, "abc");
    assert_eq!(mapped.domain, "");
    assert_eq!(mapped.path, "/");
    assert_eq!(mapped.expires.bits, (-1.0_f64).to_bits());
    assert!(!mapped.http_only);
    assert!(!mapped.secure);
    assert!(mapped.session);
}

#[test]
fn attributes_of_another_kind_take_their_defaults() {
    let raw = json(
        r#"{
            "name": "SID", "value": { "type": 7, "value": "abc" }, "domain": 1, "path": null,
            "secure": "yes", "httpOnly": 1, "expiry": "soon"
        }"#,
    );
    let mapped = cookie(&raw).unwrap();
    assert_eq!(mapped.value, "abc");
    assert_eq!(mapped.domain, "");
    assert_eq!(mapped.path, "/");
    assert!(!mapped.secure);
    assert!(!mapped.http_only);
    assert!(mapped.session);
}

#[test]
fn base64_keeps_text_beyond_ascii() {
    let raw = json(r#"{ "name": "SID", "value": { "type": "base64", "value": "w6TigqzwnZSY" } }"#);
    assert_eq!(cookie(&raw).unwrap().value, "\u{e4}\u{20ac}\u{1d518}");
}

#[test]
fn names_what_is_wrong_with_a_cookie() {
    let nameless = json(r#"{ "value": { "value": "abc" } }"#);
    assert_eq!(malformed(cookie(&nameless).err().unwrap()), "cookie missing name");

    let valueless = json(r#"{ "name": "SID" }"#);
    assert_eq!(malformed(cookie(&valueless).err().unwrap()), "cookie `SID` missing value");

    let number = json(r#"{ "name": "SID", "value": { "type": "string", "value": 3 } }"#);
    assert_eq!(
        malformed(cookie(&number).err().unwrap()),
        "cookie `SID` value not a string"
    );

    let garbled = json(r#"{ "name": "SID", "value": { "type": "base64", "value": "!!!!" } }"#);
    assert_eq!(
        malformed(cookie(&garbled).err().unwrap()),
        "cookie `SID` base64 decode failed: Invalid symbol 33, offset 0."
    );
}

#[test]
fn names_the_encoding_it_refuses() {
    let weird = json(r#"{ "name": "SID", "value": { "type": "weird", "value": "x" } }"#);
    assert!(matches!(
        cookie(&weird),
        Err(Error::UnsupportedCookieEncoding { encoding }) if encoding == "weird"
    ));
    let bytes = json(r#"{ "name": "SID", "value": { "type": "base64", "value": "/w==" } }"#);
    assert!(matches!(
        cookie(&bytes),
        Err(Error::UnsupportedCookieEncoding { encoding }) if encoding == "base64 (non-utf8 bytes)"
    ));
}

#[test]
fn decoded_value_judges_what_decoding_gave() {
    assert_eq!(
        firefox::decoded_value("SID", Ok(vec![0xc3, 0xa4])).unwrap(),
        "\u{e4}"
    );
    assert_eq!(
        malformed(firefox::decoded_value("SID", Err("bad".to_owned())).err().unwrap()),
        "cookie `SID` base64 decode failed: bad"
    );
    assert!(matches!(
        firefox::decoded_value("SID", Ok(vec![0xff])),
        Err(Error::UnsupportedCookieEncoding { .. })
    ));
}

#[test]
fn a_read_lists_every_cookie_in_order() {
    let frame = json(
        r#"{ "type": "success", "id": 4, "result": { "cookies": [
            { "name": "a", "value": { "type": "string", "value": "1" } },
            { "name": "b", "value": { "type": "base64", "value": "Mg==" } }
        ] } }"#,
    );
    let cookies = firefox::listed_cookies(&frame).unwrap();
    let pairs: Vec<(&str, &str)> =
        cookies.iter().map(|c| (c.name.as_str(), c.value.as_str())).collect();
    assert_eq!(pairs, vec![("a", "1"), ("b", "2")]);
}

#[test]
fn a_read_fails_with_its_first_bad_cookie() {
    let frame = json(
        r#"{ "type": "success", "id": 4, "result": { "cookies": [
            { "name": "a", "value": { "type": "string", "value": "1" } },
            { "name": "b" },
            { "value": { "type": "string", "value": "1" } }
        ] } }"#,
    );
    assert_eq!(
        malformed(firefox::listed_cookies(&frame).err().unwrap()),
        "cookie `b` missing value"
    );
}

#[test]
fn a_read_without_a_list_is_empty() {
    for frame in [
        r#"{ "type": "success", "id": 4 }"#,
        r#"{ "type": "success", "id": 4, "result": {} }"#,
        r#"{ "type": "success", "id": 4, "result": { "cookies": "none" } }"#,
    ] {
        assert!(firefox::listed_cookies(&json(frame)).unwrap().is_empty());
    }
}

#[test]
fn a_call_succeeds_only_where_the_reply_says_so() {
    let success = json(r#"{ "type": "success", "id": 1, "result": { "x": 1 } }"#);
    assert_eq!(
        firefox::call_result("m", &success).unwrap(),
        json(r#"{ "x": 1 }"#)
    );
    let bare = json(r#"{ "type": "success", "id": 1 }"#);
    assert_eq!(firefox::call_result("m", &bare).unwrap(), Value::Null);

    for text in [r#"{"id":1,"type":"error"}"#, r#"{"id":1,"result":{}}"#] {
        match firefox::call_result("session.new", &json(text)) {
            Err(Error::Command { protocol, method, message }) => {
                assert_eq!(protocol, "bidi");
                assert_eq!(method, "session.new");
                assert_eq!(message, text);
            }
            _ => panic!("the reply reports no success"),
        }
    }
}

#[test]
fn opens_the_login_page_in_the_first_context() {
    let opening = firefox::connect("https://service.example/login");
    assert_eq!(
        json(opening.pending().message()),
        json(r#"{ "id": 1, "method": "session.new", "params": { "capabilities": {} } }"#)
    );
    let Connect::Calling(tree) = opening.resume(Ok(json(r#"{ "type": "success", "id": 1 }"#)))
    else {
        panic!("the contexts are read next");
    };
    assert_eq!(
        json(tree.pending().message()),
        json(r#"{ "id": 2, "method": "browsingContext.getTree", "params": {} }"#)
    );
    let contexts = r#"{ "type": "success", "id": 2, "result": { "contexts": [
        { "context": "first" }, { "context": "second" }
    ] } }"#;
    let Connect::Calling(navigation) = tree.resume(Ok(json(contexts))) else {
        panic!("the page is opened next");
    };
    assert_eq!(
        json(navigation.pending().message()),
        json(
            r#"{ "id": 3, "method": "browsingContext.navigate", "params": {
                "context": "first", "url": "https://service.example/login", "wait": "none"
            } }"#
        )
    );
    let Connect::Done(Ok(mut wire)) =
        navigation.resume(Ok(json(r#"{ "type": "success", "id": 3, "result": {} }"#)))
    else {
        panic!("the page is open");
    };
    assert_eq!(
        json(firefox::cookies(&mut wire).message()),
        json(r#"{ "id": 4, "method": "storage.getCookies", "params": {} }"#)
    );
}

#[test]
fn opening_fails_without_a_context() {
    for contexts in [
        r#"{ "type": "success", "id": 2, "result": { "contexts": [] } }"#,
        r#"{ "type": "success", "id": 2, "result": {} }"#,
        r#"{ "type": "success", "id": 2, "result": { "contexts": [ { "context": 5 } ] } }"#,
    ] {
        let Connect::Calling(tree) = firefox::connect("https://service.example/login")
            .resume(Ok(json(r#"{ "type": "success", "id": 1 }"#)))
        else {
            panic!("the contexts are read next");
        };
        match tree.resume(Ok(json(contexts))) {
            Connect::Done(Err(error)) => {
                assert_eq!(malformed(error), "no browsing context to navigate");
            }
            _ => panic!("there is no context"),
        }
    }
}

#[test]
fn a_reported_error_ends_opening() {
    let opening = firefox::connect("https://service.example/login");
    match opening.resume(Ok(json(r#"{"id":1,"type":"error"}"#))) {
        Connect::Done(Err(Error::Command { method, message, .. })) => {
            assert_eq!(method, "session.new");
            assert_eq!(message, r#"{"id":1,"type":"error"}"#);
        }
        _ => panic!("the session was refused"),
    }
}

#[test]
fn close_asks_the_browser_to_close() {
    let mut wire = Wire::connect();
    assert_eq!(
        json(firefox::close(&mut wire).message()),
        json(r#"{ "id": 1, "method": "browser.close", "params": {} }"#)
    );
}

#[test]
fn arguments_pin_the_port_and_the_profile() {
    let rendered: Vec<String> = firefox::arguments(41234)
        .into_iter()
        .map(|argument| match argument {
            Argument::Text(text) => text,
            Argument::ProfileDir => "<profile>".to_owned(),
        })
        .collect();
    assert_eq!(
        rendered,
        vec!["--remote-debugging-port", "41234", "--profile", "<profile>", "--no-remote"]
    );
}

#[test]
fn endpoint_is_fixed_but_for_the_port() {
    assert_eq!(firefox::ws_url(41234), "ws://127.0.0.1:41234/session");
    assert_eq!(firefox::ws_url(0), "ws://127.0.0.1:0/session");
}

#[test]
fn connecting_is_retried_until_the_timeout() {
    let timeout = Duration::from_secs(20);
    assert!(matches!(firefox::connect_failed(false, timeout), Retry::Pause { millis: 100 }));
    assert!(matches!(
        firefox::connect_failed(true, timeout),
        Retry::Failed(Error::EndpointTimeout(elapsed)) if elapsed == timeout
    ));
}
