//! Chrome: finding the endpoint, opening the login page, and what a reply means.
use cookie_snatch::chrome;
use cookie_snatch::chrome::Connect;
use cookie_snatch::chrome::Connecting;
use cookie_snatch::chrome::Endpoint;
use cookie_snatch::transport::Wire;
use cookie_snatch::Error;
use serde_json::Value;
use std::time::Duration;

fn json(text: &str) -> Value {
    serde_json::from_str(text).unwrap()
}

fn attaching() -> Connecting {
    let created = json(r#"{ "id": 1, "result": { "targetId": "T-1" } }"#);
    match chrome::connect("https://service.example/login").resume(Ok(created)) {
        Connect::Calling(attaching) => attaching,
        Connect::Done(_) => panic!("the target is attached to next"),
    }
}

#[test]
fn arguments_keep_to_the_throwaway_profile() {
    assert_eq!(
        chrome::arguments("/tmp/cookie-snatch-7"),
        vec![
            "--remote-debugging-port=0",
            "--user-data-dir=/tmp/cookie-snatch-7",
            "--no-first-run",
            "--no-default-browser-check",
            "about:blank",
        ]
    );
}

#[test]
fn port_file_names_the_endpoint() {
    assert_eq!(chrome::port_file(), "DevToolsActivePort");
    assert_eq!(
        chrome::ws_url("9222\n/devtools/browser/ab-cd"),
        Some("ws://127.0.0.1:9222/devtools/browser/ab-cd".to_owned())
    );
    assert_eq!(
        chrome::ws_url("9222\r\n/devtools/browser/ab-cd\r\nmore\n"),
        Some("ws://127.0.0.1:9222/devtools/browser/ab-cd".to_owned())
    );
    assert_eq!(chrome::ws_url("9222\n\n"), Some("ws://127.0.0.1:9222".to_owned()));
}

#[test]
fn half_written_port_file_names_no_endpoint() {
    assert_eq!(chrome::ws_url(""), None);
    assert_eq!(chrome::ws_url("9222"), None);
    assert_eq!(chrome::ws_url("9222\n"), None);
}

#[test]
fn endpoint_is_awaited_until_the_timeout() {
    let timeout = Duration::from_secs(20);
    assert!(matches!(
        chrome::await_endpoint(None, false, timeout),
        Endpoint::Pause { millis: 50 }
    ));
    assert!(matches!(
        chrome::await_endpoint(Some("9222"), false, timeout),
        Endpoint::Pause { millis: 50 }
    ));
    assert!(matches!(
        chrome::await_endpoint(None, true, timeout),
        Endpoint::Failed(Error::EndpointTimeout(elapsed)) if elapsed == timeout
    ));
    assert!(matches!(
        chrome::await_endpoint(Some("9222\n/x"), true, timeout),
        Endpoint::Ready(url) if url == "ws://127.0.0.1:9222/x"
    ));
}

#[test]
fn opens_the_login_page_in_an_attached_session() {
    let opening = chrome::connect("https://service.example/login");
    assert_eq!(
        json(opening.pending().message()),
        json(
            r#"{ "id": 1, "method": "Target.createTarget",
                 "params": { "url": "https://service.example/login" } }"#
        )
    );
    let attaching = attaching();
    assert_eq!(
        json(attaching.pending().message()),
        json(
            r#"{ "id": 2, "method": "Target.attachToTarget",
                 "params": { "targetId": "T-1", "flatten": true } }"#
        )
    );
    let attached = json(r#"{ "id": 2, "result": { "sessionId": "S-1" } }"#);
    let Connect::Calling(enabling) = attaching.resume(Ok(attached)) else {
        panic!("the network domain is enabled next");
    };
    assert_eq!(
        json(enabling.pending().message()),
        json(r#"{ "id": 3, "method": "Network.enable", "params": {}, "sessionId": "S-1" }"#)
    );
    let Connect::Done(Ok(connected)) = enabling.resume(Ok(json(r#"{ "id": 3 }"#))) else {
        panic!("the page is open");
    };
    let (mut wire, session_id) = connected.into_parts();
    assert_eq!(session_id, "S-1");
    assert_eq!(
        json(chrome::cookies(&mut wire, &session_id).message()),
        json(
            r#"{ "id": 4, "method": "Network.getAllCookies", "params": {}, "sessionId": "S-1" }"#
        )
    );
}

#[test]
fn opening_needs_the_ids_it_goes_on_with() {
    match chrome::connect("https://x.example").resume(Ok(json(r#"{ "id": 1, "result": {} }"#))) {
        Connect::Done(Err(Error::Malformed { protocol, detail })) => {
            assert_eq!(protocol, "cdp");
            assert_eq!(detail, "missing `targetId`");
        }
        _ => panic!("the target has no id"),
    }
    match attaching().resume(Ok(json(r#"{ "id": 2, "result": { "sessionId": 3 } }"#))) {
        Connect::Done(Err(Error::Malformed { detail, .. })) => {
            assert_eq!(detail, "missing `sessionId`");
        }
        _ => panic!("the session has no id"),
    }
}

#[test]
fn an_error_ends_opening_with_that_error() {
    match attaching().resume(Ok(json(r#"{ "id": 2, "error": { "code": -32000 } }"#))) {
        Connect::Done(Err(Error::Command { protocol, method, message })) => {
            assert_eq!(protocol, "cdp");
            assert_eq!(method, "Target.attachToTarget");
            assert_eq!(message, r#"{"code":-32000}"#);
        }
        _ => panic!("attaching was refused"),
    }
    assert!(matches!(
        attaching().resume(Err(Error::NoDefaultBrowser)),
        Connect::Done(Err(Error::NoDefaultBrowser))
    ));
}

#[test]
fn a_reply_without_a_result_gives_null() {
    assert_eq!(chrome::call_result("m", &json(r#"{ "id": 1 }"#)).unwrap(), Value::Null);
    assert!(matches!(
        chrome::call_result("m", &json(r#"{ "id": 1, "error": null }"#)),
        Err(Error::Command { message, .. }) if message == "null"
    ));
}

#[test]
fn required_text_is_taken_as_it_is() {
    let value = json(r#"{ "key": "a \"b\"", "other": 1 }"#);
    assert_eq!(chrome::as_str(&value, "key").unwrap(), "a \"b\"");
    assert!(chrome::as_str(&value, "other").is_err());
    assert!(chrome::as_str(&value, "none").is_err());
    assert!(chrome::as_str(&json("[]"), "key").is_err());
}

#[test]
fn a_read_hands_on_the_list_as_it_came() {
    let frame = json(r#"{ "id": 4, "result": { "cookies": [ { "name": "a" } ] } }"#);
    assert_eq!(chrome::listed_cookies(&frame).unwrap(), json(r#"[ { "name": "a" } ]"#));
    let empty = json(r#"{ "id": 4, "result": {} }"#);
    assert_eq!(chrome::listed_cookies(&empty).unwrap(), json("[]"));
    let refused = json(r#"{ "id": 4, "error": "no" }"#);
    assert!(matches!(
        chrome::listed_cookies(&refused),
        Err(Error::Command { method, .. }) if method == "Network.getAllCookies"
    ));
}

#[test]
fn closing_belongs_to_no_session() {
    let mut wire = Wire::connect();
    assert_eq!(
        json(chrome::close(&mut wire).message()),
        json(r#"{ "id": 1, "method": "Browser.close", "params": {} }"#)
    );
}

#[test]
fn first_look_that_shows_the_endpoint_decides() {
    let timeout = Duration::from_secs(20);
    let looks = [(None, false), (Some("9222"), false), (Some("9222\n/x"), true), (None, true)];
    let url = looks.iter().find_map(|(contents, elapsed)| {
        match chrome::await_endpoint(*contents, *elapsed, timeout) {
            Endpoint::Ready(url) => Some(url),
            Endpoint::Pause { .. } => None,
            Endpoint::Failed(error) => panic!("unexpected error {error:?}"),
        }
    });
    assert_eq!(url, Some("ws://127.0.0.1:9222/x".to_owned()));
}
