//! Numbered requests and their replies.
use cookie_snatch::transport::Incoming;
use cookie_snatch::transport::Pending;
use cookie_snatch::transport::Received;
use cookie_snatch::transport::Wire;
use cookie_snatch::transport::command;
use cookie_snatch::Error;
use serde_json::Value;

fn json(text: &str) -> Value {
    serde_json::from_str(text).unwrap()
}

fn text(text: &str) -> Incoming {
    Incoming::Text(text.to_owned())
}

fn no_params() -> Value {
    Value::Object(serde_json::Map::new())
}

/// Answers a request as a browser would: under the id that the request carries.
fn reply(pending: &Pending, result: &str) -> Value {
    let id = json(pending.message()).get("id").and_then(Value::as_u64).unwrap();
    match pending.receive(Incoming::Text(format!("{{\"id\":{id},\"result\":{result}}}"))) {
        Received::Reply(frame) => frame,
        _ => panic!("the reply carries the id of the request"),
    }
}

#[test]
fn request_skips_events_and_matches_id() {
    let mut wire = Wire::connect();
    let pending = wire.request(command("test.method", no_params(), None));
    assert!(matches!(
        pending.receive(text(r#"{ "method": "some.event" }"#)),
        Received::Skip
    ));
    let frame = reply(&pending, r#"{ "ok": true }"#);

    assert_eq!(frame.get("id").and_then(Value::as_u64), Some(1));
    assert_eq!(
        frame.pointer("/result/ok").and_then(Value::as_bool),
        Some(true)
    );
}

#[test]
fn request_ids_increase_monotonically() {
    let mut wire = Wire::connect();
    let request = wire.request(command("a", no_params(), None));
    let first = reply(&request, "{}");
    let request = wire.request(command("b", no_params(), None));
    let second = reply(&request, "{}");

    assert_eq!(first.get("id").and_then(Value::as_u64), Some(1));
    assert_eq!(second.get("id").and_then(Value::as_u64), Some(2));
}

#[test]
fn request_carries_the_command_and_its_id() {
    let mut wire = Wire::connect();
    let params = json(r#"{ "x": [1, "two", null, false, -3, 0.5] }"#);
    let pending = wire.request(command("m", params, Some(("sessionId", "S"))));
    assert_eq!(
        json(pending.message()),
        json(
            r#"{ "id": 1, "method": "m", "sessionId": "S",
                 "params": { "x": [1, "two", null, false, -3, 0.5] } }"#
        )
    );
    assert!(!wire.is_exhausted());
}

#[test]
fn request_overwrites_an_id_of_its_own() {
    let mut wire = Wire::connect();
    let mut object = command("m", no_params(), None);
    object.insert("id".to_owned(), Value::from("mine"));
    let pending = wire.request(object);
    assert_eq!(json(pending.message()).get("id").and_then(Value::as_u64), Some(1));
}

#[test]
fn extra_entry_may_replace_another() {
    let object = command("m", no_params(), Some(("params", "p")));
    assert_eq!(Value::Object(object), json(r#"{ "method": "m", "params": "p" }"#));
}

#[test]
fn other_ids_are_skipped() {
    let mut wire = Wire::connect();
    let _ = wire.request(command("a", no_params(), None));
    let pending = wire.request(command("b", no_params(), None));
    for unrelated in [
        r#"{ "id": 1 }"#,
        r#"{ "id": "2" }"#,
        r#"{ "id": 2.0 }"#,
        r#"{ "id": -2 }"#,
        r#"{ "id": null }"#,
        "[2]",
        "2",
    ] {
        assert!(matches!(pending.receive(text(unrelated)), Received::Skip));
    }
    assert!(matches!(pending.receive(Incoming::Other), Received::Skip));
    assert!(matches!(pending.receive(text(r#"{ "id": 2 }"#)), Received::Reply(_)));
}

#[test]
fn close_ends_the_wait() {
    let mut wire = Wire::connect();
    let pending = wire.request(command("a", no_params(), None));
    match pending.receive(Incoming::Close) {
        Received::Failed(Error::Malformed { protocol, detail }) => {
            assert_eq!(protocol, "ws");
            assert_eq!(detail, "connection closed by the browser");
        }
        _ => panic!("no reply can come"),
    }
}

#[test]
fn text_that_is_no_json_ends_the_wait() {
    let mut wire = Wire::connect();
    let pending = wire.request(command("a", no_params(), None));
    let expected = serde_json::from_str::<Value>("not json").unwrap_err().to_string();
    match pending.receive(text("not json")) {
        Received::Failed(Error::Malformed { protocol, detail }) => {
            assert_eq!(protocol, "ws");
            assert_eq!(detail, expected);
        }
        _ => panic!("the text is no frame"),
    }
}

#[test]
fn frames_are_judged_by_their_id_alone() {
    let mut wire = Wire::connect();
    let pending = wire.request(command("a", no_params(), None));
    assert!(matches!(
        pending.take_frame(Ok(json(r#"{ "id": 1, "error": {} }"#))),
        Received::Reply(_)
    ));
    assert!(matches!(pending.take_frame(Ok(json("{}"))), Received::Skip));
    assert!(matches!(
        pending.take_frame(Err("bad".to_owned())),
        Received::Failed(Error::Malformed { detail, .. }) if detail == "bad"
    ));
}
