//! What the errors say.
use cookie_snatch::Error;
use serde_json::Value;
use std::time::Duration;

fn message(error: Error) -> String {
    error.message().unwrap()
}

#[test]
fn messages_are_exact() {
    assert_eq!(
        message(Error::InvalidLoginUrl),
        "login url must start with http:// or https://"
    );
    assert_eq!(
        message(Error::BrowserNotFound { browser: "chrome", env_var: "CHROME" }),
        "chrome binary not found; set the CHROME env var or install it"
    );
    assert_eq!(
        message(Error::Launch(std::io::Error::other("x"))),
        "failed to launch the browser"
    );
    assert_eq!(
        message(Error::EndpointTimeout(Duration::from_millis(20_500))),
        "the browser debug endpoint did not come up within 20.5s"
    );
    assert_eq!(
        message(Error::Transport(tungstenite::Error::ConnectionClosed)),
        "websocket transport error"
    );
    assert_eq!(
        message(Error::Command {
            protocol: "cdp",
            method: "Network.enable".to_owned(),
            message: "no".to_owned(),
        }),
        "cdp command `Network.enable` failed: no"
    );
    assert_eq!(
        message(Error::Malformed { protocol: "ws", detail: "odd".to_owned() }),
        "malformed ws response: odd"
    );
    assert_eq!(
        message(Error::CookieTimeout {
            name: "sid".to_owned(),
            timeout: Duration::from_secs(120),
        }),
        "timed out after 120s waiting for cookie `sid`"
    );
    assert_eq!(
        message(Error::UnsupportedCookieEncoding { encoding: "weird".to_owned() }),
        "unsupported cookie value encoding `weird`"
    );
    assert_eq!(
        message(Error::DecodeCookies(serde_json::from_str::<Value>("[").unwrap_err())),
        "failed to decode cookies"
    );
    assert_eq!(
        message(Error::UnsupportedDefaultBrowser { name: "Safari.app".to_owned() }),
        "the default browser `Safari.app` is not supported for capture"
    );
    assert_eq!(message(Error::NoDefaultBrowser), "no default web browser is configured");
}

#[test]
fn io_errors_speak_for_themselves() {
    let error = Error::from(std::io::Error::other("disk full"));
    assert!(error.message().is_none());
    match error {
        Error::Io(source) => assert_eq!(source.to_string(), "disk full"),
        other => panic!("unexpected error {other:?}"),
    }
}

#[test]
fn rendered_timeout_is_taken_as_it_is() {
    let timeout = Duration::from_secs(1);
    assert_eq!(
        Error::EndpointTimeout(timeout).message_with("a while").unwrap(),
        "the browser debug endpoint did not come up within a while"
    );
    assert_eq!(
        Error::CookieTimeout { name: "sid".to_owned(), timeout }.message_with("2s").unwrap(),
        "timed out after 2s waiting for cookie `sid`"
    );
    assert_eq!(
        Error::NoDefaultBrowser.message_with("2s").unwrap(),
        "no default web browser is configured"
    );
}
