//! Launching, waiting and tearing down.
use cookie_snatch::browser::DefaultBrowser;
use cookie_snatch::browser::Engine;
use cookie_snatch::chrome::Endpoint;
use cookie_snatch::discover::DefaultLookup;
use cookie_snatch::firefox::Argument;
use cookie_snatch::firefox::Retry;
use cookie_snatch::session::Abandon;
use cookie_snatch::session::Cleanup;
use cookie_snatch::session::Connect;
use cookie_snatch::session::CookieWatch;
use cookie_snatch::session::CookiesReply;
use cookie_snatch::session::Drive;
use cookie_snatch::session::Launch;
use cookie_snatch::session::LaunchOptions;
use cookie_snatch::session::Launches;
use cookie_snatch::session::Reach;
use cookie_snatch::session::Session;
use cookie_snatch::session::Watch;
use cookie_snatch::session::is_http_url;
use cookie_snatch::session::profile_name;
use cookie_snatch::Cookie;
use cookie_snatch::Error;
use cookie_snatch::UnixSeconds;
use cookie_snatch::default_browser;
use serde_json::Value;
use std::path::PathBuf;
use std::time::Duration;

const LOGIN: &str = "https://service.example/login";
const PROFILE: &str = "cookie-snatch-7-0";

fn json(text: &str) -> Value {
    serde_json::from_str(text).unwrap()
}

fn options(engine: Engine) -> LaunchOptions {
    let mut options = LaunchOptions::new(engine, LOGIN.to_owned());
    options.browser_path = Some(PathBuf::from("/opt/browser"));
    options
}

/// A launch of a browser that was started and is to be connected to.
fn started(engine: Engine) -> Connect {
    let mut launch = Session::launch(&options(engine));
    loop {
        launch = match launch {
            Launch::ReservePort(step) => step.resume(Ok(41234)),
            Launch::CreateProfile(step) => step.resume(PROFILE.to_owned(), Ok(())),
            Launch::Spawn(step) => step.resume(Ok(())),
            Launch::Connect(step) => return step,
            _ => panic!("the browser is started first"),
        };
    }
}

/// A launch that was connected, with these replies to its requests.
fn conversed(engine: Engine, replies: &[&str]) -> Launch {
    let mut launch = started(engine).resume(Ok(()));
    for reply in replies {
        launch = match launch {
            Launch::Open(step) => step.resume(Ok(json(reply))),
            _ => panic!("there is a request for each reply"),
        };
    }
    launch
}

const CHROME_REPLIES: [&str; 3] = [
    r#"{ "id": 1, "result": { "targetId": "T-1" } }"#,
    r#"{ "id": 2, "result": { "sessionId": "S-1" } }"#,
    r#"{ "id": 3, "result": {} }"#,
];

const FIREFOX_REPLIES: [&str; 3] = [
    r#"{ "type": "success", "id": 1, "result": {} }"#,
    r#"{ "type": "success", "id": 2, "result": { "contexts": [ { "context": "C" } ] } }"#,
    r#"{ "type": "success", "id": 3, "result": {} }"#,
];

fn chrome_session() -> Session {
    match conversed(Engine::Chrome, &CHROME_REPLIES) {
        Launch::Done(Ok(session)) => session,
        _ => panic!("the launch is over"),
    }
}

fn firefox_session() -> Session {
    match conversed(Engine::Firefox, &FIREFOX_REPLIES) {
        Launch::Done(Ok(session)) => session,
        _ => panic!("the launch is over"),
    }
}

fn broken() -> std::io::Error {
    std::io::Error::other("broken")
}

fn cookie(name: &str, value: &str) -> Cookie {
    Cookie {
        name: name.to_owned(),
        value: value.to_owned(),
        domain: "x.example".to_owned(),
        path: "/".to_owned(),
        expires: UnixSeconds::session(),
        http_only: true,
        secure: true,
        session: true,
    }
}

fn pause(watch: Watch) -> CookieWatch {
    match watch {
        Watch::Pause { watch, millis: 500 } => watch,
        _ => panic!("the wait goes on after a pause"),
    }
}

#[test]
fn only_web_urls_are_opened() {
    assert!(is_http_url("http://x"));
    assert!(is_http_url("https://x"));
    for url in ["", "http:/", "ftp://x", "HTTPS://x", " https://x", "httpss://x", "file:///http://"] {
        assert!(!is_http_url(url));
        let options = LaunchOptions::new(Engine::Chrome, url.to_owned());
        assert!(matches!(
            Session::launch(&options),
            Launch::Done(Err(Error::InvalidLoginUrl))
        ));
    }
}

#[test]
fn options_have_their_defaults() {
    let options = LaunchOptions::new(Engine::Firefox, LOGIN.to_owned());
    assert_eq!(options.engine, Engine::Firefox);
    assert_eq!(options.login_url, LOGIN);
    assert_eq!(options.startup_timeout, Duration::from_secs(20));
    assert_eq!(options.browser_path, None);

    let copy = options.clone();
    assert_eq!(copy.login_url, options.login_url);
    assert_eq!(copy.startup_timeout, options.startup_timeout);
}

#[test]
fn each_launch_has_a_profile_of_its_own() {
    assert_eq!(profile_name(7, 0), "cookie-snatch-7-0");
    assert_eq!(
        profile_name(4_294_967_295, 18_446_744_073_709_551_615),
        "cookie-snatch-4294967295-18446744073709551615"
    );
    let mut names = Vec::new();
    for process_id in [1, 11, 111] {
        for launch in [0, 1, 10, 11, 111] {
            names.push(profile_name(process_id, launch));
        }
    }
    for (i, name) in names.iter().enumerate() {
        assert!(!names[..i].contains(name));
    }
}

#[test]
fn no_name_is_handed_out_twice() {
    let mut launches = Launches::new();
    assert!(!launches.is_exhausted());
    assert_eq!(launches.next_profile(7), "cookie-snatch-7-0");
    assert_eq!(launches.next_profile(7), "cookie-snatch-7-1");
    assert_eq!(launches.next_profile(8), "cookie-snatch-8-2");
}

#[test]
fn sessions_of_one_process_keep_apart() {
    let mut launches = Launches::new();
    let mut launch = || {
        let Launch::CreateProfile(create) = Session::launch(&options(Engine::Chrome)) else {
            panic!("Chrome needs no port");
        };
        let mut launch = create.resume(launches.next_profile(7), Ok(()));
        let mut replies = CHROME_REPLIES.iter();
        loop {
            launch = match launch {
                Launch::Spawn(step) => step.resume(Ok(())),
                Launch::Connect(step) => step.resume(Ok(())),
                Launch::Open(step) => step.resume(Ok(json(replies.next().unwrap()))),
                Launch::Done(Ok(session)) => return session,
                _ => panic!("nothing fails"),
            };
        }
    };
    let (first, second) = (launch(), launch());
    assert_eq!(first.profile_name(), "cookie-snatch-7-0");
    assert_eq!(second.profile_name(), "cookie-snatch-7-1");
}

#[test]
fn arguments_are_those_of_the_engine() {
    for (engine, expected) in [
        (
            Engine::Chrome,
            vec![
                "--remote-debugging-port=0",
                "--user-data-dir=/tmp/p",
                "--no-first-run",
                "--no-default-browser-check",
                "about:blank",
            ],
        ),
        (
            Engine::Firefox,
            vec!["--remote-debugging-port", "41234", "--profile", "<dir>", "--no-remote"],
        ),
    ] {
        let mut launch = Session::launch(&options(engine));
        let spawn = loop {
            launch = match launch {
                Launch::ReservePort(step) => step.resume(Ok(41234)),
                Launch::CreateProfile(step) => step.resume(PROFILE.to_owned(), Ok(())),
                Launch::Spawn(step) => break step,
                _ => panic!("the browser is started first"),
            };
        };
        assert_eq!(spawn.profile, PROFILE);
        let rendered: Vec<String> = spawn
            .arguments("/tmp/p")
            .into_iter()
            .map(|argument| match argument {
                Argument::Text(text) => text,
                Argument::ProfileDir => "<dir>".to_owned(),
            })
            .collect();
        assert_eq!(rendered, expected);
    }
}

#[test]
fn taken_profile_is_tried_under_another_name() {
    let taken = || std::io::Error::from(std::io::ErrorKind::AlreadyExists);
    let Launch::CreateProfile(step) = Session::launch(&options(Engine::Chrome)) else {
        panic!("Chrome needs no port");
    };
    let Launch::CreateProfile(step) = step.resume(PROFILE.to_owned(), Err(taken())) else {
        panic!("another name is tried");
    };
    assert_eq!(step.program, PathBuf::from("/opt/browser"));
    let Launch::CreateProfile(step) = step.failed(taken(), true) else {
        panic!("another name is tried");
    };
    assert!(matches!(step.failed(taken(), false), Launch::Done(Err(Error::Io(_)))));
}

#[test]
fn explicit_path_is_launched_without_a_search() {
    match Session::launch(&options(Engine::Chrome)) {
        Launch::CreateProfile(step) => {
            assert_eq!(step.program, PathBuf::from("/opt/browser"));
            assert_eq!(step.drive, Drive::Chrome);
            assert_eq!(step.options.login_url, LOGIN);
        }
        _ => panic!("Chrome needs no port"),
    }
    let Launch::ReservePort(step) = Session::launch(&options(Engine::Firefox)) else {
        panic!("Firefox needs a port first");
    };
    assert_eq!(step.program, PathBuf::from("/opt/browser"));
    match step.resume(Ok(41234)) {
        Launch::CreateProfile(step) => assert_eq!(step.drive, Drive::Firefox { port: 41234 }),
        _ => panic!("the profile directory is created next"),
    }
}

#[test]
fn binary_is_searched_for_without_a_path() {
    let options = LaunchOptions::new(Engine::Chrome, LOGIN.to_owned());
    let Launch::Resolve(step) = Session::launch(&options) else {
        panic!("the binary is looked for");
    };
    match step.resume(Some(PathBuf::from("/opt/chrome"))) {
        Launch::CreateProfile(step) => assert_eq!(step.program, PathBuf::from("/opt/chrome")),
        _ => panic!("the override names the binary"),
    }

    let mut launch = Session::launch(&options);
    let mut questions = 0;
    while let Launch::Resolve(step) = launch {
        questions += 1;
        launch = step.resume(None);
    }
    assert!(matches!(
        launch,
        Launch::Done(Err(Error::BrowserNotFound { browser: "chrome", env_var: "CHROME" }))
    ));
    assert_eq!(questions, 26);
}

#[test]
fn failures_before_the_profile_leave_nothing() {
    let Launch::ReservePort(step) = Session::launch(&options(Engine::Firefox)) else {
        panic!("Firefox needs a port first");
    };
    assert!(matches!(step.resume(Err(broken())), Launch::Done(Err(Error::Io(_)))));
    let Launch::CreateProfile(step) = Session::launch(&options(Engine::Chrome)) else {
        panic!("Chrome needs no port");
    };
    assert!(matches!(
        step.resume(PROFILE.to_owned(), Err(broken())),
        Launch::Done(Err(Error::Io(_)))
    ));
}

#[test]
fn failed_start_removes_the_profile() {
    let Launch::CreateProfile(create) = Session::launch(&options(Engine::Chrome)) else {
        panic!("Chrome needs no port");
    };
    let Launch::Spawn(spawn) = create.resume(PROFILE.to_owned(), Ok(())) else {
        panic!("the browser is started next");
    };
    assert_eq!(spawn.program, PathBuf::from("/opt/browser"));
    let Launch::Abandon(abandon) = spawn.resume(Err(broken())) else {
        panic!("the profile directory is there");
    };
    assert_eq!(abandon.cleanup, Cleanup::RemoveProfile);
    assert_eq!(abandon.profile, PROFILE);
    assert!(matches!(abandon.resume(), Launch::Done(Err(Error::Launch(_)))));
}

#[test]
fn failed_connection_gives_everything_back() {
    let timeout = Duration::from_secs(20);
    let mut launch = started(Engine::Chrome).resume(Err(Error::EndpointTimeout(timeout)));
    let mut tasks = Vec::new();
    while let Launch::Abandon(abandon) = launch {
        tasks.push(abandon.cleanup);
        assert_eq!(abandon.profile, PROFILE);
        launch = abandon.resume();
    }
    assert_eq!(tasks, vec![Cleanup::Kill, Cleanup::Wait, Cleanup::RemoveProfile]);
    assert!(matches!(
        launch,
        Launch::Done(Err(Error::EndpointTimeout(elapsed))) if elapsed == timeout
    ));
}

#[test]
fn login_page_is_opened_in_the_protocol_of_the_engine() {
    let Launch::Open(chrome) = conversed(Engine::Chrome, &[]) else {
        panic!("the page is opened next");
    };
    assert_eq!(
        json(chrome.pending().message()),
        json(
            r#"{ "id": 1, "method": "Target.createTarget",
                 "params": { "url": "https://service.example/login" } }"#
        )
    );
    let Launch::Open(chrome) = conversed(Engine::Chrome, &CHROME_REPLIES[..2]) else {
        panic!("the network domain is enabled last");
    };
    assert_eq!(
        json(chrome.pending().message()),
        json(r#"{ "id": 3, "method": "Network.enable", "params": {}, "sessionId": "S-1" }"#)
    );
    let Launch::Open(firefox) = conversed(Engine::Firefox, &FIREFOX_REPLIES[..2]) else {
        panic!("the page is opened last");
    };
    assert_eq!(
        json(firefox.pending().message()),
        json(
            r#"{ "id": 3, "method": "browsingContext.navigate", "params": {
                "context": "C", "url": "https://service.example/login", "wait": "none"
            } }"#
        )
    );
}

#[test]
fn failed_conversation_gives_everything_back() {
    let refused = conversed(Engine::Chrome, &[r#"{ "id": 1, "error": "no" }"#]);
    assert!(matches!(
        refused,
        Launch::Abandon(Abandon { cleanup: Cleanup::Kill, error: Error::Command { .. }, .. })
    ));
    let Launch::Open(step) = conversed(Engine::Firefox, &FIREFOX_REPLIES[..1]) else {
        panic!("the contexts are read next");
    };
    assert!(matches!(
        step.resume(Err(Error::NoDefaultBrowser)),
        Launch::Abandon(Abandon { cleanup: Cleanup::Kill, error: Error::NoDefaultBrowser, .. })
    ));
}

#[test]
fn endpoint_is_reached_as_the_engine_demands() {
    let chrome = started(Engine::Chrome);
    assert!(matches!(chrome.reach(), Reach::PortFile("DevToolsActivePort")));
    assert!(matches!(chrome.looked(None, false), Endpoint::Pause { millis: 50 }));
    assert!(matches!(
        chrome.looked(Some("9222\n/x"), true),
        Endpoint::Ready(url) if url == "ws://127.0.0.1:9222/x"
    ));
    assert!(matches!(
        chrome.looked(None, true),
        Endpoint::Failed(Error::EndpointTimeout(timeout)) if timeout == Duration::from_secs(20)
    ));
    assert!(matches!(
        chrome.dial_failed(Error::NoDefaultBrowser, false),
        Retry::Failed(Error::NoDefaultBrowser)
    ));

    let firefox = started(Engine::Firefox);
    assert!(matches!(
        firefox.reach(),
        Reach::Dial(url) if url == "ws://127.0.0.1:41234/session"
    ));
    assert!(matches!(
        firefox.dial_failed(Error::NoDefaultBrowser, false),
        Retry::Pause { millis: 100 }
    ));
    assert!(matches!(
        firefox.dial_failed(Error::NoDefaultBrowser, true),
        Retry::Failed(Error::EndpointTimeout(timeout)) if timeout == Duration::from_secs(20)
    ));
}

#[test]
fn dropping_gives_everything_back() {
    assert_eq!(
        Session::teardown(),
        vec![Cleanup::Close, Cleanup::Kill, Cleanup::Wait, Cleanup::RemoveProfile]
    );
}

#[test]
fn default_browser_is_launched_where_it_can_be_driven() {
    let unsupported = DefaultBrowser::Unsupported { name: "Safari.app".to_owned() };
    assert!(matches!(
        Session::launch_default(unsupported, LOGIN.to_owned()),
        Launch::Done(Err(Error::UnsupportedDefaultBrowser { name })) if name == "Safari.app"
    ));
    assert!(matches!(
        Session::launch_default(DefaultBrowser::Unknown, LOGIN.to_owned()),
        Launch::Done(Err(Error::NoDefaultBrowser))
    ));

    let mut lookup = default_browser(Some("firefox.desktop".to_owned()));
    let supported = loop {
        match lookup {
            DefaultLookup::Asking(search) => {
                lookup = search.resume(Some(PathBuf::from("/opt/firefox")));
            }
            DefaultLookup::Done(default) => break default,
        }
    };
    match Session::launch_default(supported.clone(), LOGIN.to_owned()) {
        Launch::ReservePort(step) => {
            assert_eq!(step.program, PathBuf::from("/opt/firefox"));
            assert_eq!(step.options.engine, Engine::Firefox);
            assert_eq!(step.options.startup_timeout, Duration::from_secs(20));
            assert_eq!(step.options.browser_path, Some(PathBuf::from("/opt/firefox")));
        }
        _ => panic!("Firefox needs a port first"),
    }
    assert!(matches!(
        Session::launch_default(supported, "ftp://x".to_owned()),
        Launch::Done(Err(Error::InvalidLoginUrl))
    ));
}

#[test]
fn cookies_are_read_in_the_session() {
    let mut chrome = chrome_session();
    assert!(!chrome.is_exhausted());
    assert_eq!(
        json(chrome.cookies().message()),
        json(
            r#"{ "id": 4, "method": "Network.getAllCookies", "params": {}, "sessionId": "S-1" }"#
        )
    );
    assert_eq!(
        json(chrome.close().message()),
        json(r#"{ "id": 5, "method": "Browser.close", "params": {} }"#)
    );
    let mut firefox = firefox_session();
    assert_eq!(
        json(firefox.cookies().message()),
        json(r#"{ "id": 4, "method": "storage.getCookies", "params": {} }"#)
    );
    assert_eq!(
        json(firefox.close().message()),
        json(r#"{ "id": 5, "method": "browser.close", "params": {} }"#)
    );
}

#[test]
fn replies_are_read_by_the_protocol() {
    let frame = r#"{ "type": "success", "id": 1, "result": { "cookies": [
        { "name": "a", "value": { "type": "string", "value": "1" } }
    ] } }"#;
    match firefox_session().cookies_reply(Ok(json(frame))) {
        CookiesReply::Listed(cookies) => {
            assert_eq!(cookies.len(), 1);
            assert_eq!(cookies[0].value, "1");
        }
        _ => panic!("the reply lists a cookie"),
    }
    match chrome_session().cookies_reply(Ok(json(frame))) {
        CookiesReply::Encoded(list) => {
            assert_eq!(list.as_array().map(Vec::len), Some(1));
        }
        _ => panic!("the list is still to be decoded"),
    }
    assert!(matches!(
        chrome_session().cookies_reply(Ok(json(r#"{ "id": 1, "error": 1 }"#))),
        CookiesReply::Failed(Error::Command { protocol: "cdp", .. })
    ));
    assert!(matches!(
        firefox_session().cookies_reply(Ok(json(r#"{ "id": 1 }"#))),
        CookiesReply::Failed(Error::Command { protocol: "bidi", .. })
    ));
    assert!(matches!(
        chrome_session().cookies_reply(Err(Error::NoDefaultBrowser)),
        CookiesReply::Failed(Error::NoDefaultBrowser)
    ));
}

#[test]
fn decoding_errors_are_kept() {
    let error = serde_json::from_str::<Value>("[").unwrap_err();
    assert!(matches!(Session::decoded(Err(error)), Err(Error::DecodeCookies(_))));
    assert_eq!(Session::decoded(Ok(vec![cookie("a", "1")])).unwrap().len(), 1);
}

#[test]
fn one_read_never_captures() {
    let watch = Session::wait_for_cookie("sid", Duration::from_secs(120));
    let watch = pause(watch.observe(Ok(vec![cookie("sid", "1")]), false));
    match watch.observe(Ok(vec![cookie("sid", "1")]), false) {
        Watch::Captured(cookies) => assert_eq!(cookies[0].value, "1"),
        _ => panic!("two reads agree"),
    }
}

#[test]
fn interim_cookies_are_not_captured() {
    let watch = Session::wait_for_cookie("sid", Duration::from_secs(120));
    let watch = pause(watch.observe(Ok(vec![cookie("pre", "1")]), false));
    let watch = pause(watch.observe(Ok(vec![cookie("pre", "1")]), false));
    let watch = pause(watch.observe(Ok(vec![cookie("pre", "1"), cookie("sid", "1")]), false));
    let watch = pause(watch.observe(Ok(vec![cookie("pre", "1"), cookie("sid", "2")]), false));
    match watch.observe(Ok(vec![cookie("sid", "2"), cookie("pre", "1")]), false) {
        Watch::Captured(cookies) => {
            assert_eq!(cookies.len(), 2);
            assert_eq!(cookies[0].name, "sid");
        }
        _ => panic!("two reads agree, whatever their order"),
    }
}

#[test]
fn wait_ends_with_the_timeout() {
    let timeout = Duration::from_secs(120);
    let watch = Session::wait_for_cookie("sid", timeout);
    assert!(matches!(
        watch.observe(Ok(vec![]), true),
        Watch::Failed(Error::CookieTimeout { name, timeout: elapsed })
            if name == "sid" && elapsed == timeout
    ));
    let watch = Session::wait_for_cookie("sid", timeout);
    let watch = pause(watch.observe(Ok(vec![cookie("sid", "1")]), false));
    assert!(matches!(
        watch.observe(Ok(vec![cookie("sid", "1")]), true),
        Watch::Captured(_)
    ));
}

#[test]
fn wait_ends_with_the_error_of_a_read() {
    let watch = Session::wait_for_cookie("sid", Duration::from_secs(120));
    let watch = pause(watch.observe(Ok(vec![cookie("sid", "1")]), false));
    assert!(matches!(
        watch.observe(Err(Error::NoDefaultBrowser), true),
        Watch::Failed(Error::NoDefaultBrowser)
    ));
}
