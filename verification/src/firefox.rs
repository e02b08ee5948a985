//! Driving Firefox over `WebDriver BiDi`.
use vstd::prelude::*;
use vstd::string::*;

use base64::engine::Engine as _;
use serde_json::Value;
use std::time::Duration;

use crate::browser::Engine;
use crate::cookie::Cookie;
use crate::cookie::CookieView;
use crate::cookie::UnixSeconds;
use crate::cookie::session_expiry;
use crate::discover;
use crate::discover::Answers;
use crate::discover::Find;
use crate::discover::binary_for;
use crate::error::Error;
use crate::error::ErrorView;
use crate::error::seen;
use crate::json;
use crate::json::Json;
use crate::json::no_params;
use crate::snapshot::views;
use crate::text;
use crate::transport;
use crate::transport::Pending;
use crate::transport::Wire;
use crate::transport::command_entries;
use crate::transport::frame_text;
use crate::transport::seen_json;

verus! {

/// How long to pause between two attempts to connect, in milliseconds.
pub const CONNECT_PAUSE_MILLIS: u64 = 100;

/// Look for the browser's binary: what `FIREFOX` points at, else an installed product.
pub fn find() -> (r: Find)
    ensures
        forall|answers: Answers| #[trigger]
            r.outcome(answers) == binary_for(Engine::Firefox, "FIREFOX"@, "firefox"@, answers),
{
    discover::find(Engine::Firefox, "FIREFOX", "firefox")
}

/// One argument of the browser.
pub enum Argument {
    /// This text.
    Text(String),
    /// The path of the profile directory.
    ProfileDir,
}

/// What an [`Argument`] holds.
pub enum ArgumentView {
    Text(Seq<char>),
    ProfileDir,
}

impl View for Argument {
    type V = ArgumentView;

    open spec fn view(&self) -> ArgumentView {
        match *self {
            Argument::Text(text) => ArgumentView::Text(text@),
            Argument::ProfileDir => ArgumentView::ProfileDir,
        }
    }
}

/// What each of a sequence of arguments holds.
pub open spec fn argument_views(arguments: Seq<Argument>) -> Seq<ArgumentView> {
    arguments.map_values(|argument: Argument| argument@)
}

/// The arguments of a browser whose remote agent listens on `port`.
pub open spec fn arguments_for(port: u16) -> Seq<ArgumentView> {
    seq![
        ArgumentView::Text("--remote-debugging-port"@),
        ArgumentView::Text(text::decimal(port as nat)),
        ArgumentView::Text("--profile"@),
        ArgumentView::ProfileDir,
        ArgumentView::Text("--no-remote"@),
    ]
}

/// The arguments of a browser whose remote agent listens on `port`.
pub fn arguments(port: u16) -> (r: Vec<Argument>)
    ensures
        argument_views(r@) =~= arguments_for(port),
{
    let mut arguments: Vec<Argument> = Vec::new();
    arguments.push(Argument::Text("--remote-debugging-port".to_owned()));
    arguments.push(Argument::Text(text::to_decimal(port as u64)));
    arguments.push(Argument::Text("--profile".to_owned()));
    arguments.push(Argument::ProfileDir);
    arguments.push(Argument::Text("--no-remote".to_owned()));
    arguments
}

// --- The endpoint. ----------------------------------------------------------------------------

/// The address of the remote agent on `port`; its path is fixed.
pub open spec fn endpoint(port: u16) -> Seq<char> {
    "ws://127.0.0.1:"@ + text::decimal(port as nat) + "/session"@
}

/// The address of the remote agent on `port`.
pub fn ws_url(port: u16) -> (r: String)
    ensures
        r@ == endpoint(port),
{
    let mut url: String = "ws://127.0.0.1:".to_owned();
    url.append(text::to_decimal(port as u64).as_str());
    url.append("/session");
    url
}

/// What to do after an attempt to connect that failed.
pub enum Retry {
    /// Try again after a pause.
    Pause {
        /// Length of the pause in milliseconds.
        millis: u64,
    },
    /// The remote agent did not come up in time.
    Failed(Error),
}

/// One attempt to connect: whether it succeeded, and whether the startup timeout had elapsed then.
pub struct Attempt {
    pub connected: bool,
    pub elapsed: bool,
}

/// What trying to connect comes to where these are the attempts: nothing yet, or the connection, or
/// the error that ends the attempts.
pub open spec fn attempted(timeout: Duration, attempts: Seq<Attempt>) -> Option<
    Result<(), ErrorView>,
>
    decreases attempts.len(),
{
    if attempts.len() == 0 {
        None
    } else if attempts[0].connected {
        Some(Ok(()))
    } else if attempts[0].elapsed {
        Some(Err(ErrorView::EndpointTimeout(timeout)))
    } else {
        attempted(timeout, attempts.drop_first())
    }
}

impl Retry {
    /// What trying to connect comes to where these are the attempts from here on.
    pub open spec fn outcome(self, timeout: Duration, attempts: Seq<Attempt>) -> Option<
        Result<(), ErrorView>,
    > {
        match self {
            Retry::Failed(error) => Some(Err(error@)),
            Retry::Pause { .. } => attempted(timeout, attempts),
        }
    }
}

/// Judge an attempt to connect that failed: the remote agent may not be listening yet.
pub fn connect_failed(elapsed: bool, timeout: Duration) -> (r: Retry)
    ensures
        match r {
            Retry::Pause { millis } => !elapsed && millis == CONNECT_PAUSE_MILLIS,
            Retry::Failed(error) => elapsed && error@ == ErrorView::EndpointTimeout(timeout),
        },
        forall|later: Seq<Attempt>| #[trigger]
            r.outcome(timeout, later) == attempted(
                timeout,
                seq![Attempt { connected: false, elapsed }] + later,
            ),
{
    proof {
        let now = Attempt { connected: false, elapsed };
        assert forall|later: Seq<Attempt>| (#[trigger] (seq![now] + later)).drop_first()
            == later by {
            assert((seq![now] + later).drop_first() =~= later);
        }
    }
    if elapsed {
        Retry::Failed(Error::EndpointTimeout(timeout))
    } else {
        Retry::Pause { millis: CONNECT_PAUSE_MILLIS }
    }
}

// --- Calls. -----------------------------------------------------------------------------------

/// The request of a call.
pub fn call(wire: &mut Wire, method: &str, params: Value) -> (r: Pending)
    requires
        old(wire).last_id() < u64::MAX,
    ensures
        final(wire).last_id() == old(wire).last_id() + 1,
        r.id() == final(wire).last_id(),
        r.text() == frame_text(command_entries(method@, json::content(params), None), r.id()),
{
    wire.request(transport::command(method, params, None))
}

/// What the reply to a call of `method` gives: its result where it reports success, and otherwise
/// the whole reply as an error.
pub open spec fn result_of(method: Seq<char>, frame: Json) -> Result<Json, ErrorView> {
    if frame.text_field("type"@) == Some("success"@) {
        Ok(
            match frame.field("result"@) {
                Some(result) => result,
                None => Json::Null,
            },
        )
    } else {
        Err(ErrorView::Command { protocol: "bidi"@, method, message: json::rendered(frame) })
    }
}

/// The result that the reply to a call of `method` carries.
pub fn call_result(method: &str, frame: &Value) -> (r: Result<Value, Error>)
    ensures
        seen_json(r) == result_of(method@, json::content(*frame)),
{
    let success: bool = match json::text_field(frame, "type") {
        Some(kind) => text::same_text(kind, "success"),
        None => false,
    };
    if success {
        match json::get(frame, "result") {
            Some(result) => Ok(result.clone()),
            None => Ok(json::null_value()),
        }
    } else {
        Err(
            Error::Command {
                protocol: "bidi",
                method: method.to_owned(),
                message: json::render(frame),
            },
        )
    }
}

// --- Opening the login page. ------------------------------------------------------------------

/// The first browsing context of a tree.
pub open spec fn first_context(tree: Json) -> Option<Seq<char>> {
    match tree.field("contexts"@) {
        Some(contexts) => match contexts.items() {
            Some(contexts) => if contexts.len() > 0 {
                contexts[0].text_field("context"@)
            } else {
                None
            },
            None => None,
        },
        None => None,
    }
}

fn find_context(tree: &Value) -> (r: Option<&str>)
    ensures
        match r {
            Some(context) => first_context(json::content(*tree)) == Some(context@),
            None => first_context(json::content(*tree)) is None,
        },
{
    match json::get(tree, "contexts") {
        Some(contexts) => match contexts.as_array() {
            Some(contexts) => if contexts.len() > 0 {
                json::text_field(&contexts[0], "context")
            } else {
                None
            },
            None => None,
        },
        None => None,
    }
}

/// The parameters that open `url` in a browsing context without waiting for it.
pub open spec fn navigate_params(context: Seq<char>, url: Seq<char>) -> Json {
    Json::Object(
        map![
            "context"@ => Json::Text(context),
            "url"@ => Json::Text(url),
            "wait"@ => Json::Text("none"@),
        ],
    )
}

/// The call that opens `login_url` in the first browsing context of `tree`: its parameters.
///
/// Unlike Chrome's `Target.createTarget`, `BiDi` does not take a URL at session creation, so the
/// navigation is driven explicitly.
pub fn navigate(tree: &Value, login_url: &str) -> (r: Result<Value, Error>)
    ensures
        seen_json(r) == navigation(json::content(*tree), login_url@),
{
    match find_context(tree) {
        Some(context) => {
            let mut params: serde_json::Map<String, Value> = json::empty_object();
            json::put(&mut params, "context", json::text_value(context));
            json::put(&mut params, "url", json::text_value(login_url));
            json::put(&mut params, "wait", json::text_value("none"));
            proof {
                assert(json::entries(params) =~= navigate_params(context@, login_url@)->Object_0);
            }
            Ok(json::object_value(params))
        },
        None => Err(
            Error::Malformed {
                protocol: "bidi",
                detail: "no browsing context to navigate".to_owned(),
            },
        ),
    }
}

/// The parameters that open `url` in the first browsing context of `tree`.
pub open spec fn navigation(tree: Json, url: Seq<char>) -> Result<Json, ErrorView> {
    match first_context(tree) {
        Some(context) => Ok(navigate_params(context, url)),
        None => Err(
            ErrorView::Malformed {
                protocol: "bidi"@,
                detail: "no browsing context to navigate"@,
            },
        ),
    }
}

/// How far opening the login page has come: the call in flight.
pub enum Stage {
    /// A session is being opened.
    NewSession,
    /// The browsing contexts are being read.
    GetTree,
    /// The login page is being opened.
    Navigate,
}

/// What follows the reply to a call.
pub enum StepView {
    /// Another call.
    Call { stage: Stage, method: Seq<char>, params: Json },
    /// The page is open.
    Connected,
}

impl Stage {
    /// The method of the call in flight.
    pub open spec fn method(self) -> Seq<char> {
        match self {
            Stage::NewSession => "session.new"@,
            Stage::GetTree => "browsingContext.getTree"@,
            Stage::Navigate => "browsingContext.navigate"@,
        }
    }

    /// What follows the reply `frame`, or the error in its place, where `login_url` is to be
    /// opened.
    pub open spec fn next(self, frame: Result<Json, ErrorView>, login_url: Seq<char>) -> Result<
        StepView,
        ErrorView,
    > {
        match frame {
            Err(error) => Err(error),
            Ok(frame) => match result_of(self.method(), frame) {
                Err(error) => Err(error),
                Ok(result) => match self {
                    Stage::NewSession => Ok(
                        StepView::Call {
                            stage: Stage::GetTree,
                            method: "browsingContext.getTree"@,
                            params: Json::Object(Map::empty()),
                        },
                    ),
                    Stage::GetTree => match navigation(result, login_url) {
                        Err(error) => Err(error),
                        Ok(params) => Ok(
                            StepView::Call {
                                stage: Stage::Navigate,
                                method: "browsingContext.navigate"@,
                                params,
                            },
                        ),
                    },
                    Stage::Navigate => Ok(StepView::Connected),
                },
            },
        }
    }
}

/// Opening the login page, with a call in flight.
pub struct Connecting {
    wire: Wire,
    stage: Stage,
    login_url: String,
    pending: Pending,
}

/// Where opening the login page stands.
pub enum Connect {
    /// A call is in flight.
    Calling(Connecting),
    /// It is over; where it succeeded, the request counter of the connection is left.
    Done(Result<Wire, Error>),
}

impl Connect {
    /// What follows a reply, where request `id` was the latest before it.
    pub open spec fn follows(
        self,
        step: Result<StepView, ErrorView>,
        id: u64,
        login_url: Seq<char>,
    ) -> bool {
        match step {
            Err(error) => self matches Connect::Done(Err(e)) && e@ == error,
            Ok(StepView::Connected) => self matches Connect::Done(Ok(wire)) && wire.last_id() == id,
            Ok(StepView::Call { stage, method, params }) => {
                &&& self matches Connect::Calling(connecting)
                &&& connecting.calls(stage, method, params, id, login_url)
            },
        }
    }
}

impl Connecting {
    /// The call in flight.
    pub closed spec fn stage(&self) -> Stage {
        self.stage
    }

    /// The page to open.
    pub closed spec fn login_url(&self) -> Seq<char> {
        self.login_url@
    }

    /// The number of the call in flight.
    pub closed spec fn id(&self) -> u64 {
        self.pending.id()
    }

    /// The message that carries the call in flight.
    pub closed spec fn text(&self) -> Seq<char> {
        self.pending.text()
    }

    /// Whether this call is in flight on the way to `login_url`, where request `id` was the latest
    /// before it.
    pub open spec fn calls(
        &self,
        stage: Stage,
        method: Seq<char>,
        params: Json,
        id: u64,
        login_url: Seq<char>,
    ) -> bool {
        &&& self.stage() == stage
        &&& self.login_url() == login_url
        &&& self.id() == id + 1
        &&& self.text() == frame_text(command_entries(method, params, None), (id + 1) as u64)
    }

    /// Whether this is the start of opening `login_url` over a fresh connection.
    pub open spec fn begins(&self, login_url: Seq<char>) -> bool {
        self.calls(
            Stage::NewSession,
            "session.new"@,
            Json::Object(map!["capabilities"@ => Json::Object(Map::empty())]),
            0,
            login_url,
        )
    }

    #[verifier::type_invariant]
    spec fn in_step(&self) -> bool {
        &&& self.wire.last_id() == self.pending.id()
        &&& self.pending.id() <= match self.stage {
            Stage::NewSession => 1u64,
            Stage::GetTree => 2u64,
            Stage::Navigate => 3u64,
        }
    }

    /// The request in flight.
    pub fn pending(&self) -> (r: &Pending)
        ensures
            r.id() == self.id(),
            r.text() == self.text(),
    {
        &self.pending
    }

    /// Go on with the reply to the call in flight, or with the error in its place.
    pub fn resume(self, frame: Result<Value, Error>) -> (r: Connect)
        ensures
            r.follows(
                self.stage().next(seen_json(frame), self.login_url()),
                self.id(),
                self.login_url(),
            ),
    {
        proof {
            use_type_invariant(&self);
        }
        let frame: Value = match frame {
            Ok(frame) => frame,
            Err(error) => {
                return Connect::Done(Err(error));
            },
        };
        let method: &'static str = match self.stage {
            Stage::NewSession => "session.new",
            Stage::GetTree => "browsingContext.getTree",
            Stage::Navigate => "browsingContext.navigate",
        };
        let result: Value = match call_result(method, &frame) {
            Ok(result) => result,
            Err(error) => {
                return Connect::Done(Err(error));
            },
        };
        let mut wire: Wire = self.wire;
        let login_url: String = self.login_url;
        match self.stage {
            Stage::NewSession => {
                let pending: Pending = call(&mut wire, "browsingContext.getTree", no_params());
                Connect::Calling(Connecting { wire, stage: Stage::GetTree, login_url, pending })
            },
            Stage::GetTree => {
                match navigate(&result, login_url.as_str()) {
                    Err(error) => Connect::Done(Err(error)),
                    Ok(params) => {
                        let pending: Pending = call(&mut wire, "browsingContext.navigate", params);
                        Connect::Calling(
                            Connecting { wire, stage: Stage::Navigate, login_url, pending },
                        )
                    },
                }
            },
            Stage::Navigate => Connect::Done(Ok(wire)),
        }
    }
}

/// Open the login page over a fresh connection: a session is opened, the browsing contexts are
/// read, and the first of them is sent to `login_url`.
pub fn connect(login_url: &str) -> (r: Connecting)
    ensures
        r.begins(login_url@),
{
    let mut wire: Wire = Wire::connect();
    let mut params: serde_json::Map<String, Value> = json::empty_object();
    json::put(&mut params, "capabilities", no_params());
    proof {
        assert(json::entries(params) =~= map!["capabilities"@ => Json::Object(Map::empty())]);
    }
    let pending: Pending = call(&mut wire, "session.new", json::object_value(params));
    Connecting { wire, stage: Stage::NewSession, login_url: login_url.to_owned(), pending }
}

// --- Cookies. ---------------------------------------------------------------------------------

/// What `base64` reads from a text in the standard alphabet with padding: the bytes, or the message
/// of the error.
pub uninterp spec fn base64_bytes(encoded: Seq<char>) -> Result<Seq<u8>, Seq<char>>;

/// `base64::engine::general_purpose::STANDARD.decode`: the bytes that a text encodes; the error as
/// its message.
#[verifier::external_body]
fn decode_base64(encoded: &str) -> (r: Result<Vec<u8>, String>)
    ensures
        match r {
            Ok(bytes) => base64_bytes(encoded@) == Ok::<Seq<u8>, Seq<char>>(bytes@),
            Err(message) => base64_bytes(encoded@) == Err::<Seq<u8>, Seq<char>>(message@),
        },
{
    base64::engine::general_purpose::STANDARD.decode(encoded).map_err(|e| e.to_string())
}

/// A response of the wrong shape.
pub open spec fn malformed(detail: Seq<char>) -> ErrorView {
    ErrorView::Malformed { protocol: "bidi"@, detail }
}

/// What is wrong with the cookie `name`.
pub open spec fn about(name: Seq<char>, problem: Seq<char>) -> Seq<char> {
    "cookie `"@ + name + "` "@ + problem
}

fn malformed_cookie(name: &str, problem: &str) -> (r: Error)
    ensures
        r@ == malformed(about(name@, problem@)),
{
    let mut detail: String = "cookie `".to_owned();
    detail.append(name);
    detail.append("` ");
    detail.append(problem);
    Error::Malformed { protocol: "bidi", detail }
}

/// The value of the cookie `name` that was sent in `base64`, from what decoding gave. Bytes that
/// are no UTF-8 are refused rather than mangled.
pub open spec fn bytes_value(name: Seq<char>, decoded: Result<Seq<u8>, Seq<char>>) -> Result<
    Seq<char>,
    ErrorView,
> {
    match decoded {
        Err(message) => Err(malformed(about(name, "base64 decode failed: "@ + message))),
        Ok(bytes) => if vstd::utf8::valid_utf8(bytes) {
            Ok(vstd::utf8::decode_utf8(bytes))
        } else {
            Err(
                ErrorView::UnsupportedCookieEncoding { encoding: "base64 (non-utf8 bytes)"@ },
            )
        },
    }
}

/// The value of the cookie `name` that was sent in `base64`, from what decoding gave: the bytes, or
/// the message of the error.
pub fn decoded_value(name: &str, decoded: Result<Vec<u8>, String>) -> (r: Result<String, Error>)
    ensures
        seen(r) == bytes_value(
            name@,
            match decoded {
                Ok(bytes) => Ok(bytes@),
                Err(message) => Err(message@),
            },
        ),
{
    match decoded {
        Err(message) => {
            let mut problem: String = "base64 decode failed: ".to_owned();
            problem.append(message.as_str());
            Err(malformed_cookie(name, problem.as_str()))
        },
        Ok(bytes) => match text::from_utf8(bytes) {
            Some(value) => Ok(value),
            None => Err(
                Error::UnsupportedCookieEncoding {
                    encoding: "base64 (non-utf8 bytes)".to_owned(),
                },
            ),
        },
    }
}

/// The value of the cookie `name`, from the encoding tag and the encoded text.
pub open spec fn value_of(name: Seq<char>, encoding: Seq<char>, encoded: Seq<char>) -> Result<
    Seq<char>,
    ErrorView,
> {
    if encoding == "string"@ {
        Ok(encoded)
    } else if encoding == "base64"@ {
        bytes_value(name, base64_bytes(encoded))
    } else {
        Err(ErrorView::UnsupportedCookieEncoding { encoding })
    }
}

fn value(name: &str, encoding: &str, encoded: &str) -> (r: Result<String, Error>)
    ensures
        seen(r) == value_of(name@, encoding@, encoded@),
{
    if text::same_text(encoding, "string") {
        Ok(encoded.to_owned())
    } else if text::same_text(encoding, "base64") {
        decoded_value(name, decode_base64(encoded))
    } else {
        Err(Error::UnsupportedCookieEncoding { encoding: encoding.to_owned() })
    }
}

/// The cookie that one `BiDi` cookie stands for. Its value is a `BytesValue`, an object with the
/// encoding under `type` and the encoded text under `value`.
pub open spec fn cookie_of(raw: Json) -> Result<CookieView, ErrorView> {
    match raw.text_field("name"@) {
        None => Err(malformed("cookie missing name"@)),
        Some(name) => match raw.field("value"@) {
            None => Err(malformed(about(name, "missing value"@))),
            Some(bytes) => match bytes.text_field("value"@) {
                None => Err(malformed(about(name, "value not a string"@))),
                Some(encoded) => match value_of(
                    name,
                    or_text(bytes.text_field("type"@), "string"@),
                    encoded,
                ) {
                    Err(error) => Err(error),
                    Ok(value) => Ok(with_attributes(name, value, raw)),
                },
            },
        },
    }
}

/// The text, or `default` where there is none.
pub open spec fn or_text(text: Option<Seq<char>>, default: Seq<char>) -> Seq<char> {
    match text {
        Some(text) => text,
        None => default,
    }
}

/// The cookie `name` with the attributes that `raw` gives it. Those that are missing or of another
/// kind take their defaults.
pub open spec fn with_attributes(name: Seq<char>, value: Seq<char>, raw: Json) -> CookieView {
    let expiry = match raw.field("expiry"@) {
        Some(expiry) => expiry.double(),
        None => None,
    };
    CookieView {
        name,
        value,
        domain: or_text(raw.text_field("domain"@), ""@),
        path: or_text(raw.text_field("path"@), "/"@),
        expires: match expiry {
            Some(bits) => UnixSeconds { bits },
            None => session_expiry(),
        },
        http_only: raw.flag_field("httpOnly"@) == Some(true),
        secure: raw.flag_field("secure"@) == Some(true),
        session: expiry is None,
    }
}

/// Map one `BiDi` cookie (whose value is a `{ type, value }` `BytesValue`) into our shape.
pub fn cookie(raw: &Value) -> (r: Result<Cookie, Error>)
    ensures
        seen(r) == cookie_of(json::content(*raw)),
        r matches Ok(cookie) ==> {
            &&& json::content(*raw).field("name"@) == Some(Json::Text(cookie.name@))
            &&& cookie.http_only == (json::content(*raw).field("httpOnly"@) == Some(
                Json::Bool(true),
            ))
            &&& cookie.secure == (json::content(*raw).field("secure"@) == Some(Json::Bool(true)))
        },
        r matches Ok(cookie) ==> cookie.expires.is_finite(),
        match (r, json::content(*raw).field("expiry"@)) {
            (Ok(cookie), Some(Json::Number(json::JsonNumber::Double(bits)))) => cookie.expires.bits
                == bits,
            _ => true,
        },
{
    let name: &str = match json::text_field(raw, "name") {
        Some(name) => name,
        None => {
            return Err(
                Error::Malformed { protocol: "bidi", detail: "cookie missing name".to_owned() },
            );
        },
    };
    let bytes: &Value = match json::get(raw, "value") {
        Some(bytes) => bytes,
        None => {
            return Err(malformed_cookie(name, "missing value"));
        },
    };
    let encoding: &str = match json::text_field(bytes, "type") {
        Some(encoding) => encoding,
        None => "string",
    };
    let encoded: &str = match json::text_field(bytes, "value") {
        Some(encoded) => encoded,
        None => {
            return Err(malformed_cookie(name, "value not a string"));
        },
    };
    let value: String = match value(name, encoding, encoded) {
        Ok(value) => value,
        Err(error) => {
            return Err(error);
        },
    };
    let expiry: Option<u64> = match json::get(raw, "expiry") {
        Some(expiry) => json::as_double(expiry),
        None => None,
    };
    let domain: &str = match json::text_field(raw, "domain") {
        Some(domain) => domain,
        None => "",
    };
    let path: &str = match json::text_field(raw, "path") {
        Some(path) => path,
        None => "/",
    };
    Ok(
        Cookie {
            name: name.to_owned(),
            value,
            domain: domain.to_owned(),
            path: path.to_owned(),
            expires: match expiry {
                Some(bits) => UnixSeconds { bits },
                None => UnixSeconds::session(),
            },
            http_only: json::flag_field(raw, "httpOnly") == Some(true),
            secure: json::flag_field(raw, "secure") == Some(true),
            session: expiry.is_none(),
        },
    )
}

/// The request that reads the cookies.
pub fn cookies(wire: &mut Wire) -> (r: Pending)
    requires
        old(wire).last_id() < u64::MAX,
    ensures
        final(wire).last_id() == old(wire).last_id() + 1,
        r.id() == final(wire).last_id(),
        r.text() == frame_text(
            command_entries("storage.getCookies"@, Json::Object(Map::empty()), None),
            r.id(),
        ),
{
    call(wire, "storage.getCookies", no_params())
}

/// The raw cookies that a read gave: none where it names none.
pub open spec fn listed(result: Json) -> Seq<Json> {
    match result.field("cookies"@) {
        Some(cookies) => match cookies.items() {
            Some(items) => items,
            None => Seq::empty(),
        },
        None => Seq::empty(),
    }
}

/// The cookies that raw cookies stand for, or the error of the first that stands for none.
pub open spec fn cookies_of(raw: Seq<Json>) -> Result<Seq<CookieView>, ErrorView>
    decreases raw.len(),
{
    if raw.len() == 0 {
        Ok(Seq::empty())
    } else {
        match cookies_of(raw.drop_last()) {
            Err(error) => Err(error),
            Ok(cookies) => match cookie_of(raw.last()) {
                Err(error) => Err(error),
                Ok(cookie) => Ok(cookies.push(cookie)),
            },
        }
    }
}

/// The cookies that the reply to a read carries.
pub open spec fn cookie_list(frame: Json) -> Result<Seq<CookieView>, ErrorView> {
    match result_of("storage.getCookies"@, frame) {
        Err(error) => Err(error),
        Ok(result) => cookies_of(listed(result)),
    }
}

/// What decoding a list of cookies gave.
pub open spec fn seen_cookies(result: Result<Vec<Cookie>, Error>) -> Result<
    Seq<CookieView>,
    ErrorView,
> {
    match result {
        Ok(cookies) => Ok(views(cookies@)),
        Err(error) => Err(error@),
    }
}

proof fn lemma_cookies_of_prefix(raw: Seq<Json>, n: int)
    requires
        0 <= n <= raw.len(),
        cookies_of(raw.take(n)) is Err,
    ensures
        cookies_of(raw) == cookies_of(raw.take(n)),
    decreases raw.len() - n,
{
    if n < raw.len() {
        assert(raw.take(n + 1).drop_last() =~= raw.take(n));
        lemma_cookies_of_prefix(raw, n + 1);
    } else {
        assert(raw.take(n) =~= raw);
    }
}

fn decode_cookies(raw: &Vec<Value>) -> (r: Result<Vec<Cookie>, Error>)
    ensures
        seen_cookies(r) == cookies_of(json::contents(raw@)),
        r matches Ok(cookies) ==> forall|i: int|
            0 <= i < cookies@.len() ==> (#[trigger] cookies@[i]).expires.is_finite(),
{
    let ghost listed = json::contents(raw@);
    let mut cookies: Vec<Cookie> = Vec::new();
    let mut i: usize = 0;
    proof {
        assert(views(cookies@) =~= Seq::<CookieView>::empty());
    }
    while i < raw.len()
        invariant
            i <= raw.len(),
            listed == json::contents(raw@),
            cookies_of(listed.take(i as int)) == Ok::<Seq<CookieView>, ErrorView>(views(cookies@)),
            forall|k: int|
                0 <= k < cookies@.len() ==> (#[trigger] cookies@[k]).expires.is_finite(),
        decreases raw.len() - i,
    {
        let ghost before = views(cookies@);
        proof {
            assert(listed.take(i + 1).drop_last() =~= listed.take(i as int));
            assert(listed.take(i + 1).last() == json::content(raw@[i as int]));
        }
        match cookie(&raw[i]) {
            Ok(cookie) => {
                let ghost added = cookie@;
                cookies.push(cookie);
                proof {
                    assert(views(cookies@) =~= before.push(added));
                }
            },
            Err(error) => {
                proof {
                    lemma_cookies_of_prefix(listed, i + 1);
                }
                return Err(error);
            },
        }
        i += 1;
    }
    proof {
        assert(listed.take(i as int) =~= listed);
    }
    Ok(cookies)
}

/// The cookies that the reply to a read carries.
pub fn listed_cookies(frame: &Value) -> (r: Result<Vec<Cookie>, Error>)
    ensures
        seen_cookies(r) == cookie_list(json::content(*frame)),
        r matches Ok(cookies) ==> forall|i: int|
            0 <= i < cookies@.len() ==> (#[trigger] cookies@[i]).expires.is_finite(),
{
    let result: Value = match call_result("storage.getCookies", frame) {
        Ok(result) => result,
        Err(error) => {
            return Err(error);
        },
    };
    let none: Vec<Value> = Vec::new();
    proof {
        assert(json::contents(none@) =~= Seq::<Json>::empty());
    }
    match json::get(&result, "cookies") {
        Some(cookies) => match cookies.as_array() {
            Some(items) => decode_cookies(items),
            None => decode_cookies(&none),
        },
        None => decode_cookies(&none),
    }
}

/// The request that closes the browser.
pub fn close(wire: &mut Wire) -> (r: Pending)
    requires
        old(wire).last_id() < u64::MAX,
    ensures
        final(wire).last_id() == old(wire).last_id() + 1,
        r.id() == final(wire).last_id(),
        r.text() == frame_text(
            command_entries("browser.close"@, Json::Object(Map::empty()), None),
            r.id(),
        ),
{
    call(wire, "browser.close", no_params())
}

// --- Laws of the endpoint. --------------------------------------------------------------------

/// The first attempt that succeeds decides, where the timeout had not elapsed before it. At that
/// attempt itself it may have.
pub proof fn lemma_first_connection_decides(timeout: Duration, attempts: Seq<Attempt>, at: int)
    requires
        0 <= at < attempts.len(),
        attempts[at].connected,
        forall|i: int|
            0 <= i < at ==> !(#[trigger] attempts[i]).connected && !attempts[i].elapsed,
    ensures
        attempted(timeout, attempts) == Some(Ok::<(), ErrorView>(())),
    decreases at,
{
    if at > 0 {
        let rest = attempts.drop_first();
        assert(!attempts[0].connected && !attempts[0].elapsed);
        assert forall|i: int| 0 <= i < at - 1 implies !(#[trigger] rest[i]).connected
            && !rest[i].elapsed by {
            assert(!attempts[i + 1].connected && !attempts[i + 1].elapsed);
        }
        lemma_first_connection_decides(timeout, rest, at - 1);
    }
}

/// The attempts end with an error only at one at which the timeout had elapsed, where it and all
/// before it failed; the error is then that of the timeout.
pub proof fn lemma_connecting_fails_only_by_timeout(timeout: Duration, attempts: Seq<Attempt>)
    ensures
        attempted(timeout, attempts) matches Some(Err(error)) ==> {
            &&& error == ErrorView::EndpointTimeout(timeout)
            &&& exists|i: int|
                0 <= i < attempts.len() && (#[trigger] attempts[i]).elapsed && forall|j: int|
                    0 <= j <= i ==> !(#[trigger] attempts[j]).connected
        },
    decreases attempts.len(),
{
    if attempts.len() > 0 && !attempts[0].connected {
        if attempts[0].elapsed {
            assert(forall|j: int| 0 <= j <= 0 ==> !(#[trigger] attempts[j]).connected);
        } else {
            let rest = attempts.drop_first();
            lemma_connecting_fails_only_by_timeout(timeout, rest);
            if attempted(timeout, attempts) matches Some(Err(_)) {
                let i = choose|i: int|
                    0 <= i < rest.len() && (#[trigger] rest[i]).elapsed && forall|j: int|
                        0 <= j <= i ==> !(#[trigger] rest[j]).connected;
                assert(attempts[i + 1].elapsed);
                assert forall|j: int| 0 <= j <= i + 1 implies !(
                #[trigger] attempts[j]).connected by {
                    if j > 0 {
                        assert(!rest[j - 1].connected);
                    }
                }
            }
        }
    }
}

// --- Laws of opening the login page and of cookies. -------------------------------------------

/// What opening the login page comes to from a stage on, where these are the replies to its calls:
/// nothing yet, or that it is open, or the error that ends it.
pub open spec fn opened(
    stage: Stage,
    login_url: Seq<char>,
    replies: Seq<Result<Json, ErrorView>>,
) -> Option<Result<(), ErrorView>>
    decreases replies.len(),
{
    if replies.len() == 0 {
        None
    } else {
        match stage.next(replies[0], login_url) {
            Err(error) => Some(Err(error)),
            Ok(StepView::Connected) => Some(Ok(())),
            Ok(StepView::Call { stage: next, .. }) => opened(
                next,
                login_url,
                replies.drop_first(),
            ),
        }
    }
}

/// Where the browser opens a session, lists its browsing contexts and navigates, the login page is
/// open, and it is the first context that was sent to it.
pub proof fn lemma_opened_in_first_context(
    session: Json,
    tree: Json,
    navigated: Json,
    context: Seq<char>,
    login_url: Seq<char>,
)
    requires
        result_of("session.new"@, session) is Ok,
        result_of("browsingContext.getTree"@, tree) matches Ok(result) && first_context(result)
            == Some(context),
        result_of("browsingContext.navigate"@, navigated) is Ok,
    ensures
        opened(
            Stage::NewSession,
            login_url,
            seq![
                Ok::<Json, ErrorView>(session),
                Ok::<Json, ErrorView>(tree),
                Ok::<Json, ErrorView>(navigated),
            ],
        ) == Some(Ok::<(), ErrorView>(())),
        Stage::GetTree.next(Ok(tree), login_url) matches Ok(StepView::Call { params, .. })
            && params == navigate_params(context, login_url),
{
    reveal_with_fuel(opened, 4);
    let replies = seq![
        Ok::<Json, ErrorView>(session),
        Ok::<Json, ErrorView>(tree),
        Ok::<Json, ErrorView>(navigated),
    ];
    assert(replies.drop_first() =~= seq![
        Ok::<Json, ErrorView>(tree),
        Ok::<Json, ErrorView>(navigated),
    ]);
    assert(replies.drop_first().drop_first() =~= seq![Ok::<Json, ErrorView>(navigated)]);
}

/// A value is never mangled: one sent as a string is taken as it is, one sent in `base64` is the
/// text whose UTF-8 bytes were encoded, and bytes that are no UTF-8 are refused.
pub proof fn lemma_value_is_not_mangled(
    name: Seq<char>,
    encoding: Seq<char>,
    encoded: Seq<char>,
)
    ensures
        encoding == "string"@ ==> value_of(name, encoding, encoded) == Ok::<
            Seq<char>,
            ErrorView,
        >(encoded),
        encoding == "base64"@ ==> (match (
            value_of(name, encoding, encoded),
            base64_bytes(encoded),
        ) {
            (Ok(value), Ok(bytes)) => vstd::utf8::encode_utf8(value) == bytes,
            (Ok(_), Err(_)) => false,
            (Err(error), Ok(bytes)) => {
                &&& !vstd::utf8::valid_utf8(bytes)
                &&& error is UnsupportedCookieEncoding
            },
            (Err(error), Err(_)) => error is Malformed,
        }),
        encoding != "string"@ && encoding != "base64"@ ==> value_of(name, encoding, encoded)
            == Err::<Seq<char>, ErrorView>(ErrorView::UnsupportedCookieEncoding { encoding }),
{
    reveal_strlit("string");
    reveal_strlit("base64");
    assert("string"@[0] != "base64"@[0]);
    if encoding == "base64"@ {
        if let Ok(bytes) = base64_bytes(encoded) {
            if vstd::utf8::valid_utf8(bytes) {
                vstd::utf8::decode_utf8_encode_utf8(bytes);
            }
        }
    }
}

/// A cookie is a session cookie exactly where it came without a numeric expiry, and then its expiry
/// is minus one.
pub proof fn lemma_session_means_no_expiry(raw: Json)
    ensures
        cookie_of(raw) matches Ok(cookie) ==> {
            &&& cookie.session <==> !(raw.field("expiry"@) matches Some(expiry)
                && expiry is Number)
            &&& cookie.session ==> cookie.expires == session_expiry()
        },
{
}

/// A read gives every cookie that was listed, in order, or fails with the error of the first that
/// cannot be taken: none is left out in silence.
pub proof fn lemma_read_is_all_or_nothing(raw: Seq<Json>)
    ensures
        match cookies_of(raw) {
            Ok(cookies) => {
                &&& cookies.len() == raw.len()
                &&& forall|i: int|
                    0 <= i < raw.len() ==> cookie_of(#[trigger] raw[i]) == Ok::<
                        CookieView,
                        ErrorView,
                    >(cookies[i])
            },
            Err(error) => exists|i: int|
                0 <= i < raw.len() && cookie_of(#[trigger] raw[i]) == Err::<CookieView, ErrorView>(
                    error,
                ) && forall|j: int| 0 <= j < i ==> cookie_of(#[trigger] raw[j]) is Ok,
        },
    decreases raw.len(),
{
    if raw.len() > 0 {
        let front = raw.drop_last();
        lemma_read_is_all_or_nothing(front);
        match cookies_of(front) {
            Ok(cookies) => {
                assert forall|j: int| 0 <= j < front.len() implies cookie_of(
                    #[trigger] raw[j],
                ) == Ok::<CookieView, ErrorView>(cookies[j]) by {
                    assert(cookie_of(front[j]) == Ok::<CookieView, ErrorView>(cookies[j]));
                }
                assert(cookie_of(raw.last()) == cookie_of(raw[raw.len() - 1]));
            },
            Err(error) => {
                let i = choose|i: int|
                    0 <= i < front.len() && cookie_of(#[trigger] front[i]) == Err::<
                        CookieView,
                        ErrorView,
                    >(error) && forall|j: int| 0 <= j < i ==> cookie_of(#[trigger] front[j]) is Ok;
                assert(cookie_of(raw[i]) == Err::<CookieView, ErrorView>(error));
                assert forall|j: int| 0 <= j < i implies cookie_of(#[trigger] raw[j]) is Ok by {
                    assert(cookie_of(front[j]) is Ok);
                }
            },
        }
    }
}

/// The flags of a cookie are those it was sent with: each is set exactly where the entry of its own
/// name is the boolean `true`.
pub proof fn lemma_flags_are_those_sent(raw: Map<Seq<char>, Json>)
    ensures
        cookie_of(Json::Object(raw)) matches Ok(cookie) ==> {
            &&& cookie.http_only <==> raw.contains_key("httpOnly"@) && raw["httpOnly"@]
                == Json::Bool(true)
            &&& cookie.secure <==> raw.contains_key("secure"@) && raw["secure"@] == Json::Bool(
                true,
            )
        },
{
}

/// Changing one flag of what was sent changes that flag of the cookie and nothing else.
pub proof fn lemma_flags_are_independent(raw: Map<Seq<char>, Json>, flag: bool)
    requires
        cookie_of(Json::Object(raw)) is Ok,
    ensures
        cookie_of(Json::Object(raw.insert("httpOnly"@, Json::Bool(flag)))) == Ok::<
            CookieView,
            ErrorView,
        >((CookieView { http_only: flag, ..cookie_of(Json::Object(raw))->Ok_0 })),
        cookie_of(Json::Object(raw.insert("secure"@, Json::Bool(flag)))) == Ok::<
            CookieView,
            ErrorView,
        >((CookieView { secure: flag, ..cookie_of(Json::Object(raw))->Ok_0 })),
{
    reveal_strlit("httpOnly");
    reveal_strlit("secure");
    reveal_strlit("name");
    reveal_strlit("value");
    reveal_strlit("domain");
    reveal_strlit("path");
    reveal_strlit("expiry");
    assert("httpOnly"@.len() == 8 && "secure"@.len() == 6);
    assert("name"@.len() == 4 && "value"@.len() == 5 && "path"@.len() == 4);
    assert("domain"@.len() == 6 && "expiry"@.len() == 6);
    assert("secure"@[0] != "domain"@[0]);
    assert("secure"@[0] != "expiry"@[0]);
    let http_only = raw.insert("httpOnly"@, Json::Bool(flag));
    let secure = raw.insert("secure"@, Json::Bool(flag));
    assert(Json::Object(http_only).field("httpOnly"@) == Some(Json::Bool(flag)));
    assert(Json::Object(secure).field("secure"@) == Some(Json::Bool(flag)));
}

/// A cookie keeps the name, the domain and the path it was sent with, to the character. Without a
/// text there the domain is empty and the path is the root.
pub proof fn lemma_names_are_those_sent(raw: Map<Seq<char>, Json>)
    ensures
        cookie_of(Json::Object(raw)) matches Ok(cookie) ==> {
            &&& raw.contains_key("name"@) && raw["name"@] == Json::Text(cookie.name)
            &&& if raw.contains_key("domain"@) && raw["domain"@] is Text {
                raw["domain"@] == Json::Text(cookie.domain)
            } else {
                cookie.domain == ""@
            }
            &&& if raw.contains_key("path"@) && raw["path"@] is Text {
                raw["path"@] == Json::Text(cookie.path)
            } else {
                cookie.path == "/"@
            }
        },
{
}

/// A cookie keeps the expiry it was sent with to the bit where that is a double, and is then no
/// session cookie.
pub proof fn lemma_expiry_is_that_sent(raw: Map<Seq<char>, Json>, bits: u64)
    requires
        raw.contains_key("expiry"@),
        raw["expiry"@] == Json::Number(json::JsonNumber::Double(bits)),
    ensures
        cookie_of(Json::Object(raw)) matches Ok(cookie) ==> cookie.expires.bits == bits
            && !cookie.session,
{
}

/// A cookie whose value was sent as a string is taken, and its value is that string; a value without
/// an encoding is one.
pub proof fn lemma_string_value_is_kept(
    raw: Map<Seq<char>, Json>,
    name: Seq<char>,
    sent: Map<Seq<char>, Json>,
    value: Seq<char>,
)
    requires
        raw.contains_key("name"@),
        raw["name"@] == Json::Text(name),
        raw.contains_key("value"@),
        raw["value"@] == Json::Object(sent),
        sent.contains_key("value"@),
        sent["value"@] == Json::Text(value),
        sent.contains_key("type"@) ==> sent["type"@] == Json::Text("string"@),
    ensures
        cookie_of(Json::Object(raw)) matches Ok(cookie) && cookie.value == value,
{
}

/// A cookie whose value was sent in `base64` has the value that the encoded bytes spell.
pub proof fn lemma_base64_value_is_decoded(
    raw: Map<Seq<char>, Json>,
    sent: Map<Seq<char>, Json>,
    encoded: Seq<char>,
)
    requires
        raw.contains_key("value"@),
        raw["value"@] == Json::Object(sent),
        sent.contains_key("type"@),
        sent["type"@] == Json::Text("base64"@),
        sent.contains_key("value"@),
        sent["value"@] == Json::Text(encoded),
    ensures
        cookie_of(Json::Object(raw)) matches Ok(cookie) ==> (base64_bytes(encoded) matches Ok(bytes)
            && vstd::utf8::encode_utf8(cookie.value) == bytes),
{
    reveal_strlit("string");
    reveal_strlit("base64");
    assert("string"@[0] != "base64"@[0]);
    if let Ok(bytes) = base64_bytes(encoded) {
        if vstd::utf8::valid_utf8(bytes) {
            vstd::utf8::decode_utf8_encode_utf8(bytes);
        }
    }
}

/// A call succeeds exactly where the reply says `success`, and then gives the whole of its result;
/// any other reply fails the call with the whole of the reply.
pub proof fn lemma_success_is_said(method: Seq<char>, reply: Map<Seq<char>, Json>)
    ensures
        reply.contains_key("type"@) && reply["type"@] == Json::Text("success"@)
            && reply.contains_key("result"@) ==> result_of(method, Json::Object(reply)) == Ok::<
            Json,
            ErrorView,
        >(reply["result"@]),
        !(reply.contains_key("type"@) && reply["type"@] == Json::Text("success"@)) ==> result_of(
            method,
            Json::Object(reply),
        ) == Err::<Json, ErrorView>(
            ErrorView::Command {
                protocol: "bidi"@,
                method,
                message: json::rendered(Json::Object(reply)),
            },
        ),
{
}

/// A read gives one cookie for each that the browser listed, in order: the cookie that the listed one
/// stands for.
pub proof fn lemma_cookie_list_is_mapped_whole(
    reply: Map<Seq<char>, Json>,
    result: Map<Seq<char>, Json>,
    items: Seq<Json>,
)
    requires
        reply.contains_key("type"@),
        reply["type"@] == Json::Text("success"@),
        reply.contains_key("result"@),
        reply["result"@] == Json::Object(result),
        result.contains_key("cookies"@),
        result["cookies"@] == Json::Array(items),
    ensures
        cookie_list(Json::Object(reply)) matches Ok(cookies) ==> cookies.len() == items.len()
            && forall|i: int|
            0 <= i < items.len() ==> cookie_of(#[trigger] items[i]) == Ok::<CookieView, ErrorView>(
                cookies[i],
            ),
        (forall|i: int| 0 <= i < items.len() ==> cookie_of(#[trigger] items[i]) is Ok)
            ==> cookie_list(Json::Object(reply)) is Ok,
{
    lemma_read_is_all_or_nothing(items);
}

/// The page is opened in the context that the tree lists first, at the address as it was given, and
/// without waiting for it.
pub proof fn lemma_navigation_goes_to_the_first_context(
    tree: Map<Seq<char>, Json>,
    contexts: Seq<Json>,
    first: Map<Seq<char>, Json>,
    context: Seq<char>,
    url: Seq<char>,
)
    requires
        tree.contains_key("contexts"@),
        tree["contexts"@] == Json::Array(contexts),
        contexts.len() > 0,
        contexts[0] == Json::Object(first),
        first.contains_key("context"@),
        first["context"@] == Json::Text(context),
    ensures
        navigation(Json::Object(tree), url) matches Ok(Json::Object(params)) && params.dom() == set![
            "context"@,
            "url"@,
            "wait"@,
        ] && params["context"@] == Json::Text(context) && params["url"@] == Json::Text(url)
            && params["wait"@] == Json::Text("none"@),
{
    reveal_strlit("context");
    reveal_strlit("url");
    reveal_strlit("wait");
    assert("context"@.len() == 7 && "url"@.len() == 3 && "wait"@.len() == 4);
    let params = navigate_params(context, url)->Object_0;
    assert(params.dom() =~= set!["context"@, "url"@, "wait"@]);
}

/// The address of the remote agent is the loopback address with the port in decimal digits.
pub proof fn lemma_endpoint_names_the_port(port: u16, other: u16)
    ensures
        endpoint(port) == "ws://127.0.0.1:"@ + text::decimal(port as nat) + "/session"@,
        port != other ==> endpoint(port) != endpoint(other),
{
    if port != other && endpoint(port) == endpoint(other) {
        let scheme = "ws://127.0.0.1:"@;
        let (a, b) = (text::decimal(port as nat), text::decimal(other as nat));
        let (whole, twin) = (endpoint(port), endpoint(other));
        assert(whole.len() == scheme.len() + a.len() + "/session"@.len());
        assert(twin.len() == scheme.len() + b.len() + "/session"@.len());
        assert(a =~= whole.subrange(scheme.len() as int, (scheme.len() + a.len()) as int));
        assert(b =~= twin.subrange(scheme.len() as int, (scheme.len() + b.len()) as int));
        text::lemma_decimal_injective(port as nat, other as nat);
    }
}

/// A cookie is taken only where it was sent with a name and a value that are texts.
pub proof fn lemma_nameless_or_valueless_is_refused(raw: Json)
    ensures
        cookie_of(raw) is Ok ==> {
            &&& raw matches Json::Object(entries)
            &&& entries.contains_key("name"@) && entries["name"@] is Text
            &&& entries.contains_key("value"@)
            &&& entries["value"@] matches Json::Object(sent)
            &&& sent.contains_key("value"@) && sent["value"@] is Text
        },
        cookie_of(raw) is Err ==> cookie_of(raw)->Err_0 is Malformed || cookie_of(
            raw,
        )->Err_0 is UnsupportedCookieEncoding,
{
}

/// A cookie whose value was sent in `base64` is taken wherever the encoded bytes are UTF-8.
pub proof fn lemma_base64_text_is_taken(
    raw: Map<Seq<char>, Json>,
    name: Seq<char>,
    sent: Map<Seq<char>, Json>,
    encoded: Seq<char>,
    value: Seq<char>,
)
    requires
        raw.contains_key("name"@),
        raw["name"@] == Json::Text(name),
        raw.contains_key("value"@),
        raw["value"@] == Json::Object(sent),
        sent.contains_key("type"@),
        sent["type"@] == Json::Text("base64"@),
        sent.contains_key("value"@),
        sent["value"@] == Json::Text(encoded),
        base64_bytes(encoded) == Ok::<Seq<u8>, Seq<char>>(vstd::utf8::encode_utf8(value)),
    ensures
        cookie_of(Json::Object(raw)) matches Ok(cookie) && cookie.value == value,
{
    reveal_strlit("string");
    reveal_strlit("base64");
    assert("string"@[0] != "base64"@[0]);
    vstd::utf8::encode_utf8_valid_utf8(value);
    vstd::utf8::encode_utf8_decode_utf8(value);
}

/// A read that lists no cookies gives none, and one that the browser does not report as a success
/// fails with the whole of the reply.
pub proof fn lemma_read_without_a_list(
    reply: Map<Seq<char>, Json>,
    result: Map<Seq<char>, Json>,
)
    ensures
        reply.contains_key("type"@) && reply["type"@] == Json::Text("success"@)
            && reply.contains_key("result"@) && reply["result"@] == Json::Object(result) && (
        !result.contains_key("cookies"@) || result["cookies"@] !is Array) ==> cookie_list(
            Json::Object(reply),
        ) == Ok::<Seq<CookieView>, ErrorView>(Seq::empty()),
        !(reply.contains_key("type"@) && reply["type"@] == Json::Text("success"@)) ==> cookie_list(
            Json::Object(reply),
        ) == Err::<Seq<CookieView>, ErrorView>(
            ErrorView::Command {
                protocol: "bidi"@,
                method: "storage.getCookies"@,
                message: json::rendered(Json::Object(reply)),
            },
        ),
{
}

/// Without a first browsing context there is nowhere to open the page, and opening it fails.
pub proof fn lemma_no_context_no_navigation(tree: Map<Seq<char>, Json>, url: Seq<char>)
    requires
        !tree.contains_key("contexts"@) || tree["contexts"@] !is Array || (
        tree["contexts"@] matches Json::Array(contexts) && contexts.len() == 0),
    ensures
        navigation(Json::Object(tree), url) matches Err(error) && error is Malformed,
{
}

/// An error in place of a reply, or a reply that says no success, ends opening the login page with
/// that error.
pub proof fn lemma_error_ends_opening(
    stage: Stage,
    login_url: Seq<char>,
    reply: Result<Json, ErrorView>,
    later: Seq<Result<Json, ErrorView>>,
    error: ErrorView,
)
    requires
        reply == Err::<Json, ErrorView>(error) || (reply matches Ok(frame) && result_of(
            stage.method(),
            frame,
        ) == Err::<Json, ErrorView>(error)),
    ensures
        opened(stage, login_url, seq![reply] + later) == Some(Err::<(), ErrorView>(error)),
{
    assert((seq![reply] + later)[0] == reply);
}

/// The browser is told the port in decimal digits and is given the profile directory itself.
pub proof fn lemma_arguments_pin_port_and_profile(port: u16)
    ensures
        arguments_for(port).len() == 5,
        arguments_for(port)[0] == ArgumentView::Text("--remote-debugging-port"@),
        arguments_for(port)[1] == ArgumentView::Text(text::decimal(port as nat)),
        arguments_for(port)[2] == ArgumentView::Text("--profile"@),
        arguments_for(port)[3] == ArgumentView::ProfileDir,
        arguments_for(port).contains(ArgumentView::Text("--no-remote"@)),
{
    assert(arguments_for(port)[4] == ArgumentView::Text("--no-remote"@));
}

/// Each stage is the call of its own method, so that an error names the call that failed: a session
/// is opened, then the contexts are read, then the first is sent to the page.
pub proof fn lemma_stages_call_their_methods(
    stage: Stage,
    reply: Result<Json, ErrorView>,
    login_url: Seq<char>,
)
    ensures
        Stage::NewSession.method() == "session.new"@,
        Stage::GetTree.method() == "browsingContext.getTree"@,
        Stage::Navigate.method() == "browsingContext.navigate"@,
        stage.next(reply, login_url) matches Ok(StepView::Call { stage: further, method, .. }) ==> {
            &&& method == further.method()
            &&& stage is NewSession ==> further is GetTree
            &&& stage is GetTree ==> further is Navigate
            &&& stage !is Navigate
        },
        stage.next(reply, login_url) matches Ok(StepView::Connected) ==> stage is Navigate,
{
}

/// The first request of a conversation opens a session that asks for nothing in particular: it is
/// the object that holds the method, these parameters and the number, and nothing else.
pub proof fn lemma_session_is_opened_first(
    talk: Connecting,
    login_url: Seq<char>,
    request: Map<Seq<char>, Json>,
    params: Map<Seq<char>, Json>,
)
    requires
        talk.begins(login_url),
        request.dom() == set!["method"@, "params"@, "id"@],
        request["method"@] == Json::Text("session.new"@),
        request["params"@] == Json::Object(params),
        request["id"@] == Json::Number(json::JsonNumber::Unsigned(1)),
        params.dom() == set!["capabilities"@],
        params["capabilities"@] == Json::Object(Map::empty()),
    ensures
        talk.text() == json::rendered(Json::Object(request)),
        talk.login_url() == login_url,
{
    reveal_strlit("method");
    reveal_strlit("params");
    reveal_strlit("id");
    let sent = map!["capabilities"@ => Json::Object(Map::empty())];
    assert(params =~= sent);
    let entries = command_entries("session.new"@, Json::Object(sent), None);
    assert(request =~= entries.insert("id"@, Json::Number(json::JsonNumber::Unsigned(1))));
}

} // verus!
