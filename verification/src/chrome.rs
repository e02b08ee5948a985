//! Driving a Chromium-family browser over the Chrome `DevTools` protocol.
use vstd::prelude::*;
use vstd::string::*;

use serde_json::Value;
use std::time::Duration;

use crate::browser::Engine;
use crate::discover;
use crate::discover::Answers;
use crate::discover::Find;
use crate::discover::binary_for;
use crate::error::Error;
use crate::error::ErrorView;
use crate::error::seen;
use crate::json;
use crate::json::Json;
use crate::json::no_params;
use crate::text;
use crate::transport;
use crate::transport::Pending;
use crate::transport::Wire;
use crate::transport::command_entries;
use crate::transport::frame_text;
use crate::transport::seen_json;

verus! {

/// How long to pause between two looks at the port file, in milliseconds.
pub const ENDPOINT_PAUSE_MILLIS: u64 = 50;

/// Look for the browser's binary: what `CHROME` points at, else an installed product.
pub fn find() -> (r: Find)
    ensures
        forall|answers: Answers| #[trigger]
            r.outcome(answers) == binary_for(Engine::Chrome, "CHROME"@, "chrome"@, answers),
{
    discover::find(Engine::Chrome, "CHROME", "chrome")
}

/// The file in the profile directory that Chrome writes once its debug endpoint is up.
pub fn port_file() -> (r: &'static str)
    ensures
        r@ == "DevToolsActivePort"@,
{
    "DevToolsActivePort"
}

/// The arguments of a browser that keeps its profile in `profile_dir`.
pub open spec fn argument_texts(profile_dir: Seq<char>) -> Seq<Seq<char>> {
    seq![
        "--remote-debugging-port=0"@,
        "--user-data-dir="@ + profile_dir,
        "--no-first-run"@,
        "--no-default-browser-check"@,
        "about:blank"@,
    ]
}

/// The arguments of a browser that keeps its profile in `profile_dir`.
pub fn arguments(profile_dir: &str) -> (r: Vec<String>)
    ensures
        texts(r@) =~= argument_texts(profile_dir@),
{
    let mut arguments: Vec<String> = Vec::new();
    arguments.push("--remote-debugging-port=0".to_owned());
    arguments.push("--user-data-dir=".to_owned().concat(profile_dir));
    arguments.push("--no-first-run".to_owned());
    arguments.push("--no-default-browser-check".to_owned());
    arguments.push("about:blank".to_owned());
    arguments
}

/// The characters of each of a sequence of texts.
pub open spec fn texts(strings: Seq<String>) -> Seq<Seq<char>> {
    strings.map_values(|s: String| s@)
}

// --- The endpoint. ----------------------------------------------------------------------------

/// The address of the debug endpoint, where the port file names it: the port on its first line, the
/// path of the browser socket on its second.
pub open spec fn endpoint(contents: Seq<char>) -> Option<Seq<char>> {
    match text::two_lines(contents) {
        Some((port, path)) => Some("ws://127.0.0.1:"@ + port + path),
        None => None,
    }
}

/// The address of the debug endpoint that the contents of the port file name.
pub fn ws_url(contents: &str) -> (r: Option<String>)
    ensures
        match r {
            Some(url) => endpoint(contents@) == Some(url@),
            None => endpoint(contents@) is None,
        },
        forall|port: Seq<char>, path: Seq<char>|
            contents@ == #[trigger] (port + seq!['\n'] + path) && text::unbroken(port)
                && text::unbroken(path) && path.len() > 0 ==> (r matches Some(url) && url@
                == "ws://127.0.0.1:"@ + port + path),
{
    proof {
        assert forall|port: Seq<char>, path: Seq<char>|
            contents@ == #[trigger] (port + seq!['\n'] + path) && text::unbroken(port)
                && text::unbroken(path) && path.len() > 0 implies endpoint(contents@) == Some(
            "ws://127.0.0.1:"@ + port + path,
        ) by {
            let none = Seq::<char>::empty();
            lemma_port_file_names_the_endpoint(port, seq!['\n'], path, none);
            assert(port + seq!['\n'] + path + none =~= port + seq!['\n'] + path);
        }
    }
    match text::first_two_lines(contents) {
        Some((port, path)) => {
            let mut url: String = "ws://127.0.0.1:".to_owned();
            url.append(port.as_str());
            url.append(path.as_str());
            Some(url)
        },
        None => None,
    }
}

/// What to do after a look at the port file.
pub enum Endpoint {
    /// The endpoint is up at this address.
    Ready(String),
    /// Look again after a pause.
    Pause {
        /// Length of the pause in milliseconds.
        millis: u64,
    },
    /// The endpoint did not come up in time.
    Failed(Error),
}

/// One look at the port file: its contents where it could be read, and whether the startup timeout
/// had elapsed then.
pub struct Look {
    pub contents: Option<Seq<char>>,
    pub elapsed: bool,
}

impl Look {
    /// The address that the look shows.
    pub open spec fn shows(self) -> Option<Seq<char>> {
        match self.contents {
            Some(contents) => endpoint(contents),
            None => None,
        }
    }
}

/// What a look at the port file shows of its contents.
pub open spec fn seen_contents(contents: Option<&str>) -> Option<Seq<char>> {
    match contents {
        Some(contents) => Some(contents@),
        None => None,
    }
}

/// What waiting for the endpoint comes to where these are the looks: nothing yet, or the address, or
/// the error that ends the wait.
pub open spec fn awaited(timeout: Duration, looks: Seq<Look>) -> Option<
    Result<Seq<char>, ErrorView>,
>
    decreases looks.len(),
{
    if looks.len() == 0 {
        None
    } else {
        match looks[0].shows() {
            Some(url) => Some(Ok(url)),
            None => if looks[0].elapsed {
                Some(Err(ErrorView::EndpointTimeout(timeout)))
            } else {
                awaited(timeout, looks.drop_first())
            },
        }
    }
}

impl Endpoint {
    /// What the wait comes to where these are the looks from here on.
    pub open spec fn outcome(self, timeout: Duration, looks: Seq<Look>) -> Option<
        Result<Seq<char>, ErrorView>,
    > {
        match self {
            Endpoint::Ready(url) => Some(Ok(url@)),
            Endpoint::Failed(error) => Some(Err(error@)),
            Endpoint::Pause { .. } => awaited(timeout, looks),
        }
    }
}

/// Judge one look at the port file: its contents where it could be read, and whether the startup
/// timeout has elapsed. A file that names the endpoint counts even at the last moment.
pub fn await_endpoint(contents: Option<&str>, elapsed: bool, timeout: Duration) -> (r: Endpoint)
    ensures
        match (contents, r) {
            (Some(text), Endpoint::Ready(url)) => endpoint(text@) == Some(url@),
            (None, Endpoint::Ready(url)) => false,
            (_, Endpoint::Pause { millis }) => millis == ENDPOINT_PAUSE_MILLIS && !elapsed,
            (_, Endpoint::Failed(error)) => elapsed && error@ == ErrorView::EndpointTimeout(
                timeout,
            ),
        },
        r is Ready <==> (contents matches Some(text) && endpoint(text@) is Some),
        forall|later: Seq<Look>| #[trigger]
            r.outcome(timeout, later) == awaited(
                timeout,
                seq![Look { contents: seen_contents(contents), elapsed }] + later,
            ),
{
    proof {
        let now = Look { contents: seen_contents(contents), elapsed };
        assert forall|later: Seq<Look>| (#[trigger] (seq![now] + later)).drop_first() == later by {
            assert((seq![now] + later).drop_first() =~= later);
        }
    }
    if let Some(text) = contents {
        if let Some(url) = ws_url(text) {
            return Endpoint::Ready(url);
        }
    }
    if elapsed {
        Endpoint::Failed(Error::EndpointTimeout(timeout))
    } else {
        Endpoint::Pause { millis: ENDPOINT_PAUSE_MILLIS }
    }
}

// --- Calls. -----------------------------------------------------------------------------------

/// The entries of a call, in the session it belongs to where there is one.
pub open spec fn call_entries(
    method: Seq<char>,
    params: Json,
    session: Option<Seq<char>>,
) -> Map<Seq<char>, Json> {
    command_entries(
        method,
        params,
        match session {
            Some(session) => Some(("sessionId"@, session)),
            None => None,
        },
    )
}

/// The request of a call.
pub fn call(wire: &mut Wire, method: &str, params: Value, session: Option<&str>) -> (r: Pending)
    requires
        old(wire).last_id() < u64::MAX,
    ensures
        final(wire).last_id() == old(wire).last_id() + 1,
        r.id() == final(wire).last_id(),
        r.text() == frame_text(
            call_entries(
                method@,
                json::content(params),
                match session {
                    Some(session) => Some(session@),
                    None => None,
                },
            ),
            r.id(),
        ),
{
    let extra: Option<(&str, &str)> = match session {
        Some(session) => Some(("sessionId", session)),
        None => None,
    };
    wire.request(transport::command(method, params, extra))
}

/// What the reply to a call of `method` gives: its result, or the error it reports.
pub open spec fn result_of(method: Seq<char>, frame: Json) -> Result<Json, ErrorView> {
    match frame.field("error"@) {
        Some(error) => Err(
            ErrorView::Command { protocol: "cdp"@, method, message: json::rendered(error) },
        ),
        None => Ok(
            match frame.field("result"@) {
                Some(result) => result,
                None => Json::Null,
            },
        ),
    }
}

/// The result that the reply to a call of `method` carries.
pub fn call_result(method: &str, frame: &Value) -> (r: Result<Value, Error>)
    ensures
        seen_json(r) == result_of(method@, json::content(*frame)),
{
    match json::get(frame, "error") {
        Some(error) => Err(
            Error::Command {
                protocol: "cdp",
                method: method.to_owned(),
                message: json::render(error),
            },
        ),
        None => match json::get(frame, "result") {
            Some(result) => Ok(result.clone()),
            None => Ok(json::null_value()),
        },
    }
}

/// The text that a result must hold under `key`.
pub open spec fn required_text(value: Json, key: Seq<char>) -> Result<Seq<char>, ErrorView> {
    match value.text_field(key) {
        Some(text) => Ok(text),
        None => Err(
            ErrorView::Malformed { protocol: "cdp"@, detail: "missing `"@ + key + "`"@ },
        ),
    }
}

/// The text that a result must hold under `key`.
pub fn as_str(value: &Value, key: &str) -> (r: Result<String, Error>)
    ensures
        seen(r) == required_text(json::content(*value), key@),
{
    match json::text_field(value, key) {
        Some(text) => Ok(text.to_owned()),
        None => {
            let mut detail: String = "missing `".to_owned();
            detail.append(key);
            detail.append("`");
            Err(Error::Malformed { protocol: "cdp", detail })
        },
    }
}

// --- Opening the login page. ------------------------------------------------------------------

/// How far opening the login page has come: the call in flight.
enum Stage {
    CreateTarget,
    AttachToTarget,
    EnableNetwork { session_id: String },
}

/// What a stage of opening the login page holds.
pub enum StageView {
    /// The login page is being opened in a target of its own.
    CreateTarget,
    /// The target is being attached to.
    AttachToTarget,
    /// The network domain of the attached session is being enabled.
    EnableNetwork { session_id: Seq<char> },
}

/// What follows the reply to a call.
pub enum StepView {
    /// Another call.
    Call {
        stage: StageView,
        method: Seq<char>,
        params: Json,
        session: Option<Seq<char>>,
    },
    /// The page is open, and cookies are read in this session.
    Connected { session_id: Seq<char> },
}

impl StageView {
    /// The method of the call in flight.
    pub open spec fn method(self) -> Seq<char> {
        match self {
            StageView::CreateTarget => "Target.createTarget"@,
            StageView::AttachToTarget => "Target.attachToTarget"@,
            StageView::EnableNetwork { .. } => "Network.enable"@,
        }
    }

    /// What follows the reply `frame`, or the error in its place.
    pub open spec fn next(self, frame: Result<Json, ErrorView>) -> Result<StepView, ErrorView> {
        match frame {
            Err(error) => Err(error),
            Ok(frame) => match result_of(self.method(), frame) {
                Err(error) => Err(error),
                Ok(result) => match self {
                    StageView::CreateTarget => match required_text(result, "targetId"@) {
                        Err(error) => Err(error),
                        Ok(target_id) => Ok(
                            StepView::Call {
                                stage: StageView::AttachToTarget,
                                method: "Target.attachToTarget"@,
                                params: attach_params(target_id),
                                session: None,
                            },
                        ),
                    },
                    StageView::AttachToTarget => match required_text(result, "sessionId"@) {
                        Err(error) => Err(error),
                        Ok(session_id) => Ok(
                            StepView::Call {
                                stage: StageView::EnableNetwork { session_id },
                                method: "Network.enable"@,
                                params: Json::Object(Map::empty()),
                                session: Some(session_id),
                            },
                        ),
                    },
                    StageView::EnableNetwork { session_id } => Ok(
                        StepView::Connected { session_id },
                    ),
                },
            },
        }
    }
}

/// The parameters that attach to a target.
pub open spec fn attach_params(target_id: Seq<char>) -> Json {
    Json::Object(map!["targetId"@ => Json::Text(target_id), "flatten"@ => Json::Bool(true)])
}

/// Opening the login page, with a call in flight.
pub struct Connecting {
    wire: Wire,
    stage: Stage,
    pending: Pending,
}

/// An open login page.
pub struct Connected {
    wire: Wire,
    session_id: String,
}

impl Connected {
    /// The id of the latest request of the connection.
    pub closed spec fn last_id(&self) -> u64 {
        self.wire.last_id()
    }

    /// The session that cookies are read in.
    pub closed spec fn session_id(&self) -> Seq<char> {
        self.session_id@
    }

    /// The connection's request counter, and the session that cookies are read in.
    pub fn into_parts(self) -> (r: (Wire, String))
        ensures
            r.0.last_id() == self.last_id(),
            r.1@ == self.session_id(),
    {
        (self.wire, self.session_id)
    }
}

/// Where opening the login page stands.
pub enum Connect {
    /// A call is in flight.
    Calling(Connecting),
    /// It is over.
    Done(Result<Connected, Error>),
}

impl Connect {
    /// What follows a reply, where request `id` was the latest before it.
    pub open spec fn follows(self, step: Result<StepView, ErrorView>, id: u64) -> bool {
        match step {
            Err(error) => self matches Connect::Done(Err(e)) && e@ == error,
            Ok(StepView::Connected { session_id }) => {
                &&& self matches Connect::Done(Ok(connected))
                &&& connected.session_id() == session_id
                &&& connected.last_id() == id
            },
            Ok(StepView::Call { stage, method, params, session }) => {
                &&& self matches Connect::Calling(connecting)
                &&& connecting.calls(stage, method, params, session, id)
            },
        }
    }
}

impl Connecting {
    /// The call in flight.
    pub closed spec fn stage(&self) -> StageView {
        match self.stage {
            Stage::CreateTarget => StageView::CreateTarget,
            Stage::AttachToTarget => StageView::AttachToTarget,
            Stage::EnableNetwork { session_id } => StageView::EnableNetwork {
                session_id: session_id@,
            },
        }
    }

    /// The number of the call in flight.
    pub closed spec fn id(&self) -> u64 {
        self.pending.id()
    }

    /// The message that carries the call in flight.
    pub closed spec fn text(&self) -> Seq<char> {
        self.pending.text()
    }

    /// Whether this call is in flight, where request `id` was the latest before it.
    pub open spec fn calls(
        &self,
        stage: StageView,
        method: Seq<char>,
        params: Json,
        session: Option<Seq<char>>,
        id: u64,
    ) -> bool {
        &&& self.stage() == stage
        &&& self.id() == id + 1
        &&& self.text() == frame_text(call_entries(method, params, session), (id + 1) as u64)
    }

    /// Whether this is the start of opening `login_url` over a fresh connection.
    pub open spec fn begins(&self, login_url: Seq<char>) -> bool {
        self.calls(
            StageView::CreateTarget,
            "Target.createTarget"@,
            Json::Object(map!["url"@ => Json::Text(login_url)]),
            None,
            0,
        )
    }

    #[verifier::type_invariant]
    spec fn in_step(&self) -> bool {
        &&& self.wire.last_id() == self.pending.id()
        &&& self.pending.id() <= match self.stage {
            Stage::CreateTarget => 1u64,
            Stage::AttachToTarget => 2u64,
            Stage::EnableNetwork { .. } => 3u64,
        }
    }

    /// The request in flight.
    pub fn pending(&self) -> (r: &Pending)
        ensures
            r.id() == self.id(),
            r.text() == self.text(),
    {
        &self.pending
    }

    /// Go on with the reply to the call in flight, or with the error in its place.
    pub fn resume(self, frame: Result<Value, Error>) -> (r: Connect)
        ensures
            r.follows(self.stage().next(seen_json(frame)), self.id()),
    {
        proof {
            use_type_invariant(&self);
        }
        let frame: Value = match frame {
            Ok(frame) => frame,
            Err(error) => {
                return Connect::Done(Err(error));
            },
        };
        let mut wire: Wire = self.wire;
        match self.stage {
            Stage::CreateTarget => {
                let target: Value = match call_result("Target.createTarget", &frame) {
                    Ok(target) => target,
                    Err(error) => {
                        return Connect::Done(Err(error));
                    },
                };
                let target_id: String = match as_str(&target, "targetId") {
                    Ok(target_id) => target_id,
                    Err(error) => {
                        return Connect::Done(Err(error));
                    },
                };
                let mut params: serde_json::Map<String, Value> = json::empty_object();
                json::put(&mut params, "targetId", json::text_value(target_id.as_str()));
                json::put(&mut params, "flatten", json::flag_value(true));
                proof {
                    assert(json::entries(params)
                        =~= attach_params(target_id@)->Object_0);
                }
                let pending: Pending = call(
                    &mut wire,
                    "Target.attachToTarget",
                    json::object_value(params),
                    None,
                );
                Connect::Calling(Connecting { wire, stage: Stage::AttachToTarget, pending })
            },
            Stage::AttachToTarget => {
                let attached: Value = match call_result("Target.attachToTarget", &frame) {
                    Ok(attached) => attached,
                    Err(error) => {
                        return Connect::Done(Err(error));
                    },
                };
                let session_id: String = match as_str(&attached, "sessionId") {
                    Ok(session_id) => session_id,
                    Err(error) => {
                        return Connect::Done(Err(error));
                    },
                };
                let params: Value = no_params();
                let pending: Pending = call(
                    &mut wire,
                    "Network.enable",
                    params,
                    Some(session_id.as_str()),
                );
                Connect::Calling(
                    Connecting { wire, stage: Stage::EnableNetwork { session_id }, pending },
                )
            },
            Stage::EnableNetwork { session_id } => {
                match call_result("Network.enable", &frame) {
                    Ok(_) => Connect::Done(Ok(Connected { wire, session_id })),
                    Err(error) => Connect::Done(Err(error)),
                }
            },
        }
    }
}

/// Open the login page over a fresh connection: the page is opened in a target of its own, the
/// target is attached to, and the network domain of the attached session is enabled.
pub fn connect(login_url: &str) -> (r: Connecting)
    ensures
        r.begins(login_url@),
{
    let mut wire: Wire = Wire::connect();
    let mut params: serde_json::Map<String, Value> = json::empty_object();
    json::put(&mut params, "url", json::text_value(login_url));
    proof {
        assert(json::entries(params) =~= map!["url"@ => Json::Text(login_url@)]);
    }
    let pending: Pending = call(
        &mut wire,
        "Target.createTarget",
        json::object_value(params),
        None,
    );
    Connecting { wire, stage: Stage::CreateTarget, pending }
}

// --- Reading and closing. ---------------------------------------------------------------------

/// The request that reads the cookies of `session`.
pub fn cookies(wire: &mut Wire, session: &str) -> (r: Pending)
    requires
        old(wire).last_id() < u64::MAX,
    ensures
        final(wire).last_id() == old(wire).last_id() + 1,
        r.id() == final(wire).last_id(),
        r.text() == frame_text(
            call_entries("Network.getAllCookies"@, Json::Object(Map::empty()), Some(session@)),
            r.id(),
        ),
{
    call(wire, "Network.getAllCookies", no_params(), Some(session))
}

/// The cookie list that the reply to a read carries: an empty one where it names none.
pub open spec fn cookie_list(frame: Json) -> Result<Json, ErrorView> {
    match result_of("Network.getAllCookies"@, frame) {
        Err(error) => Err(error),
        Ok(result) => Ok(
            match result.field("cookies"@) {
                Some(cookies) => cookies,
                None => Json::Array(Seq::empty()),
            },
        ),
    }
}

/// The cookie list that the reply to a read carries, still to be decoded.
pub fn listed_cookies(frame: &Value) -> (r: Result<Value, Error>)
    ensures
        seen_json(r) == cookie_list(json::content(*frame)),
        json::content(*frame).field("error"@) is None ==> (json::content(*frame).field(
            "result"@,
        ) matches Some(result) ==> (result.field("cookies"@) matches Some(cookies) ==> (r matches Ok(
            list,
        ) && json::content(list) == cookies))),
{
    match call_result("Network.getAllCookies", frame) {
        Err(error) => Err(error),
        Ok(result) => match json::get(&result, "cookies") {
            Some(cookies) => Ok(cookies.clone()),
            None => {
                let none: Vec<Value> = Vec::new();
                proof {
                    assert(json::contents(none@) =~= Seq::<Json>::empty());
                }
                Ok(json::array_value(none))
            },
        },
    }
}

/// The request that closes the browser, so that it tears down its own process tree.
pub fn close(wire: &mut Wire) -> (r: Pending)
    requires
        old(wire).last_id() < u64::MAX,
    ensures
        final(wire).last_id() == old(wire).last_id() + 1,
        r.id() == final(wire).last_id(),
        r.text() == frame_text(
            call_entries("Browser.close"@, Json::Object(Map::empty()), None),
            r.id(),
        ),
{
    call(wire, "Browser.close", no_params(), None)
}

// --- Laws of the endpoint. --------------------------------------------------------------------

/// The first look that shows the endpoint decides, where the timeout had not elapsed before it. At
/// that look itself it may have.
pub proof fn lemma_first_shown_endpoint_decides(timeout: Duration, looks: Seq<Look>, at: int)
    requires
        0 <= at < looks.len(),
        looks[at].shows() is Some,
        forall|i: int|
            0 <= i < at ==> (#[trigger] looks[i]).shows() is None && !looks[i].elapsed,
    ensures
        awaited(timeout, looks) == Some(Ok::<Seq<char>, ErrorView>(looks[at].shows()->0)),
    decreases at,
{
    if at > 0 {
        let rest = looks.drop_first();
        assert(looks[0].shows() is None && !looks[0].elapsed);
        assert forall|i: int| 0 <= i < at - 1 implies (#[trigger] rest[i]).shows() is None
            && !rest[i].elapsed by {
            assert(looks[i + 1].shows() is None && !looks[i + 1].elapsed);
        }
        lemma_first_shown_endpoint_decides(timeout, rest, at - 1);
    }
}

/// The wait ends with an error only at a look at which the timeout had elapsed and that did not show
/// the endpoint, and none before it did; the error is then that of the timeout.
pub proof fn lemma_endpoint_fails_only_by_timeout(timeout: Duration, looks: Seq<Look>)
    ensures
        awaited(timeout, looks) matches Some(Err(error)) ==> {
            &&& error == ErrorView::EndpointTimeout(timeout)
            &&& exists|i: int|
                0 <= i < looks.len() && (#[trigger] looks[i]).elapsed && forall|j: int|
                    0 <= j <= i ==> (#[trigger] looks[j]).shows() is None
        },
    decreases looks.len(),
{
    if looks.len() > 0 && looks[0].shows() is None {
        if looks[0].elapsed {
            assert(forall|j: int| 0 <= j <= 0 ==> (#[trigger] looks[j]).shows() is None);
        } else {
            let rest = looks.drop_first();
            lemma_endpoint_fails_only_by_timeout(timeout, rest);
            if awaited(timeout, looks) matches Some(Err(_)) {
                let i = choose|i: int|
                    0 <= i < rest.len() && (#[trigger] rest[i]).elapsed && forall|j: int|
                        0 <= j <= i ==> (#[trigger] rest[j]).shows() is None;
                assert(looks[i + 1].elapsed);
                assert forall|j: int| 0 <= j <= i + 1 implies (
                #[trigger] looks[j]).shows() is None by {
                    if j > 0 {
                        assert(rest[j - 1].shows() is None);
                    }
                }
            }
        }
    }
}

// --- Laws of opening the login page. ----------------------------------------------------------

/// What opening the login page comes to from a stage on, where these are the replies to its calls:
/// nothing yet, or the session that cookies are read in, or the error that ends it.
pub open spec fn opened(stage: StageView, replies: Seq<Result<Json, ErrorView>>) -> Option<
    Result<Seq<char>, ErrorView>,
>
    decreases replies.len(),
{
    if replies.len() == 0 {
        None
    } else {
        match stage.next(replies[0]) {
            Err(error) => Some(Err(error)),
            Ok(StepView::Connected { session_id }) => Some(Ok(session_id)),
            Ok(StepView::Call { stage: next, .. }) => opened(next, replies.drop_first()),
        }
    }
}

/// Where the browser opens a target, attaches to it and enables the network domain, cookies are
/// read in the session that it attached: the target that is attached to is the one it opened, and
/// the session whose network domain is enabled is the one it attached.
pub proof fn lemma_opened_in_attached_session(
    created: Json,
    attached: Json,
    enabled: Json,
    target_id: Seq<char>,
    session_id: Seq<char>,
)
    requires
        result_of("Target.createTarget"@, created) matches Ok(result) && result.text_field(
            "targetId"@,
        ) == Some(target_id),
        result_of("Target.attachToTarget"@, attached) matches Ok(result) && result.text_field(
            "sessionId"@,
        ) == Some(session_id),
        result_of("Network.enable"@, enabled) is Ok,
    ensures
        opened(
            StageView::CreateTarget,
            seq![
                Ok::<Json, ErrorView>(created),
                Ok::<Json, ErrorView>(attached),
                Ok::<Json, ErrorView>(enabled),
            ],
        ) == Some(Ok::<Seq<char>, ErrorView>(session_id)),
        StageView::CreateTarget.next(Ok(created)) matches Ok(StepView::Call { params, .. })
            && params == attach_params(target_id),
        StageView::AttachToTarget.next(Ok(attached)) matches Ok(StepView::Call { session, .. })
            && session == Some(session_id),
{
    reveal_with_fuel(opened, 4);
    let replies = seq![
        Ok::<Json, ErrorView>(created),
        Ok::<Json, ErrorView>(attached),
        Ok::<Json, ErrorView>(enabled),
    ];
    assert(replies.drop_first() =~= seq![
        Ok::<Json, ErrorView>(attached),
        Ok::<Json, ErrorView>(enabled),
    ]);
    assert(replies.drop_first().drop_first() =~= seq![Ok::<Json, ErrorView>(enabled)]);
}

/// An error in place of a reply, or reported by one, ends opening the login page with that error.
pub proof fn lemma_error_ends_opening(
    stage: StageView,
    reply: Result<Json, ErrorView>,
    later: Seq<Result<Json, ErrorView>>,
    error: ErrorView,
)
    requires
        reply == Err::<Json, ErrorView>(error) || (reply matches Ok(frame) && result_of(
            stage.method(),
            frame,
        ) == Err::<Json, ErrorView>(error)),
    ensures
        opened(stage, seq![reply] + later) == Some(Err::<Seq<char>, ErrorView>(error)),
{
    assert((seq![reply] + later)[0] == reply);
}

// --- Laws of what goes over the protocol. -----------------------------------------------------

/// A port file with a port on its first line and a path on its second gives the address of that port
/// and that path, whatever follows and however the lines end.
pub proof fn lemma_port_file_names_the_endpoint(
    port: Seq<char>,
    ending: Seq<char>,
    path: Seq<char>,
    tail: Seq<char>,
)
    requires
        text::unbroken(port),
        text::unbroken(path),
        text::is_line_ending(ending),
        (tail.len() == 0 && path.len() > 0) || exists|next: Seq<char>, rest: Seq<char>|
            text::is_line_ending(next) && tail == #[trigger] (next + rest),
    ensures
        endpoint(port + ending + path + tail) == Some("ws://127.0.0.1:"@ + port + path),
{
    text::lemma_two_lines(port, ending, path, tail);
}

/// Port files that differ in the port alone give different addresses.
pub proof fn lemma_ports_tell_endpoints_apart(port: Seq<char>, other: Seq<char>, path: Seq<char>)
    requires
        text::unbroken(port),
        text::unbroken(other),
        text::unbroken(path),
        path.len() > 0,
        port != other,
    ensures
        endpoint(port + seq!['\n'] + path) != endpoint(other + seq!['\n'] + path),
{
    let none = Seq::<char>::empty();
    let feed = seq!['\n'];
    lemma_port_file_names_the_endpoint(port, feed, path, none);
    lemma_port_file_names_the_endpoint(other, feed, path, none);
    assert(port + feed + path + none =~= port + feed + path);
    assert(other + feed + path + none =~= other + feed + path);
    let scheme = "ws://127.0.0.1:"@;
    let (a, b) = (scheme + port + path, scheme + other + path);
    if a == b {
        assert(a.len() == scheme.len() + port.len() + path.len());
        assert(b.len() == scheme.len() + other.len() + path.len());
        assert(port =~= a.subrange(scheme.len() as int, (scheme.len() + port.len()) as int));
        assert(other =~= b.subrange(scheme.len() as int, (scheme.len() + other.len()) as int));
    }
}

/// A port file that is still without its second line names no endpoint.
pub proof fn lemma_half_written_port_file_names_nothing(line: Seq<char>)
    requires
        forall|i: int| 0 <= i < line.len() ==> (#[trigger] line[i]) != '\n',
    ensures
        endpoint(line) is None,
        endpoint(line.push('\n')) is None,
{
    text::lemma_one_line_is_not_two(line);
}

/// A reply that carries an error fails the call with the whole of that error; one that carries none
/// gives the whole of its result.
pub proof fn lemma_reply_is_taken_whole(method: Seq<char>, reply: Map<Seq<char>, Json>)
    ensures
        reply.contains_key("error"@) ==> result_of(method, Json::Object(reply)) == Err::<
            Json,
            ErrorView,
        >(
            ErrorView::Command {
                protocol: "cdp"@,
                method,
                message: json::rendered(reply["error"@]),
            },
        ),
        !reply.contains_key("error"@) && reply.contains_key("result"@) ==> result_of(
            method,
            Json::Object(reply),
        ) == Ok::<Json, ErrorView>(reply["result"@]),
{
}

/// A text that a result must hold is given as it is; without one the result is malformed.
pub proof fn lemma_required_text_is_kept(
    result: Map<Seq<char>, Json>,
    key: Seq<char>,
    text: Seq<char>,
)
    ensures
        result.contains_key(key) && result[key] == Json::Text(text) ==> required_text(
            Json::Object(result),
            key,
        ) == Ok::<Seq<char>, ErrorView>(text),
        !result.contains_key(key) || result[key] !is Text ==> (required_text(
            Json::Object(result),
            key,
        ) matches Err(error) && error is Malformed),
{
}

/// The list that a read hands on holds what the browser listed: as many cookies, and the same one at
/// every position.
pub proof fn lemma_cookie_list_is_handed_on_whole(
    reply: Map<Seq<char>, Json>,
    result: Map<Seq<char>, Json>,
    items: Seq<Json>,
)
    requires
        !reply.contains_key("error"@),
        reply.contains_key("result"@),
        reply["result"@] == Json::Object(result),
        result.contains_key("cookies"@),
        result["cookies"@] == Json::Array(items),
    ensures
        cookie_list(Json::Object(reply)) matches Ok(Json::Array(handed)) && handed.len()
            == items.len() && forall|i: int| 0 <= i < items.len() ==> #[trigger] handed[i]
            == items[i],
{
}

/// The first request of a conversation opens the login page exactly as it was given: it is the
/// object that holds the method, these parameters and the number, and nothing else.
pub proof fn lemma_login_page_is_opened_as_given(
    talk: Connecting,
    login_url: Seq<char>,
    request: Map<Seq<char>, Json>,
    params: Map<Seq<char>, Json>,
)
    requires
        talk.begins(login_url),
        request.dom() == set!["method"@, "params"@, "id"@],
        request["method"@] == Json::Text("Target.createTarget"@),
        request["params"@] == Json::Object(params),
        request["id"@] == Json::Number(json::JsonNumber::Unsigned(1)),
        params.dom() == set!["url"@],
        params["url"@] == Json::Text(login_url),
    ensures
        talk.text() == json::rendered(Json::Object(request)),
{
    reveal_strlit("method");
    reveal_strlit("params");
    reveal_strlit("id");
    let sent = map!["url"@ => Json::Text(login_url)];
    assert(params =~= sent);
    let entries = call_entries("Target.createTarget"@, Json::Object(sent), None);
    assert(request =~= entries.insert("id"@, Json::Number(json::JsonNumber::Unsigned(1))));
}

/// A reply with neither an error nor a result gives nothing, and a read that lists no cookies an
/// empty list.
pub proof fn lemma_missing_results_are_empty(
    method: Seq<char>,
    reply: Map<Seq<char>, Json>,
    result: Map<Seq<char>, Json>,
)
    requires
        !reply.contains_key("error"@),
    ensures
        !reply.contains_key("result"@) ==> result_of(method, Json::Object(reply)) == Ok::<
            Json,
            ErrorView,
        >(Json::Null),
        !reply.contains_key("result"@) ==> cookie_list(Json::Object(reply)) == Ok::<
            Json,
            ErrorView,
        >(Json::Array(Seq::empty())),
        reply.contains_key("result"@) && reply["result"@] == Json::Object(result)
            && !result.contains_key("cookies"@) ==> cookie_list(Json::Object(reply)) == Ok::<
            Json,
            ErrorView,
        >(Json::Array(Seq::empty())),
{
}

/// A read that the browser refuses fails with the whole of what it said.
pub proof fn lemma_refused_read_fails(reply: Map<Seq<char>, Json>)
    requires
        reply.contains_key("error"@),
    ensures
        cookie_list(Json::Object(reply)) == Err::<Json, ErrorView>(
            ErrorView::Command {
                protocol: "cdp"@,
                method: "Network.getAllCookies"@,
                message: json::rendered(reply["error"@]),
            },
        ),
{
}

/// The target that is attached to is the one that was opened, in the flat form that lets its session
/// be named in each request.
pub proof fn lemma_attach_names_the_target(target_id: Seq<char>)
    ensures
        attach_params(target_id) matches Json::Object(params) && params.dom() == set![
            "targetId"@,
            "flatten"@,
        ] && params["targetId"@] == Json::Text(target_id) && params["flatten"@] == Json::Bool(true),
{
    reveal_strlit("targetId");
    reveal_strlit("flatten");
    assert("targetId"@.len() == 8 && "flatten"@.len() == 7);
    let params = attach_params(target_id)->Object_0;
    assert(params.dom() =~= set!["targetId"@, "flatten"@]);
}

/// The browser keeps to the given profile directory, whatever its path, and picks its own port.
pub proof fn lemma_arguments_keep_to_the_profile(profile_dir: Seq<char>)
    ensures
        argument_texts(profile_dir).contains("--user-data-dir="@ + profile_dir),
        argument_texts(profile_dir).contains("--remote-debugging-port=0"@),
        argument_texts(profile_dir).contains("--no-first-run"@),
        argument_texts(profile_dir).contains("--no-default-browser-check"@),
        argument_texts(profile_dir).last() == "about:blank"@,
        argument_texts(profile_dir).len() == 5,
{
    let arguments = argument_texts(profile_dir);
    assert(arguments[0] == "--remote-debugging-port=0"@);
    assert(arguments[1] == "--user-data-dir="@ + profile_dir);
    assert(arguments[2] == "--no-first-run"@);
    assert(arguments[3] == "--no-default-browser-check"@);
}

/// Each stage is the call of its own method, so that an error names the call that failed: a target is
/// created, then attached to, then its network domain is enabled.
pub proof fn lemma_stages_call_their_methods(stage: StageView, reply: Result<Json, ErrorView>)
    ensures
        StageView::CreateTarget.method() == "Target.createTarget"@,
        StageView::AttachToTarget.method() == "Target.attachToTarget"@,
        stage is EnableNetwork ==> stage.method() == "Network.enable"@,
        stage.next(reply) matches Ok(StepView::Call { stage: further, method, .. }) ==> {
            &&& method == further.method()
            &&& stage is CreateTarget ==> further is AttachToTarget
            &&& stage is AttachToTarget ==> further is EnableNetwork
            &&& stage !is EnableNetwork
        },
        stage.next(reply) matches Ok(StepView::Connected { session_id }) ==> stage == (
        StageView::EnableNetwork { session_id }),
{
}

} // verus!
