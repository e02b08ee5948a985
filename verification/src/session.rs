//! A capture session: how it is launched, read, waited on and torn down.
//!
//! What touches the system - processes, files, sockets, clocks - stays outside. A launch hands out
//! one task at a time and goes on from its result, so that a launch that fails has given back
//! everything it took.
use vstd::prelude::*;
use vstd::string::*;

use serde_json::Error as JsonError;
use serde_json::Value;
use std::path::PathBuf;
use std::time::Duration;

use crate::browser::Browser;
use crate::browser::DefaultBrowser;
use crate::browser::DefaultBrowserView;
use crate::browser::Engine;
use crate::browser::engine_of;
use crate::chrome;
use crate::chrome::Endpoint;
use crate::chrome::Look;
use crate::cookie::Cookie;
use crate::cookie::CookieView;
use crate::discover::Answers;
use crate::discover::Find;
use crate::discover::Found;
use crate::discover::Probe;
use crate::discover::ProbeView;
use crate::discover::binary_for;
use crate::error::Error;
use crate::error::ErrorView;
use crate::error::IoKind;
use crate::error::io_kind;
use crate::error::kind_of_failure;
use crate::firefox;
use crate::firefox::Argument;
use crate::firefox::ArgumentView;
use crate::firefox::Attempt;
use crate::firefox::Retry;
use crate::firefox::argument_views;
use crate::firefox::seen_cookies;
use crate::json;
use crate::json::Json;
use crate::snapshot::cookies_stable;
use crate::snapshot::settled;
use crate::snapshot::views;
use crate::text;
use crate::transport::Pending;
use crate::transport::Wire;
use crate::transport::command_entries;
use crate::transport::frame_text;
use crate::transport::lemma_command_holds_what_it_is_given;
use crate::transport::seen_json;

verus! {

/// How long to pause between two reads while a cookie is awaited, in milliseconds.
pub const POLL_PAUSE_MILLIS: u64 = 500;

/// How long a browser's remote endpoint is waited for unless the caller says otherwise, in seconds.
pub const DEFAULT_STARTUP_SECONDS: u64 = 20;

// --- Options. ---------------------------------------------------------------------------------

/// The duration of a whole number of seconds.
pub uninterp spec fn whole_seconds(seconds: u64) -> Duration;

/// `Duration::from_secs`: the duration of a whole number of seconds.
pub assume_specification[ std::time::Duration::from_secs ](seconds: u64) -> (r:
    std::time::Duration)
    ensures
        r == whole_seconds(seconds),
;

/// How to launch a browser for capture.
#[derive(Debug)]
#[non_exhaustive]
pub struct LaunchOptions {
    /// Which browser and remote protocol to drive.
    pub engine: Engine,
    /// URL opened in the browser for the interactive login.
    pub login_url: String,
    /// How long to wait for the browser's remote endpoint to come up.
    pub startup_timeout: Duration,
    /// Explicit path to the browser executable. When `None`, the binary is discovered from
    /// [`engine`](LaunchOptions::engine).
    pub browser_path: Option<PathBuf>,
}

impl Clone for LaunchOptions {
    fn clone(&self) -> (r: Self)
        ensures
            r == *self,
    {
        LaunchOptions {
            engine: self.engine,
            login_url: self.login_url.clone(),
            startup_timeout: self.startup_timeout,
            browser_path: match &self.browser_path {
                Some(path) => Some(path.clone()),
                None => None,
            },
        }
    }
}

impl LaunchOptions {
    /// Build options for `engine` opening `login_url`, discovering the binary by engine, with the
    /// default startup timeout.
    #[must_use]
    pub fn new(engine: Engine, login_url: String) -> (r: Self)
        ensures
            r == (LaunchOptions {
                engine,
                login_url,
                startup_timeout: whole_seconds(DEFAULT_STARTUP_SECONDS),
                browser_path: None,
            }),
    {
        LaunchOptions {
            engine,
            login_url,
            startup_timeout: Duration::from_secs(DEFAULT_STARTUP_SECONDS),
            browser_path: None,
        }
    }

    /// Build options that launch a specific discovered [`Browser`] (its engine and executable
    /// path), opening `login_url`, with the default startup timeout.
    #[must_use]
    pub fn for_browser(browser: &Browser, login_url: String) -> (r: Self)
        ensures
            r == (LaunchOptions {
                engine: engine_of(browser.kind),
                login_url,
                startup_timeout: whole_seconds(DEFAULT_STARTUP_SECONDS),
                browser_path: Some(browser.path),
            }),
    {
        LaunchOptions {
            engine: browser.engine(),
            login_url,
            startup_timeout: Duration::from_secs(DEFAULT_STARTUP_SECONDS),
            browser_path: Some(browser.path.clone()),
        }
    }
}

/// Whether a URL is one of the web: `http://` or `https://`.
pub open spec fn http_url(url: Seq<char>) -> bool {
    "http://"@.is_prefix_of(url) || "https://"@.is_prefix_of(url)
}

/// Whether a URL is one of the web.
pub fn is_http_url(url: &str) -> (r: bool)
    ensures
        r == http_url(url@),
{
    text::starts_with(url, "http://") || text::starts_with(url, "https://")
}

/// The name of the throwaway profile directory of a launch: one launch of a process is told from
/// another by its number.
pub open spec fn launch_profile(process_id: u32, launch: u64) -> Seq<char> {
    "cookie-snatch-"@ + text::decimal(process_id as nat) + "-"@ + text::decimal(launch as nat)
}

/// The name of the throwaway profile directory of a launch.
pub fn profile_name(process_id: u32, launch: u64) -> (r: String)
    ensures
        r@ == launch_profile(process_id, launch),
{
    let mut name: String = "cookie-snatch-".to_owned();
    name.append(text::to_decimal(process_id as u64).as_str());
    name.append("-");
    name.append(text::to_decimal(launch).as_str());
    name
}

/// The launches of a process: each is given a number of its own.
pub struct Launches {
    next: u64,
}

impl Launches {
    /// The number of the next launch.
    pub closed spec fn next(&self) -> u64 {
        self.next
    }

    /// The names that were handed out in a process.
    pub open spec fn handed(&self, process_id: u32) -> Set<Seq<char>> {
        Set::new(|name: Seq<char>| is_numbered(name, process_id, numbers_below(self.next())))
    }

    /// No launch yet.
    pub fn new() -> (r: Self)
        ensures
            r.next() == 0,
    {
        Launches { next: 0 }
    }

    /// Whether the launch numbers are used up.
    pub fn is_exhausted(&self) -> (r: bool)
        ensures
            r == (self.next() == u64::MAX),
    {
        self.next == u64::MAX
    }

    /// The name of a profile directory that was never handed out before in this process.
    pub fn next_profile(&mut self, process_id: u32) -> (r: String)
        requires
            old(self).next() < u64::MAX,
        ensures
            r@ == launch_profile(process_id, old(self).next()),
            final(self).next() == old(self).next() + 1,
            !old(self).handed(process_id).contains(r@),
            final(self).handed(process_id) == old(self).handed(process_id).insert(r@),
    {
        let name: String = profile_name(process_id, self.next);
        let ghost number = self.next;
        self.next = self.next + 1;
        proof {
            lemma_handed_grows(process_id, number);
            assert(final(self).handed(process_id) =~= old(self).handed(process_id).insert(name@));
        }
        name
    }
}

/// The launch numbers below `next`.
pub open spec fn numbers_below(next: u64) -> Set<u64> {
    Set::new(|n: u64| n < next)
}

/// Whether a name is that of a launch of this process with one of these numbers.
pub open spec fn is_numbered(name: Seq<char>, process_id: u32, numbers: Set<u64>) -> bool {
    exists|n: u64| #[trigger] numbers.contains(n) && name == launch_profile(process_id, n)
}

/// One more number is one more name, and a new one.
proof fn lemma_handed_grows(process_id: u32, number: u64)
    requires
        number < u64::MAX,
    ensures
        !is_numbered(launch_profile(process_id, number), process_id, numbers_below(number)),
        forall|name: Seq<char>| #[trigger]
            is_numbered(name, process_id, numbers_below((number + 1) as u64)) <==> (
            is_numbered(name, process_id, numbers_below(number)) || name
                == launch_profile(process_id, number)),
{
    let before = numbers_below(number);
    let after = numbers_below((number + 1) as u64);
    if is_numbered(launch_profile(process_id, number), process_id, before) {
        let n = choose|n: u64| #[trigger]
            before.contains(n) && launch_profile(process_id, number) == launch_profile(
                process_id,
                n,
            );
        lemma_launches_have_their_own_profile(process_id, number, process_id, n);
    }
    assert forall|name: Seq<char>| #[trigger] is_numbered(name, process_id, after) <==> (
    is_numbered(name, process_id, before) || name == launch_profile(process_id, number)) by {
        if is_numbered(name, process_id, after) {
            let n = choose|n: u64| #[trigger]
                after.contains(n) && name == launch_profile(process_id, n);
            if n != number {
                assert(before.contains(n));
            }
        }
        if is_numbered(name, process_id, before) {
            let n = choose|n: u64| #[trigger]
                before.contains(n) && name == launch_profile(process_id, n);
            assert(after.contains(n));
        }
        assert(after.contains(number));
    }
}

// --- The live connection. ---------------------------------------------------------------------

/// The live connection to a browser.
pub enum Backend {
    /// Over the `DevTools` protocol, attached to a session.
    Chrome {
        /// The request counter of the connection.
        wire: Wire,
        /// The session that cookies are read in.
        session_id: String,
    },
    /// Over `WebDriver BiDi`.
    Firefox {
        /// The request counter of the connection.
        wire: Wire,
    },
}

/// The command that a backend sends, without its id.
pub enum BackendCommand {
    Cookies,
    Close,
}

impl Backend {
    /// The id of the latest request of the connection.
    pub open spec fn last_id(&self) -> u64 {
        match *self {
            Backend::Chrome { wire, .. } => wire.last_id(),
            Backend::Firefox { wire } => wire.last_id(),
        }
    }

    /// Whether two states of a connection belong to the same session.
    pub open spec fn same_session(&self, other: &Backend) -> bool {
        match (*self, *other) {
            (
                Backend::Chrome { session_id: ours, .. },
                Backend::Chrome { session_id: theirs, .. },
            ) => ours == theirs,
            (Backend::Firefox { .. }, Backend::Firefox { .. }) => true,
            _ => false,
        }
    }

    /// The entries of a command to the browser.
    pub open spec fn entries(&self, command: BackendCommand) -> Map<Seq<char>, Json> {
        let none = Json::Object(Map::empty());
        match (*self, command) {
            (Backend::Chrome { session_id, .. }, BackendCommand::Cookies) => chrome::call_entries(
                "Network.getAllCookies"@,
                none,
                Some(session_id@),
            ),
            (Backend::Chrome { .. }, BackendCommand::Close) => chrome::call_entries(
                "Browser.close"@,
                none,
                None,
            ),
            (Backend::Firefox { .. }, BackendCommand::Cookies) => command_entries(
                "storage.getCookies"@,
                none,
                None,
            ),
            (Backend::Firefox { .. }, BackendCommand::Close) => command_entries(
                "browser.close"@,
                none,
                None,
            ),
        }
    }

    /// The request that reads the cookies.
    pub fn cookies(&mut self) -> (r: Pending)
        requires
            old(self).last_id() < u64::MAX,
        ensures
            final(self).last_id() == old(self).last_id() + 1,
            final(self).same_session(old(self)),
            r.id() == final(self).last_id(),
            r.text() == frame_text(old(self).entries(BackendCommand::Cookies), r.id()),
    {
        match self {
            Backend::Chrome { wire, session_id } => chrome::cookies(wire, session_id.as_str()),
            Backend::Firefox { wire } => firefox::cookies(wire),
        }
    }

    /// The request that closes the browser. Whether and how it is answered does not matter: the
    /// socket may drop first.
    pub fn close(&mut self) -> (r: Pending)
        requires
            old(self).last_id() < u64::MAX,
        ensures
            final(self).last_id() == old(self).last_id() + 1,
            final(self).same_session(old(self)),
            r.id() == final(self).last_id(),
            r.text() == frame_text(old(self).entries(BackendCommand::Close), r.id()),
    {
        match self {
            Backend::Chrome { wire, .. } => chrome::close(wire),
            Backend::Firefox { wire } => firefox::close(wire),
        }
    }
}

// --- Launching. -------------------------------------------------------------------------------

/// The environment variable that can point at the binary for an engine.
pub open spec fn override_variable(engine: Engine) -> Seq<char> {
    match engine {
        Engine::Chrome => "CHROME"@,
        Engine::Firefox => "FIREFOX"@,
    }
}

/// What the browser for an engine is called.
pub open spec fn browser_name(engine: Engine) -> Seq<char> {
    match engine {
        Engine::Chrome => "chrome"@,
        Engine::Firefox => "firefox"@,
    }
}

/// How the remote endpoint of a browser is found.
#[derive(Clone, Copy, Debug, PartialEq, Eq, Structural)]
pub enum Drive {
    /// Chrome picks a port and writes it into its profile directory.
    Chrome,
    /// Firefox is told the port.
    Firefox {
        /// The port its remote agent listens on.
        port: u16,
    },
}

/// The binary is looked for; a question is open.
pub struct Resolve {
    /// What to launch.
    pub options: LaunchOptions,
    /// The search.
    pub find: Find,
}

/// A free port is to be reserved for the browser.
pub struct ReservePort {
    /// What to launch.
    pub options: LaunchOptions,
    /// The browser's binary.
    pub program: PathBuf,
}

/// The profile directory is to be created, for the current user alone.
pub struct CreateProfile {
    /// What to launch.
    pub options: LaunchOptions,
    /// The browser's binary.
    pub program: PathBuf,
    /// How its endpoint will be found.
    pub drive: Drive,
}

/// The browser is to be started.
pub struct Spawn {
    /// What to launch.
    pub options: LaunchOptions,
    /// The browser's binary.
    pub program: PathBuf,
    /// How its endpoint will be found.
    pub drive: Drive,
    /// The name of the profile directory that was created.
    pub profile: String,
}

/// The browser's remote endpoint is to be found and connected to.
pub struct Connect {
    /// What to launch.
    pub options: LaunchOptions,
    /// How its endpoint is found.
    pub drive: Drive,
    /// The name of its profile directory.
    pub profile: String,
}

/// The conversation that opens the login page, in the protocol of the browser.
pub enum Conversation {
    /// Over the `DevTools` protocol.
    Chrome(chrome::Connecting),
    /// Over `WebDriver BiDi`.
    Firefox(firefox::Connecting),
}

/// The login page is being opened: a request is to be sent and its reply awaited.
pub struct Open {
    /// The conversation, with a request in flight.
    pub talk: Conversation,
    /// The name of the browser's profile directory.
    pub profile: String,
}

/// What to do to reach the remote endpoint of a browser.
pub enum Reach {
    /// Read this file of the profile directory, which names the endpoint once it is up.
    PortFile(&'static str),
    /// Connect to this address.
    Dial(String),
}

/// What to do to give something back. Whether it succeeds does not matter.
#[derive(Clone, Copy, Debug, PartialEq, Eq, Structural)]
pub enum Cleanup {
    /// Ask the browser to close.
    Close,
    /// Kill the browser.
    Kill,
    /// Wait for the browser's end.
    Wait,
    /// Remove the profile directory.
    RemoveProfile,
}

/// Something is to be given back before the launch fails.
pub struct Abandon {
    /// What to do next.
    pub cleanup: Cleanup,
    /// What went wrong.
    pub error: Error,
    /// The name of the profile directory that was created.
    pub profile: String,
}

/// Where a launch stands: the task that is next, or its end.
pub enum Launch {
    /// Answer a question of the search for the binary.
    Resolve(Resolve),
    /// Reserve a free port.
    ReservePort(ReservePort),
    /// Create the profile directory.
    CreateProfile(CreateProfile),
    /// Start the browser.
    Spawn(Spawn),
    /// Connect to the browser.
    Connect(Connect),
    /// Send a request that helps to open the login page, and await its reply.
    Open(Open),
    /// Give something back.
    Abandon(Abandon),
    /// The launch is over.
    Done(Result<Session, Error>),
}

/// What a launch holds of the system.
pub struct Held {
    /// The name of the profile directory that was created and not yet removed.
    pub profile: Option<Seq<char>>,
    /// The browser was started and its end was not yet waited for.
    pub child: bool,
}

/// What a task did to the system.
pub enum Effect {
    /// Nothing that has to be given back.
    Nothing,
    /// The profile directory of this name was created.
    ProfileCreated(Seq<char>),
    /// The browser was started.
    Started,
    /// The browser's end was waited for.
    Reaped,
    /// The profile directory of this name was removed.
    ProfileRemoved(Seq<char>),
}

impl Held {
    /// What is held after a task.
    pub open spec fn after(self, effect: Effect) -> Held {
        match effect {
            Effect::Nothing => self,
            Effect::ProfileCreated(name) => Held { profile: Some(name), ..self },
            Effect::Started => Held { child: true, ..self },
            Effect::Reaped => Held { child: false, ..self },
            Effect::ProfileRemoved(name) => if self.profile == Some(name) {
                Held { profile: None, ..self }
            } else {
                self
            },
        }
    }
}

/// What a task of a launch came to.
pub enum Outcome {
    /// The question was answered.
    Answered(Option<PathBuf>),
    /// A port was reserved, or that failed.
    Port(Result<u16, std::io::Error>),
    /// The profile directory of this name was created, or that failed.
    Created {
        /// The name.
        profile: String,
        /// Whether it was created anew.
        result: Result<(), std::io::Error>,
    },
    /// The browser was started, or that failed.
    Spawned(Result<(), std::io::Error>),
    /// The endpoint was connected to, or that failed.
    Reached(Result<(), Error>),
    /// The reply to a request, or the error in its place.
    Replied(Result<Value, Error>),
    /// A cleanup task was done.
    Cleaned,
}

/// Nothing is held.
pub open spec fn nothing_held() -> Held {
    Held { profile: None, child: false }
}

/// The profile directory of this name and a running browser are held.
pub open spec fn all_held(profile: Seq<char>) -> Held {
    Held { profile: Some(profile), child: true }
}

/// What a cleanup task does to the system, where `profile` is the name of the profile directory.
pub open spec fn cleanup_effect(cleanup: Cleanup, profile: Seq<char>) -> Effect {
    match cleanup {
        Cleanup::Close => Effect::Nothing,
        Cleanup::Kill => Effect::Nothing,
        Cleanup::Wait => Effect::Reaped,
        Cleanup::RemoveProfile => Effect::ProfileRemoved(profile),
    }
}

impl Launch {
    /// What the launch holds of the system: from the creation of the profile directory on that
    /// directory, and from the start of the browser on the browser. A launch that failed holds
    /// nothing.
    pub open spec fn held(self) -> Held {
        match self {
            Launch::Resolve(_) => nothing_held(),
            Launch::ReservePort(_) => nothing_held(),
            Launch::CreateProfile(_) => nothing_held(),
            Launch::Spawn(step) => Held { profile: Some(step.profile@), child: false },
            Launch::Connect(step) => all_held(step.profile@),
            Launch::Open(step) => all_held(step.profile@),
            Launch::Abandon(step) => match step.cleanup {
                Cleanup::RemoveProfile => Held { profile: Some(step.profile@), child: false },
                _ => all_held(step.profile@),
            },
            Launch::Done(Ok(session)) => all_held(session.profile()),
            Launch::Done(Err(_)) => nothing_held(),
        }
    }

    /// How many tasks are left at most, where no name of a profile directory is taken.
    pub open spec fn remaining(self) -> nat {
        match self {
            Launch::Resolve(step) => 11 + step.find.remaining(),
            Launch::ReservePort(_) => 10,
            Launch::CreateProfile(_) => 9,
            Launch::Spawn(_) => 8,
            Launch::Connect(_) => 7,
            Launch::Open(step) => step.talk.remaining(),
            Launch::Abandon(abandon) => match abandon.cleanup {
                Cleanup::Close => 4,
                Cleanup::Kill => 3,
                Cleanup::Wait => 2,
                Cleanup::RemoveProfile => 1,
            },
            Launch::Done(_) => 0,
        }
    }

    /// Whether the launch goes on with this binary: Firefox needs a port first, Chrome its profile
    /// directory.
    pub open spec fn goes_on_with(self, options: LaunchOptions, program: PathBuf) -> bool {
        match options.engine {
            Engine::Chrome => self == Launch::CreateProfile(
                CreateProfile { options, program, drive: Drive::Chrome },
            ),
            Engine::Firefox => self == Launch::ReservePort(ReservePort { options, program }),
        }
    }

    /// Whether the launch goes from here to `next` where its task came to `outcome`.
    pub open spec fn steps_to(self, outcome: Outcome, next: Launch) -> bool {
        match (self, outcome) {
            (Launch::Resolve(step), Outcome::Answered(answer)) => forall|answers: Answers|
                #![trigger step.find.outcome(answers)]
                answers(step.find.question()) == answer ==> (match next {
                    Launch::Resolve(further) => {
                        &&& further.options == step.options
                        &&& further.find.outcome(answers) == step.find.outcome(answers)
                    },
                    Launch::Done(result) => result matches Err(error) && step.find.outcome(answers)
                        == Err::<PathBuf, ErrorView>(error@),
                    _ => step.find.outcome(answers) matches Ok(program) && next.goes_on_with(
                        step.options,
                        program,
                    ),
                }),
            (Launch::ReservePort(step), Outcome::Port(Ok(port))) => next == Launch::CreateProfile(
                CreateProfile {
                    options: step.options,
                    program: step.program,
                    drive: Drive::Firefox { port },
                },
            ),
            (Launch::ReservePort(_), Outcome::Port(Err(error))) => next == Launch::Done(
                Err(Error::Io(error)),
            ),
            (Launch::CreateProfile(step), Outcome::Created { profile, result }) => match result {
                Ok(_) => next matches Launch::Spawn(spawn) && spawn.options == step.options
                    && spawn.program == step.program && spawn.drive == step.drive
                    && spawn.profile@ == profile@,
                Err(error) => next == step.not_created(
                    error,
                    io_kind(error) == IoKind::AlreadyExists,
                ),
            },
            (Launch::Spawn(step), Outcome::Spawned(Ok(_))) => next == Launch::Connect(
                Connect { options: step.options, drive: step.drive, profile: step.profile },
            ),
            (Launch::Spawn(step), Outcome::Spawned(Err(error))) => next == Launch::Abandon(
                Abandon {
                    cleanup: Cleanup::RemoveProfile,
                    error: Error::Launch(error),
                    profile: step.profile,
                },
            ),
            (Launch::Connect(step), Outcome::Reached(Ok(_))) => next matches Launch::Open(open)
                && open.talk.begins(step.drive, step.options.login_url@) && open.profile
                == step.profile,
            (Launch::Connect(step), Outcome::Reached(Err(error))) => next == Launch::Abandon(
                Abandon { cleanup: Cleanup::Kill, error, profile: step.profile },
            ),
            (Launch::Open(step), Outcome::Replied(frame)) => step.steps_to(seen_json(frame), next),
            (Launch::Abandon(step), Outcome::Cleaned) => next == step.next(),
            _ => false,
        }
    }

    /// Whether the browser and the profile directory are given back from here on, and the launch
    /// then fails with `error`.
    pub open spec fn abandons_with(self, error: ErrorView, profile: String) -> bool {
        &&& self matches Launch::Abandon(step)
        &&& step.cleanup == Cleanup::Kill
        &&& step.error@ == error
        &&& step.profile == profile
    }

    /// What a task that came to `outcome` did to the system.
    pub open spec fn effect(self, outcome: Outcome) -> Effect {
        match (self, outcome) {
            (Launch::CreateProfile(_), Outcome::Created { profile, result: Ok(_) }) => {
                Effect::ProfileCreated(profile@)
            },
            (Launch::Spawn(_), Outcome::Spawned(Ok(_))) => Effect::Started,
            (Launch::Abandon(step), Outcome::Cleaned) => cleanup_effect(
                step.cleanup,
                step.profile@,
            ),
            _ => Effect::Nothing,
        }
    }

    fn with_binary(options: LaunchOptions, program: PathBuf) -> (r: Launch)
        ensures
            r.goes_on_with(options, program),
    {
        match options.engine {
            Engine::Chrome => Launch::CreateProfile(
                CreateProfile { options, program, drive: Drive::Chrome },
            ),
            Engine::Firefox => Launch::ReservePort(ReservePort { options, program }),
        }
    }
}

impl Conversation {
    /// Whether this is the start of opening `login_url` over a fresh connection, in the protocol
    /// that the browser is driven by.
    pub open spec fn begins(self, drive: Drive, login_url: Seq<char>) -> bool {
        match (drive, self) {
            (Drive::Chrome, Conversation::Chrome(talk)) => talk.begins(login_url),
            (Drive::Firefox { .. }, Conversation::Firefox(talk)) => talk.begins(login_url),
            _ => false,
        }
    }

    /// How many tasks are left at most.
    pub open spec fn remaining(self) -> nat {
        match self {
            Conversation::Chrome(talk) => match talk.stage() {
                chrome::StageView::CreateTarget => 6,
                chrome::StageView::AttachToTarget => 5,
                chrome::StageView::EnableNetwork { .. } => 4,
            },
            Conversation::Firefox(talk) => match talk.stage() {
                firefox::Stage::NewSession => 6,
                firefox::Stage::GetTree => 5,
                firefox::Stage::Navigate => 4,
            },
        }
    }
}

impl Open {
    /// Whether the launch goes on to `next` where this is the reply to the request in flight, or the
    /// error in its place: with the next request of the same conversation, with a session over the
    /// connection once the page is open, or with giving everything back.
    pub open spec fn steps_to(self, frame: Result<Json, ErrorView>, next: Launch) -> bool {
        match self.talk {
            Conversation::Chrome(talk) => match talk.stage().next(frame) {
                Err(error) => next.abandons_with(error, self.profile),
                Ok(chrome::StepView::Connected { session_id }) => {
                    &&& next matches Launch::Done(Ok(session))
                    &&& session.profile() == self.profile@
                    &&& session.backend() matches Backend::Chrome { wire, session_id: ours }
                    &&& wire.last_id() == talk.id()
                    &&& ours@ == session_id
                },
                Ok(chrome::StepView::Call { stage, method, params, session }) => {
                    &&& next matches Launch::Open(open)
                    &&& open.profile == self.profile
                    &&& open.talk matches Conversation::Chrome(further)
                    &&& further.calls(stage, method, params, session, talk.id())
                },
            },
            Conversation::Firefox(talk) => match talk.stage().next(frame, talk.login_url()) {
                Err(error) => next.abandons_with(error, self.profile),
                Ok(firefox::StepView::Connected) => {
                    &&& next matches Launch::Done(Ok(session))
                    &&& session.profile() == self.profile@
                    &&& session.backend() matches Backend::Firefox { wire }
                    &&& wire.last_id() == talk.id()
                },
                Ok(firefox::StepView::Call { stage, method, params }) => {
                    &&& next matches Launch::Open(open)
                    &&& open.profile == self.profile
                    &&& open.talk matches Conversation::Firefox(further)
                    &&& further.calls(stage, method, params, talk.id(), talk.login_url())
                },
            },
        }
    }
}

impl Abandon {
    /// Where the launch goes once the cleanup task is done: the browser is killed, its end is waited
    /// for, the profile directory is removed, and the launch fails.
    pub open spec fn next(self) -> Launch {
        match self.cleanup {
            Cleanup::Close => Launch::Abandon(Abandon { cleanup: Cleanup::Kill, ..self }),
            Cleanup::Kill => Launch::Abandon(Abandon { cleanup: Cleanup::Wait, ..self }),
            Cleanup::Wait => Launch::Abandon(Abandon { cleanup: Cleanup::RemoveProfile, ..self }),
            Cleanup::RemoveProfile => Launch::Done(Err(self.error)),
        }
    }
}

impl CreateProfile {
    /// Where the launch goes from here if the directory was not created: one that is there already
    /// belongs to someone else, so another name is tried.
    pub open spec fn not_created(self, error: std::io::Error, taken: bool) -> Launch {
        if taken {
            Launch::CreateProfile(self)
        } else {
            Launch::Done(Err(Error::Io(error)))
        }
    }
}

/// The explicit override when set, else the search for the binary of the engine.
pub fn resolve_binary(options: &LaunchOptions) -> (r: Launch)
    ensures
        r.held() == nothing_held(),
        match options.browser_path {
            Some(path) => r.goes_on_with(*options, path),
            None => {
                &&& r matches Launch::Resolve(step)
                &&& step.options == *options
                &&& forall|answers: Answers| #[trigger]
                    step.find.outcome(answers) == binary_for(
                        options.engine,
                        override_variable(options.engine),
                        browser_name(options.engine),
                        answers,
                    )
            },
        },
{
    match &options.browser_path {
        Some(path) => Launch::with_binary(options.clone(), path.clone()),
        None => {
            let find: Find = match options.engine {
                Engine::Chrome => chrome::find(),
                Engine::Firefox => firefox::find(),
            };
            Launch::Resolve(Resolve { options: options.clone(), find })
        },
    }
}

impl Resolve {
    /// The open question of the search.
    pub fn probe(&self) -> (r: Probe)
        ensures
            r@ == self.find.question(),
    {
        self.find.probe()
    }

    /// Go on from the answer to the open question. A search that finds no binary ends the launch.
    pub fn resume(self, answer: Option<PathBuf>) -> (r: Launch)
        ensures
            Launch::Resolve(self).steps_to(Outcome::Answered(answer), r),
            r.remaining() < Launch::Resolve(self).remaining(),
    {
        let ghost asked = self.find;
        let r: Found = self.find.resume(answer);
        proof {
            assert forall|answers: Answers| answers(asked.question()) == answer implies r.outcome(
                answers,
            ) == #[trigger] asked.outcome(answers) by {}
        }
        match r {
            Found::Asking(find) => {
                proof {
                    assert(Found::Asking(find).remaining() == find.remaining());
                    assert forall|answers: Answers| answers(asked.question())
                        == answer implies #[trigger] find.outcome(answers) == asked.outcome(
                        answers,
                    ) by {
                        assert(r.outcome(answers) == find.outcome(answers));
                    }
                }
                Launch::Resolve(Resolve { options: self.options, find })
            },
            Found::Done(Ok(program)) => Launch::with_binary(self.options, program),
            Found::Done(Err(error)) => Launch::Done(Err(error)),
        }
    }
}

impl ReservePort {
    /// Go on with the reserved port, or with the error that reserving one gave.
    pub fn resume(self, port: Result<u16, std::io::Error>) -> (r: Launch)
        ensures
            Launch::ReservePort(self).steps_to(Outcome::Port(port), r),
            r.remaining() < Launch::ReservePort(self).remaining(),
    {
        match port {
            Ok(port) => Launch::CreateProfile(
                CreateProfile {
                    options: self.options,
                    program: self.program,
                    drive: Drive::Firefox { port },
                },
            ),
            Err(error) => Launch::Done(Err(Error::Io(error))),
        }
    }
}

impl CreateProfile {
    /// Go on once the directory named `profile` is created, or from the error that creating it gave.
    /// A name that is taken leads back here: the directory is then to be created under another.
    pub fn resume(self, profile: String, created: Result<(), std::io::Error>) -> (r: Launch)
        ensures
            Launch::CreateProfile(self).steps_to(Outcome::Created { profile, result: created }, r),
            !(created matches Err(error) && io_kind(error) == IoKind::AlreadyExists)
                ==> r.remaining() < Launch::CreateProfile(self).remaining(),
    {
        match created {
            Ok(_) => Launch::Spawn(
                Spawn {
                    options: self.options,
                    program: self.program,
                    drive: self.drive,
                    profile,
                },
            ),
            Err(error) => {
                let taken: bool = kind_of_failure(&error) == IoKind::AlreadyExists;
                self.failed(error, taken)
            },
        }
    }

    /// Go on from the error that creating the profile directory gave, and whether it was that the
    /// name is taken.
    pub fn failed(self, error: std::io::Error, taken: bool) -> (r: Launch)
        ensures
            r == self.not_created(error, taken),
    {
        if taken {
            Launch::CreateProfile(self)
        } else {
            Launch::Done(Err(Error::Io(error)))
        }
    }
}

impl Spawn {
    /// The arguments of the browser, where `profile_dir` is the text of the path of its profile
    /// directory.
    pub fn arguments(&self, profile_dir: &str) -> (r: Vec<Argument>)
        ensures
            argument_views(r@) == (match self.drive {
                Drive::Chrome => chrome::argument_texts(profile_dir@).map_values(
                    |text: Seq<char>| ArgumentView::Text(text),
                ),
                Drive::Firefox { port } => firefox::arguments_for(port),
            }),
    {
        match self.drive {
            Drive::Firefox { port } => firefox::arguments(port),
            Drive::Chrome => {
                let texts: Vec<String> = chrome::arguments(profile_dir);
                let ghost wanted = chrome::argument_texts(profile_dir@).map_values(
                    |text: Seq<char>| ArgumentView::Text(text),
                );
                let mut arguments: Vec<Argument> = Vec::new();
                let mut i: usize = 0;
                while i < texts.len()
                    invariant
                        i <= texts@.len(),
                        chrome::texts(texts@) == chrome::argument_texts(profile_dir@),
                        wanted == chrome::argument_texts(profile_dir@).map_values(
                            |text: Seq<char>| ArgumentView::Text(text),
                        ),
                        argument_views(arguments@) =~= wanted.take(i as int),
                    decreases texts.len() - i,
                {
                    let ghost before = argument_views(arguments@);
                    arguments.push(Argument::Text(texts[i].clone()));
                    proof {
                        assert(chrome::texts(texts@)[i as int] == texts@[i as int]@);
                        assert(argument_views(arguments@) =~= before.push(wanted[i as int]));
                        assert(wanted.take(i + 1) =~= wanted.take(i as int).push(
                            wanted[i as int],
                        ));
                    }
                    i += 1;
                }
                proof {
                    assert(wanted.take(i as int) =~= wanted);
                }
                arguments
            },
        }
    }

    /// Go on once the browser runs, or with the error that starting it gave: then the profile
    /// directory is removed first.
    pub fn resume(self, spawned: Result<(), std::io::Error>) -> (r: Launch)
        ensures
            Launch::Spawn(self).steps_to(Outcome::Spawned(spawned), r),
            r.remaining() < Launch::Spawn(self).remaining(),
    {
        match spawned {
            Ok(_) => Launch::Connect(
                Connect { options: self.options, drive: self.drive, profile: self.profile },
            ),
            Err(error) => Launch::Abandon(
                Abandon {
                    cleanup: Cleanup::RemoveProfile,
                    error: Error::Launch(error),
                    profile: self.profile,
                },
            ),
        }
    }
}

impl Connect {
    /// How the remote endpoint is reached: Chrome names it in a file, and Firefox was told it.
    pub fn reach(&self) -> (r: Reach)
        ensures
            match self.drive {
                Drive::Chrome => r matches Reach::PortFile(file) && file@ == "DevToolsActivePort"@,
                Drive::Firefox { port } => r matches Reach::Dial(url) && url@ == firefox::endpoint(
                    port,
                ),
            },
    {
        match self.drive {
            Drive::Chrome => Reach::PortFile(chrome::port_file()),
            Drive::Firefox { port } => Reach::Dial(firefox::ws_url(port)),
        }
    }

    /// Judge one look at the port file: its contents where it could be read, and whether the startup
    /// timeout has elapsed.
    pub fn looked(&self, contents: Option<&str>, elapsed: bool) -> (r: Endpoint)
        ensures
            match (contents, r) {
                (Some(text), Endpoint::Ready(url)) => chrome::endpoint(text@) == Some(url@),
                (None, Endpoint::Ready(_)) => false,
                (_, Endpoint::Pause { millis }) => !elapsed && millis
                    == chrome::ENDPOINT_PAUSE_MILLIS,
                (_, Endpoint::Failed(error)) => elapsed && error@ == ErrorView::EndpointTimeout(
                    self.options.startup_timeout,
                ),
            },
            r is Ready <==> (contents matches Some(text) && chrome::endpoint(text@) is Some),
            forall|later: Seq<Look>| #[trigger]
                r.outcome(self.options.startup_timeout, later) == chrome::awaited(
                    self.options.startup_timeout,
                    seq![Look { contents: chrome::seen_contents(contents), elapsed }] + later,
                ),
    {
        chrome::await_endpoint(contents, elapsed, self.options.startup_timeout)
    }

    /// Judge an attempt to connect that failed with `error`, and whether the startup timeout has
    /// elapsed. Chrome's endpoint is up once it is named, so its error stands; Firefox may not be
    /// listening yet.
    pub fn dial_failed(&self, error: Error, elapsed: bool) -> (r: Retry)
        ensures
            match self.drive {
                Drive::Chrome => r == Retry::Failed(error),
                Drive::Firefox { .. } => match r {
                    Retry::Pause { millis } => !elapsed && millis == firefox::CONNECT_PAUSE_MILLIS,
                    Retry::Failed(e) => elapsed && e@ == ErrorView::EndpointTimeout(
                        self.options.startup_timeout,
                    ),
                },
            },
            self.drive is Firefox ==> forall|later: Seq<Attempt>| #[trigger]
                r.outcome(self.options.startup_timeout, later) == firefox::attempted(
                    self.options.startup_timeout,
                    seq![Attempt { connected: false, elapsed }] + later,
                ),
    {
        match self.drive {
            Drive::Chrome => Retry::Failed(error),
            Drive::Firefox { .. } => firefox::connect_failed(elapsed, self.options.startup_timeout),
        }
    }

    /// Start opening the login page over the fresh connection, in the protocol of the browser.
    pub fn converse(&self) -> (r: Conversation)
        ensures
            r.begins(self.drive, self.options.login_url@),
    {
        match self.drive {
            Drive::Chrome => Conversation::Chrome(
                chrome::connect(self.options.login_url.as_str()),
            ),
            Drive::Firefox { .. } => Conversation::Firefox(
                firefox::connect(self.options.login_url.as_str()),
            ),
        }
    }

    /// Go on to open the login page once the endpoint is connected to, or give everything back
    /// where that gave an error.
    pub fn resume(self, reached: Result<(), Error>) -> (r: Launch)
        ensures
            Launch::Connect(self).steps_to(Outcome::Reached(reached), r),
            r.remaining() < Launch::Connect(self).remaining(),
    {
        match reached {
            Ok(_) => Launch::Open(Open { talk: self.converse(), profile: self.profile }),
            Err(error) => Launch::Abandon(
                Abandon { cleanup: Cleanup::Kill, error, profile: self.profile },
            ),
        }
    }
}

impl Open {
    /// The request in flight.
    pub fn pending(&self) -> (r: &Pending)
        ensures
            match self.talk {
                Conversation::Chrome(talk) => r.id() == talk.id() && r.text() == talk.text(),
                Conversation::Firefox(talk) => r.id() == talk.id() && r.text() == talk.text(),
            },
    {
        match &self.talk {
            Conversation::Chrome(talk) => talk.pending(),
            Conversation::Firefox(talk) => talk.pending(),
        }
    }

    /// Go on with the reply to the request in flight, or with the error in its place: once the page
    /// is open the launch ends with a session over this connection, and an error gives everything
    /// back.
    pub fn resume(self, frame: Result<Value, Error>) -> (r: Launch)
        ensures
            Launch::Open(self).steps_to(Outcome::Replied(frame), r),
            r.remaining() < Launch::Open(self).remaining(),
    {
        let profile: String = self.profile;
        match self.talk {
            Conversation::Chrome(talk) => match talk.resume(frame) {
                chrome::Connect::Calling(further) => Launch::Open(
                    Open { talk: Conversation::Chrome(further), profile },
                ),
                chrome::Connect::Done(Ok(connected)) => {
                    let (wire, session_id): (Wire, String) = connected.into_parts();
                    let backend: Backend = Backend::Chrome { wire, session_id };
                    Launch::Done(Ok(Session { backend, profile }))
                },
                chrome::Connect::Done(Err(error)) => Launch::Abandon(
                    Abandon { cleanup: Cleanup::Kill, error, profile },
                ),
            },
            Conversation::Firefox(talk) => match talk.resume(frame) {
                firefox::Connect::Calling(further) => Launch::Open(
                    Open { talk: Conversation::Firefox(further), profile },
                ),
                firefox::Connect::Done(Ok(wire)) => Launch::Done(
                    Ok(Session { backend: Backend::Firefox { wire }, profile }),
                ),
                firefox::Connect::Done(Err(error)) => Launch::Abandon(
                    Abandon { cleanup: Cleanup::Kill, error, profile },
                ),
            },
        }
    }
}

impl Abandon {
    /// Go on once the cleanup task is done.
    pub fn resume(self) -> (r: Launch)
        ensures
            Launch::Abandon(self).steps_to(Outcome::Cleaned, r),
            r.remaining() < Launch::Abandon(self).remaining(),
    {
        let cleanup: Cleanup = match self.cleanup {
            Cleanup::Close => Cleanup::Kill,
            Cleanup::Kill => Cleanup::Wait,
            Cleanup::Wait => Cleanup::RemoveProfile,
            Cleanup::RemoveProfile => {
                return Launch::Done(Err(self.error));
            },
        };
        Launch::Abandon(Abandon { cleanup, error: self.error, profile: self.profile })
    }
}

// --- The session. -----------------------------------------------------------------------------

/// A live browser instance in a throwaway profile.
pub struct Session {
    backend: Backend,
    profile: String,
}

/// What the reply to a read of the cookies gave.
pub enum CookiesReply {
    /// The cookies.
    Listed(Vec<Cookie>),
    /// A list that is still to be decoded into cookies: see [`Session::decoded`].
    Encoded(Value),
    /// The read failed.
    Failed(Error),
}

impl Session {
    /// The live connection.
    pub closed spec fn backend(&self) -> Backend {
        self.backend
    }

    /// The name of the session's profile directory.
    pub closed spec fn profile(&self) -> Seq<char> {
        self.profile@
    }

    /// The name of the session's profile directory.
    pub fn profile_name(&self) -> (r: &str)
        ensures
            r@ == self.profile(),
    {
        self.profile.as_str()
    }

    /// Launch the browser, open the login URL, and connect to its remote protocol. A URL that is
    /// none of the web is refused before anything else happens.
    pub fn launch(options: &LaunchOptions) -> (r: Launch)
        ensures
            r.held() == nothing_held(),
            r.serves(*options),
            if !http_url(options.login_url@) {
                r matches Launch::Done(Err(error)) && error@ == ErrorView::InvalidLoginUrl
            } else {
                match options.browser_path {
                    Some(path) => r.goes_on_with(*options, path),
                    None => {
                        &&& r matches Launch::Resolve(step)
                        &&& step.options == *options
                        &&& forall|answers: Answers| #[trigger]
                            step.find.outcome(answers) == binary_for(
                                options.engine,
                                override_variable(options.engine),
                                browser_name(options.engine),
                                answers,
                            )
                    },
                }
            },
    {
        if !is_http_url(options.login_url.as_str()) {
            return Launch::Done(Err(Error::InvalidLoginUrl));
        }
        resolve_binary(options)
    }

    /// Launch a capture session in the OS default web browser, opening `login_url`. A default that
    /// cannot be driven, or none, ends the launch.
    pub fn launch_default(default: DefaultBrowser, login_url: String) -> (r: Launch)
        ensures
            r.held() == nothing_held(),
            match default@ {
                DefaultBrowserView::Supported(browser) => if http_url(login_url@) {
                    r.goes_on_with(
                        LaunchOptions {
                            engine: engine_of(browser.kind),
                            login_url,
                            startup_timeout: whole_seconds(DEFAULT_STARTUP_SECONDS),
                            browser_path: Some(browser.path),
                        },
                        browser.path,
                    )
                } else {
                    r matches Launch::Done(Err(error)) && error@ == ErrorView::InvalidLoginUrl
                },
                DefaultBrowserView::Unsupported { name } => r matches Launch::Done(Err(error))
                    && error@ == (ErrorView::UnsupportedDefaultBrowser { name }),
                DefaultBrowserView::Unknown => r matches Launch::Done(Err(error)) && error@
                    == ErrorView::NoDefaultBrowser,
            },
    {
        match default {
            DefaultBrowser::Supported(browser) => Session::launch(
                &LaunchOptions::for_browser(&browser, login_url),
            ),
            DefaultBrowser::Unsupported { name } => Launch::Done(
                Err(Error::UnsupportedDefaultBrowser { name }),
            ),
            DefaultBrowser::Unknown => Launch::Done(Err(Error::NoDefaultBrowser)),
        }
    }

    /// Whether the request numbers are used up.
    pub fn is_exhausted(&self) -> (r: bool)
        ensures
            r == (self.backend().last_id() == u64::MAX),
    {
        match &self.backend {
            Backend::Chrome { wire, .. } => wire.is_exhausted(),
            Backend::Firefox { wire } => wire.is_exhausted(),
        }
    }

    /// The request that reads the cookies currently visible to the session.
    pub fn cookies(&mut self) -> (r: Pending)
        requires
            old(self).backend().last_id() < u64::MAX,
        ensures
            final(self).backend().last_id() == old(self).backend().last_id() + 1,
            final(self).backend().same_session(&old(self).backend()),
            final(self).profile() == old(self).profile(),
            r.id() == final(self).backend().last_id(),
            r.text() == frame_text(old(self).backend().entries(BackendCommand::Cookies), r.id()),
    {
        self.backend.cookies()
    }

    /// What the reply to a read of the cookies gives, or the error in its place.
    pub fn cookies_reply(&self, frame: Result<Value, Error>) -> (r: CookiesReply)
        ensures
            match frame {
                Err(error) => r == CookiesReply::Failed(error),
                Ok(frame) => match self.backend() {
                    Backend::Chrome { .. } => match chrome::cookie_list(json::content(frame)) {
                        Ok(list) => r matches CookiesReply::Encoded(value) && json::content(value)
                            == list,
                        Err(error) => r matches CookiesReply::Failed(e) && e@ == error,
                    },
                    Backend::Firefox { .. } => match firefox::cookie_list(json::content(frame)) {
                        Ok(list) => r matches CookiesReply::Listed(cookies) && views(cookies@)
                            == list,
                        Err(error) => r matches CookiesReply::Failed(e) && e@ == error,
                    },
                },
            },
    {
        let frame: Value = match frame {
            Ok(frame) => frame,
            Err(error) => {
                return CookiesReply::Failed(error);
            },
        };
        match &self.backend {
            Backend::Chrome { .. } => match chrome::listed_cookies(&frame) {
                Ok(list) => CookiesReply::Encoded(list),
                Err(error) => CookiesReply::Failed(error),
            },
            Backend::Firefox { .. } => match firefox::listed_cookies(&frame) {
                Ok(cookies) => CookiesReply::Listed(cookies),
                Err(error) => CookiesReply::Failed(error),
            },
        }
    }

    /// The cookies of a list that was still to be decoded, from what decoding it gave.
    pub fn decoded(decoded: Result<Vec<Cookie>, JsonError>) -> (r: Result<Vec<Cookie>, Error>)
        ensures
            r == (match decoded {
                Ok(cookies) => Ok(cookies),
                Err(error) => Err(Error::DecodeCookies(error)),
            }),
    {
        match decoded {
            Ok(cookies) => Ok(cookies),
            Err(error) => Err(Error::DecodeCookies(error)),
        }
    }

    /// The request that closes the browser.
    pub fn close(&mut self) -> (r: Pending)
        requires
            old(self).backend().last_id() < u64::MAX,
        ensures
            final(self).backend().last_id() == old(self).backend().last_id() + 1,
            final(self).backend().same_session(&old(self).backend()),
            final(self).profile() == old(self).profile(),
            r.id() == final(self).backend().last_id(),
            r.text() == frame_text(old(self).backend().entries(BackendCommand::Close), r.id()),
    {
        self.backend.close()
    }

    /// What to do, in order, when the session is dropped.
    pub fn teardown() -> (r: Vec<Cleanup>)
        ensures
            r@ == teardown_tasks(),
    {
        vec![Cleanup::Close, Cleanup::Kill, Cleanup::Wait, Cleanup::RemoveProfile]
    }

    /// Wait until a cookie named `name` is present and the whole set is stable across two reads.
    /// The stability check guards against pre-login and multi-step (2FA) interim cookies.
    pub fn wait_for_cookie(name: &str, timeout: Duration) -> (r: CookieWatch)
        ensures
            r.name() == name@,
            r.timeout() == timeout,
            r.previous() is None,
            forall|reads: Seq<Read>| #[trigger]
                r.outcome(reads) == waited(name@, timeout, None, reads),
    {
        CookieWatch { name: name.to_owned(), timeout, previous: None }
    }
}

/// The tasks that give back what a session holds.
pub open spec fn teardown_tasks() -> Seq<Cleanup> {
    seq![Cleanup::Close, Cleanup::Kill, Cleanup::Wait, Cleanup::RemoveProfile]
}

// --- Waiting for a cookie. --------------------------------------------------------------------

/// The wait for a cookie: the read before the next, where there was one.
pub struct CookieWatch {
    name: String,
    timeout: Duration,
    previous: Option<Vec<Cookie>>,
}

/// One read while a cookie is awaited: the cookies or the error, and whether the timeout had
/// elapsed then.
pub struct Read {
    pub cookies: Result<Seq<CookieView>, ErrorView>,
    pub elapsed: bool,
}

/// What waiting for a cookie comes to where these are the reads, and `previous` is the one before
/// them: nothing yet, or the cookies, or the error that ends the wait.
pub open spec fn waited(
    name: Seq<char>,
    timeout: Duration,
    previous: Option<Seq<CookieView>>,
    reads: Seq<Read>,
) -> Option<Result<Seq<CookieView>, ErrorView>>
    decreases reads.len(),
{
    if reads.len() == 0 {
        None
    } else {
        match reads[0].cookies {
            Err(error) => Some(Err(error)),
            Ok(current) => if captures(name, previous, current) {
                Some(Ok(current))
            } else if reads[0].elapsed {
                Some(Err(ErrorView::CookieTimeout { name, timeout }))
            } else {
                waited(name, timeout, Some(current), reads.drop_first())
            },
        }
    }
}

/// What follows a read while a cookie is awaited.
pub enum Watch {
    /// The cookie is there and the set is stable: these are the cookies.
    Captured(Vec<Cookie>),
    /// Read again after a pause.
    Pause {
        /// The wait, which remembers this read.
        watch: CookieWatch,
        /// Length of the pause in milliseconds.
        millis: u64,
    },
    /// The wait is over without the cookie.
    Failed(Error),
}

impl Watch {
    /// What the wait comes to where these are the reads from here on.
    pub open spec fn outcome(self, reads: Seq<Read>) -> Option<Result<Seq<CookieView>, ErrorView>> {
        match self {
            Watch::Captured(cookies) => Some(Ok(views(cookies@))),
            Watch::Failed(error) => Some(Err(error@)),
            Watch::Pause { watch, .. } => watch.outcome(reads),
        }
    }
}

/// Whether a read holds a cookie of this name.
pub open spec fn has_cookie(cookies: Seq<CookieView>, name: Seq<char>) -> bool {
    exists|i: int| 0 <= i < cookies.len() && (#[trigger] cookies[i]).name == name
}

/// Whether a read ends the wait: the cookie is there, and the read before holds the same cookies.
pub open spec fn captures(
    name: Seq<char>,
    previous: Option<Seq<CookieView>>,
    current: Seq<CookieView>,
) -> bool {
    has_cookie(current, name) && (previous matches Some(previous) && settled(previous, current))
}

fn holds_cookie(cookies: &Vec<Cookie>, name: &String) -> (r: bool)
    ensures
        r == has_cookie(views(cookies@), name@),
{
    let mut i: usize = 0;
    while i < cookies.len()
        invariant
            i <= cookies.len(),
            forall|k: int| 0 <= k < i ==> (#[trigger] views(cookies@)[k]).name != name@,
        decreases cookies.len() - i,
    {
        if cookies[i].name == *name {
            proof {
                assert(views(cookies@)[i as int].name == name@);
            }
            return true;
        }
        i += 1;
    }
    false
}

impl CookieWatch {
    /// The name of the awaited cookie.
    pub closed spec fn name(&self) -> Seq<char> {
        self.name@
    }

    /// The timeout that the caller set.
    pub closed spec fn timeout(&self) -> Duration {
        self.timeout
    }

    /// The read before the next.
    pub closed spec fn previous(&self) -> Option<Seq<CookieView>> {
        match self.previous {
            Some(cookies) => Some(views(cookies@)),
            None => None,
        }
    }

    /// What the wait comes to where these are the reads from here on.
    pub open spec fn outcome(&self, reads: Seq<Read>) -> Option<
        Result<Seq<CookieView>, ErrorView>,
    > {
        waited(self.name(), self.timeout(), self.previous(), reads)
    }

    /// Judge a read of the cookies, or the error in its place, and whether the timeout has elapsed
    /// since the wait began.
    pub fn observe(self, read: Result<Vec<Cookie>, Error>, elapsed: bool) -> (r: Watch)
        ensures
            match read {
                Err(error) => r == Watch::Failed(error),
                Ok(current) => if captures(self.name(), self.previous(), views(current@)) {
                    r == Watch::Captured(current)
                } else if elapsed {
                    r matches Watch::Failed(error) && error@ == (ErrorView::CookieTimeout {
                        name: self.name(),
                        timeout: self.timeout(),
                    })
                } else {
                    &&& r matches Watch::Pause { watch, millis }
                    &&& millis == POLL_PAUSE_MILLIS
                    &&& watch.name() == self.name()
                    &&& watch.timeout() == self.timeout()
                    &&& watch.previous() == Some(views(current@))
                },
            },
            r matches Watch::Captured(cookies) ==> exists|i: int|
                0 <= i < cookies@.len() && (#[trigger] cookies@[i]).name@ == self.name(),
            forall|later: Seq<Read>| #[trigger]
                r.outcome(later) == self.outcome(
                    seq![Read { cookies: seen_cookies(read), elapsed }] + later,
                ),
    {
        proof {
            let now = Read { cookies: seen_cookies(read), elapsed };
            assert forall|later: Seq<Read>| (#[trigger] (seq![now] + later)).drop_first()
                == later by {
                assert((seq![now] + later).drop_first() =~= later);
            }
        }
        let current: Vec<Cookie> = match read {
            Ok(current) => current,
            Err(error) => {
                return Watch::Failed(error);
            },
        };
        let present: bool = holds_cookie(&current, &self.name);
        let stable: bool = match &self.previous {
            Some(previous) => cookies_stable(previous.as_slice(), current.as_slice()),
            None => false,
        };
        if present && stable {
            proof {
                let held = views(current@);
                let i = choose|i: int|
                    0 <= i < held.len() && (#[trigger] held[i]).name == self.name();
                assert(current@[i].name@ == self.name());
            }
            return Watch::Captured(current);
        }
        if elapsed {
            return Watch::Failed(
                Error::CookieTimeout { name: self.name, timeout: self.timeout },
            );
        }
        Watch::Pause {
            watch: CookieWatch {
                name: self.name,
                timeout: self.timeout,
                previous: Some(current),
            },
            millis: POLL_PAUSE_MILLIS,
        }
    }
}

// --- Laws of the session. ---------------------------------------------------------------------

/// What is held after a run of tasks.
pub open spec fn held_after(held: Held, effects: Seq<Effect>) -> Held
    decreases effects.len(),
{
    if effects.len() == 0 {
        held
    } else {
        held_after(held.after(effects[0]), effects.drop_first())
    }
}

/// A run of a launch: the states it went through, and what the task of each came to.
pub open spec fn is_run(states: Seq<Launch>, outcomes: Seq<Outcome>) -> bool {
    &&& states.len() == outcomes.len() + 1
    &&& forall|i: int|
        0 <= i < outcomes.len() ==> (#[trigger] states[i]).steps_to(outcomes[i], states[i + 1])
}

/// What the tasks of a run did to the system.
pub open spec fn effects(states: Seq<Launch>, outcomes: Seq<Outcome>) -> Seq<Effect> {
    Seq::new(outcomes.len(), |i: int| states[i].effect(outcomes[i]))
}

/// What is left of a run after its first task is a run.
proof fn lemma_tail_is_run(states: Seq<Launch>, outcomes: Seq<Outcome>)
    requires
        is_run(states, outcomes),
        outcomes.len() > 0,
    ensures
        is_run(states.drop_first(), outcomes.drop_first()),
        states[0].steps_to(outcomes[0], states[1]),
{
    let rest = states.drop_first();
    let later = outcomes.drop_first();
    assert(states[0].steps_to(outcomes[0], states[1]));
    assert forall|i: int| 0 <= i < later.len() implies (#[trigger] rest[i]).steps_to(
        later[i],
        rest[i + 1],
    ) by {
        assert(states[i + 1].steps_to(outcomes[i + 1], states[i + 1 + 1]));
    }
}

/// What a run of a launch leaves on the system is what its last state holds. So a launch that
/// fails, at whatever task, leaves no profile directory and no browser behind, and one that
/// succeeds holds both.
pub proof fn lemma_launch_leaves_what_it_holds(states: Seq<Launch>, outcomes: Seq<Outcome>)
    requires
        is_run(states, outcomes),
        states[0].held() == nothing_held(),
    ensures
        held_after(nothing_held(), effects(states, outcomes)) == states.last().held(),
        states.last() matches Launch::Done(Err(_)) ==> held_after(
            nothing_held(),
            effects(states, outcomes),
        ) == nothing_held(),
        states.last() matches Launch::Done(Ok(session)) ==> held_after(
            nothing_held(),
            effects(states, outcomes),
        ) == all_held(session.profile()),
{
    lemma_run_tracks_held(states, outcomes);
}

proof fn lemma_step_tracks_held(from: Launch, outcome: Outcome, next: Launch)
    requires
        from.steps_to(outcome, next),
    ensures
        next.held() == from.held().after(from.effect(outcome)),
{
    if let Launch::Resolve(step) = from {
        if let Outcome::Answered(answer) = outcome {
            let same_answer = |probe: ProbeView| answer;
            let _ = step.find.outcome(same_answer);
        }
    }
}

proof fn lemma_run_tracks_held(states: Seq<Launch>, outcomes: Seq<Outcome>)
    requires
        is_run(states, outcomes),
    ensures
        held_after(states[0].held(), effects(states, outcomes)) == states.last().held(),
    decreases outcomes.len(),
{
    if outcomes.len() > 0 {
        let rest = states.drop_first();
        let later = outcomes.drop_first();
        lemma_tail_is_run(states, outcomes);
        lemma_step_tracks_held(states[0], outcomes[0], states[1]);
        lemma_run_tracks_held(rest, later);
        assert(effects(states, outcomes).drop_first() =~= effects(rest, later));
    }
}

impl Launch {
    /// Whether the launch is one of these options: it carries them to the connection, it starts the
    /// binary that they name and searches for one only where they name none, the browser is reached
    /// and spoken to as its engine demands, and a session speaks the engine's protocol.
    pub open spec fn serves(self, options: LaunchOptions) -> bool {
        match self {
            Launch::Resolve(step) => step.options == options && options.browser_path is None,
            Launch::ReservePort(step) => step.options == options && options.engine
                == Engine::Firefox && options.allows(step.program),
            Launch::CreateProfile(step) => step.options == options && step.drive.is_for(
                options.engine,
            ) && options.allows(step.program),
            Launch::Spawn(step) => step.options == options && step.drive.is_for(options.engine)
                && options.allows(step.program),
            Launch::Connect(step) => step.options == options && step.drive.is_for(options.engine),
            Launch::Open(step) => match step.talk {
                Conversation::Chrome(_) => options.engine == Engine::Chrome,
                Conversation::Firefox(_) => options.engine == Engine::Firefox,
            },
            Launch::Done(Ok(session)) => match session.backend() {
                Backend::Chrome { .. } => options.engine == Engine::Chrome,
                Backend::Firefox { .. } => options.engine == Engine::Firefox,
            },
            Launch::Abandon(_) => true,
            Launch::Done(Err(_)) => true,
        }
    }
}

impl LaunchOptions {
    /// Whether this binary may be launched: the explicit one, where there is one.
    pub open spec fn allows(self, program: PathBuf) -> bool {
        self.browser_path matches Some(path) ==> program == path
    }
}

impl Drive {
    /// Whether a browser of this engine is reached so.
    pub open spec fn is_for(self, engine: Engine) -> bool {
        match self {
            Drive::Chrome => engine == Engine::Chrome,
            Drive::Firefox { .. } => engine == Engine::Firefox,
        }
    }
}

/// A launch serves its options to the end: the page that is opened is the login page of the
/// options, in the protocol of their engine, and so is the session that comes out.
pub proof fn lemma_launch_serves_its_options(
    states: Seq<Launch>,
    outcomes: Seq<Outcome>,
    options: LaunchOptions,
)
    requires
        is_run(states, outcomes),
        states[0].serves(options),
    ensures
        states.last().serves(options),
        forall|i: int|
            0 <= i < outcomes.len() && states[i] is Connect && (#[trigger] states[i + 1]) is Open
                ==> exists|drive: Drive| #[trigger]
                drive.is_for(options.engine) && states[i + 1]->Open_0.talk.begins(
                    drive,
                    options.login_url@,
                ),
    decreases outcomes.len(),
{
    if outcomes.len() > 0 {
        let rest = states.drop_first();
        let later = outcomes.drop_first();
        lemma_tail_is_run(states, outcomes);
        lemma_step_serves(states[0], outcomes[0], states[1], options);
        lemma_launch_serves_its_options(rest, later, options);
        assert forall|i: int|
            0 <= i < outcomes.len() && states[i] is Connect && (
            #[trigger] states[i + 1]) is Open implies exists|drive: Drive| #[trigger]
            drive.is_for(options.engine) && states[i + 1]->Open_0.talk.begins(
                drive,
                options.login_url@,
            ) by {
            if i == 0 {
                let drive = states[0]->Connect_0.drive;
                assert(drive.is_for(options.engine));
            } else {
                assert(rest[i - 1 + 1] == states[i + 1]);
                assert(rest[i - 1] == states[i]);
            }
        }
    }
}

proof fn lemma_step_serves(from: Launch, outcome: Outcome, next: Launch, options: LaunchOptions)
    requires
        from.steps_to(outcome, next),
        from.serves(options),
    ensures
        next.serves(options),
{
    if let Launch::Resolve(step) = from {
        if let Outcome::Answered(answer) = outcome {
            let same_answer = |probe: ProbeView| answer;
            let _ = step.find.outcome(same_answer);
        }
    }
}

/// No two launches share a profile directory, be they of one process or of two.
pub proof fn lemma_launches_have_their_own_profile(p: u32, a: u64, q: u32, b: u64)
    requires
        p != q || a != b,
    ensures
        launch_profile(p, a) != launch_profile(q, b),
{
    if launch_profile(p, a) == launch_profile(q, b) {
        reveal_strlit("-");
        let head = "cookie-snatch-"@;
        let (dp, da) = (text::decimal(p as nat), text::decimal(a as nat));
        let (dq, db) = (text::decimal(q as nat), text::decimal(b as nat));
        let name = launch_profile(p, a);
        text::lemma_decimal_digits(p as nat);
        text::lemma_decimal_digits(q as nat);
        let start = head.len() as int;
        let (end_p, end_q) = (start + dp.len(), start + dq.len());
        assert(name[end_p] == '-');
        assert(name[end_q] == '-');
        if dp.len() < dq.len() {
            assert(name[end_p] == dq[dp.len() as int]);
        } else if dq.len() < dp.len() {
            assert(name[end_q] == dp[dq.len() as int]);
        }
        assert(dp =~= name.subrange(start, end_p));
        assert(dq =~= name.subrange(start, end_q));
        assert(da =~= name.skip(end_p + 1));
        assert(db =~= name.skip(end_q + 1));
        text::lemma_decimal_injective(p as nat, q as nat);
        text::lemma_decimal_injective(a as nat, b as nat);
    }
}

/// No name is handed out twice: what the counter hands out from one state on is not what it handed
/// out from an earlier one, be it in the same process or in another.
pub proof fn lemma_no_name_is_handed_out_twice(
    earlier: Launches,
    later: Launches,
    process_id: u32,
    other_process_id: u32,
)
    requires
        earlier.next() < later.next(),
    ensures
        launch_profile(process_id, earlier.next()) != launch_profile(
            other_process_id,
            later.next(),
        ),
        later.handed(process_id).contains(launch_profile(process_id, earlier.next())),
{
    lemma_launches_have_their_own_profile(
        process_id,
        earlier.next(),
        other_process_id,
        later.next(),
    );
    assert(numbers_below(later.next()).contains(earlier.next()));
}

/// A launch that fails once it has taken something fails with what went wrong first, whatever
/// giving things back comes to: from the first cleanup task on, a run keeps that error to its end.
pub proof fn lemma_cleanup_keeps_error(states: Seq<Launch>, outcomes: Seq<Outcome>, step: Abandon)
    requires
        is_run(states, outcomes),
        states[0] == Launch::Abandon(step),
    ensures
        match states.last() {
            Launch::Abandon(further) => further.error == step.error,
            Launch::Done(result) => result == Err::<Session, Error>(step.error),
            _ => false,
        },
    decreases outcomes.len(),
{
    if outcomes.len() > 0 {
        let rest = states.drop_first();
        let later = outcomes.drop_first();
        lemma_tail_is_run(states, outcomes);
        match states[1] {
            Launch::Abandon(further) => {
                lemma_cleanup_keeps_error(rest, later, further);
            },
            _ => {
                if later.len() > 0 {
                    assert(rest[0].steps_to(later[0], rest[1]));
                }
            },
        }
    }
}

/// What dropping a session with this profile directory does to the system.
pub open spec fn teardown_effects(profile: Seq<char>) -> Seq<Effect> {
    teardown_tasks().map_values(|cleanup: Cleanup| cleanup_effect(cleanup, profile))
}

/// Dropping a session gives back everything it holds: the browser's end is waited for and the
/// profile directory is removed.
pub proof fn lemma_teardown_gives_everything_back(profile: Seq<char>)
    ensures
        held_after(all_held(profile), teardown_effects(profile)) == nothing_held(),
{
    reveal_with_fuel(held_after, 5);
    let effects = teardown_effects(profile);
    let removed = Effect::ProfileRemoved(profile);
    assert(effects =~= seq![Effect::Nothing, Effect::Nothing, Effect::Reaped, removed]);
    assert(effects.drop_first() =~= seq![Effect::Nothing, Effect::Reaped, removed]);
    assert(effects.drop_first().drop_first() =~= seq![Effect::Reaped, removed]);
    assert(effects.drop_first().drop_first().drop_first() =~= seq![removed]);
    assert(effects.drop_first().drop_first().drop_first().drop_first() =~= Seq::<Effect>::empty());
}

impl Outcome {
    /// Whether the task created the profile directory of this name.
    pub open spec fn creates(self, name: Seq<char>) -> bool {
        self matches Outcome::Created { profile, result: Ok(_) } && profile@ == name
    }
}

/// Whether a run created the profile directory of this name.
pub open spec fn creates(outcomes: Seq<Outcome>, name: Seq<char>) -> bool {
    exists|i: int|
        0 <= i < outcomes.len() && (#[trigger] outcomes[i]).creates(name)
}

/// A launch removes no profile directory but one that it created itself, and the one that it or its
/// session holds is one that it created.
pub proof fn lemma_launch_keeps_to_its_own_profile(states: Seq<Launch>, outcomes: Seq<Outcome>)
    requires
        is_run(states, outcomes),
        states[0].held() == nothing_held(),
    ensures
        states.last().held().profile matches Some(name) ==> creates(outcomes, name),
        forall|i: int|
            0 <= i < outcomes.len() ==> ((#[trigger] effects(states, outcomes)[i]) matches
                Effect::ProfileRemoved(name) ==> creates(outcomes, name)),
{
    lemma_run_keeps_to_its_own_profile(states, outcomes);
}

proof fn lemma_run_keeps_to_its_own_profile(states: Seq<Launch>, outcomes: Seq<Outcome>)
    requires
        is_run(states, outcomes),
    ensures
        states.last().held().profile matches Some(name) ==> states[0].held().profile == Some(name)
            || creates(outcomes, name),
        forall|i: int|
            0 <= i < outcomes.len() ==> ((#[trigger] effects(states, outcomes)[i]) matches
                Effect::ProfileRemoved(name) ==> states[0].held().profile == Some(name)
                || creates(outcomes, name)),
    decreases outcomes.len(),
{
    if outcomes.len() > 0 {
        let rest = states.drop_first();
        let later = outcomes.drop_first();
        lemma_tail_is_run(states, outcomes);
        lemma_step_tracks_held(states[0], outcomes[0], states[1]);
        lemma_run_keeps_to_its_own_profile(rest, later);
        assert forall|name: Seq<char>| #[trigger] creates(later, name) implies creates(
            outcomes,
            name,
        ) by {
            let i = choose|i: int|
                0 <= i < later.len() && (#[trigger] later[i]).creates(name);
            assert(outcomes[i + 1] == later[i]);
        }
        assert(rest[0] == states[1]);
        if let Some(name) = states[1].held().profile {
            if states[0].held().profile != Some(name) {
                assert(states[0].effect(outcomes[0]) == Effect::ProfileCreated(name));
                assert(outcomes[0] is Created);
                assert(creates(outcomes, name));
            }
        }
        assert forall|i: int| 0 <= i < outcomes.len() implies ((
        #[trigger] effects(states, outcomes)[i]) matches Effect::ProfileRemoved(name)
            ==> states[0].held().profile == Some(name) || creates(outcomes, name)) by {
            if i > 0 {
                assert(effects(states, outcomes)[i] == effects(rest, later)[i - 1]);
            }
        }
    }
}

/// Which profile directories are there after a run of tasks.
pub open spec fn profiles_after(profiles: Set<Seq<char>>, effects: Seq<Effect>) -> Set<Seq<char>>
    decreases effects.len(),
{
    if effects.len() == 0 {
        profiles
    } else {
        profiles_after(
            match effects[0] {
                Effect::ProfileCreated(name) => profiles.insert(name),
                Effect::ProfileRemoved(name) => profiles.remove(name),
                _ => profiles,
            },
            effects.drop_first(),
        )
    }
}

proof fn lemma_profile_stays(profiles: Set<Seq<char>>, effects: Seq<Effect>, name: Seq<char>)
    requires
        profiles.contains(name),
        forall|i: int|
            0 <= i < effects.len() ==> (#[trigger] effects[i]) != Effect::ProfileRemoved(name),
    ensures
        profiles_after(profiles, effects).contains(name),
    decreases effects.len(),
{
    if effects.len() > 0 {
        let rest = effects.drop_first();
        assert(effects[0] != Effect::ProfileRemoved(name));
        assert forall|i: int| 0 <= i < rest.len() implies (#[trigger] rest[i])
            != Effect::ProfileRemoved(name) by {
            assert(effects[i + 1] != Effect::ProfileRemoved(name));
        }
        lemma_profile_stays(
            match effects[0] {
                Effect::ProfileCreated(other) => profiles.insert(other),
                Effect::ProfileRemoved(other) => profiles.remove(other),
                _ => profiles,
            },
            rest,
            name,
        );
    }
}

/// Whether every profile directory of a run was named after one of these launch numbers, as
/// [`Launches::next_profile`] hands them out.
pub open spec fn named_after(
    outcomes: Seq<Outcome>,
    process_id: u32,
    numbers: Set<u64>,
) -> bool {
    forall|i: int|
        0 <= i < outcomes.len() ==> ((#[trigger] outcomes[i]) matches Outcome::Created {
            profile,
            ..
        } ==> is_numbered(profile@, process_id, numbers))
}

/// While a session is live, another launch of the process leaves its profile directory in place,
/// whatever that launch comes to: each number is handed out once, so the two share none. Where it
/// comes to a session, that one has a directory of its own, and dropping it leaves the directory of
/// the first in place too.
pub proof fn lemma_sessions_keep_apart(
    states: Seq<Launch>,
    outcomes: Seq<Outcome>,
    session: Session,
    numbers: Set<u64>,
    other_states: Seq<Launch>,
    other_outcomes: Seq<Outcome>,
    other_numbers: Set<u64>,
    process_id: u32,
    profiles: Set<Seq<char>>,
)
    requires
        is_run(states, outcomes),
        states[0].held() == nothing_held(),
        states.last() == Launch::Done(Ok(session)),
        named_after(outcomes, process_id, numbers),
        is_run(other_states, other_outcomes),
        other_states[0].held() == nothing_held(),
        named_after(other_outcomes, process_id, other_numbers),
        numbers.disjoint(other_numbers),
        profiles.contains(session.profile()),
    ensures
        profiles_after(profiles, effects(other_states, other_outcomes)).contains(session.profile()),
        other_states.last() matches Launch::Done(Ok(other)) ==> {
            &&& other.profile() != session.profile()
            &&& profiles_after(profiles, teardown_effects(other.profile())).contains(
                session.profile(),
            )
        },
{
    let ours = session.profile();
    lemma_launch_keeps_to_its_own_profile(states, outcomes);
    lemma_launch_keeps_to_its_own_profile(other_states, other_outcomes);
    assert(creates(outcomes, ours));
    lemma_created_is_numbered(outcomes, process_id, numbers, ours);
    assert forall|name: Seq<char>| #[trigger] creates(other_outcomes, name) implies name
        != ours by {
        lemma_created_is_numbered(other_outcomes, process_id, other_numbers, name);
        let a = choose|n: u64| #[trigger]
            numbers.contains(n) && ours == launch_profile(process_id, n);
        let b = choose|n: u64| #[trigger]
            other_numbers.contains(n) && name == launch_profile(process_id, n);
        lemma_launches_have_their_own_profile(process_id, a, process_id, b);
    }
    lemma_profile_stays(profiles, effects(other_states, other_outcomes), ours);
    if let Launch::Done(Ok(other)) = other_states.last() {
        assert(creates(other_outcomes, other.profile()));
        lemma_profile_stays(profiles, teardown_effects(other.profile()), ours);
    }
}

proof fn lemma_created_is_numbered(
    outcomes: Seq<Outcome>,
    process_id: u32,
    numbers: Set<u64>,
    name: Seq<char>,
)
    requires
        named_after(outcomes, process_id, numbers),
        creates(outcomes, name),
    ensures
        is_numbered(name, process_id, numbers),
{
    let i = choose|i: int|
        0 <= i < outcomes.len() && (#[trigger] outcomes[i]).creates(name);
    assert(outcomes[i] is Created);
}

/// Whether read `i` shows the cookie and holds the same cookies as the read before it.
pub open spec fn confirmed(name: Seq<char>, reads: Seq<Read>, i: int) -> bool {
    &&& 0 < i < reads.len()
    &&& reads[i - 1].cookies is Ok
    &&& reads[i].cookies is Ok
    &&& has_cookie(reads[i].cookies->Ok_0, name)
    &&& settled(reads[i - 1].cookies->Ok_0, reads[i].cookies->Ok_0)
}

/// Cookies are captured only where two reads in a row agree and the awaited cookie is among them;
/// they are the cookies of the second read. The first read alone never captures.
pub proof fn lemma_capture_is_confirmed(name: Seq<char>, timeout: Duration, reads: Seq<Read>)
    ensures
        waited(name, timeout, None, reads) matches Some(Ok(cookies)) ==> exists|i: int| #[trigger]
            confirmed(name, reads, i) && reads[i].cookies == Ok::<Seq<CookieView>, ErrorView>(
                cookies,
            ),
{
    if reads.len() > 0 && reads[0].cookies is Ok && !reads[0].elapsed {
        lemma_capture_after(name, timeout, reads, 1);
    }
}

proof fn lemma_capture_after(name: Seq<char>, timeout: Duration, reads: Seq<Read>, at: int)
    requires
        0 < at <= reads.len(),
        reads[at - 1].cookies is Ok,
    ensures
        waited(name, timeout, Some(reads[at - 1].cookies->Ok_0), reads.skip(at)) matches Some(
            Ok(cookies),
        ) ==> exists|i: int| #[trigger]
            confirmed(name, reads, i) && reads[i].cookies == Ok::<Seq<CookieView>, ErrorView>(
                cookies,
            ),
    decreases reads.len() - at,
{
    if at < reads.len() {
        let rest = reads.skip(at);
        assert(rest.drop_first() =~= reads.skip(at + 1));
        assert(rest[0] == reads[at]);
        if reads[at].cookies is Ok {
            if captures(
                name,
                Some(reads[at - 1].cookies->Ok_0),
                reads[at].cookies->Ok_0,
            ) {
                assert(confirmed(name, reads, at));
            } else {
                lemma_capture_after(name, timeout, reads, at + 1);
            }
        }
    }
}

/// The wait ends with the first read that is confirmed, whatever order the two reads list the
/// cookies in, where every read up to it succeeded and the timeout had not elapsed before it. At
/// that read itself it may have: a capture counts even at the last moment.
pub proof fn lemma_first_confirmed_is_captured(
    name: Seq<char>,
    timeout: Duration,
    reads: Seq<Read>,
    at: int,
)
    requires
        confirmed(name, reads, at),
        forall|i: int| 0 <= i < at ==> !(#[trigger] confirmed(name, reads, i)),
        forall|i: int|
            0 <= i < at ==> (#[trigger] reads[i]).cookies is Ok && !reads[i].elapsed,
    ensures
        waited(name, timeout, None, reads) == Some(reads[at].cookies),
{
    lemma_captured_after(name, timeout, reads, 1, at);
    assert(reads.skip(1) =~= reads.drop_first());
    assert(reads[0].cookies is Ok);
}

proof fn lemma_captured_after(
    name: Seq<char>,
    timeout: Duration,
    reads: Seq<Read>,
    from: int,
    at: int,
)
    requires
        0 < from <= at,
        confirmed(name, reads, at),
        forall|i: int| 0 <= i < at ==> !(#[trigger] confirmed(name, reads, i)),
        forall|i: int|
            0 <= i < at ==> (#[trigger] reads[i]).cookies is Ok && !reads[i].elapsed,
    ensures
        waited(name, timeout, Some(reads[from - 1].cookies->Ok_0), reads.skip(from)) == Some(
            reads[at].cookies,
        ),
    decreases at - from,
{
    let rest = reads.skip(from);
    assert(rest[0] == reads[from]);
    assert(rest.drop_first() =~= reads.skip(from + 1));
    assert(reads[from - 1].cookies is Ok);
    if from < at {
        assert(!confirmed(name, reads, from));
        assert(reads[from].cookies is Ok);
        lemma_captured_after(name, timeout, reads, from + 1, at);
    }
}

/// The wait ends with a timeout only at a read at which the timeout had elapsed, or with the error
/// of a read; while it has not elapsed, a read that succeeds without capturing is followed by
/// another.
pub proof fn lemma_wait_goes_on(
    name: Seq<char>,
    timeout: Duration,
    previous: Option<Seq<CookieView>>,
    reads: Seq<Read>,
)
    requires
        forall|i: int| 0 <= i < reads.len() ==> !(#[trigger] reads[i]).elapsed,
        forall|i: int| 0 <= i < reads.len() ==> (#[trigger] reads[i]).cookies is Ok,
    ensures
        waited(name, timeout, previous, reads) matches Some(result) ==> result is Ok,
    decreases reads.len(),
{
    if reads.len() > 0 {
        let rest = reads.drop_first();
        assert(!reads[0].elapsed && reads[0].cookies is Ok);
        assert forall|i: int| 0 <= i < rest.len() implies !(#[trigger] rest[i]).elapsed by {
            assert(!reads[i + 1].elapsed);
        }
        assert forall|i: int| 0 <= i < rest.len() implies (#[trigger] rest[i]).cookies is Ok by {
            assert(reads[i + 1].cookies is Ok);
        }
        lemma_wait_goes_on(name, timeout, Some(reads[0].cookies->Ok_0), rest);
    }
}

/// Cookies that are captured hold one whose name is the awaited name, character for character.
pub proof fn lemma_capture_holds_the_cookie(
    name: Seq<char>,
    timeout: Duration,
    previous: Option<Seq<CookieView>>,
    reads: Seq<Read>,
)
    ensures
        waited(name, timeout, previous, reads) matches Some(Ok(cookies)) ==> exists|i: int|
            0 <= i < cookies.len() && (#[trigger] cookies[i]).name == name,
    decreases reads.len(),
{
    if reads.len() > 0 {
        if let Ok(current) = reads[0].cookies {
            lemma_capture_holds_the_cookie(name, timeout, Some(current), reads.drop_first());
        }
    }
}

/// While no read holds a cookie of the awaited name, nothing is captured, however long the reads
/// agree.
pub proof fn lemma_nothing_is_captured_without_the_cookie(
    name: Seq<char>,
    timeout: Duration,
    previous: Option<Seq<CookieView>>,
    reads: Seq<Read>,
)
    requires
        forall|i: int, j: int|
            0 <= i < reads.len() && reads[i].cookies is Ok && 0 <= j
                < reads[i].cookies->Ok_0.len() ==> (#[trigger] reads[i].cookies->Ok_0[j]).name
                != name,
    ensures
        !(waited(name, timeout, previous, reads) matches Some(Ok(_))),
    decreases reads.len(),
{
    if reads.len() > 0 {
        let rest = reads.drop_first();
        if let Ok(current) = reads[0].cookies {
            assert forall|j: int| 0 <= j < current.len() implies (
            #[trigger] current[j]).name != name by {
                assert(reads[0].cookies->Ok_0[j].name != name);
            }
            assert forall|i: int, j: int|
                0 <= i < rest.len() && rest[i].cookies is Ok && 0 <= j
                    < rest[i].cookies->Ok_0.len() implies (
            #[trigger] rest[i].cookies->Ok_0[j]).name != name by {
                assert(reads[i + 1].cookies->Ok_0[j].name != name);
            }
            lemma_nothing_is_captured_without_the_cookie(name, timeout, Some(current), rest);
        }
    }
}

/// A URL is one of the web exactly where it is `http://` or `https://` and something behind it.
pub proof fn lemma_web_urls(rest: Seq<char>, url: Seq<char>)
    ensures
        http_url("http://"@ + rest),
        http_url("https://"@ + rest),
        http_url(url) ==> exists|behind: Seq<char>|
            url == #[trigger] ("http://"@ + behind) || url == "https://"@ + behind,
{
    lemma_prefix_and_rest("http://"@, rest, url);
    lemma_prefix_and_rest("https://"@, rest, url);
    if "https://"@.is_prefix_of(url) {
        let behind = url.skip("https://"@.len() as int);
        assert("http://"@ + behind == "http://"@ + behind);
    }
}

proof fn lemma_prefix_and_rest(prefix: Seq<char>, rest: Seq<char>, whole: Seq<char>)
    ensures
        prefix.is_prefix_of(prefix + rest),
        prefix.is_prefix_of(whole) ==> whole == prefix + whole.skip(prefix.len() as int),
{
    assert((prefix + rest).subrange(0, prefix.len() as int) =~= prefix);
    if prefix.is_prefix_of(whole) {
        assert(whole =~= prefix + whole.skip(prefix.len() as int));
    }
}

/// Cookies are read in the session of the connection and nowhere else: the request names it as it
/// is. Closing the browser names none.
pub proof fn lemma_cookies_are_read_in_the_session(wire: Wire, session_id: String)
    ensures
        ({
            let chrome = Backend::Chrome { wire, session_id };
            let read = chrome.entries(BackendCommand::Cookies);
            let close = chrome.entries(BackendCommand::Close);
            &&& read.dom() == set!["method"@, "params"@, "sessionId"@]
            &&& read["method"@] == Json::Text("Network.getAllCookies"@)
            &&& read["params"@] == Json::Object(Map::empty())
            &&& read["sessionId"@] == Json::Text(session_id@)
            &&& close.dom() == set!["method"@, "params"@]
            &&& close["method"@] == Json::Text("Browser.close"@)
        }),
        ({
            let firefox = Backend::Firefox { wire };
            let read = firefox.entries(BackendCommand::Cookies);
            let close = firefox.entries(BackendCommand::Close);
            &&& read.dom() == set!["method"@, "params"@]
            &&& read["method"@] == Json::Text("storage.getCookies"@)
            &&& read["params"@] == Json::Object(Map::empty())
            &&& close.dom() == set!["method"@, "params"@]
            &&& close["method"@] == Json::Text("browser.close"@)
        }),
{
    reveal_strlit("method");
    reveal_strlit("params");
    reveal_strlit("sessionId");
    assert("sessionId"@.len() == 9 && "method"@.len() == 6 && "params"@.len() == 6);
    let none = Json::Object(Map::empty());
    lemma_command_holds_what_it_is_given(
        "Network.getAllCookies"@,
        none,
        "sessionId"@,
        session_id@,
    );
    lemma_command_holds_what_it_is_given("Browser.close"@, none, "sessionId"@, session_id@);
    lemma_command_holds_what_it_is_given("storage.getCookies"@, none, "sessionId"@, session_id@);
    lemma_command_holds_what_it_is_given("browser.close"@, none, "sessionId"@, session_id@);
}

impl Launch {
    /// The binary that is to be started.
    pub open spec fn program(self) -> Option<PathBuf> {
        match self {
            Launch::ReservePort(step) => Some(step.program),
            Launch::CreateProfile(step) => Some(step.program),
            Launch::Spawn(step) => Some(step.program),
            _ => None,
        }
    }

    /// How the endpoint of the browser will be found.
    pub open spec fn drive(self) -> Option<Drive> {
        match self {
            Launch::CreateProfile(step) => Some(step.drive),
            Launch::Spawn(step) => Some(step.drive),
            Launch::Connect(step) => Some(step.drive),
            _ => None,
        }
    }
}

/// The binary that a launch starts is the one it had when it had one first, and the browser is
/// reached as it was when that was settled first.
pub proof fn lemma_launch_does_not_change_its_mind(
    states: Seq<Launch>,
    outcomes: Seq<Outcome>,
    i: int,
    j: int,
)
    requires
        is_run(states, outcomes),
        0 <= i <= j < states.len(),
    ensures
        states[i].program() is Some && states[j].program() is Some ==> states[i].program()
            == states[j].program(),
        states[i].drive() is Some && states[j].drive() is Some ==> states[i].drive()
            == states[j].drive(),
        states[i].program() is Some ==> states[j] !is Resolve,
        states[i].drive() is Some ==> states[j] !is Resolve && states[j] !is ReservePort,
        states[i].program() is None && states[i] !is Resolve ==> states[j].program() is None
            && states[j] !is Resolve,
        states[i].drive() is None && states[i] !is Resolve && states[i] !is ReservePort
            ==> states[j].drive() is None && states[j] !is Resolve && states[j] !is ReservePort,
    decreases j - i,
{
    if i < j {
        lemma_launch_does_not_change_its_mind(states, outcomes, i, j - 1);
        assert(states[j - 1].steps_to(outcomes[j - 1], states[j - 1 + 1]));
        if let Launch::Resolve(step) = states[j - 1] {
            if let Outcome::Answered(answer) = outcomes[j - 1] {
                let same_answer = |probe: ProbeView| answer;
                let _ = step.find.outcome(same_answer);
            }
        }
    }
}

/// The port that was reserved is the one the browser is told and reached at.
pub proof fn lemma_reserved_port_is_used(
    states: Seq<Launch>,
    outcomes: Seq<Outcome>,
    i: int,
    port: u16,
    j: int,
)
    requires
        is_run(states, outcomes),
        0 <= i < j < states.len(),
        states[i] is ReservePort,
        outcomes[i] == Outcome::Port(Ok(port)),
    ensures
        states[j].drive() matches Some(drive) ==> drive == (Drive::Firefox { port }),
{
    assert(states[i].steps_to(outcomes[i], states[i + 1]));
    lemma_launch_does_not_change_its_mind(states, outcomes, i + 1, j);
}

/// The end of a browser is waited for only once it was killed, and its profile directory is removed
/// only once its end was waited for, or where it was never started.
pub proof fn lemma_browser_is_killed_first(from: Launch, outcome: Outcome, next: Abandon)
    requires
        from.steps_to(outcome, Launch::Abandon(next)),
    ensures
        next.cleanup == Cleanup::Wait ==> (from matches Launch::Abandon(step) && step.cleanup
            == Cleanup::Kill),
        next.cleanup == Cleanup::RemoveProfile ==> (from matches Launch::Abandon(step)
            && step.cleanup == Cleanup::Wait) || from is Spawn,
{
    if let Launch::Resolve(step) = from {
        if let Outcome::Answered(answer) = outcome {
            let same_answer = |probe: ProbeView| answer;
            let _ = step.find.outcome(same_answer);
        }
    }
}

/// A read that fails ends the wait with its error, where nothing ended it before: no error is waited
/// out.
pub proof fn lemma_failed_read_ends_the_wait(
    name: Seq<char>,
    timeout: Duration,
    reads: Seq<Read>,
    at: int,
)
    requires
        0 <= at < reads.len(),
        reads[at].cookies is Err,
        forall|i: int|
            0 <= i < at ==> (#[trigger] reads[i]).cookies is Ok && !reads[i].elapsed,
        forall|i: int| 0 <= i < at ==> !(#[trigger] confirmed(name, reads, i)),
    ensures
        waited(name, timeout, None, reads) == Some(reads[at].cookies),
{
    lemma_wait_reaches(name, timeout, reads, 0, at);
    assert(reads.skip(0) =~= reads);
    assert(reads.skip(at)[0] == reads[at]);
}

/// The wait ends with the timeout at the first read at which it had elapsed, where neither that read
/// nor one before it is confirmed and all of them succeeded.
pub proof fn lemma_elapsed_read_ends_the_wait(
    name: Seq<char>,
    timeout: Duration,
    reads: Seq<Read>,
    at: int,
)
    requires
        0 <= at < reads.len(),
        reads[at].cookies is Ok,
        reads[at].elapsed,
        forall|i: int|
            0 <= i < at ==> (#[trigger] reads[i]).cookies is Ok && !reads[i].elapsed,
        forall|i: int| 0 <= i <= at ==> !(#[trigger] confirmed(name, reads, i)),
    ensures
        waited(name, timeout, None, reads) == Some(
            Err::<Seq<CookieView>, ErrorView>(ErrorView::CookieTimeout { name, timeout }),
        ),
{
    lemma_wait_reaches(name, timeout, reads, 0, at);
    assert(reads.skip(0) =~= reads);
    assert(reads.skip(at)[0] == reads[at]);
    assert(!confirmed(name, reads, at));
    if at > 0 {
        assert(reads[at - 1].cookies is Ok);
    }
}

/// The read before position `at`, where there is one.
spec fn read_before(reads: Seq<Read>, at: int) -> Option<Seq<CookieView>> {
    if at > 0 {
        Some(reads[at - 1].cookies->Ok_0)
    } else {
        None
    }
}

/// Reads that succeed, are not confirmed and are in time lead on to the next.
proof fn lemma_wait_reaches(
    name: Seq<char>,
    timeout: Duration,
    reads: Seq<Read>,
    from: int,
    at: int,
)
    requires
        0 <= from <= at < reads.len(),
        forall|i: int|
            0 <= i < at ==> (#[trigger] reads[i]).cookies is Ok && !reads[i].elapsed,
        forall|i: int| 0 <= i < at ==> !(#[trigger] confirmed(name, reads, i)),
    ensures
        waited(name, timeout, read_before(reads, from), reads.skip(from)) == waited(
            name,
            timeout,
            read_before(reads, at),
            reads.skip(at),
        ),
    decreases at - from,
{
    if from < at {
        let rest = reads.skip(from);
        assert(rest[0] == reads[from]);
        assert(rest.drop_first() =~= reads.skip(from + 1));
        assert(reads[from].cookies is Ok && !reads[from].elapsed);
        assert(!confirmed(name, reads, from));
        if from > 0 {
            assert(reads[from - 1].cookies is Ok);
        }
        lemma_wait_reaches(name, timeout, reads, from + 1, at);
    }
}

} // verus!
