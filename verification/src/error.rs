//! Everything that can go wrong while capturing a browser session.
use vstd::prelude::*;
use vstd::string::*;

use serde_json::Error as JsonError;
use std::time::Duration;
use tungstenite::Error as SocketError;

verus! {

/// An error of the operating system, handed on as it came.
#[verifier::external_type_specification]
#[verifier::external_body]
pub struct ExIoError(std::io::Error);

/// An error of the WebSocket transport, handed on as it came.
#[verifier::external_type_specification]
#[verifier::external_body]
pub struct ExTransportError(SocketError);

/// An error of the JSON decoder, handed on as it came.
#[verifier::external_type_specification]
#[verifier::external_body]
pub struct ExJsonError(JsonError);

/// Everything that can go wrong while capturing a browser session.
#[derive(Debug)]
#[non_exhaustive]
pub enum Error {
    /// The login URL did not start with `http://` or `https://`.
    InvalidLoginUrl,
    /// No browser binary was found and no override was set.
    BrowserNotFound {
        /// Browser that was being looked for, e.g. `chrome`.
        browser: &'static str,
        /// Environment variable that can point at the binary, e.g. `CHROME`.
        env_var: &'static str,
    },
    /// The browser process failed to spawn.
    Launch(std::io::Error),
    /// The browser's remote debug endpoint did not come up within the startup timeout.
    EndpointTimeout(Duration),
    /// The WebSocket connection to the browser failed.
    Transport(SocketError),
    /// A remote-protocol command returned an error response.
    Command {
        /// Protocol the command belongs to (`cdp` or `bidi`).
        protocol: &'static str,
        /// The command method that failed.
        method: String,
        /// The error message reported by the browser.
        message: String,
    },
    /// A protocol response was missing an expected field or had the wrong shape.
    Malformed {
        /// Protocol the response belongs to (`cdp`, `bidi`, or `ws`).
        protocol: &'static str,
        /// What was wrong with the response.
        detail: String,
    },
    /// The target cookie did not appear before the timeout.
    CookieTimeout {
        /// Cookie name that was awaited.
        name: String,
        /// Timeout that elapsed.
        timeout: Duration,
    },
    /// A cookie value used an encoding this crate does not decode.
    UnsupportedCookieEncoding {
        /// The encoding tag reported by the browser.
        encoding: String,
    },
    /// The cookie list could not be deserialized into cookies.
    DecodeCookies(JsonError),
    /// The OS default browser is a product this crate cannot drive (e.g. Safari).
    UnsupportedDefaultBrowser {
        /// The OS-reported handler name.
        name: String,
    },
    /// No default web browser is configured, or it could not be resolved.
    NoDefaultBrowser,
    /// A filesystem or process I/O operation failed.
    Io(std::io::Error),
}

/// What an [`Error`] holds.
pub enum ErrorView {
    InvalidLoginUrl,
    BrowserNotFound { browser: Seq<char>, env_var: Seq<char> },
    Launch(std::io::Error),
    EndpointTimeout(Duration),
    Transport(SocketError),
    Command { protocol: Seq<char>, method: Seq<char>, message: Seq<char> },
    Malformed { protocol: Seq<char>, detail: Seq<char> },
    CookieTimeout { name: Seq<char>, timeout: Duration },
    UnsupportedCookieEncoding { encoding: Seq<char> },
    DecodeCookies(JsonError),
    UnsupportedDefaultBrowser { name: Seq<char> },
    NoDefaultBrowser,
    Io(std::io::Error),
}

impl View for Error {
    type V = ErrorView;

    open spec fn view(&self) -> ErrorView {
        match *self {
            Error::InvalidLoginUrl => ErrorView::InvalidLoginUrl,
            Error::BrowserNotFound { browser, env_var } => ErrorView::BrowserNotFound {
                browser: browser@,
                env_var: env_var@,
            },
            Error::Launch(source) => ErrorView::Launch(source),
            Error::EndpointTimeout(timeout) => ErrorView::EndpointTimeout(timeout),
            Error::Transport(source) => ErrorView::Transport(source),
            Error::Command { protocol, method, message } => ErrorView::Command {
                protocol: protocol@,
                method: method@,
                message: message@,
            },
            Error::Malformed { protocol, detail } => ErrorView::Malformed {
                protocol: protocol@,
                detail: detail@,
            },
            Error::CookieTimeout { name, timeout } => ErrorView::CookieTimeout {
                name: name@,
                timeout,
            },
            Error::UnsupportedCookieEncoding { encoding } => ErrorView::UnsupportedCookieEncoding {
                encoding: encoding@,
            },
            Error::DecodeCookies(source) => ErrorView::DecodeCookies(source),
            Error::UnsupportedDefaultBrowser { name } => ErrorView::UnsupportedDefaultBrowser {
                name: name@,
            },
            Error::NoDefaultBrowser => ErrorView::NoDefaultBrowser,
            Error::Io(source) => ErrorView::Io(source),
        }
    }
}

impl From<std::io::Error> for Error {
    fn from(source: std::io::Error) -> Self {
        Error::Io(source)
    }
}

impl vstd::std_specs::convert::FromSpecImpl<std::io::Error> for Error {
    open spec fn obeys_from_spec() -> bool {
        true
    }

    open spec fn from_spec(source: std::io::Error) -> Self {
        Error::Io(source)
    }
}

/// What a result holds, seen through the views of its value and its error.
pub open spec fn seen<T: View>(result: Result<T, Error>) -> Result<T::V, ErrorView> {
    match result {
        Ok(value) => Ok(value@),
        Err(error) => Err(error@),
    }
}

/// What kind of failure an operating-system error reports, as far as it matters here.
#[derive(Clone, Copy, Debug, PartialEq, Eq, Structural)]
pub enum IoKind {
    /// What was asked for is not there.
    NotFound,
    /// What was to be created is there already.
    AlreadyExists,
    /// Any other failure.
    Other,
}

/// The kind of failure that an operating-system error reports.
pub uninterp spec fn io_kind(error: std::io::Error) -> IoKind;

/// `io::Error::kind`: the kind of failure that an error reports.
#[verifier::external_body]
pub(crate) fn kind_of_failure(error: &std::io::Error) -> (r: IoKind)
    ensures
        r == io_kind(*error),
{
    match error.kind() {
        std::io::ErrorKind::NotFound => IoKind::NotFound,
        std::io::ErrorKind::AlreadyExists => IoKind::AlreadyExists,
        _ => IoKind::Other,
    }
}

/// The text of a duration in its `Debug` form, such as `20s`.
pub uninterp spec fn duration_text(duration: Duration) -> Seq<char>;

/// `Debug` of `Duration`: the text of a duration, such as `20s`.
#[verifier::external_body]
fn render_duration(duration: &Duration) -> (r: String)
    ensures
        r@ == duration_text(*duration),
{
    format!("{:?}", duration)
}

impl Error {
    /// The message for people. An operating-system error that carries no context of its own
    /// ([`Error::Io`]) has no message here: its source speaks for itself.
    pub fn message(&self) -> (r: Option<String>)
        ensures
            match r {
                Some(text) => message_of(self@) == Some(text@),
                None => message_of(self@) is None,
            },
    {
        let timeout: String = match self {
            Error::EndpointTimeout(timeout) => render_duration(timeout),
            Error::CookieTimeout { timeout, .. } => render_duration(timeout),
            _ => String::new(),
        };
        self.message_with(timeout.as_str())
    }

    /// The message for people, where `rendered` is the text of the timeout that the error names, if
    /// it names one.
    pub fn message_with(&self, rendered: &str) -> (r: Option<String>)
        ensures
            match r {
                Some(text) => message_given(self@, rendered@) == Some(text@),
                None => message_given(self@, rendered@) is None,
            },
    {
        let mut text: String = String::new();
        match self {
            Error::InvalidLoginUrl => {
                text.append("login url must start with http:// or https://");
            },
            Error::BrowserNotFound { browser, env_var } => {
                text.append(browser);
                text.append(" binary not found; set the ");
                text.append(env_var);
                text.append(" env var or install it");
            },
            Error::Launch(_) => {
                text.append("failed to launch the browser");
            },
            Error::EndpointTimeout(_) => {
                text.append("the browser debug endpoint did not come up within ");
                text.append(rendered);
            },
            Error::Transport(_) => {
                text.append("websocket transport error");
            },
            Error::Command { protocol, method, message } => {
                text.append(protocol);
                text.append(" command `");
                text.append(method.as_str());
                text.append("` failed: ");
                text.append(message.as_str());
            },
            Error::Malformed { protocol, detail } => {
                text.append("malformed ");
                text.append(protocol);
                text.append(" response: ");
                text.append(detail.as_str());
            },
            Error::CookieTimeout { name, .. } => {
                text.append("timed out after ");
                text.append(rendered);
                text.append(" waiting for cookie `");
                text.append(name.as_str());
                text.append("`");
            },
            Error::UnsupportedCookieEncoding { encoding } => {
                text.append("unsupported cookie value encoding `");
                text.append(encoding.as_str());
                text.append("`");
            },
            Error::DecodeCookies(_) => {
                text.append("failed to decode cookies");
            },
            Error::UnsupportedDefaultBrowser { name } => {
                text.append("the default browser `");
                text.append(name.as_str());
                text.append("` is not supported for capture");
            },
            Error::NoDefaultBrowser => {
                text.append("no default web browser is configured");
            },
            Error::Io(_) => {
                return None;
            },
        }
        Some(text)
    }
}

/// The message of an error, where it has one of its own.
pub open spec fn message_of(error: ErrorView) -> Option<Seq<char>> {
    match error {
        ErrorView::EndpointTimeout(timeout) => message_given(error, duration_text(timeout)),
        ErrorView::CookieTimeout { timeout, .. } => message_given(error, duration_text(timeout)),
        _ => message_given(error, Seq::empty()),
    }
}

/// The message of an error, where `rendered` is the text of the timeout that it names, if it names
/// one.
pub open spec fn message_given(error: ErrorView, rendered: Seq<char>) -> Option<Seq<char>> {
    match error {
        ErrorView::InvalidLoginUrl => Some("login url must start with http:// or https://"@),
        ErrorView::BrowserNotFound { browser, env_var } => Some(
            browser + " binary not found; set the "@ + env_var + " env var or install it"@,
        ),
        ErrorView::Launch(_) => Some("failed to launch the browser"@),
        ErrorView::EndpointTimeout(_) => Some(
            "the browser debug endpoint did not come up within "@ + rendered,
        ),
        ErrorView::Transport(_) => Some("websocket transport error"@),
        ErrorView::Command { protocol, method, message } => Some(
            protocol + " command `"@ + method + "` failed: "@ + message,
        ),
        ErrorView::Malformed { protocol, detail } => Some(
            "malformed "@ + protocol + " response: "@ + detail,
        ),
        ErrorView::CookieTimeout { name, .. } => Some(
            "timed out after "@ + rendered + " waiting for cookie `"@ + name + "`"@,
        ),
        ErrorView::UnsupportedCookieEncoding { encoding } => Some(
            "unsupported cookie value encoding `"@ + encoding + "`"@,
        ),
        ErrorView::DecodeCookies(_) => Some("failed to decode cookies"@),
        ErrorView::UnsupportedDefaultBrowser { name } => Some(
            "the default browser `"@ + name + "` is not supported for capture"@,
        ),
        ErrorView::NoDefaultBrowser => Some("no default web browser is configured"@),
        ErrorView::Io(_) => None,
    }
}

/// Whether `part` stands somewhere in `whole`.
pub open spec fn names(whole: Seq<char>, part: Seq<char>) -> bool {
    exists|before: Seq<char>, after: Seq<char>| whole == #[trigger] (before + part + after)
}

/// A message names what went wrong: the browser and its variable, the protocol, the method and what
/// the browser said, the awaited cookie, the encoding, or the handler, each as it is.
pub proof fn lemma_message_names_what_went_wrong(error: ErrorView)
    ensures
        match error {
            ErrorView::BrowserNotFound { browser, env_var } => message_of(error) matches Some(text)
                && names(text, browser) && names(text, env_var),
            ErrorView::EndpointTimeout(timeout) => message_of(error) matches Some(text) && names(
                text,
                duration_text(timeout),
            ),
            ErrorView::Command { protocol, method, message } => message_of(error) matches Some(text)
                && names(text, protocol) && names(text, method) && names(text, message),
            ErrorView::Malformed { protocol, detail } => message_of(error) matches Some(text)
                && names(text, protocol) && names(text, detail),
            ErrorView::CookieTimeout { name, timeout } => message_of(error) matches Some(text)
                && names(text, name) && names(text, duration_text(timeout)),
            ErrorView::UnsupportedCookieEncoding { encoding } => message_of(error) matches Some(text)
                && names(text, encoding),
            ErrorView::UnsupportedDefaultBrowser { name } => message_of(error) matches Some(text)
                && names(text, name),
            ErrorView::Io(_) => message_of(error) is None,
            _ => message_of(error) is Some,
        },
{
    if let Some(text) = message_of(error) {
        match error {
            ErrorView::BrowserNotFound { browser, env_var } => {
                lemma_names_at(text, browser, 0);
                lemma_names_at(
                    text,
                    env_var,
                    (browser + " binary not found; set the "@).len() as int,
                );
            },
            ErrorView::EndpointTimeout(timeout) => {
                lemma_names_at(
                    text,
                    duration_text(timeout),
                    "the browser debug endpoint did not come up within "@.len() as int,
                );
            },
            ErrorView::Command { protocol, method, message } => {
                lemma_names_at(text, protocol, 0);
                lemma_names_at(text, method, (protocol + " command `"@).len() as int);
                lemma_names_at(
                    text,
                    message,
                    (protocol + " command `"@ + method + "` failed: "@).len() as int,
                );
            },
            ErrorView::Malformed { protocol, detail } => {
                lemma_names_at(text, protocol, "malformed "@.len() as int);
                lemma_names_at(
                    text,
                    detail,
                    ("malformed "@ + protocol + " response: "@).len() as int,
                );
            },
            ErrorView::CookieTimeout { name, timeout } => {
                let rendered = duration_text(timeout);
                lemma_names_at(text, rendered, "timed out after "@.len() as int);
                lemma_names_at(
                    text,
                    name,
                    ("timed out after "@ + rendered + " waiting for cookie `"@).len() as int,
                );
            },
            ErrorView::UnsupportedCookieEncoding { encoding } => {
                lemma_names_at(
                    text,
                    encoding,
                    "unsupported cookie value encoding `"@.len() as int,
                );
            },
            ErrorView::UnsupportedDefaultBrowser { name } => {
                lemma_names_at(text, name, "the default browser `"@.len() as int);
            },
            _ => {},
        }
    }
}

proof fn lemma_names_at(whole: Seq<char>, part: Seq<char>, at: int)
    requires
        0 <= at,
        at + part.len() <= whole.len(),
        forall|i: int| 0 <= i < part.len() ==> #[trigger] part[i] == whole[at + i],
    ensures
        names(whole, part),
{
    let before = whole.take(at);
    let after = whole.skip(at + part.len());
    assert(whole =~= before + part + after);
}

} // verus!
