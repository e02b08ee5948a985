//! Capture a browser session's cookies by driving an already-installed browser over its remote
//! protocol (Chrome `DevTools` Protocol or Firefox `WebDriver BiDi`).
//!
//! This is the part of a capture that decides: which browser to start and with what arguments, what
//! to say to it and what its replies mean, when the cookies of a login have settled, and what to
//! give back when something fails. It holds no socket, process, file or clock. Each conversation
//! with the outside is a value that hands out the next task and goes on from its result.
//!
//! - [`discover`] finds the installed browsers and the one the system prefers.
//! - [`session`] launches a browser, reads its cookies, waits for one of them, and tears down.
//! - [`chrome`] and [`firefox`] speak the two protocols; [`transport`] numbers their requests.
//! - [`snapshot`] tells whether two reads of the cookies agree.

pub mod browser;
pub mod chrome;
pub mod cookie;
pub mod discover;
pub mod error;
pub mod firefox;
pub mod json;
pub mod menu;
pub mod session;
pub mod snapshot;
pub mod text;
pub mod transport;

pub use browser::Browser;
pub use browser::BrowserKind;
pub use browser::DefaultBrowser;
pub use browser::Engine;
pub use cookie::Cookie;
pub use cookie::UnixSeconds;
pub use discover::default_browser;
pub use discover::installed_browsers;
pub use error::Error;
pub use session::LaunchOptions;
pub use session::Session;
