//! The browsers that can be driven, and the protocol that drives each.
use vstd::prelude::*;

use std::path::PathBuf;

verus! {

/// A path of the file system, handed on as it came.
#[verifier::external_type_specification]
#[verifier::external_body]
pub struct ExPathBuf(std::path::PathBuf);

/// `PathBuf::clone`: the same path.
pub assume_specification[ <std::path::PathBuf as Clone>::clone ](path: &std::path::PathBuf) -> (r:
    std::path::PathBuf)
    ensures
        r == *path,
;

/// Which browser and remote protocol to drive.
#[derive(Clone, Copy, Debug, PartialEq, Eq, Structural)]
#[non_exhaustive]
pub enum Engine {
    /// Chromium-family browser over the `DevTools` protocol.
    Chrome,
    /// Firefox over `WebDriver BiDi`.
    Firefox,
}

/// A specific browser product that can be discovered on the system.
#[derive(Clone, Copy, Debug, PartialEq, Eq, Structural)]
#[non_exhaustive]
pub enum BrowserKind {
    /// Google Chrome.
    Chrome,
    /// Chromium.
    Chromium,
    /// Microsoft Edge.
    Edge,
    /// Brave.
    Brave,
    /// Opera.
    Opera,
    /// Vivaldi.
    Vivaldi,
    /// Mozilla Firefox.
    Firefox,
}

/// The protocol that drives a product: `BiDi` for Firefox, the `DevTools` protocol for every other.
pub open spec fn engine_of(kind: BrowserKind) -> Engine {
    if kind == BrowserKind::Firefox {
        Engine::Firefox
    } else {
        Engine::Chrome
    }
}

impl BrowserKind {
    /// The remote-protocol [`Engine`] used to drive this browser. Every Chromium-family browser
    /// is driven over CDP as [`Engine::Chrome`]; Firefox over `WebDriver BiDi`.
    #[must_use]
    pub fn engine(self) -> (r: Engine)
        ensures
            r == engine_of(self),
    {
        match self {
            BrowserKind::Firefox => Engine::Firefox,
            BrowserKind::Chrome | BrowserKind::Chromium | BrowserKind::Edge | BrowserKind::Brave
            | BrowserKind::Opera | BrowserKind::Vivaldi => Engine::Chrome,
        }
    }
}

/// A browser discovered on the system: its product [`BrowserKind`] and the executable path.
#[derive(Clone, Debug, PartialEq, Eq)]
#[non_exhaustive]
pub struct Browser {
    /// Which browser product this is.
    pub kind: BrowserKind,
    /// Absolute path to the browser executable.
    pub path: PathBuf,
}

impl Browser {
    /// The remote-protocol [`Engine`] used to drive this browser.
    #[must_use]
    pub fn engine(&self) -> (r: Engine)
        ensures
            r == engine_of(self.kind),
    {
        self.kind.engine()
    }
}

/// The OS default web-browser handler, classified for capture. The three outcomes - a browser we
/// can drive, one we cannot, or none - are exhaustive, so callers may `match` without a catch-all.
#[derive(Clone, Debug, PartialEq, Eq)]
pub enum DefaultBrowser {
    /// A default this crate can drive.
    Supported(Browser),
    /// A default this crate cannot drive (e.g. Safari), named for diagnostics.
    Unsupported {
        /// The OS-reported handler name.
        name: String,
    },
    /// No default is configured, or it could not be resolved.
    Unknown,
}

/// What a [`DefaultBrowser`] holds.
pub enum DefaultBrowserView {
    Supported(Browser),
    Unsupported { name: Seq<char> },
    Unknown,
}

impl View for DefaultBrowser {
    type V = DefaultBrowserView;

    open spec fn view(&self) -> DefaultBrowserView {
        match *self {
            DefaultBrowser::Supported(browser) => DefaultBrowserView::Supported(browser),
            DefaultBrowser::Unsupported { name } => DefaultBrowserView::Unsupported { name: name@ },
            DefaultBrowser::Unknown => DefaultBrowserView::Unknown,
        }
    }
}

} // verus!
