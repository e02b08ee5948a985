//! Finding browsers: where each product is looked for, and which one the system prefers.
//!
//! The searches ask their questions one at a time as [`Probe`]s, and each goes on from the answer:
//! the path that was found, or nothing.
use vstd::prelude::*;
use vstd::string::*;

use std::path::PathBuf;

use crate::browser::Browser;
use crate::browser::BrowserKind;
use crate::browser::DefaultBrowser;
use crate::browser::DefaultBrowserView;
use crate::browser::Engine;
use crate::browser::engine_of;
use crate::error::Error;
use crate::error::ErrorView;
use crate::error::IoKind;
use crate::error::io_kind;
use crate::error::kind_of_failure;
use crate::text;
use crate::text::lower;
use crate::text::occurs_in;

verus! {

// --- What is known of each product. -----------------------------------------------------------

/// One known browser product: the names to look for on `PATH` and the absolute locations it is
/// installed to per OS. This catalog is the single source of truth for "where browsers live".
pub struct Catalog {
    /// The product.
    pub kind: BrowserKind,
    /// The names of its executable on `PATH`, in the order they are tried.
    pub exe_names: Vec<&'static str>,
    /// The absolute locations of its executable, in the order they are tried.
    pub app_paths: Vec<&'static str>,
}

/// The characters of each of a sequence of fixed texts.
pub open spec fn fixed_texts(texts: Seq<&'static str>) -> Seq<Seq<char>> {
    texts.map_values(|text: &'static str| text@)
}

/// The products, in the order they are looked for.
pub open spec fn catalog_kinds() -> Seq<BrowserKind> {
    seq![
        BrowserKind::Chrome,
        BrowserKind::Chromium,
        BrowserKind::Edge,
        BrowserKind::Brave,
        BrowserKind::Opera,
        BrowserKind::Vivaldi,
        BrowserKind::Firefox,
    ]
}

/// The names of a product's executable on `PATH`.
pub open spec fn exe_names(kind: BrowserKind) -> Seq<Seq<char>> {
    match kind {
        BrowserKind::Chrome => seq!["google-chrome"@, "google-chrome-stable"@, "chrome"@],
        BrowserKind::Chromium => seq!["chromium"@, "chromium-browser"@],
        BrowserKind::Edge => seq!["microsoft-edge"@, "microsoft-edge-stable"@],
        BrowserKind::Brave => seq!["brave-browser"@, "brave"@],
        BrowserKind::Opera => seq!["opera"@],
        BrowserKind::Vivaldi => seq!["vivaldi"@, "vivaldi-stable"@],
        BrowserKind::Firefox => seq!["firefox"@, "firefox-bin"@, "firefox-esr"@],
    }
}

/// The absolute locations of a product's executable.
pub open spec fn app_paths(kind: BrowserKind) -> Seq<Seq<char>> {
    match kind {
        BrowserKind::Chrome => seq![
            "/Applications/Google Chrome.app/Contents/MacOS/Google Chrome"@,
            "C:\\Program Files\\Google\\Chrome\\Application\\chrome.exe"@,
            "C:\\Program Files (x86)\\Google\\Chrome\\Application\\chrome.exe"@,
        ],
        BrowserKind::Chromium => seq!["/Applications/Chromium.app/Contents/MacOS/Chromium"@],
        BrowserKind::Edge => seq![
            "/Applications/Microsoft Edge.app/Contents/MacOS/Microsoft Edge"@,
            "C:\\Program Files (x86)\\Microsoft\\Edge\\Application\\msedge.exe"@,
            "C:\\Program Files\\Microsoft\\Edge\\Application\\msedge.exe"@,
        ],
        BrowserKind::Brave => seq![
            "/Applications/Brave Browser.app/Contents/MacOS/Brave Browser"@,
            "C:\\Program Files\\BraveSoftware\\Brave-Browser\\Application\\brave.exe"@,
        ],
        BrowserKind::Opera => seq![
            "/Applications/Opera.app/Contents/MacOS/Opera"@,
            "C:\\Program Files\\Opera\\opera.exe"@,
        ],
        BrowserKind::Vivaldi => seq![
            "/Applications/Vivaldi.app/Contents/MacOS/Vivaldi"@,
            "C:\\Program Files\\Vivaldi\\Application\\vivaldi.exe"@,
        ],
        BrowserKind::Firefox => seq![
            "/Applications/Firefox.app/Contents/MacOS/firefox"@,
            "C:\\Program Files\\Mozilla Firefox\\firefox.exe"@,
            "C:\\Program Files (x86)\\Mozilla Firefox\\firefox.exe"@,
        ],
    }
}

impl Catalog {
    /// Whether the entry holds what is known of its product.
    pub open spec fn is_entry(&self) -> bool {
        &&& fixed_texts(self.exe_names@) == exe_names(self.kind)
        &&& fixed_texts(self.app_paths@) == app_paths(self.kind)
    }

    /// What is known of a product.
    pub fn of(kind: BrowserKind) -> (r: Catalog)
        ensures
            r.kind == kind,
            r.is_entry(),
    {
        let (names, paths): (Vec<&'static str>, Vec<&'static str>) = match kind {
            BrowserKind::Chrome => (
                vec!["google-chrome", "google-chrome-stable", "chrome"],
                vec![
                    "/Applications/Google Chrome.app/Contents/MacOS/Google Chrome",
                    "C:\\Program Files\\Google\\Chrome\\Application\\chrome.exe",
                    "C:\\Program Files (x86)\\Google\\Chrome\\Application\\chrome.exe",
                ],
            ),
            BrowserKind::Chromium => (
                vec!["chromium", "chromium-browser"],
                vec!["/Applications/Chromium.app/Contents/MacOS/Chromium"],
            ),
            BrowserKind::Edge => (
                vec!["microsoft-edge", "microsoft-edge-stable"],
                vec![
                    "/Applications/Microsoft Edge.app/Contents/MacOS/Microsoft Edge",
                    "C:\\Program Files (x86)\\Microsoft\\Edge\\Application\\msedge.exe",
                    "C:\\Program Files\\Microsoft\\Edge\\Application\\msedge.exe",
                ],
            ),
            BrowserKind::Brave => (
                vec!["brave-browser", "brave"],
                vec![
                    "/Applications/Brave Browser.app/Contents/MacOS/Brave Browser",
                    "C:\\Program Files\\BraveSoftware\\Brave-Browser\\Application\\brave.exe",
                ],
            ),
            BrowserKind::Opera => (
                vec!["opera"],
                vec![
                    "/Applications/Opera.app/Contents/MacOS/Opera",
                    "C:\\Program Files\\Opera\\opera.exe",
                ],
            ),
            BrowserKind::Vivaldi => (
                vec!["vivaldi", "vivaldi-stable"],
                vec![
                    "/Applications/Vivaldi.app/Contents/MacOS/Vivaldi",
                    "C:\\Program Files\\Vivaldi\\Application\\vivaldi.exe",
                ],
            ),
            BrowserKind::Firefox => (
                vec!["firefox", "firefox-bin", "firefox-esr"],
                vec![
                    "/Applications/Firefox.app/Contents/MacOS/firefox",
                    "C:\\Program Files\\Mozilla Firefox\\firefox.exe",
                    "C:\\Program Files (x86)\\Mozilla Firefox\\firefox.exe",
                ],
            ),
        };
        proof {
            assert(fixed_texts(names@) =~= exe_names(kind));
            assert(fixed_texts(paths@) =~= app_paths(kind));
        }
        Catalog { kind, exe_names: names, app_paths: paths }
    }
}

/// The products, in the order they are looked for.
pub fn catalog() -> (r: Vec<BrowserKind>)
    ensures
        r@ == catalog_kinds(),
{
    vec![
        BrowserKind::Chrome,
        BrowserKind::Chromium,
        BrowserKind::Edge,
        BrowserKind::Brave,
        BrowserKind::Opera,
        BrowserKind::Vivaldi,
        BrowserKind::Firefox,
    ]
}

/// The product that an OS handler identifier names - a Windows `ProgId`, a Linux `.desktop`
/// basename, or a macOS bundle id or `.app` name. The brands are looked for in this order, whatever
/// the case of the letters: `chromium` before `chrome`.
pub open spec fn kind_of(id: Seq<char>) -> Option<BrowserKind> {
    let id = lower(id);
    if occurs_in("firefox"@, id) {
        Some(BrowserKind::Firefox)
    } else if occurs_in("edg"@, id) {
        Some(BrowserKind::Edge)
    } else if occurs_in("brave"@, id) {
        Some(BrowserKind::Brave)
    } else if occurs_in("vivaldi"@, id) {
        Some(BrowserKind::Vivaldi)
    } else if occurs_in("opera"@, id) {
        Some(BrowserKind::Opera)
    } else if occurs_in("chromium"@, id) {
        Some(BrowserKind::Chromium)
    } else if occurs_in("chrome"@, id) {
        Some(BrowserKind::Chrome)
    } else {
        None
    }
}

/// Classify an OS handler identifier into a [`BrowserKind`]. Safari and anything unknown return
/// `None`.
pub fn kind_from_identifier(id: &str) -> (r: Option<BrowserKind>)
    ensures
        r == kind_of(id@),
{
    let id: Vec<char> = text::to_lower(id);
    if text::contains(&id, "firefox") {
        Some(BrowserKind::Firefox)
    } else if text::contains(&id, "edg") {
        Some(BrowserKind::Edge)
    } else if text::contains(&id, "brave") {
        Some(BrowserKind::Brave)
    } else if text::contains(&id, "vivaldi") {
        Some(BrowserKind::Vivaldi)
    } else if text::contains(&id, "opera") {
        Some(BrowserKind::Opera)
    } else if text::contains(&id, "chromium") {
        Some(BrowserKind::Chromium)
    } else if text::contains(&id, "chrome") {
        Some(BrowserKind::Chrome)
    } else {
        None
    }
}

// --- Questions to the system. -----------------------------------------------------------------

/// A question to the system. The answer to each is a path, or nothing.
pub enum Probe {
    /// The path that this environment variable holds, where it is set and something exists there.
    Override(&'static str),
    /// The executable of this name on `PATH`.
    OnPath(&'static str),
    /// This very path, where it is a file.
    File(&'static str),
    /// The canonical form of this path, where it has one.
    Canonical(PathBuf),
}

/// What a [`Probe`] asks.
pub enum ProbeView {
    Override(Seq<char>),
    OnPath(Seq<char>),
    File(Seq<char>),
    Canonical(PathBuf),
}

impl View for Probe {
    type V = ProbeView;

    open spec fn view(&self) -> ProbeView {
        match *self {
            Probe::Override(env_var) => ProbeView::Override(env_var@),
            Probe::OnPath(name) => ProbeView::OnPath(name@),
            Probe::File(path) => ProbeView::File(path@),
            Probe::Canonical(path) => ProbeView::Canonical(path),
        }
    }
}

/// A system: what it answers to each question.
pub type Answers = spec_fn(ProbeView) -> Option<PathBuf>;

/// The answer to the first of these questions that has one.
pub open spec fn first_hit(probes: Seq<ProbeView>, answers: Answers) -> Option<PathBuf>
    decreases probes.len(),
{
    if probes.len() == 0 {
        None
    } else if answers(probes[0]) is Some {
        answers(probes[0])
    } else {
        first_hit(probes.drop_first(), answers)
    }
}

proof fn lemma_first_hit_step(probes: Seq<ProbeView>, at: int, answers: Answers)
    requires
        0 <= at < probes.len(),
    ensures
        first_hit(probes.skip(at), answers) == if answers(probes[at]) is Some {
            answers(probes[at])
        } else {
            first_hit(probes.skip(at + 1), answers)
        },
        first_hit(probes.skip(probes.len() as int), answers) is None,
{
    assert(probes.skip(at).drop_first() =~= probes.skip(at + 1));
}

// --- One product. -----------------------------------------------------------------------------

/// The questions that look for a product: each name on `PATH`, then each install location.
pub open spec fn candidates(kind: BrowserKind) -> Seq<ProbeView> {
    exe_names(kind).map_values(|name: Seq<char>| ProbeView::OnPath(name)) + app_paths(
        kind,
    ).map_values(|path: Seq<char>| ProbeView::File(path))
}

/// A path in its canonical form, or as it is where it has none.
pub open spec fn canonical(path: PathBuf, answers: Answers) -> PathBuf {
    match answers(ProbeView::Canonical(path)) {
        Some(canonical) => canonical,
        None => path,
    }
}

/// Where a product's executable is: the first hit on `PATH`, else the first install location that
/// exists, in canonical form.
pub open spec fn located(kind: BrowserKind, answers: Answers) -> Option<PathBuf> {
    match first_hit(candidates(kind), answers) {
        Some(path) => Some(canonical(path, answers)),
        None => None,
    }
}

/// The search for a product's executable, with a question open.
pub struct Locate {
    entry: Catalog,
    at: usize,
    found: Option<PathBuf>,
}

/// Where the search for a product's executable stands.
pub enum Located {
    /// A question is open.
    Asking(Locate),
    /// The executable, or nothing.
    Done(Option<PathBuf>),
}

impl Located {
    /// What the search comes to on a system.
    pub open spec fn outcome(self, answers: Answers) -> Option<PathBuf> {
        match self {
            Located::Asking(locate) => locate.outcome(answers),
            Located::Done(path) => path,
        }
    }

    /// How many questions are left at most.
    pub open spec fn remaining(self) -> nat {
        match self {
            Located::Asking(locate) => locate.remaining(),
            Located::Done(_) => 0,
        }
    }
}

impl Locate {
    #[verifier::type_invariant]
    spec fn in_step(&self) -> bool {
        &&& self.entry.is_entry()
        &&& self.at < candidates(self.entry.kind).len()
    }

    /// The product.
    pub closed spec fn kind(&self) -> BrowserKind {
        self.entry.kind
    }

    /// The open question.
    pub closed spec fn question(&self) -> ProbeView {
        match self.found {
            Some(path) => ProbeView::Canonical(path),
            None => candidates(self.entry.kind)[self.at as int],
        }
    }

    /// What the search comes to on a system.
    pub closed spec fn outcome(&self, answers: Answers) -> Option<PathBuf> {
        match self.found {
            Some(path) => Some(canonical(path, answers)),
            None => match first_hit(candidates(self.entry.kind).skip(self.at as int), answers) {
                Some(path) => Some(canonical(path, answers)),
                None => None,
            },
        }
    }

    /// How many questions are left at most.
    pub closed spec fn remaining(&self) -> nat {
        if self.found is Some {
            1
        } else {
            (candidates(self.entry.kind).len() - self.at + 1) as nat
        }
    }

    /// The product.
    pub fn product(&self) -> (r: BrowserKind)
        ensures
            r == self.kind(),
    {
        self.entry.kind
    }

    /// The open question.
    pub fn probe(&self) -> (r: Probe)
        ensures
            r@ == self.question(),
    {
        proof {
            use_type_invariant(self);
            assert(fixed_texts(self.entry.exe_names@).len() == self.entry.exe_names@.len());
        }
        match &self.found {
            Some(path) => Probe::Canonical(path.clone()),
            None => {
                let names: usize = self.entry.exe_names.len();
                if self.at < names {
                    proof {
                        assert(fixed_texts(self.entry.exe_names@)[self.at as int]
                            == self.entry.exe_names@[self.at as int]@);
                    }
                    Probe::OnPath(self.entry.exe_names[self.at])
                } else {
                    proof {
                        assert(fixed_texts(self.entry.app_paths@)[self.at - names]
                            == self.entry.app_paths@[self.at - names]@);
                    }
                    Probe::File(self.entry.app_paths[self.at - names])
                }
            },
        }
    }

    /// Go on from the answer to the open question.
    pub fn resume(self, answer: Option<PathBuf>) -> (r: Located)
        ensures
            r matches Located::Asking(locate) ==> locate.kind() == self.kind(),
            r.remaining() < self.remaining(),
            forall|answers: Answers|
                answers(self.question()) == answer ==> #[trigger] r.outcome(answers)
                    == self.outcome(answers),
    {
        proof {
            use_type_invariant(&self);
            let probes = candidates(self.entry.kind);
            assert forall|answers: Answers| true implies #[trigger] first_hit(
                probes.skip(self.at as int),
                answers,
            ) == if answers(probes[self.at as int]) is Some {
                answers(probes[self.at as int])
            } else {
                first_hit(probes.skip(self.at + 1), answers)
            } && first_hit(probes.skip(probes.len() as int), answers) is None by {
                lemma_first_hit_step(probes, self.at as int, answers);
            }
            assert(fixed_texts(self.entry.exe_names@).len() == self.entry.exe_names@.len());
            assert(fixed_texts(self.entry.app_paths@).len() == self.entry.app_paths@.len());
        }
        match self.found {
            Some(path) => match answer {
                Some(canonical) => Located::Done(Some(canonical)),
                None => Located::Done(Some(path)),
            },
            None => match answer {
                Some(path) => Located::Asking(
                    Locate { entry: self.entry, at: self.at, found: Some(path) },
                ),
                None => {
                    let next: usize = self.at + 1;
                    if next < self.entry.exe_names.len() + self.entry.app_paths.len() {
                        Located::Asking(Locate { entry: self.entry, at: next, found: None })
                    } else {
                        Located::Done(None)
                    }
                },
            },
        }
    }
}

/// Look for the executable of a product.
pub fn locate_kind(kind: BrowserKind) -> (r: Locate)
    ensures
        r.kind() == kind,
        r.remaining() == candidates(kind).len() + 1,
        forall|answers: Answers| #[trigger] r.outcome(answers) == located(kind, answers),
{
    proof {
        assert(candidates(kind).skip(0) =~= candidates(kind));
    }
    Locate { entry: Catalog::of(kind), at: 0, found: None }
}

// --- Every product. ---------------------------------------------------------------------------

/// The browser that a search for `kind` came to, where it found one.
pub open spec fn as_browser(kind: BrowserKind, path: Option<PathBuf>) -> Seq<Browser> {
    match path {
        Some(path) => seq![Browser { kind, path }],
        None => Seq::empty(),
    }
}

/// Those of the products that are found on a system, in order.
pub open spec fn installed_among(kinds: Seq<BrowserKind>, answers: Answers) -> Seq<Browser>
    decreases kinds.len(),
{
    if kinds.len() == 0 {
        Seq::empty()
    } else {
        as_browser(kinds[0], located(kinds[0], answers)) + installed_among(
            kinds.drop_first(),
            answers,
        )
    }
}

/// The most questions it takes to look for these products.
pub open spec fn most_questions(kinds: Seq<BrowserKind>) -> nat
    decreases kinds.len(),
{
    if kinds.len() == 0 {
        0
    } else {
        candidates(kinds[0]).len() + 1 + most_questions(kinds.drop_first())
    }
}

proof fn lemma_kinds_step(kinds: Seq<BrowserKind>, at: int)
    requires
        0 <= at < kinds.len(),
    ensures
        kinds.skip(at).drop_first() == kinds.skip(at + 1),
        most_questions(kinds.skip(at)) == candidates(kinds[at]).len() + 1 + most_questions(
            kinds.skip(at + 1),
        ),
        forall|answers: Answers| #[trigger]
            installed_among(kinds.skip(at), answers) == as_browser(
                kinds[at],
                located(kinds[at], answers),
            ) + installed_among(kinds.skip(at + 1), answers),
        forall|engine: Engine, answers: Answers| #[trigger]
            first_located(kinds.skip(at), engine, answers) == if engine_of(kinds[at]) == engine
                && located(kinds[at], answers) is Some {
                located(kinds[at], answers)
            } else {
                first_located(kinds.skip(at + 1), engine, answers)
            },
{
    assert(kinds.skip(at).drop_first() =~= kinds.skip(at + 1));
}

/// The search for every product, with a question open.
pub struct Survey {
    kinds: Vec<BrowserKind>,
    at: usize,
    locate: Locate,
    found: Vec<Browser>,
}

/// Where the search for every product stands.
pub enum Surveyed {
    /// A question is open.
    Asking(Survey),
    /// The browsers that were found.
    Done(Vec<Browser>),
}

impl Surveyed {
    /// What the search comes to on a system.
    pub open spec fn outcome(self, answers: Answers) -> Seq<Browser> {
        match self {
            Surveyed::Asking(survey) => survey.outcome(answers),
            Surveyed::Done(found) => found@,
        }
    }

    /// How many questions are left at most.
    pub open spec fn remaining(self) -> nat {
        match self {
            Surveyed::Asking(survey) => survey.remaining(),
            Surveyed::Done(_) => 0,
        }
    }
}

impl Survey {
    #[verifier::type_invariant]
    spec fn in_step(&self) -> bool {
        &&& self.at < self.kinds@.len()
        &&& self.locate.kind() == self.kinds@[self.at as int]
    }

    /// The open question.
    pub closed spec fn question(&self) -> ProbeView {
        self.locate.question()
    }

    /// What the search comes to on a system.
    pub closed spec fn outcome(&self, answers: Answers) -> Seq<Browser> {
        self.found@ + as_browser(self.locate.kind(), self.locate.outcome(answers))
            + installed_among(self.kinds@.skip(self.at + 1), answers)
    }

    /// How many questions are left at most.
    pub closed spec fn remaining(&self) -> nat {
        self.locate.remaining() + most_questions(self.kinds@.skip(self.at + 1))
    }

    /// The open question.
    pub fn probe(&self) -> (r: Probe)
        ensures
            r@ == self.question(),
    {
        self.locate.probe()
    }

    /// Go on from the answer to the open question.
    pub fn resume(self, answer: Option<PathBuf>) -> (r: Surveyed)
        ensures
            r.remaining() < self.remaining(),
            forall|answers: Answers|
                answers(self.question()) == answer ==> #[trigger] r.outcome(answers)
                    == self.outcome(answers),
    {
        proof {
            use_type_invariant(&self);
        }
        let ghost asked = self;
        let kind: BrowserKind = self.kinds[self.at];
        match self.locate.resume(answer) {
            Located::Asking(locate) => {
                let r: Surveyed = Surveyed::Asking(
                    Survey { kinds: self.kinds, at: self.at, locate, found: self.found },
                );
                proof {
                    assert forall|answers: Answers| answers(asked.question()) == answer implies
                        #[trigger] r.outcome(answers) == asked.outcome(answers) by {
                        assert(Located::Asking(locate).outcome(answers) == asked.locate.outcome(
                            answers,
                        ));
                    }
                    assert(Located::Asking(locate).remaining() == locate.remaining());
                }
                r
            },
            Located::Done(path) => {
                let ghost hit = path;
                let mut found: Vec<Browser> = self.found;
                if let Some(path) = path {
                    found.push(Browser { kind, path });
                }
                proof {
                    assert(found@ =~= asked.found@ + as_browser(kind, hit));
                }
                let count: usize = self.kinds.len();
                let next: usize = self.at + 1;
                if next < count {
                    let locate: Locate = locate_kind(self.kinds[next]);
                    let ghost kinds = self.kinds@;
                    proof {
                        lemma_kinds_step(kinds, next as int);
                    }
                    let r: Surveyed = Surveyed::Asking(
                        Survey { kinds: self.kinds, at: next, locate, found },
                    );
                    proof {
                        assert forall|answers: Answers| answers(asked.question()) == answer implies
                            #[trigger] r.outcome(answers) == asked.outcome(answers) by {
                            assert(Located::Done(hit).outcome(answers) == asked.locate.outcome(
                                answers,
                            ));
                            assert(locate.outcome(answers) == located(kinds[next as int], answers));
                            assert(r.outcome(answers) =~= asked.outcome(answers));
                        }
                    }
                    r
                } else {
                    let r: Surveyed = Surveyed::Done(found);
                    proof {
                        assert(asked.kinds@.skip(asked.at + 1) =~= Seq::<BrowserKind>::empty());
                        assert forall|answers: Answers| answers(asked.question()) == answer implies
                            #[trigger] r.outcome(answers) == asked.outcome(answers) by {
                            assert(Located::Done(hit).outcome(answers) == asked.locate.outcome(
                                answers,
                            ));
                            assert(r.outcome(answers) =~= asked.outcome(answers));
                        }
                    }
                    r
                }
            },
        }
    }
}

/// Look for every driveable browser, on `PATH` or in a known install location. Best-effort: where
/// it comes to an empty list none were found, which is no error.
#[must_use]
pub fn installed_browsers() -> (r: Survey)
    ensures
        r.remaining() == most_questions(catalog_kinds()),
        forall|answers: Answers| #[trigger]
            r.outcome(answers) == installed_among(catalog_kinds(), answers),
{
    let kinds: Vec<BrowserKind> = catalog();
    let locate: Locate = locate_kind(kinds[0]);
    let found: Vec<Browser> = Vec::new();
    proof {
        assert(kinds@.skip(0) =~= kinds@);
        lemma_kinds_step(kinds@, 0);
    }
    let r: Survey = Survey { kinds, at: 0, locate, found };
    proof {
        assert forall|answers: Answers| #[trigger]
            r.outcome(answers) == installed_among(catalog_kinds(), answers) by {
            assert(locate.outcome(answers) == located(kinds@[0], answers));
            assert(installed_among(kinds@.skip(0), answers) == as_browser(
                kinds@[0],
                located(kinds@[0], answers),
            ) + installed_among(kinds@.skip(1), answers));
            assert(r.outcome(answers) =~= installed_among(catalog_kinds(), answers));
        }
    }
    r
}

// --- A binary for an engine. ------------------------------------------------------------------

/// Where the first of the products that `engine` drives is found on a system.
pub open spec fn first_located(
    kinds: Seq<BrowserKind>,
    engine: Engine,
    answers: Answers,
) -> Option<PathBuf>
    decreases kinds.len(),
{
    if kinds.len() == 0 {
        None
    } else if engine_of(kinds[0]) == engine && located(kinds[0], answers) is Some {
        located(kinds[0], answers)
    } else {
        first_located(kinds.drop_first(), engine, answers)
    }
}

/// The binary for `engine` on a system: what the override names, else the first installed browser
/// that `engine` drives.
pub open spec fn binary_for(
    engine: Engine,
    env_var: Seq<char>,
    browser: Seq<char>,
    answers: Answers,
) -> Result<PathBuf, ErrorView> {
    match answers(ProbeView::Override(env_var)) {
        Some(path) => Ok(path),
        None => first_or_not_found(
            first_located(catalog_kinds(), engine, answers),
            env_var,
            browser,
        ),
    }
}

/// The path, or the error that no binary was found.
pub open spec fn first_or_not_found(
    path: Option<PathBuf>,
    env_var: Seq<char>,
    browser: Seq<char>,
) -> Result<PathBuf, ErrorView> {
    match path {
        Some(path) => Ok(path),
        None => Err(ErrorView::BrowserNotFound { browser, env_var }),
    }
}

/// The search for a binary, with a question open.
pub struct Find {
    engine: Engine,
    env_var: &'static str,
    browser: &'static str,
    kinds: Vec<BrowserKind>,
    at: usize,
    locate: Option<Locate>,
}

/// Where the search for a binary stands.
pub enum Found {
    /// A question is open.
    Asking(Find),
    /// The binary, or the error that none was found.
    Done(Result<PathBuf, Error>),
}

/// What a search for a binary came to.
pub open spec fn seen_path(result: Result<PathBuf, Error>) -> Result<PathBuf, ErrorView> {
    match result {
        Ok(path) => Ok(path),
        Err(error) => Err(error@),
    }
}

impl Found {
    /// What the search comes to on a system.
    pub open spec fn outcome(self, answers: Answers) -> Result<PathBuf, ErrorView> {
        match self {
            Found::Asking(find) => find.outcome(answers),
            Found::Done(result) => seen_path(result),
        }
    }

    /// How many questions are left at most.
    pub open spec fn remaining(self) -> nat {
        match self {
            Found::Asking(find) => find.remaining(),
            Found::Done(_) => 0,
        }
    }
}

/// Start looking for the first product from position `from` on that `engine` drives.
fn next_product(kinds: &Vec<BrowserKind>, engine: Engine, from: usize) -> (r: Option<
    (usize, Locate),
>)
    requires
        from <= kinds@.len(),
    ensures
        match r {
            Some((at, locate)) => {
                &&& from <= at < kinds@.len()
                &&& engine_of(kinds@[at as int]) == engine
                &&& locate.kind() == kinds@[at as int]
                &&& locate.remaining() + most_questions(kinds@.skip(at + 1)) <= most_questions(
                    kinds@.skip(from as int),
                )
                &&& forall|answers: Answers| #[trigger]
                    locate.outcome(answers) == located(kinds@[at as int], answers)
                &&& forall|answers: Answers| #[trigger]
                    first_located(kinds@.skip(from as int), engine, answers) == first_located(
                        kinds@.skip(at as int),
                        engine,
                        answers,
                    )
            },
            None => forall|answers: Answers| #[trigger]
                first_located(kinds@.skip(from as int), engine, answers) is None,
        },
{
    let mut at: usize = from;
    while at < kinds.len()
        invariant
            from <= at <= kinds@.len(),
            most_questions(kinds@.skip(at as int)) <= most_questions(kinds@.skip(from as int)),
            forall|answers: Answers| #[trigger]
                first_located(kinds@.skip(from as int), engine, answers) == first_located(
                    kinds@.skip(at as int),
                    engine,
                    answers,
                ),
        decreases kinds.len() - at,
    {
        proof {
            lemma_kinds_step(kinds@, at as int);
        }
        if kinds[at].engine() == engine {
            let locate: Locate = locate_kind(kinds[at]);
            return Some((at, locate));
        }
        at += 1;
    }
    None
}

impl Find {
    #[verifier::type_invariant]
    spec fn in_step(&self) -> bool {
        &&& self.at <= self.kinds@.len()
        &&& self.locate matches Some(locate) ==> {
            &&& self.at < self.kinds@.len()
            &&& locate.kind() == self.kinds@[self.at as int]
            &&& engine_of(locate.kind()) == self.engine
        }
    }

    /// The open question.
    pub closed spec fn question(&self) -> ProbeView {
        match self.locate {
            Some(locate) => locate.question(),
            None => ProbeView::Override(self.env_var@),
        }
    }

    /// What the search comes to on a system.
    pub closed spec fn outcome(&self, answers: Answers) -> Result<PathBuf, ErrorView> {
        match self.locate {
            Some(locate) => first_or_not_found(
                match locate.outcome(answers) {
                    Some(path) => Some(path),
                    None => first_located(self.kinds@.skip(self.at + 1), self.engine, answers),
                },
                self.env_var@,
                self.browser@,
            ),
            None => match answers(ProbeView::Override(self.env_var@)) {
                Some(path) => Ok(path),
                None => first_or_not_found(
                    first_located(self.kinds@.skip(self.at as int), self.engine, answers),
                    self.env_var@,
                    self.browser@,
                ),
            },
        }
    }

    /// How many questions are left at most.
    pub closed spec fn remaining(&self) -> nat {
        match self.locate {
            Some(locate) => locate.remaining() + most_questions(self.kinds@.skip(self.at + 1)),
            None => 1 + most_questions(self.kinds@.skip(self.at as int)),
        }
    }

    /// The open question.
    pub fn probe(&self) -> (r: Probe)
        ensures
            r@ == self.question(),
    {
        match &self.locate {
            Some(locate) => locate.probe(),
            None => Probe::Override(self.env_var),
        }
    }

    /// Go on with the first product from position `from` on, or give up where there is none.
    fn go_on(
        engine: Engine,
        env_var: &'static str,
        browser: &'static str,
        kinds: Vec<BrowserKind>,
        from: usize,
    ) -> (r: Found)
        requires
            from <= kinds@.len(),
        ensures
            r.remaining() <= most_questions(kinds@.skip(from as int)),
            forall|answers: Answers| #[trigger]
                r.outcome(answers) == first_or_not_found(
                    first_located(kinds@.skip(from as int), engine, answers),
                    env_var@,
                    browser@,
                ),
    {
        match next_product(&kinds, engine, from) {
            Some((at, locate)) => {
                proof {
                    lemma_kinds_step(kinds@, at as int);
                }
                let ghost all = kinds@;
                let r: Found = Found::Asking(
                    Find { engine, env_var, browser, kinds, at, locate: Some(locate) },
                );
                proof {
                    assert forall|answers: Answers| #[trigger]
                        r.outcome(answers) == first_or_not_found(
                            first_located(all.skip(from as int), engine, answers),
                            env_var@,
                            browser@,
                        ) by {
                        assert(first_located(all.skip(from as int), engine, answers)
                            == first_located(all.skip(at as int), engine, answers));
                        assert(locate.outcome(answers) == located(all[at as int], answers));
                    }
                }
                r
            },
            None => Found::Done(Err(Error::BrowserNotFound { browser, env_var })),
        }
    }

    /// Go on from the answer to the open question.
    pub fn resume(self, answer: Option<PathBuf>) -> (r: Found)
        ensures
            r.remaining() < self.remaining(),
            forall|answers: Answers|
                answers(self.question()) == answer ==> #[trigger] r.outcome(answers)
                    == self.outcome(answers),
    {
        proof {
            use_type_invariant(&self);
        }
        let ghost asked = self;
        match self.locate {
            None => match answer {
                Some(path) => Found::Done(Ok(path)),
                None => Find::go_on(self.engine, self.env_var, self.browser, self.kinds, self.at),
            },
            Some(locate) => {
                let ghost before = locate;
                match locate.resume(answer) {
                    Located::Asking(locate) => {
                        let r: Found = Found::Asking(
                            Find {
                                engine: self.engine,
                                env_var: self.env_var,
                                browser: self.browser,
                                kinds: self.kinds,
                                at: self.at,
                                locate: Some(locate),
                            },
                        );
                        proof {
                            assert(Located::Asking(locate).remaining() == locate.remaining());
                            assert forall|answers: Answers| answers(asked.question())
                                == answer implies #[trigger] r.outcome(answers) == asked.outcome(
                                answers,
                            ) by {
                                assert(Located::Asking(locate).outcome(answers) == before.outcome(
                                    answers,
                                ));
                            }
                        }
                        r
                    },
                    Located::Done(Some(path)) => {
                        proof {
                            assert forall|answers: Answers| answers(asked.question())
                                == answer implies #[trigger] Found::Done(Ok(path)).outcome(answers)
                                == asked.outcome(answers) by {
                                assert(Located::Done(Some(path)).outcome(answers)
                                    == before.outcome(answers));
                            }
                        }
                        Found::Done(Ok(path))
                    },
                    Located::Done(None) => {
                        let count: usize = self.kinds.len();
                        assert(self.at < count);
                        let next: usize = self.at + 1;
                        let r: Found = Find::go_on(
                            self.engine,
                            self.env_var,
                            self.browser,
                            self.kinds,
                            next,
                        );
                        proof {
                            assert forall|answers: Answers| answers(asked.question())
                                == answer implies #[trigger] r.outcome(answers) == asked.outcome(
                                answers,
                            ) by {
                                assert(Located::Done(None).outcome(answers) == before.outcome(
                                    answers,
                                ));
                            }
                        }
                        r
                    },
                }
            },
        }
    }
}

/// Look for a binary for `engine`: an existing override in `env_var` first, else the first
/// installed browser whose kind is driven by `engine`.
pub fn find(engine: Engine, env_var: &'static str, browser: &'static str) -> (r: Find)
    ensures
        r.remaining() == 1 + most_questions(catalog_kinds()),
        forall|answers: Answers| #[trigger]
            r.outcome(answers) == binary_for(engine, env_var@, browser@, answers),
{
    let kinds: Vec<BrowserKind> = catalog();
    proof {
        assert(kinds@.skip(0) =~= kinds@);
    }
    Find { engine, env_var, browser, kinds, at: 0, locate: None }
}

// --- The browser the system prefers. ----------------------------------------------------------

/// The default browser that a handler identifier stands for on a system. One that names no product,
/// or a product that is not found, is unsupported.
pub open spec fn default_for(id: Option<Seq<char>>, answers: Answers) -> DefaultBrowserView {
    match id {
        None => DefaultBrowserView::Unknown,
        Some(id) => if id.len() == 0 {
            DefaultBrowserView::Unknown
        } else {
            match kind_of(id) {
                None => DefaultBrowserView::Unsupported { name: id },
                Some(kind) => located_or_unsupported(kind, located(kind, answers), id),
            }
        },
    }
}

/// The browser at `path`, or that the handler `id` is unsupported.
pub open spec fn located_or_unsupported(
    kind: BrowserKind,
    path: Option<PathBuf>,
    id: Seq<char>,
) -> DefaultBrowserView {
    match path {
        Some(path) => DefaultBrowserView::Supported(Browser { kind, path }),
        None => DefaultBrowserView::Unsupported { name: id },
    }
}

/// The search for the default browser, with a question open.
pub struct DefaultSearch {
    id: String,
    locate: Locate,
}

/// Where the search for the default browser stands.
pub enum DefaultLookup {
    /// A question is open.
    Asking(DefaultSearch),
    /// The default browser.
    Done(DefaultBrowser),
}

impl DefaultLookup {
    /// What the search comes to on a system.
    pub open spec fn outcome(self, answers: Answers) -> DefaultBrowserView {
        match self {
            DefaultLookup::Asking(search) => search.outcome(answers),
            DefaultLookup::Done(browser) => browser@,
        }
    }

    /// How many questions are left at most.
    pub open spec fn remaining(self) -> nat {
        match self {
            DefaultLookup::Asking(search) => search.remaining(),
            DefaultLookup::Done(_) => 0,
        }
    }
}

impl DefaultSearch {
    /// The open question.
    pub closed spec fn question(&self) -> ProbeView {
        self.locate.question()
    }

    /// What the search comes to on a system.
    pub closed spec fn outcome(&self, answers: Answers) -> DefaultBrowserView {
        located_or_unsupported(self.locate.kind(), self.locate.outcome(answers), self.id@)
    }

    /// How many questions are left at most.
    pub closed spec fn remaining(&self) -> nat {
        self.locate.remaining()
    }

    /// The open question.
    pub fn probe(&self) -> (r: Probe)
        ensures
            r@ == self.question(),
    {
        self.locate.probe()
    }

    /// Go on from the answer to the open question.
    pub fn resume(self, answer: Option<PathBuf>) -> (r: DefaultLookup)
        ensures
            r.remaining() < self.remaining(),
            forall|answers: Answers|
                answers(self.question()) == answer ==> #[trigger] r.outcome(answers)
                    == self.outcome(answers),
    {
        let ghost before = self.locate;
        let kind: BrowserKind = self.locate.product();
        match self.locate.resume(answer) {
            Located::Asking(locate) => {
                proof {
                    assert(Located::Asking(locate).remaining() == locate.remaining());
                    assert forall|answers: Answers| answers(before.question())
                        == answer implies locate.outcome(answers) == #[trigger] before.outcome(
                        answers,
                    ) by {
                        assert(Located::Asking(locate).outcome(answers) == before.outcome(answers));
                    }
                }
                DefaultLookup::Asking(DefaultSearch { id: self.id, locate })
            },
            Located::Done(path) => {
                proof {
                    assert forall|answers: Answers| answers(before.question())
                        == answer implies path == #[trigger] before.outcome(answers) by {
                        assert(Located::Done(path).outcome(answers) == before.outcome(answers));
                    }
                }
                match path {
                    Some(path) => DefaultLookup::Done(
                        DefaultBrowser::Supported(Browser { kind, path }),
                    ),
                    None => DefaultLookup::Done(DefaultBrowser::Unsupported { name: self.id }),
                }
            },
        }
    }
}

/// Classify the default web-browser handler that the OS reports as `id`. A *missing* or
/// *unrecognized* default is reported through the [`DefaultBrowser`] variants, not as an error.
pub fn default_browser(id: Option<String>) -> (r: DefaultLookup)
    ensures
        forall|answers: Answers| #[trigger]
            r.outcome(answers) == default_for(
                match id {
                    Some(id) => Some(id@),
                    None => None,
                },
                answers,
            ),
{
    match id {
        None => DefaultLookup::Done(DefaultBrowser::Unknown),
        Some(id) => {
            if id.as_str().is_empty() {
                return DefaultLookup::Done(DefaultBrowser::Unknown);
            }
            match kind_from_identifier(id.as_str()) {
                None => DefaultLookup::Done(DefaultBrowser::Unsupported { name: id }),
                Some(kind) => {
                    let locate: Locate = locate_kind(kind);
                    let ghost name = id@;
                    let r: DefaultLookup = DefaultLookup::Asking(DefaultSearch { id, locate });
                    proof {
                        assert forall|answers: Answers| #[trigger]
                            r.outcome(answers) == default_for(Some(name), answers) by {
                            assert(locate.outcome(answers) == located(kind, answers));
                        }
                    }
                    r
                },
            }
        },
    }
}

/// The handler identifier in what `xdg-settings get default-web-browser` printed, where it
/// succeeded and printed one.
pub open spec fn handler_of(success: bool, printed: Seq<char>) -> Option<Seq<char>> {
    if success && text::trimmed(printed).len() > 0 {
        Some(text::trimmed(printed))
    } else {
        None
    }
}

/// The handler identifier in the text that `xdg-settings get default-web-browser` printed.
pub fn handler_id(success: bool, printed: &str) -> (r: Option<String>)
    ensures
        match r {
            Some(id) => handler_of(success, printed@) == Some(id@),
            None => handler_of(success, printed@) is None,
        },
{
    if !success {
        return None;
    }
    let id: String = text::trim(printed);
    if id.as_str().is_empty() {
        None
    } else {
        Some(id)
    }
}

/// What a query for the default handler that failed gives: no default where what was asked is
/// missing, and otherwise the error.
pub fn os_default_failed(error: std::io::Error, missing: bool) -> (r: Result<Option<String>, Error>)
    ensures
        missing ==> r == Ok::<Option<String>, Error>(None),
        !missing ==> r == Err::<Option<String>, Error>(Error::Io(error)),
{
    if missing {
        Ok(None)
    } else {
        Err(Error::Io(error))
    }
}

/// What a query for the default handler that failed with `error` gives.
pub fn os_default_error(error: std::io::Error) -> (r: Result<Option<String>, Error>)
    ensures
        io_kind(error) == IoKind::NotFound ==> r == Ok::<Option<String>, Error>(None),
        io_kind(error) != IoKind::NotFound ==> r == Err::<Option<String>, Error>(Error::Io(error)),
{
    let missing: bool = kind_of_failure(&error) == IoKind::NotFound;
    os_default_failed(error, missing)
}

/// The handler identifier that running `xdg-settings get default-web-browser` gives: from whether
/// it succeeded and what it printed, or from the error that running it gave. A tool that is missing,
/// that fails or that prints nothing gives none.
pub fn os_default(ran: Result<(bool, Vec<u8>), std::io::Error>) -> (r: Result<
    Option<String>,
    Error,
>)
    ensures
        match ran {
            Err(error) => if io_kind(error) == IoKind::NotFound {
                r == Ok::<Option<String>, Error>(None)
            } else {
                r == Err::<Option<String>, Error>(Error::Io(error))
            },
            Ok((success, stdout)) => match r {
                Ok(Some(id)) => handler_of(success, text::utf8_lossy(stdout@)) == Some(id@),
                Ok(None) => handler_of(success, text::utf8_lossy(stdout@)) is None,
                Err(_) => false,
            },
        },
{
    match ran {
        Err(error) => os_default_error(error),
        Ok((success, stdout)) => Ok(
            handler_id(success, text::from_utf8_lossy(&stdout).as_str()),
        ),
    }
}

// --- Laws of discovery. -----------------------------------------------------------------------

/// Every product is in the catalog, and none is there twice.
pub proof fn lemma_catalog_is_complete()
    ensures
        forall|kind: BrowserKind| #[trigger] catalog_kinds().contains(kind),
        catalog_kinds().no_duplicates(),
{
    let kinds = catalog_kinds();
    assert forall|kind: BrowserKind| #[trigger] kinds.contains(kind) by {
        match kind {
            BrowserKind::Chrome => assert(kinds[0] == kind),
            BrowserKind::Chromium => assert(kinds[1] == kind),
            BrowserKind::Edge => assert(kinds[2] == kind),
            BrowserKind::Brave => assert(kinds[3] == kind),
            BrowserKind::Opera => assert(kinds[4] == kind),
            BrowserKind::Vivaldi => assert(kinds[5] == kind),
            BrowserKind::Firefox => assert(kinds[6] == kind),
        }
    }
}

/// The case of ASCII letters plays no part in classifying a handler.
pub proof fn lemma_kind_ignores_case(id: Seq<char>, other: Seq<char>)
    requires
        lower(id) == lower(other),
    ensures
        kind_of(id) == kind_of(other),
{
}

/// A search takes the first question that has an answer: all before it have none.
pub proof fn lemma_first_hit(probes: Seq<ProbeView>, answers: Answers)
    ensures
        match first_hit(probes, answers) {
            Some(path) => exists|i: int|
                0 <= i < probes.len() && answers(#[trigger] probes[i]) == Some(path) && forall|
                    j: int,
                |
                    0 <= j < i ==> answers(#[trigger] probes[j]) is None,
            None => forall|i: int| 0 <= i < probes.len() ==> answers(#[trigger] probes[i]) is None,
        },
    decreases probes.len(),
{
    if probes.len() > 0 {
        let rest = probes.drop_first();
        lemma_first_hit(rest, answers);
        if answers(probes[0]) is None {
            match first_hit(rest, answers) {
                Some(path) => {
                    let i = choose|i: int|
                        0 <= i < rest.len() && answers(#[trigger] rest[i]) == Some(path) && forall|
                            j: int,
                        |
                            0 <= j < i ==> answers(#[trigger] rest[j]) is None;
                    assert(answers(probes[i + 1]) == Some(path));
                    assert forall|j: int| 0 <= j < i + 1 implies answers(
                        #[trigger] probes[j],
                    ) is None by {
                        if j > 0 {
                            assert(answers(rest[j - 1]) is None);
                        }
                    }
                },
                None => {
                    assert forall|i: int| 0 <= i < probes.len() implies answers(
                        #[trigger] probes[i],
                    ) is None by {
                        if i > 0 {
                            assert(answers(rest[i - 1]) is None);
                        }
                    }
                },
            }
        }
    }
}

/// An executable on `PATH` is preferred to every install location.
pub proof fn lemma_path_before_install_locations(
    kind: BrowserKind,
    name: int,
    path: PathBuf,
    answers: Answers,
)
    requires
        0 <= name < exe_names(kind).len(),
        answers(ProbeView::OnPath(exe_names(kind)[name])) == Some(path),
        forall|i: int|
            0 <= i < name ==> answers(ProbeView::OnPath(#[trigger] exe_names(kind)[i])) is None,
    ensures
        located(kind, answers) == Some(canonical(path, answers)),
{
    let probes = candidates(kind);
    lemma_first_hit(probes, answers);
    assert(probes[name] == ProbeView::OnPath(exe_names(kind)[name]));
    match first_hit(probes, answers) {
        Some(found) => {
            let i = choose|i: int|
                0 <= i < probes.len() && answers(#[trigger] probes[i]) == Some(found) && forall|
                    j: int,
                |
                    0 <= j < i ==> answers(#[trigger] probes[j]) is None;
            if i < name {
                assert(probes[i] == ProbeView::OnPath(exe_names(kind)[i]));
            } else if i > name {
                assert(answers(probes[name]) is None);
            }
        },
        None => {
            assert(answers(probes[name]) is None);
        },
    }
}

/// The survey lists a product exactly where it is found, where it is found.
pub proof fn lemma_installed_lists_what_is_found(
    kinds: Seq<BrowserKind>,
    browser: Browser,
    answers: Answers,
)
    ensures
        installed_among(kinds, answers).contains(browser) <==> kinds.contains(browser.kind)
            && located(browser.kind, answers) == Some(browser.path),
    decreases kinds.len(),
{
    if kinds.len() > 0 {
        let head = as_browser(kinds[0], located(kinds[0], answers));
        let rest = kinds.drop_first();
        let tail = installed_among(rest, answers);
        lemma_installed_lists_what_is_found(rest, browser, answers);
        assert(installed_among(kinds, answers) == head + tail);
        assert(kinds.contains(browser.kind) <==> kinds[0] == browser.kind || rest.contains(
            browser.kind,
        )) by {
            if rest.contains(browser.kind) {
                let i = choose|i: int| 0 <= i < rest.len() && rest[i] == browser.kind;
                assert(kinds[i + 1] == browser.kind);
            }
            if kinds.contains(browser.kind) && kinds[0] != browser.kind {
                let i = choose|i: int| 0 <= i < kinds.len() && kinds[i] == browser.kind;
                assert(rest[i - 1] == browser.kind);
            }
        }
        assert((head + tail).contains(browser) <==> head.contains(browser) || tail.contains(
            browser,
        )) by {
            if head.contains(browser) {
                assert((head + tail)[0] == browser);
            }
            if tail.contains(browser) {
                let i = choose|i: int| 0 <= i < tail.len() && tail[i] == browser;
                assert((head + tail)[head.len() + i] == browser);
            }
        }
        if located(kinds[0], answers) is Some {
            assert(head[0] == (Browser { kind: kinds[0], path: located(kinds[0], answers)->0 }));
        }
    }
}

/// The survey lists no product twice.
pub proof fn lemma_installed_lists_each_once(kinds: Seq<BrowserKind>, answers: Answers)
    requires
        kinds.no_duplicates(),
    ensures
        forall|i: int, j: int|
            0 <= i < j < installed_among(kinds, answers).len() ==> (
            #[trigger] installed_among(kinds, answers)[i]).kind != (
            #[trigger] installed_among(kinds, answers)[j]).kind,
    decreases kinds.len(),
{
    if kinds.len() > 0 {
        let head = as_browser(kinds[0], located(kinds[0], answers));
        let rest = kinds.drop_first();
        let tail = installed_among(rest, answers);
        let all = installed_among(kinds, answers);
        lemma_installed_lists_each_once(rest, answers);
        assert(all == head + tail);
        assert forall|i: int, j: int| 0 <= i < j < all.len() implies (#[trigger] all[i]).kind != (
        #[trigger] all[j]).kind by {
            assert(all[j] == tail[j - head.len()]);
            if i < head.len() {
                assert(tail.contains(all[j]));
                lemma_installed_lists_what_is_found(rest, all[j], answers);
                let k = choose|k: int| 0 <= k < rest.len() && rest[k] == all[j].kind;
                assert(kinds[k + 1] == all[j].kind);
            } else {
                assert(all[i] == tail[i - head.len()]);
            }
        }
    }
}

/// A binary for an engine is one that the engine drives, unless the override names another; none
/// is found only where there is no override and no product that the engine drives.
pub proof fn lemma_binary_is_driven_by_engine(
    engine: Engine,
    env_var: Seq<char>,
    browser: Seq<char>,
    answers: Answers,
)
    ensures
        match binary_for(engine, env_var, browser, answers) {
            Ok(path) => answers(ProbeView::Override(env_var)) == Some(path) || (answers(
                ProbeView::Override(env_var),
            ) is None && exists|kind: BrowserKind|
                engine_of(kind) == engine && #[trigger] located(kind, answers) == Some(path)),
            Err(error) => {
                &&& error == (ErrorView::BrowserNotFound { browser, env_var })
                &&& answers(ProbeView::Override(env_var)) is None
                &&& forall|kind: BrowserKind|
                    engine_of(kind) == engine ==> #[trigger] located(kind, answers) is None
            },
        },
{
    lemma_catalog_is_complete();
    lemma_first_located(catalog_kinds(), engine, answers);
    if first_located(catalog_kinds(), engine, answers) is None {
        assert forall|kind: BrowserKind| engine_of(kind) == engine implies #[trigger] located(
            kind,
            answers,
        ) is None by {
            assert(catalog_kinds().contains(kind));
        }
    }
}

proof fn lemma_first_located(kinds: Seq<BrowserKind>, engine: Engine, answers: Answers)
    ensures
        match first_located(kinds, engine, answers) {
            Some(path) => exists|kind: BrowserKind|
                engine_of(kind) == engine && #[trigger] located(kind, answers) == Some(path),
            None => forall|kind: BrowserKind|
                kinds.contains(kind) && engine_of(kind) == engine ==> #[trigger] located(
                    kind,
                    answers,
                ) is None,
        },
    decreases kinds.len(),
{
    if kinds.len() > 0 {
        let rest = kinds.drop_first();
        lemma_first_located(rest, engine, answers);
        if first_located(kinds, engine, answers) is None {
            assert forall|kind: BrowserKind|
                kinds.contains(kind) && engine_of(kind) == engine implies #[trigger] located(
                kind,
                answers,
            ) is None by {
                let i = choose|i: int| 0 <= i < kinds.len() && kinds[i] == kind;
                if i > 0 {
                    assert(rest[i - 1] == kind);
                }
            }
        }
    }
}

/// A default that can be driven is among the installed browsers.
pub proof fn lemma_default_is_installed(id: Option<Seq<char>>, answers: Answers)
    ensures
        default_for(id, answers) matches DefaultBrowserView::Supported(browser)
            ==> installed_among(catalog_kinds(), answers).contains(browser),
{
    if let DefaultBrowserView::Supported(browser) = default_for(id, answers) {
        lemma_catalog_is_complete();
        lemma_installed_lists_what_is_found(catalog_kinds(), browser, answers);
    }
}

/// A default is supported only where its handler names a product that is found; a handler that
/// names none is unsupported on every system.
pub proof fn lemma_default_is_driveable(id: Seq<char>, answers: Answers)
    requires
        id.len() > 0,
    ensures
        match default_for(Some(id), answers) {
            DefaultBrowserView::Supported(browser) => kind_of(id) == Some(browser.kind) && located(
                browser.kind,
                answers,
            ) == Some(browser.path),
            DefaultBrowserView::Unsupported { name } => name == id && (kind_of(id) matches Some(
                kind,
            ) ==> located(kind, answers) is None),
            DefaultBrowserView::Unknown => false,
        },
{
}

// --- Laws of the products. --------------------------------------------------------------------

/// Each brand names its product: a handler with the brand in it, in whatever case, and with none of
/// the brands that come before it, is that product. A handler with none of the seven is no product.
pub proof fn lemma_brand_names_its_product(id: Seq<char>)
    ensures
        occurs_in("firefox"@, lower(id)) ==> kind_of(id) == Some(BrowserKind::Firefox),
        occurs_in("edg"@, lower(id)) && !occurs_in("firefox"@, lower(id)) ==> kind_of(id) == Some(
            BrowserKind::Edge,
        ),
        occurs_in("brave"@, lower(id)) && !occurs_in("firefox"@, lower(id)) && !occurs_in(
            "edg"@,
            lower(id),
        ) ==> kind_of(id) == Some(BrowserKind::Brave),
        occurs_in("vivaldi"@, lower(id)) && !occurs_in("firefox"@, lower(id)) && !occurs_in(
            "edg"@,
            lower(id),
        ) && !occurs_in("brave"@, lower(id)) ==> kind_of(id) == Some(BrowserKind::Vivaldi),
        occurs_in("opera"@, lower(id)) && !occurs_in("firefox"@, lower(id)) && !occurs_in(
            "edg"@,
            lower(id),
        ) && !occurs_in("brave"@, lower(id)) && !occurs_in("vivaldi"@, lower(id)) ==> kind_of(id)
            == Some(BrowserKind::Opera),
        occurs_in("chromium"@, lower(id)) && !occurs_in("firefox"@, lower(id)) && !occurs_in(
            "edg"@,
            lower(id),
        ) && !occurs_in("brave"@, lower(id)) && !occurs_in("vivaldi"@, lower(id)) && !occurs_in(
            "opera"@,
            lower(id),
        ) ==> kind_of(id) == Some(BrowserKind::Chromium),
        occurs_in("chrome"@, lower(id)) && !occurs_in("firefox"@, lower(id)) && !occurs_in(
            "edg"@,
            lower(id),
        ) && !occurs_in("brave"@, lower(id)) && !occurs_in("vivaldi"@, lower(id)) && !occurs_in(
            "opera"@,
            lower(id),
        ) && !occurs_in("chromium"@, lower(id)) ==> kind_of(id) == Some(BrowserKind::Chrome),
        kind_of(id) is None <==> !occurs_in("firefox"@, lower(id)) && !occurs_in("edg"@, lower(id))
            && !occurs_in("brave"@, lower(id)) && !occurs_in("vivaldi"@, lower(id)) && !occurs_in(
            "opera"@,
            lower(id),
        ) && !occurs_in("chromium"@, lower(id)) && !occurs_in("chrome"@, lower(id)),
{
}

/// A handler is the product that its brand names wherever in it the brand stands.
pub proof fn lemma_brand_counts_wherever_it_stands(before: Seq<char>, after: Seq<char>)
    ensures
        kind_of(before + "firefox"@ + after) == Some(BrowserKind::Firefox),
        kind_of(before + "edg"@ + after) is Some,
        kind_of(before + "brave"@ + after) is Some,
        kind_of(before + "vivaldi"@ + after) is Some,
        kind_of(before + "opera"@ + after) is Some,
        kind_of(before + "chromium"@ + after) is Some,
        kind_of(before + "chrome"@ + after) is Some,
{
    reveal_strlit("firefox");
    reveal_strlit("edg");
    reveal_strlit("brave");
    reveal_strlit("vivaldi");
    reveal_strlit("opera");
    reveal_strlit("chromium");
    reveal_strlit("chrome");
    lemma_small_brand_occurs(before, "firefox"@, after);
    lemma_small_brand_occurs(before, "edg"@, after);
    lemma_small_brand_occurs(before, "brave"@, after);
    lemma_small_brand_occurs(before, "vivaldi"@, after);
    lemma_small_brand_occurs(before, "opera"@, after);
    lemma_small_brand_occurs(before, "chromium"@, after);
    lemma_small_brand_occurs(before, "chrome"@, after);
}

proof fn lemma_small_brand_occurs(before: Seq<char>, brand: Seq<char>, after: Seq<char>)
    requires
        forall|i: int| 0 <= i < brand.len() ==> 'a' <= #[trigger] brand[i] <= 'z',
    ensures
        occurs_in(brand, lower(before + brand + after)),
{
    assert(lower(before + brand + after) =~= lower(before) + brand + lower(after));
    text::lemma_occurs_between(lower(before), brand, lower(after));
}

/// Whether a search found what the system said first to one of these questions, in canonical form
/// where it has one, or nothing where it had no answer to any of them.
pub open spec fn takes_first_of(
    found: Option<PathBuf>,
    questions: Seq<ProbeView>,
    answers: Answers,
) -> bool {
    match found {
        Some(found) => exists|i: int|
            0 <= i < questions.len() && (answers(#[trigger] questions[i]) matches Some(path) && (
            match answers(ProbeView::Canonical(path)) {
                Some(canonical) => found == canonical,
                None => found == path,
            })) && forall|j: int| 0 <= j < i ==> answers(#[trigger] questions[j]) is None,
        None => forall|i: int|
            0 <= i < questions.len() ==> answers(#[trigger] questions[i]) is None,
    }
}

proof fn lemma_takes_first(kind: BrowserKind, answers: Answers)
    ensures
        takes_first_of(located(kind, answers), candidates(kind), answers),
{
    let probes = candidates(kind);
    lemma_first_hit(probes, answers);
    if let Some(path) = first_hit(probes, answers) {
        let i = choose|i: int|
            0 <= i < probes.len() && answers(#[trigger] probes[i]) == Some(path) && forall|
                j: int,
            |
                0 <= j < i ==> answers(#[trigger] probes[j]) is None;
        assert(answers(probes[i]) == Some(path));
    }
}

/// Chrome is what is found first of these.
pub proof fn lemma_where_chrome_is_looked_for(answers: Answers)
    ensures
        takes_first_of(
            located(BrowserKind::Chrome, answers),
            seq![
                ProbeView::OnPath("google-chrome"@),
                ProbeView::OnPath("google-chrome-stable"@),
                ProbeView::OnPath("chrome"@),
                ProbeView::File("/Applications/Google Chrome.app/Contents/MacOS/Google Chrome"@),
                ProbeView::File("C:\\Program Files\\Google\\Chrome\\Application\\chrome.exe"@),
                ProbeView::File("C:\\Program Files (x86)\\Google\\Chrome\\Application\\chrome.exe"@),
            ],
            answers,
        ),
{
    lemma_takes_first(BrowserKind::Chrome, answers);
    assert(candidates(BrowserKind::Chrome) =~= seq![
        ProbeView::OnPath("google-chrome"@),
        ProbeView::OnPath("google-chrome-stable"@),
        ProbeView::OnPath("chrome"@),
        ProbeView::File("/Applications/Google Chrome.app/Contents/MacOS/Google Chrome"@),
        ProbeView::File("C:\\Program Files\\Google\\Chrome\\Application\\chrome.exe"@),
        ProbeView::File("C:\\Program Files (x86)\\Google\\Chrome\\Application\\chrome.exe"@),
    ]);
}

/// Chromium is what is found first of these.
pub proof fn lemma_where_chromium_is_looked_for(answers: Answers)
    ensures
        takes_first_of(
            located(BrowserKind::Chromium, answers),
            seq![
                ProbeView::OnPath("chromium"@),
                ProbeView::OnPath("chromium-browser"@),
                ProbeView::File("/Applications/Chromium.app/Contents/MacOS/Chromium"@),
            ],
            answers,
        ),
{
    lemma_takes_first(BrowserKind::Chromium, answers);
    assert(candidates(BrowserKind::Chromium) =~= seq![
        ProbeView::OnPath("chromium"@),
        ProbeView::OnPath("chromium-browser"@),
        ProbeView::File("/Applications/Chromium.app/Contents/MacOS/Chromium"@),
    ]);
}

/// Edge is what is found first of these.
pub proof fn lemma_where_edge_is_looked_for(answers: Answers)
    ensures
        takes_first_of(
            located(BrowserKind::Edge, answers),
            seq![
                ProbeView::OnPath("microsoft-edge"@),
                ProbeView::OnPath("microsoft-edge-stable"@),
                ProbeView::File("/Applications/Microsoft Edge.app/Contents/MacOS/Microsoft Edge"@),
                ProbeView::File("C:\\Program Files (x86)\\Microsoft\\Edge\\Application\\msedge.exe"@),
                ProbeView::File("C:\\Program Files\\Microsoft\\Edge\\Application\\msedge.exe"@),
            ],
            answers,
        ),
{
    lemma_takes_first(BrowserKind::Edge, answers);
    assert(candidates(BrowserKind::Edge) =~= seq![
        ProbeView::OnPath("microsoft-edge"@),
        ProbeView::OnPath("microsoft-edge-stable"@),
        ProbeView::File("/Applications/Microsoft Edge.app/Contents/MacOS/Microsoft Edge"@),
        ProbeView::File("C:\\Program Files (x86)\\Microsoft\\Edge\\Application\\msedge.exe"@),
        ProbeView::File("C:\\Program Files\\Microsoft\\Edge\\Application\\msedge.exe"@),
    ]);
}

/// Brave is what is found first of these.
pub proof fn lemma_where_brave_is_looked_for(answers: Answers)
    ensures
        takes_first_of(
            located(BrowserKind::Brave, answers),
            seq![
                ProbeView::OnPath("brave-browser"@),
                ProbeView::OnPath("brave"@),
                ProbeView::File("/Applications/Brave Browser.app/Contents/MacOS/Brave Browser"@),
                ProbeView::File("C:\\Program Files\\BraveSoftware\\Brave-Browser\\Application\\brave.exe"@),
            ],
            answers,
        ),
{
    lemma_takes_first(BrowserKind::Brave, answers);
    assert(candidates(BrowserKind::Brave) =~= seq![
        ProbeView::OnPath("brave-browser"@),
        ProbeView::OnPath("brave"@),
        ProbeView::File("/Applications/Brave Browser.app/Contents/MacOS/Brave Browser"@),
        ProbeView::File("C:\\Program Files\\BraveSoftware\\Brave-Browser\\Application\\brave.exe"@),
    ]);
}

/// Opera is what is found first of these.
pub proof fn lemma_where_opera_is_looked_for(answers: Answers)
    ensures
        takes_first_of(
            located(BrowserKind::Opera, answers),
            seq![
                ProbeView::OnPath("opera"@),
                ProbeView::File("/Applications/Opera.app/Contents/MacOS/Opera"@),
                ProbeView::File("C:\\Program Files\\Opera\\opera.exe"@),
            ],
            answers,
        ),
{
    lemma_takes_first(BrowserKind::Opera, answers);
    assert(candidates(BrowserKind::Opera) =~= seq![
        ProbeView::OnPath("opera"@),
        ProbeView::File("/Applications/Opera.app/Contents/MacOS/Opera"@),
        ProbeView::File("C:\\Program Files\\Opera\\opera.exe"@),
    ]);
}

/// Vivaldi is what is found first of these.
pub proof fn lemma_where_vivaldi_is_looked_for(answers: Answers)
    ensures
        takes_first_of(
            located(BrowserKind::Vivaldi, answers),
            seq![
                ProbeView::OnPath("vivaldi"@),
                ProbeView::OnPath("vivaldi-stable"@),
                ProbeView::File("/Applications/Vivaldi.app/Contents/MacOS/Vivaldi"@),
                ProbeView::File("C:\\Program Files\\Vivaldi\\Application\\vivaldi.exe"@),
            ],
            answers,
        ),
{
    lemma_takes_first(BrowserKind::Vivaldi, answers);
    assert(candidates(BrowserKind::Vivaldi) =~= seq![
        ProbeView::OnPath("vivaldi"@),
        ProbeView::OnPath("vivaldi-stable"@),
        ProbeView::File("/Applications/Vivaldi.app/Contents/MacOS/Vivaldi"@),
        ProbeView::File("C:\\Program Files\\Vivaldi\\Application\\vivaldi.exe"@),
    ]);
}

/// Firefox is what is found first of these.
pub proof fn lemma_where_firefox_is_looked_for(answers: Answers)
    ensures
        takes_first_of(
            located(BrowserKind::Firefox, answers),
            seq![
                ProbeView::OnPath("firefox"@),
                ProbeView::OnPath("firefox-bin"@),
                ProbeView::OnPath("firefox-esr"@),
                ProbeView::File("/Applications/Firefox.app/Contents/MacOS/firefox"@),
                ProbeView::File("C:\\Program Files\\Mozilla Firefox\\firefox.exe"@),
                ProbeView::File("C:\\Program Files (x86)\\Mozilla Firefox\\firefox.exe"@),
            ],
            answers,
        ),
{
    lemma_takes_first(BrowserKind::Firefox, answers);
    assert(candidates(BrowserKind::Firefox) =~= seq![
        ProbeView::OnPath("firefox"@),
        ProbeView::OnPath("firefox-bin"@),
        ProbeView::OnPath("firefox-esr"@),
        ProbeView::File("/Applications/Firefox.app/Contents/MacOS/firefox"@),
        ProbeView::File("C:\\Program Files\\Mozilla Firefox\\firefox.exe"@),
        ProbeView::File("C:\\Program Files (x86)\\Mozilla Firefox\\firefox.exe"@),
    ]);
}

/// Without an override, Chrome's engine takes the first of these that is found: Chrome, Chromium,
/// Edge, Brave, Opera, Vivaldi; and Firefox's takes Firefox.
pub proof fn lemma_engine_prefers_its_products_in_order(
    env_var: Seq<char>,
    browser: Seq<char>,
    answers: Answers,
)
    requires
        answers(ProbeView::Override(env_var)) is None,
    ensures
        binary_for(Engine::Chrome, env_var, browser, answers) == (if located(
            BrowserKind::Chrome,
            answers,
        ) is Some {
            Ok(located(BrowserKind::Chrome, answers)->0)
        } else if located(BrowserKind::Chromium, answers) is Some {
            Ok(located(BrowserKind::Chromium, answers)->0)
        } else if located(BrowserKind::Edge, answers) is Some {
            Ok(located(BrowserKind::Edge, answers)->0)
        } else if located(BrowserKind::Brave, answers) is Some {
            Ok(located(BrowserKind::Brave, answers)->0)
        } else if located(BrowserKind::Opera, answers) is Some {
            Ok(located(BrowserKind::Opera, answers)->0)
        } else if located(BrowserKind::Vivaldi, answers) is Some {
            Ok(located(BrowserKind::Vivaldi, answers)->0)
        } else {
            Err::<PathBuf, ErrorView>(ErrorView::BrowserNotFound { browser, env_var })
        }),
        binary_for(Engine::Firefox, env_var, browser, answers) == (if located(
            BrowserKind::Firefox,
            answers,
        ) is Some {
            Ok(located(BrowserKind::Firefox, answers)->0)
        } else {
            Err::<PathBuf, ErrorView>(ErrorView::BrowserNotFound { browser, env_var })
        }),
{
    let kinds = catalog_kinds();
    assert(kinds.skip(0) =~= kinds);
    lemma_kinds_step(kinds, 0);
    lemma_kinds_step(kinds, 1);
    lemma_kinds_step(kinds, 2);
    lemma_kinds_step(kinds, 3);
    lemma_kinds_step(kinds, 4);
    lemma_kinds_step(kinds, 5);
    lemma_kinds_step(kinds, 6);
    assert(kinds.skip(7).len() == 0);
    assert(first_located(kinds.skip(0), Engine::Chrome, answers) == first_located(
        kinds,
        Engine::Chrome,
        answers,
    ));
    assert(first_located(kinds.skip(0), Engine::Firefox, answers) == first_located(
        kinds,
        Engine::Firefox,
        answers,
    ));
}

/// The handler is what a successful query printed without the white space around it; a query that
/// failed, or that printed white space only, gives none.
pub proof fn lemma_handler_is_what_was_printed(
    before: Seq<char>,
    id: Seq<char>,
    after: Seq<char>,
)
    requires
        text::all_blank(before),
        text::all_blank(after),
        id.len() > 0,
        !text::is_blank(id[0]),
        !text::is_blank(id.last()),
    ensures
        handler_of(true, before + id + after) == Some(id),
        handler_of(false, before + id + after) is None,
        handler_of(true, before) is None,
{
    text::lemma_trim_takes_off_padding(before, id, after);
    text::lemma_trim_leaves_nothing_of_blanks(before);
}

} // verus!
