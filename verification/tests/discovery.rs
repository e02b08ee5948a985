//! Finding browsers on systems that are made up.
use cookie_snatch::browser::BrowserKind;
use cookie_snatch::browser::DefaultBrowser;
use cookie_snatch::browser::Engine;
use cookie_snatch::chrome;
use cookie_snatch::default_browser;
use cookie_snatch::discover::Catalog;
use cookie_snatch::discover::DefaultLookup;
use cookie_snatch::discover::Find;
use cookie_snatch::discover::Found;
use cookie_snatch::discover::Located;
use cookie_snatch::discover::Probe;
use cookie_snatch::discover::Surveyed;
use cookie_snatch::discover::catalog;
use cookie_snatch::discover::find;
use cookie_snatch::discover::handler_id;
use cookie_snatch::discover::kind_from_identifier;
use cookie_snatch::discover::locate_kind;
use cookie_snatch::discover::os_default;
use cookie_snatch::discover::os_default_error;
use cookie_snatch::discover::os_default_failed;
use cookie_snatch::firefox;
use cookie_snatch::installed_browsers;
use cookie_snatch::menu::os_default_index;
use cookie_snatch::Browser;
use cookie_snatch::Error;
use std::path::PathBuf;

/// A system: executables on `PATH`, files, links and environment variables, each with the path it
/// leads to.
struct System {
    on_path: Vec<(&'static str, &'static str)>,
    files: Vec<&'static str>,
    links: Vec<(&'static str, &'static str)>,
    variables: Vec<(&'static str, &'static str)>,
}

impl System {
    fn empty() -> System {
        System { on_path: vec![], files: vec![], links: vec![], variables: vec![] }
    }

    fn answer(&self, probe: Probe) -> Option<PathBuf> {
        let lookup = |pairs: &Vec<(&'static str, &'static str)>, key: &str| {
            pairs.iter().find(|(from, _)| *from == key).map(|(_, to)| PathBuf::from(*to))
        };
        match probe {
            Probe::Override(name) => lookup(&self.variables, name),
            Probe::OnPath(name) => lookup(&self.on_path, name),
            Probe::File(path) => self.files.contains(&path).then(|| PathBuf::from(path)),
            Probe::Canonical(path) => lookup(&self.links, path.to_str().unwrap()),
        }
    }

    fn survey(&self) -> Vec<Browser> {
        let mut survey = installed_browsers();
        loop {
            let answer = self.answer(survey.probe());
            match survey.resume(answer) {
                Surveyed::Asking(next) => survey = next,
                Surveyed::Done(browsers) => return browsers,
            }
        }
    }

    fn run(&self, search: Find) -> Result<PathBuf, Error> {
        let mut search = search;
        loop {
            let answer = self.answer(search.probe());
            match search.resume(answer) {
                Found::Asking(next) => search = next,
                Found::Done(result) => return result,
            }
        }
    }

    fn locate(&self, kind: BrowserKind) -> Option<PathBuf> {
        let mut search = locate_kind(kind);
        loop {
            let answer = self.answer(search.probe());
            match search.resume(answer) {
                Located::Asking(next) => search = next,
                Located::Done(path) => return path,
            }
        }
    }

    fn default(&self, id: Option<&str>) -> DefaultBrowser {
        let mut lookup = default_browser(id.map(str::to_owned));
        loop {
            match lookup {
                DefaultLookup::Asking(search) => {
                    let answer = self.answer(search.probe());
                    lookup = search.resume(answer);
                }
                DefaultLookup::Done(browser) => return browser,
            }
        }
    }
}

#[test]
fn classifies_known_identifiers() {
    for (id, expected) in [
        ("ChromeHTML", BrowserKind::Chrome),
        ("com.google.chrome", BrowserKind::Chrome),
        ("google-chrome.desktop", BrowserKind::Chrome),
        ("FirefoxURL", BrowserKind::Firefox),
        ("firefox.desktop", BrowserKind::Firefox),
        ("org.mozilla.firefox", BrowserKind::Firefox),
        ("MSEdgeHTM", BrowserKind::Edge),
        ("com.microsoft.edgemac", BrowserKind::Edge),
        ("BraveHTML", BrowserKind::Brave),
        ("com.operasoftware.Opera", BrowserKind::Opera),
        ("Vivaldi.app", BrowserKind::Vivaldi),
        ("chromium-browser.desktop", BrowserKind::Chromium),
    ] {
        assert_eq!(kind_from_identifier(id), Some(expected));
    }
}

#[test]
fn rejects_unknown_identifiers() {
    for id in ["Safari.app", "com.apple.Safari", "", "some-random-thing"] {
        assert!(kind_from_identifier(id).is_none());
    }
}

#[test]
fn maps_kind_to_engine() {
    for (kind, engine) in [
        (BrowserKind::Chrome, Engine::Chrome),
        (BrowserKind::Chromium, Engine::Chrome),
        (BrowserKind::Edge, Engine::Chrome),
        (BrowserKind::Brave, Engine::Chrome),
        (BrowserKind::Opera, Engine::Chrome),
        (BrowserKind::Vivaldi, Engine::Chrome),
        (BrowserKind::Firefox, Engine::Firefox),
    ] {
        assert_eq!(kind.engine(), engine);
    }
}

#[test]
fn catalog_contains_kind() {
    for kind in [
        BrowserKind::Chrome,
        BrowserKind::Chromium,
        BrowserKind::Edge,
        BrowserKind::Brave,
        BrowserKind::Opera,
        BrowserKind::Vivaldi,
        BrowserKind::Firefox,
    ] {
        assert!(catalog().iter().any(|entry| *entry == kind));
    }
    assert_eq!(catalog().len(), 7);
}

#[test]
fn case_of_an_identifier_does_not_matter() {
    for id in ["FIREFOX", "firefox", "fIrEfOx"] {
        assert_eq!(kind_from_identifier(id), Some(BrowserKind::Firefox));
    }
    assert_eq!(kind_from_identifier("CHROM\u{130}UM"), None);
}

#[test]
fn earlier_brands_win() {
    assert_eq!(kind_from_identifier("chrome-firefox"), Some(BrowserKind::Firefox));
    assert_eq!(kind_from_identifier("chrome chromium"), Some(BrowserKind::Chromium));
    assert_eq!(kind_from_identifier("chromium-edge"), Some(BrowserKind::Edge));
}

#[test]
fn catalog_entries_are_exact() {
    let edge = Catalog::of(BrowserKind::Edge);
    assert_eq!(edge.exe_names, vec!["microsoft-edge", "microsoft-edge-stable"]);
    assert_eq!(
        edge.app_paths,
        vec![
            "/Applications/Microsoft Edge.app/Contents/MacOS/Microsoft Edge",
            r"C:\Program Files (x86)\Microsoft\Edge\Application\msedge.exe",
            r"C:\Program Files\Microsoft\Edge\Application\msedge.exe",
        ]
    );
    let firefox = Catalog::of(BrowserKind::Firefox);
    assert_eq!(firefox.exe_names, vec!["firefox", "firefox-bin", "firefox-esr"]);
    assert_eq!(firefox.app_paths[1], r"C:\Program Files\Mozilla Firefox\firefox.exe");
}

#[test]
fn path_comes_before_install_locations() {
    let mut system = System::empty();
    system.files = vec!["/Applications/Chromium.app/Contents/MacOS/Chromium"];
    assert_eq!(
        system.locate(BrowserKind::Chromium),
        Some(PathBuf::from("/Applications/Chromium.app/Contents/MacOS/Chromium"))
    );
    system.on_path = vec![("chromium-browser", "/usr/bin/chromium-browser")];
    assert_eq!(
        system.locate(BrowserKind::Chromium),
        Some(PathBuf::from("/usr/bin/chromium-browser"))
    );
    system.on_path.push(("chromium", "/usr/bin/chromium"));
    assert_eq!(
        system.locate(BrowserKind::Chromium),
        Some(PathBuf::from("/usr/bin/chromium"))
    );
}

#[test]
fn found_paths_are_made_canonical() {
    let mut system = System::empty();
    system.on_path = vec![("firefox-esr", "/usr/bin/firefox-esr")];
    system.links = vec![("/usr/bin/firefox-esr", "/usr/lib/firefox/firefox")];
    assert_eq!(
        system.locate(BrowserKind::Firefox),
        Some(PathBuf::from("/usr/lib/firefox/firefox"))
    );
}

#[test]
fn survey_lists_what_is_there_in_order() {
    let mut system = System::empty();
    assert_eq!(system.survey(), vec![]);
    system.on_path = vec![
        ("firefox", "/usr/bin/firefox"),
        ("google-chrome-stable", "/usr/bin/google-chrome-stable"),
        ("chrome", "/opt/chrome"),
    ];
    system.files = vec![r"C:\Program Files\Opera\opera.exe"];
    let found: Vec<(BrowserKind, PathBuf)> =
        system.survey().into_iter().map(|browser| (browser.kind, browser.path)).collect();
    assert_eq!(
        found,
        vec![
            (BrowserKind::Chrome, PathBuf::from("/usr/bin/google-chrome-stable")),
            (BrowserKind::Opera, PathBuf::from(r"C:\Program Files\Opera\opera.exe")),
            (BrowserKind::Firefox, PathBuf::from("/usr/bin/firefox")),
        ]
    );
    assert_eq!(system.survey()[2].engine(), Engine::Firefox);
}

#[test]
fn override_wins() {
    let mut system = System::empty();
    system.on_path = vec![("google-chrome", "/usr/bin/google-chrome")];
    system.variables = vec![("CHROME", "/opt/my-chrome")];
    assert_eq!(system.run(chrome::find()).unwrap(), PathBuf::from("/opt/my-chrome"));
    system.variables = vec![("FIREFOX", "/opt/my-firefox")];
    assert_eq!(system.run(chrome::find()).unwrap(), PathBuf::from("/usr/bin/google-chrome"));
    assert_eq!(system.run(firefox::find()).unwrap(), PathBuf::from("/opt/my-firefox"));
}

#[test]
fn binary_is_one_that_the_engine_drives() {
    let mut system = System::empty();
    system.on_path = vec![("firefox", "/usr/bin/firefox"), ("brave", "/usr/bin/brave")];
    system.links = vec![("/usr/bin/brave", "/opt/brave.com/brave")];
    assert_eq!(
        system.run(find(Engine::Chrome, "CHROME", "chrome")).unwrap(),
        PathBuf::from("/opt/brave.com/brave")
    );
    assert_eq!(
        system.run(find(Engine::Firefox, "FIREFOX", "firefox")).unwrap(),
        PathBuf::from("/usr/bin/firefox")
    );
}

#[test]
fn missing_binary_is_an_error() {
    let mut system = System::empty();
    system.on_path = vec![("firefox", "/usr/bin/firefox")];
    assert!(matches!(
        system.run(chrome::find()),
        Err(Error::BrowserNotFound { browser: "chrome", env_var: "CHROME" })
    ));
    assert!(matches!(
        System::empty().run(firefox::find()),
        Err(Error::BrowserNotFound { browser: "firefox", env_var: "FIREFOX" })
    ));
}

#[test]
fn default_is_classified() {
    let mut system = System::empty();
    system.on_path = vec![("firefox", "/usr/bin/firefox")];
    match system.default(Some("firefox.desktop")) {
        DefaultBrowser::Supported(browser) => {
            assert_eq!(browser.kind, BrowserKind::Firefox);
            assert_eq!(browser.path, PathBuf::from("/usr/bin/firefox"));
        }
        other => panic!("unexpected default {other:?}"),
    }
    assert_eq!(
        system.default(Some("Safari.app")),
        DefaultBrowser::Unsupported { name: "Safari.app".to_owned() }
    );
    assert_eq!(
        system.default(Some("google-chrome.desktop")),
        DefaultBrowser::Unsupported { name: "google-chrome.desktop".to_owned() }
    );
    assert_eq!(system.default(Some("")), DefaultBrowser::Unknown);
    assert_eq!(system.default(None), DefaultBrowser::Unknown);
}

fn printed(success: bool, stdout: &[u8]) -> Option<String> {
    os_default(Ok((success, stdout.to_vec()))).unwrap()
}

#[test]
fn handler_is_what_was_printed() {
    assert_eq!(printed(true, b"  firefox.desktop \n"), Some("firefox.desktop".to_owned()));
    assert_eq!(printed(false, b"  firefox.desktop \n"), None);
    assert_eq!(printed(true, b" \r\n\t"), None);
    assert_eq!(printed(true, b""), None);
    assert_eq!(printed(true, &[b'a', 0xff]), Some("a\u{fffd}".to_owned()));
    assert_eq!(handler_id(true, "\u{a0}chrome\u{2003}"), Some("chrome".to_owned()));
}

#[test]
fn missing_query_tool_gives_no_default() {
    let missing = std::io::Error::from(std::io::ErrorKind::NotFound);
    assert!(matches!(os_default(Err(missing)), Ok(None)));
    let missing = std::io::Error::from(std::io::ErrorKind::NotFound);
    assert!(matches!(os_default_error(missing), Ok(None)));
    for kind in [
        std::io::ErrorKind::PermissionDenied,
        std::io::ErrorKind::AlreadyExists,
        std::io::ErrorKind::Other,
    ] {
        match os_default(Err(std::io::Error::from(kind))) {
            Err(Error::Io(error)) => assert_eq!(error.kind(), kind),
            _ => panic!("the query itself failed"),
        }
    }
    assert!(matches!(os_default_failed(std::io::Error::other("x"), true), Ok(None)));
    assert!(matches!(
        os_default_failed(std::io::Error::other("x"), false),
        Err(Error::Io(_))
    ));
}

#[test]
fn every_white_space_is_trimmed_and_nothing_else() {
    for c in '\0'..=char::MAX {
        assert_eq!(handler_id(true, &c.to_string()).is_none(), c.is_whitespace());
    }
}

#[test]
fn default_is_marked_among_the_installed() {
    let mut system = System::empty();
    system.on_path = vec![
        ("chromium", "/usr/bin/chromium"),
        ("firefox", "/usr/lib//firefox/firefox"),
    ];
    let browsers = system.survey();
    let default = system.default(Some("firefox.desktop"));
    assert_eq!(os_default_index(&browsers, &default), Some(1));
    assert_eq!(os_default_index(&browsers[..1], &default), None);
    assert_eq!(os_default_index(&[], &default), None);
    assert_eq!(os_default_index(&browsers, &DefaultBrowser::Unknown), None);
    let safari = DefaultBrowser::Unsupported { name: "Safari.app".to_owned() };
    assert_eq!(os_default_index(&browsers, &safari), None);

    let mut respelled = System::empty();
    respelled.on_path = vec![("firefox", "/usr/lib/./firefox/firefox")];
    let default = respelled.default(Some("firefox.desktop"));
    assert_eq!(os_default_index(&browsers, &default), Some(1));
}
