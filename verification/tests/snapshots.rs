//! When two reads of the cookies agree, and how a cookie is shown.
use cookie_snatch::cookie::join_fields;
use cookie_snatch::snapshot::cookies_stable;
use cookie_snatch::Cookie;
use cookie_snatch::UnixSeconds;

fn cookie(name: &str, domain: &str, value: &str) -> Cookie {
    Cookie {
        name: name.to_owned(),
        value: value.to_owned(),
        domain: domain.to_owned(),
        path: "/".to_owned(),
        expires: seconds(-1.0),
        http_only: true,
        secure: true,
        session: true,
    }
}

fn seconds(value: f64) -> UnixSeconds {
    UnixSeconds { bits: value.to_bits() }
}

fn expiring(value: f64) -> Vec<Cookie> {
    let mut one = cookie("a", "x.example", "1");
    one.expires = seconds(value);
    vec![one]
}

#[test]
fn stable_ignores_read_order() {
    let a = cookie("a", "x.example", "1");
    let b = cookie("b", "y.example", "2");
    let first = vec![a.clone(), b.clone()];
    let second = vec![b, a];
    assert!(cookies_stable(&first, &second));
}

#[test]
fn stable_detects_value_change() {
    let before = vec![cookie("a", "x.example", "1")];
    let after = vec![cookie("a", "x.example", "2")];
    assert!(!cookies_stable(&before, &after));
}

#[test]
fn stable_detects_size_change() {
    let before = vec![cookie("a", "x.example", "1")];
    let after = vec![cookie("a", "x.example", "1"), cookie("b", "x.example", "2")];
    assert!(!cookies_stable(&before, &after));
}

#[test]
fn debug_redacts_secret_value() {
    let rendered = cookie("session", "x.example", "top-secret").debug_text("-1.0");
    assert!(!rendered.contains("top-secret"));
    assert!(rendered.contains("<redacted"));
}

#[test]
fn empty_reads_agree() {
    assert!(cookies_stable(&[], &[]));
    assert!(!cookies_stable(&[], &[cookie("a", "x.example", "1")]));
}

#[test]
fn order_does_not_matter_among_cookies_of_one_key() {
    let a = cookie("a", "x.example", "1");
    let b = cookie("a", "x.example", "2");
    assert!(cookies_stable(&[a.clone(), b.clone()], &[b.clone(), a.clone()]));
    assert!(!cookies_stable(&[a.clone(), a.clone()], &[a.clone(), b.clone()]));
    assert!(!cookies_stable(&[a.clone(), b.clone()], &[b.clone(), b]));
    assert!(cookies_stable(&[a.clone(), a.clone()], &[a.clone(), a]));
}

#[test]
fn every_order_of_three_agrees() {
    let all = [
        cookie("a", "x.example", "1"),
        cookie("a", "y.example", "1"),
        cookie("b", "x.example", "3"),
    ];
    for [i, j, k] in [[0, 1, 2], [0, 2, 1], [1, 0, 2], [1, 2, 0], [2, 0, 1], [2, 1, 0]] {
        let other = [all[i].clone(), all[j].clone(), all[k].clone()];
        assert!(cookies_stable(&all, &other));
        assert!(cookies_stable(&other, &all));
    }
}

#[test]
fn every_field_counts() {
    let base = cookie("a", "x.example", "1");
    let mut path = base.clone();
    path.path = "/app".to_owned();
    let mut expires = base.clone();
    expires.expires = seconds(5.0);
    let mut http_only = base.clone();
    http_only.http_only = false;
    let mut secure = base.clone();
    secure.secure = false;
    let mut session = base.clone();
    session.session = false;
    let renamed = cookie("b", "x.example", "1");
    let moved = cookie("a", "y.example", "1");
    for changed in [path, expires, http_only, secure, session, renamed, moved] {
        assert!(!cookies_stable(&[base.clone()], &[changed.clone()]));
        assert!(base != changed);
    }
    assert!(base == base.clone());
}

#[test]
fn expiries_are_compared_as_doubles() {
    assert!(cookies_stable(&expiring(0.0), &expiring(-0.0)));
    assert!(!cookies_stable(&expiring(1.0), &expiring(-1.0)));
    assert!(!cookies_stable(&expiring(f64::NAN), &expiring(f64::NAN)));
    assert!(cookies_stable(&expiring(f64::INFINITY), &expiring(f64::INFINITY)));
    for value in [0.0, -0.0, 1.5, -1.0, f64::MAX, f64::INFINITY, f64::NEG_INFINITY, f64::NAN] {
        for other in [0.0, -0.0, 1.5, -1.0, f64::MAX, f64::INFINITY, f64::NEG_INFINITY, f64::NAN] {
            assert_eq!(seconds(value) == seconds(other), value == other);
        }
    }
}

#[test]
fn session_expiry_is_minus_one() {
    assert_eq!(UnixSeconds::session().bits, (-1.0_f64).to_bits());
}

#[test]
fn shown_text_is_exact() {
    let mut shown = cookie("s\"id", "x.example", "s\u{e4}cret");
    shown.secure = false;
    assert_eq!(
        shown.debug_text("-1.0"),
        "Cookie { name: \"s\\\"id\", value: <redacted 7 bytes>, domain: \"x.example\", \
         path: \"/\", expires: -1.0, http_only: true, secure: false, session: true }"
    );
}

#[test]
fn values_of_one_length_are_shown_alike() {
    let one = cookie("sid", "x.example", "aaaaaaaaaaaa");
    let two = cookie("sid", "x.example", "bbbbbbbbbbbb");
    assert_eq!(one.debug_text("-1.0"), two.debug_text("-1.0"));
    assert!(one.debug_text("-1.0").contains("<redacted 12 bytes>"));
    assert_eq!(one.debug_fields("-1.0")[1], ("value", "<redacted 12 bytes>".to_owned()));
}

#[test]
fn rendered_fields_are_joined() {
    assert_eq!(join_fields(&vec![]), "Cookie {  }");
    assert_eq!(join_fields(&vec![("a", "1".to_owned())]), "Cookie { a: 1 }");
    assert_eq!(
        join_fields(&vec![("a", "1".to_owned()), ("b", "x, y".to_owned())]),
        "Cookie { a: 1, b: x, y }"
    );
}
