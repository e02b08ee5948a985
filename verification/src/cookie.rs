//! Captured cookies: what one holds, when two are equal, and how one is shown without its secret.
use vstd::prelude::*;
use vstd::string::*;

use crate::text;

verus! {

/// A point in time in seconds since the Unix epoch, as the bits of an IEEE 754 double.
#[derive(Clone, Copy, Debug)]
pub struct UnixSeconds {
    /// The bits of the double, sign first.
    pub bits: u64,
}

impl UnixSeconds {
    /// The bits without the sign.
    pub open spec fn magnitude(self) -> u64 {
        self.bits % 0x8000_0000_0000_0000
    }

    /// Whether the bits stand for no number.
    pub open spec fn is_nan(self) -> bool {
        self.magnitude() > 0x7ff0_0000_0000_0000
    }

    /// Whether the bits stand for a finite number.
    pub open spec fn is_finite(self) -> bool {
        self.magnitude() < 0x7ff0_0000_0000_0000
    }

    /// Equality of doubles: what is no number equals nothing, and the two zeros are equal.
    pub open spec fn same(self, other: Self) -> bool {
        &&& !self.is_nan()
        &&& !other.is_nan()
        &&& self.bits == other.bits || (self.magnitude() == 0 && other.magnitude() == 0)
    }

    /// The expiry of a session cookie: minus one second.
    pub fn session() -> (r: Self)
        ensures
            r == session_expiry(),
    {
        UnixSeconds { bits: 0xbff0_0000_0000_0000 }
    }
}

/// The double `-1`, which marks a cookie without a persistent expiry.
pub open spec fn session_expiry() -> UnixSeconds {
    UnixSeconds { bits: 0xbff0_0000_0000_0000 }
}

impl PartialEq for UnixSeconds {
    fn eq(&self, other: &Self) -> (r: bool) {
        let ours: u64 = self.bits % 0x8000_0000_0000_0000;
        let theirs: u64 = other.bits % 0x8000_0000_0000_0000;
        ours <= 0x7ff0_0000_0000_0000 && theirs <= 0x7ff0_0000_0000_0000 && (self.bits
            == other.bits || (ours == 0 && theirs == 0))
    }
}

impl vstd::std_specs::cmp::PartialEqSpecImpl for UnixSeconds {
    open spec fn obeys_eq_spec() -> bool {
        true
    }

    open spec fn eq_spec(&self, other: &Self) -> bool {
        self.same(*other)
    }
}

/// A captured cookie.
///
/// There is no `Debug` for it: [`Cookie::debug_text`] renders one without its value, which is a
/// live credential for a session cookie.
#[derive(Clone)]
pub struct Cookie {
    /// Cookie name.
    pub name: String,
    /// Cookie value - the secret for a session cookie.
    pub value: String,
    /// Domain the cookie is scoped to.
    pub domain: String,
    /// Path the cookie is scoped to.
    pub path: String,
    /// Unix expiry in seconds, or `-1` for a session cookie.
    pub expires: UnixSeconds,
    /// Whether the cookie is `HttpOnly` (invisible to page JavaScript).
    pub http_only: bool,
    /// Whether the cookie is only sent over a secure (HTTPS) connection.
    pub secure: bool,
    /// Whether this is a session cookie with no persistent expiry.
    pub session: bool,
}

/// What a [`Cookie`] holds.
pub struct CookieView {
    pub name: Seq<char>,
    pub value: Seq<char>,
    pub domain: Seq<char>,
    pub path: Seq<char>,
    pub expires: UnixSeconds,
    pub http_only: bool,
    pub secure: bool,
    pub session: bool,
}

/// What tells one cookie of a session from another.
pub struct CookieKey {
    pub name: Seq<char>,
    pub domain: Seq<char>,
    pub path: Seq<char>,
}

impl CookieView {
    pub open spec fn key(self) -> CookieKey {
        CookieKey { name: self.name, domain: self.domain, path: self.path }
    }

    /// Field-by-field equality, the expiries compared as doubles.
    pub open spec fn same(self, other: Self) -> bool {
        &&& self.name == other.name
        &&& self.value == other.value
        &&& self.domain == other.domain
        &&& self.path == other.path
        &&& self.expires.same(other.expires)
        &&& self.http_only == other.http_only
        &&& self.secure == other.secure
        &&& self.session == other.session
    }
}

impl View for Cookie {
    type V = CookieView;

    open spec fn view(&self) -> CookieView {
        CookieView {
            name: self.name@,
            value: self.value@,
            domain: self.domain@,
            path: self.path@,
            expires: self.expires,
            http_only: self.http_only,
            secure: self.secure,
            session: self.session,
        }
    }
}

impl PartialEq for Cookie {
    fn eq(&self, other: &Self) -> (r: bool) {
        self.name == other.name && self.value == other.value && self.domain == other.domain
            && self.path == other.path && self.expires == other.expires && self.http_only
            == other.http_only && self.secure == other.secure && self.session == other.session
    }
}

impl vstd::std_specs::cmp::PartialEqSpecImpl for Cookie {
    open spec fn obeys_eq_spec() -> bool {
        true
    }

    open spec fn eq_spec(&self, other: &Self) -> bool {
        self@.same(other@)
    }
}

// --- Rendering without the secret. ------------------------------------------------------------

/// A text in quotes, with what does not print escaped, as `Debug` renders it.
pub uninterp spec fn quoted(plain: Seq<char>) -> Seq<char>;

/// `Debug` of `str`: a text in quotes, with what does not print escaped.
#[verifier::external_body]
fn quote(plain: &str) -> (r: String)
    ensures
        r@ == quoted(plain@),
{
    format!("{:?}", plain)
}

/// What stands in for a secret of this many bytes.
pub open spec fn redaction(bytes: nat) -> Seq<char> {
    "<redacted "@ + text::decimal(bytes) + " bytes>"@
}

/// The name of a truth value.
pub open spec fn truth(flag: bool) -> Seq<char> {
    if flag {
        "true"@
    } else {
        "false"@
    }
}

fn truth_name(flag: bool) -> (r: String)
    ensures
        r@ == truth(flag),
{
    if flag {
        "true".to_owned()
    } else {
        "false".to_owned()
    }
}

/// The fields of a cookie as they are shown: the value only by its length, the expiry as the given
/// text.
pub open spec fn shown_fields(cookie: CookieView, expires: Seq<char>) -> Seq<(
    Seq<char>,
    Seq<char>,
)> {
    seq![
        ("name"@, quoted(cookie.name)),
        ("value"@, redaction(vstd::utf8::encode_utf8(cookie.value).len())),
        ("domain"@, quoted(cookie.domain)),
        ("path"@, quoted(cookie.path)),
        ("expires"@, expires),
        ("http_only"@, truth(cookie.http_only)),
        ("secure"@, truth(cookie.secure)),
        ("session"@, truth(cookie.session)),
    ]
}

/// Fields with a colon between the name and the text of each, and commas in between.
pub open spec fn joined(fields: Seq<(Seq<char>, Seq<char>)>) -> Seq<char>
    decreases fields.len(),
{
    if fields.len() == 0 {
        Seq::empty()
    } else if fields.len() == 1 {
        fields[0].0 + ": "@ + fields[0].1
    } else {
        joined(fields.drop_last()) + ", "@ + fields.last().0 + ": "@ + fields.last().1
    }
}

/// The text of a cookie as it is shown.
pub open spec fn shown(cookie: CookieView, expires: Seq<char>) -> Seq<char> {
    "Cookie { "@ + joined(shown_fields(cookie, expires)) + " }"@
}

/// What fields that were rendered hold.
pub open spec fn fields_view(fields: Seq<(&'static str, String)>) -> Seq<(Seq<char>, Seq<char>)> {
    fields.map_values(|field: (&'static str, String)| (field.0@, field.1@))
}

impl Cookie {
    /// The fields in the form that is safe to log: in place of the value stands its length in
    /// bytes. `expires` is the expiry as a text, which the caller renders.
    pub fn debug_fields(&self, expires: &str) -> (r: Vec<(&'static str, String)>)
        ensures
            fields_view(r@) =~= shown_fields(self@, expires@),
    {
        let length: usize = self.value.as_str().as_bytes().len();
        let mut redacted: String = "<redacted ".to_owned();
        redacted.append(text::to_decimal(length as u64).as_str());
        redacted.append(" bytes>");
        let mut fields: Vec<(&'static str, String)> = Vec::new();
        fields.push(("name", quote(self.name.as_str())));
        fields.push(("value", redacted));
        fields.push(("domain", quote(self.domain.as_str())));
        fields.push(("path", quote(self.path.as_str())));
        fields.push(("expires", expires.to_owned()));
        fields.push(("http_only", truth_name(self.http_only)));
        fields.push(("secure", truth_name(self.secure)));
        fields.push(("session", truth_name(self.session)));
        fields
    }

    /// The cookie in the form that is safe to log, on one line.
    pub fn debug_text(&self, expires: &str) -> (r: String)
        ensures
            r@ == shown(self@, expires@),
    {
        join_fields(&self.debug_fields(expires))
    }
}

/// The text of a cookie whose fields were rendered.
pub fn join_fields(fields: &Vec<(&'static str, String)>) -> (r: String)
    ensures
        r@ == "Cookie { "@ + joined(fields_view(fields@)) + " }"@,
{
    let ghost all = fields_view(fields@);
    let mut rendered: String = String::new();
    let mut i: usize = 0;
    while i < fields.len()
        invariant
            i <= fields.len(),
            all == fields_view(fields@),
            rendered@ == joined(all.take(i as int)),
        decreases fields.len() - i,
    {
        proof {
            assert(all.take(i + 1).drop_last() =~= all.take(i as int));
            assert(all.take(i + 1).last() == all[i as int]);
            assert(all[i as int] == (fields@[i as int].0@, fields@[i as int].1@));
        }
        if i > 0 {
            rendered.append(", ");
        }
        rendered.append(fields[i].0);
        rendered.append(": ");
        rendered.append(fields[i].1.as_str());
        proof {
            if i == 0 {
                assert(rendered@ =~= all[0].0 + ": "@ + all[0].1);
            }
        }
        i += 1;
    }
    proof {
        assert(all.take(i as int) =~= all);
    }
    let mut whole: String = "Cookie { ".to_owned();
    whole.append(rendered.as_str());
    whole.append(" }");
    whole
}

/// The text of a cookie gives away nothing of its value but the length in bytes: cookies that
/// differ only in values of one length are shown alike.
pub proof fn lemma_shown_hides_value(cookie: CookieView, secret: Seq<char>, expires: Seq<char>)
    requires
        vstd::utf8::encode_utf8(secret).len() == vstd::utf8::encode_utf8(cookie.value).len(),
    ensures
        shown((CookieView { value: secret, ..cookie }), expires) == shown(cookie, expires),
{
    assert(shown_fields((CookieView { value: secret, ..cookie }), expires) =~= shown_fields(
        cookie,
        expires,
    ));
}

// --- Laws of equality. ------------------------------------------------------------------------

/// Equal cookies differ in nothing but the sign of an expiry of zero: every other field is the same
/// to the character.
pub proof fn lemma_equal_cookies_hold_the_same(a: CookieView, b: CookieView)
    requires
        a.same(b),
    ensures
        (CookieView { expires: b.expires, ..a }) == b,
        a.expires.bits == b.expires.bits || (a.expires.bits % 0x8000_0000_0000_0000 == 0
            && b.expires.bits % 0x8000_0000_0000_0000 == 0),
{
}

/// Equality is symmetric and transitive, and a cookie equals itself unless its expiry is no number.
pub proof fn lemma_cookie_equality(a: CookieView, b: CookieView, c: CookieView)
    ensures
        a.same(b) == b.same(a),
        a.same(b) && b.same(c) ==> a.same(c),
        a.same(a) <==> !a.expires.is_nan(),
{
}

/// What is shown of a cookie is each of its fields under its own name and in order: texts in quotes,
/// flags by name, and of the value its length in bytes.
pub proof fn lemma_shown_fields_are_those_of_the_cookie(cookie: CookieView, expires: Seq<char>)
    ensures
        shown_fields(cookie, expires).len() == 8,
        shown_fields(cookie, expires)[0] == ("name"@, quoted(cookie.name)),
        shown_fields(cookie, expires)[1] == (
            "value"@,
            "<redacted "@ + text::decimal(vstd::utf8::encode_utf8(cookie.value).len())
                + " bytes>"@,
        ),
        shown_fields(cookie, expires)[2] == ("domain"@, quoted(cookie.domain)),
        shown_fields(cookie, expires)[3] == ("path"@, quoted(cookie.path)),
        shown_fields(cookie, expires)[4] == ("expires"@, expires),
        shown_fields(cookie, expires)[5].0 == "http_only"@,
        shown_fields(cookie, expires)[6].0 == "secure"@,
        shown_fields(cookie, expires)[7].0 == "session"@,
        cookie.http_only ==> shown_fields(cookie, expires)[5].1 == "true"@,
        !cookie.http_only ==> shown_fields(cookie, expires)[5].1 == "false"@,
        cookie.secure ==> shown_fields(cookie, expires)[6].1 == "true"@,
        !cookie.secure ==> shown_fields(cookie, expires)[6].1 == "false"@,
        cookie.session ==> shown_fields(cookie, expires)[7].1 == "true"@,
        !cookie.session ==> shown_fields(cookie, expires)[7].1 == "false"@,
{
}

/// Rendered fields are joined one behind the other, each whole.
pub proof fn lemma_joined_adds_each_field(
    fields: Seq<(Seq<char>, Seq<char>)>,
    name: Seq<char>,
    text: Seq<char>,
)
    ensures
        joined(fields.push((name, text))) == (if fields.len() == 0 {
            name + ": "@ + text
        } else {
            joined(fields) + ", "@ + name + ": "@ + text
        }),
{
    assert(fields.push((name, text)).drop_last() =~= fields);
}

} // verus!
