//! Text as sequences of characters: the small searches and renderings the other modules need.
use vstd::prelude::*;
use vstd::string::*;

verus! {

/// The characters of `text`, in order.
pub fn chars_of(text: &str) -> (r: Vec<char>)
    ensures
        r@ == text@,
{
    let mut chars: Vec<char> = Vec::new();
    for c in it: text.chars()
        invariant
            chars@ =~= it.seq().take(it.index() as int),
            it.seq() == text@,
    {
        chars.push(c);
    }
    chars
}

/// Whether two texts hold the same characters.
pub fn same_text(a: &str, b: &str) -> (r: bool)
    ensures
        r == (a@ == b@),
{
    a.to_owned() == b.to_owned()
}

/// Whether `text` begins with `prefix`.
pub fn starts_with(text: &str, prefix: &str) -> (r: bool)
    ensures
        r == prefix@.is_prefix_of(text@),
{
    let whole: Vec<char> = chars_of(text);
    let wanted: Vec<char> = chars_of(prefix);
    occurs_at(&whole, &wanted, 0)
}

/// Whether `needle` stands in `hay` at position `at`.
pub open spec fn stands_at(needle: Seq<char>, hay: Seq<char>, at: int) -> bool {
    &&& 0 <= at
    &&& at + needle.len() <= hay.len()
    &&& hay.subrange(at, at + needle.len()) == needle
}

/// Whether `needle` occurs somewhere in `hay`.
pub open spec fn occurs_in(needle: Seq<char>, hay: Seq<char>) -> bool {
    exists|at: int| stands_at(needle, hay, at)
}

fn occurs_at(hay: &Vec<char>, needle: &Vec<char>, at: usize) -> (r: bool)
    ensures
        r == stands_at(needle@, hay@, at as int),
{
    if at > hay.len() || hay.len() - at < needle.len() {
        return false;
    }
    let mut i: usize = 0;
    while i < needle.len()
        invariant
            i <= needle.len(),
            at + needle.len() <= hay.len(),
            hay@.subrange(at as int, at + i) =~= needle@.subrange(0, i as int),
        decreases needle.len() - i,
    {
        if hay[at + i] != needle[i] {
            proof {
                assert(hay@.subrange(at as int, at + needle@.len())[i as int] == hay@[at + i]);
            }
            return false;
        }
        i += 1;
    }
    proof {
        assert(needle@.subrange(0, i as int) =~= needle@);
    }
    true
}

/// Whether the characters of `needle` occur in `hay`.
pub fn contains(hay: &Vec<char>, needle: &str) -> (r: bool)
    ensures
        r == occurs_in(needle@, hay@),
{
    let wanted: Vec<char> = chars_of(needle);
    let mut at: usize = 0;
    while at < hay.len()
        invariant
            at <= hay.len(),
            wanted@ == needle@,
            forall|k: int| 0 <= k < at ==> !stands_at(wanted@, hay@, k),
        decreases hay.len() - at,
    {
        if occurs_at(hay, &wanted, at) {
            return true;
        }
        at += 1;
    }
    occurs_at(hay, &wanted, at)
}

/// An ASCII upper-case letter made lower-case; any other character as it is.
pub open spec fn lower_char(c: char) -> char {
    if 'A' <= c && c <= 'Z' {
        ((c as u8 + 32) as u8) as char
    } else {
        c
    }
}

/// `text` with its ASCII letters made lower-case.
pub open spec fn lower(text: Seq<char>) -> Seq<char> {
    text.map_values(|c: char| lower_char(c))
}

/// The characters of `text` with ASCII letters made lower-case.
pub fn to_lower(text: &str) -> (r: Vec<char>)
    ensures
        r@ == lower(text@),
{
    let chars: Vec<char> = chars_of(text);
    let mut lowered: Vec<char> = Vec::new();
    let mut i: usize = 0;
    while i < chars.len()
        invariant
            i <= chars.len(),
            lowered@ =~= lower(chars@).take(i as int),
        decreases chars.len() - i,
    {
        let c: char = chars[i];
        if 'A' <= c && c <= 'Z' {
            lowered.push((c as u8 + 32) as char);
        } else {
            lowered.push(c);
        }
        i += 1;
    }
    lowered
}

/// The decimal digit for `d`, which is below ten.
pub open spec fn digit(d: nat) -> char {
    ((48 + d) as u8) as char
}

/// The decimal rendering of `n`, without leading zeros.
pub open spec fn decimal(n: nat) -> Seq<char>
    decreases n,
{
    if n < 10 {
        seq![digit(n)]
    } else {
        decimal(n / 10).push(digit(n % 10))
    }
}

/// A decimal rendering is made of digits.
pub proof fn lemma_decimal_digits(n: nat)
    ensures
        decimal(n).len() > 0,
        forall|i: int| 0 <= i < decimal(n).len() ==> '0' <= #[trigger] decimal(n)[i] <= '9',
    decreases n,
{
    if n >= 10 {
        lemma_decimal_digits(n / 10);
    }
}

/// Different numbers have different decimal renderings.
pub proof fn lemma_decimal_injective(a: nat, b: nat)
    requires
        decimal(a) == decimal(b),
    ensures
        a == b,
    decreases a,
{
    lemma_decimal_digits(a / 10);
    lemma_decimal_digits(b / 10);
    assert(decimal(a).last() == digit(a % 10));
    assert(decimal(b).last() == digit(b % 10));
    if a >= 10 && b >= 10 {
        assert(decimal(a).drop_last() =~= decimal(a / 10));
        assert(decimal(b).drop_last() =~= decimal(b / 10));
        lemma_decimal_injective(a / 10, b / 10);
    }
}

/// `String::push`: appends one character to the end of the text.
pub assume_specification[ String::push ](string: &mut String, c: char)
    ensures
        final(string)@ == old(string)@.push(c),
;

/// The text of `chars` from position `from` up to `to`.
pub fn to_text(chars: &Vec<char>, from: usize, to: usize) -> (r: String)
    requires
        from <= to <= chars@.len(),
    ensures
        r@ == chars@.subrange(from as int, to as int),
{
    let mut text: String = String::new();
    let mut i: usize = from;
    while i < to
        invariant
            from <= i <= to <= chars@.len(),
            text@ =~= chars@.subrange(from as int, i as int),
        decreases to - i,
    {
        text.push(chars[i]);
        i += 1;
    }
    text
}

/// The decimal rendering of `n`.
pub fn to_decimal(n: u64) -> (r: String)
    ensures
        r@ == decimal(n as nat),
    decreases n,
{
    let mut text: String = if n < 10 {
        String::new()
    } else {
        to_decimal(n / 10)
    };
    text.push((48 + (n % 10) as u8) as char);
    text
}

/// The position of the first line feed from `from` on, or the end of the text.
pub open spec fn line_end(text: Seq<char>, from: int) -> int
    decreases text.len() - from,
{
    if from >= text.len() {
        text.len() as int
    } else if text[from] == '\n' {
        from
    } else {
        line_end(text, from + 1)
    }
}

/// The line that begins at `from`, without its line ending: a line feed, or a carriage return and
/// a line feed.
pub open spec fn line_at(text: Seq<char>, from: int) -> Seq<char> {
    let end = line_end(text, from);
    if end < text.len() && end > from && text[end - 1] == '\r' {
        text.subrange(from, end - 1)
    } else {
        text.subrange(from, end)
    }
}

/// The first two lines of a text, where it has two. An ending behind the last line begins no new
/// one.
pub open spec fn two_lines(text: Seq<char>) -> Option<(Seq<char>, Seq<char>)> {
    let next = line_end(text, 0) + 1;
    if next < text.len() {
        Some((line_at(text, 0), line_at(text, next)))
    } else {
        None
    }
}

fn find_line_end(chars: &Vec<char>, from: usize) -> (r: usize)
    requires
        from <= chars@.len(),
    ensures
        r == line_end(chars@, from as int),
        from <= r <= chars@.len(),
{
    let mut end: usize = from;
    while end < chars.len() && chars[end] != '\n'
        invariant
            from <= end <= chars@.len(),
            line_end(chars@, from as int) == line_end(chars@, end as int),
        decreases chars.len() - end,
    {
        end += 1;
    }
    end
}

fn read_line(chars: &Vec<char>, from: usize) -> (r: String)
    requires
        from <= chars@.len(),
    ensures
        r@ == line_at(chars@, from as int),
{
    let end: usize = find_line_end(chars, from);
    if end < chars.len() && end > from && chars[end - 1] == '\r' {
        to_text(chars, from, end - 1)
    } else {
        to_text(chars, from, end)
    }
}

/// The first two lines of a text, where it has two.
pub fn first_two_lines(text: &str) -> (r: Option<(String, String)>)
    ensures
        match r {
            Some((first, second)) => two_lines(text@) == Some((first@, second@)),
            None => two_lines(text@) is None,
        },
{
    let chars: Vec<char> = chars_of(text);
    let end: usize = find_line_end(&chars, 0);
    if end < chars.len() && end + 1 < chars.len() {
        Some((read_line(&chars, 0), read_line(&chars, end + 1)))
    } else {
        None
    }
}

/// `String::from_utf8`: the text that the bytes encode, and nothing where they are no UTF-8.
#[verifier::external_body]
pub(crate) fn from_utf8(bytes: Vec<u8>) -> (r: Option<String>)
    ensures
        r is Some <==> vstd::utf8::valid_utf8(bytes@),
        r matches Some(text) ==> text@ == vstd::utf8::decode_utf8(bytes@),
{
    String::from_utf8(bytes).ok()
}

/// What `String::from_utf8_lossy` makes of bytes: the text they encode, with replacement characters
/// where they are no UTF-8.
pub uninterp spec fn utf8_lossy(bytes: Seq<u8>) -> Seq<char>;

/// `String::from_utf8_lossy`: the text that the bytes encode. Where they are no UTF-8, which
/// replacement characters stand in is not said.
#[verifier::external_body]
pub(crate) fn from_utf8_lossy(bytes: &Vec<u8>) -> (r: String)
    ensures
        r@ == utf8_lossy(bytes@),
        vstd::utf8::valid_utf8(bytes@) ==> r@ == vstd::utf8::decode_utf8(bytes@),
{
    String::from_utf8_lossy(bytes).into_owned()
}

/// Whether a character has the Unicode property `White_Space`.
pub open spec fn is_blank(c: char) -> bool {
    let code = c as u32;
    ||| 0x0009 <= code <= 0x000d
    ||| code == 0x0020
    ||| code == 0x0085
    ||| code == 0x00a0
    ||| code == 0x1680
    ||| 0x2000 <= code <= 0x200a
    ||| code == 0x2028
    ||| code == 0x2029
    ||| code == 0x202f
    ||| code == 0x205f
    ||| code == 0x3000
}

/// `char::is_whitespace`: whether a character has the Unicode property `White_Space`.
pub assume_specification[ char::is_whitespace ](c: char) -> (r: bool)
    ensures
        r == is_blank(c),
;

/// A text without the white space at its start.
pub open spec fn trim_start(text: Seq<char>) -> Seq<char>
    decreases text.len(),
{
    if text.len() > 0 && is_blank(text[0]) {
        trim_start(text.drop_first())
    } else {
        text
    }
}

/// A text without the white space at its end.
pub open spec fn trim_end(text: Seq<char>) -> Seq<char>
    decreases text.len(),
{
    if text.len() > 0 && is_blank(text.last()) {
        trim_end(text.drop_last())
    } else {
        text
    }
}

/// A text without the white space around it.
pub open spec fn trimmed(text: Seq<char>) -> Seq<char> {
    trim_end(trim_start(text))
}

/// The text without the white space around it.
pub fn trim(text: &str) -> (r: String)
    ensures
        r@ == trimmed(text@),
{
    let chars: Vec<char> = chars_of(text);
    let mut from: usize = 0;
    proof {
        assert(chars@.skip(0) =~= chars@);
    }
    while from < chars.len() && chars[from].is_whitespace()
        invariant
            from <= chars@.len(),
            trim_start(chars@) == trim_start(chars@.skip(from as int)),
        decreases chars.len() - from,
    {
        proof {
            assert(chars@.skip(from as int).drop_first() =~= chars@.skip(from + 1));
        }
        from += 1;
    }
    let mut to: usize = chars.len();
    let ghost started = trim_start(chars@);
    proof {
        assert(started == chars@.skip(from as int));
        assert(chars@.subrange(from as int, to as int) =~= started);
    }
    while to > from && chars[to - 1].is_whitespace()
        invariant
            from <= to <= chars@.len(),
            trim_end(started) == trim_end(chars@.subrange(from as int, to as int)),
        decreases to,
    {
        proof {
            assert(chars@.subrange(from as int, to as int).drop_last() =~= chars@.subrange(
                from as int,
                to - 1,
            ));
        }
        to -= 1;
    }
    to_text(&chars, from, to)
}

// --- Laws of texts. ---------------------------------------------------------------------------

/// What stands between any two texts occurs in the whole.
pub proof fn lemma_occurs_between(before: Seq<char>, needle: Seq<char>, after: Seq<char>)
    ensures
        occurs_in(needle, before + needle + after),
{
    let whole = before + needle + after;
    let at = before.len() as int;
    assert(whole.subrange(at, at + needle.len()) =~= needle);
    assert(stands_at(needle, whole, at));
}

/// What occurs in a text stands between what comes before it and what comes after it.
pub proof fn lemma_occurrence_splits(needle: Seq<char>, hay: Seq<char>) -> (r: (
    Seq<char>,
    Seq<char>,
))
    requires
        occurs_in(needle, hay),
    ensures
        hay == r.0 + needle + r.1,
{
    let at = choose|at: int| stands_at(needle, hay, at);
    let before = hay.take(at);
    let after = hay.skip(at + needle.len());
    assert(hay =~= before + needle + after) by {
        assert forall|i: int| 0 <= i < hay.len() implies hay[i] == (before + needle + after)[i] by {
            if at <= i < at + needle.len() {
                assert(hay.subrange(at, at + needle.len())[i - at] == needle[i - at]);
            }
        }
    }
    (before, after)
}

/// Making a text lower-case replaces each letter of the English alphabet by its small form, leaves
/// every text without capitals as it is, and goes character by character.
pub proof fn lemma_lower_replaces_capitals(a: Seq<char>, b: Seq<char>)
    ensures
        lower("ABCDEFGHIJKLMNOPQRSTUVWXYZ"@) == "abcdefghijklmnopqrstuvwxyz"@,
        lower(a + b) == lower(a) + lower(b),
        (forall|i: int| 0 <= i < a.len() ==> !("ABCDEFGHIJKLMNOPQRSTUVWXYZ"@.contains(
            #[trigger] a[i],
        ))) ==> lower(a) == a,
{
    reveal_strlit("ABCDEFGHIJKLMNOPQRSTUVWXYZ");
    reveal_strlit("abcdefghijklmnopqrstuvwxyz");
    let capitals = "ABCDEFGHIJKLMNOPQRSTUVWXYZ"@;
    assert(lower(capitals) =~= "abcdefghijklmnopqrstuvwxyz"@);
    assert(lower(a + b) =~= lower(a) + lower(b));
    if forall|i: int| 0 <= i < a.len() ==> !(capitals.contains(#[trigger] a[i])) {
        assert forall|i: int| 0 <= i < a.len() implies lower(a)[i] == a[i] by {
            if 'A' <= a[i] <= 'Z' {
                let at = a[i] as int - 65;
                assert(capitals[at] as int == 65 + at);
                assert(capitals[at] == a[i]);
            }
        }
        assert(lower(a) =~= a);
    }
}

/// Whether a text is white space only.
pub open spec fn all_blank(text: Seq<char>) -> bool {
    forall|i: int| 0 <= i < text.len() ==> is_blank(#[trigger] text[i])
}

/// Trimming takes off the white space around a text and nothing else.
pub proof fn lemma_trim_takes_off_padding(before: Seq<char>, core: Seq<char>, after: Seq<char>)
    requires
        all_blank(before),
        all_blank(after),
        core.len() > 0,
        !is_blank(core[0]),
        !is_blank(core.last()),
    ensures
        trimmed(before + core + after) == core,
{
    lemma_trim_start_padding(before, core + after);
    lemma_trim_end_padding(core, after);
    assert(before + core + after =~= before + (core + after));
}

/// Nothing is left of white space.
pub proof fn lemma_trim_leaves_nothing_of_blanks(blank: Seq<char>)
    requires
        all_blank(blank),
    ensures
        trimmed(blank).len() == 0,
    decreases blank.len(),
{
    if blank.len() > 0 {
        let rest = blank.drop_first();
        assert(is_blank(blank[0]));
        assert forall|i: int| 0 <= i < rest.len() implies is_blank(#[trigger] rest[i]) by {
            assert(is_blank(blank[i + 1]));
        }
        lemma_trim_leaves_nothing_of_blanks(rest);
    }
}

proof fn lemma_trim_start_padding(before: Seq<char>, rest: Seq<char>)
    requires
        all_blank(before),
        rest.len() > 0,
        !is_blank(rest[0]),
    ensures
        trim_start(before + rest) == rest,
    decreases before.len(),
{
    if before.len() == 0 {
        assert(before + rest =~= rest);
    } else {
        let less = before.drop_first();
        assert(is_blank(before[0]));
        assert forall|i: int| 0 <= i < less.len() implies is_blank(#[trigger] less[i]) by {
            assert(is_blank(before[i + 1]));
        }
        assert((before + rest).drop_first() =~= less + rest);
        lemma_trim_start_padding(less, rest);
    }
}

proof fn lemma_trim_end_padding(core: Seq<char>, after: Seq<char>)
    requires
        all_blank(after),
        core.len() > 0,
        !is_blank(core.last()),
    ensures
        trim_end(core + after) == core,
    decreases after.len(),
{
    if after.len() == 0 {
        assert(core + after =~= core);
    } else {
        let less = after.drop_last();
        assert(is_blank(after[after.len() - 1]));
        assert forall|i: int| 0 <= i < less.len() implies is_blank(#[trigger] less[i]) by {
            assert(is_blank(after[i]));
        }
        assert((core + after).drop_last() =~= core + less);
        lemma_trim_end_padding(core, less);
    }
}

/// Whether a text is on one line: it holds no line feed and no carriage return.
pub open spec fn unbroken(text: Seq<char>) -> bool {
    forall|i: int| 0 <= i < text.len() ==> (#[trigger] text[i]) != '\n' && text[i] != '\r'
}

/// Whether a text is a line ending: a line feed, or a carriage return and a line feed.
pub open spec fn is_line_ending(ending: Seq<char>) -> bool {
    ending == seq!['\n'] || ending == seq!['\r', '\n']
}

proof fn lemma_line_ends(text: Seq<char>, from: int, end: int)
    requires
        0 <= from <= end <= text.len(),
        forall|k: int| from <= k < end ==> (#[trigger] text[k]) != '\n',
        end == text.len() || text[end] == '\n',
    ensures
        line_end(text, from) == end,
    decreases end - from,
{
    if from < end {
        lemma_line_ends(text, from + 1, end);
    }
}

/// The first two lines of a text are what stands before its first line ending, and what stands
/// behind it up to the next ending or the end.
pub proof fn lemma_two_lines(
    first: Seq<char>,
    ending: Seq<char>,
    second: Seq<char>,
    tail: Seq<char>,
)
    requires
        unbroken(first),
        unbroken(second),
        is_line_ending(ending),
        (tail.len() == 0 && second.len() > 0) || exists|next: Seq<char>, rest: Seq<char>|
            is_line_ending(next) && tail == #[trigger] (next + rest),
    ensures
        two_lines(first + ending + second + tail) == Some((first, second)),
{
    let text = first + ending + second + tail;
    let head = first.len() + ending.len();
    let feed = head - 1;
    assert forall|k: int| 0 <= k < feed implies (#[trigger] text[k]) != '\n' by {
        if k < first.len() {
            assert(text[k] == first[k]);
        }
    }
    assert(text[feed] == '\n');
    lemma_line_ends(text, 0, feed);
    let stop = head + second.len();
    if tail.len() == 0 {
        assert forall|k: int| head <= k < stop implies (#[trigger] text[k]) != '\n' by {
            assert(text[k] == second[k - head]);
        }
        lemma_line_ends(text, head as int, stop as int);
        assert(line_at(text, head as int) =~= second);
    } else {
        let (next, rest) = choose|next: Seq<char>, rest: Seq<char>|
            is_line_ending(next) && tail == #[trigger] (next + rest);
        let end = stop + next.len() - 1;
        assert forall|k: int| head <= k < end implies (#[trigger] text[k]) != '\n' by {
            if k < stop {
                assert(text[k] == second[k - head]);
            } else {
                assert(text[k] == next[k - stop]);
            }
        }
        assert(text[end] == next[next.len() - 1]);
        lemma_line_ends(text, head as int, end);
        if next.len() == 2 {
            assert(text[end - 1] == next[0]);
        } else if second.len() > 0 {
            assert(text[end - 1] == second[second.len() - 1]);
        }
        assert(line_at(text, head as int) =~= second);
    }
    if ending.len() == 2 {
        assert(text[feed - 1] == ending[0]);
    } else if first.len() > 0 {
        assert(text[feed - 1] == first[first.len() - 1]);
    }
    assert(line_at(text, 0) =~= first);
}

/// A text without a line feed, or with one at its very end only, has no second line.
pub proof fn lemma_one_line_is_not_two(line: Seq<char>)
    requires
        forall|i: int| 0 <= i < line.len() ==> (#[trigger] line[i]) != '\n',
    ensures
        two_lines(line) is None,
        two_lines(line.push('\n')) is None,
{
    lemma_line_ends(line, 0, line.len() as int);
    let ended = line.push('\n');
    assert forall|k: int| 0 <= k < line.len() implies (#[trigger] ended[k]) != '\n' by {
        assert(ended[k] == line[k]);
    }
    lemma_line_ends(ended, 0, line.len() as int);
}

} // verus!
