//! Choosing one of several browsers by its number in a menu, or the system's default by a blank
//! line.
use vstd::prelude::*;
use vstd::string::*;

use std::path::PathBuf;

use crate::browser::Browser;
use crate::browser::DefaultBrowser;
use crate::text;
use crate::text::chars_of;
use crate::text::trimmed;

verus! {

/// Why a line chooses nothing.
#[derive(Debug)]
pub enum ChoiceError {
    /// The line holds no number.
    NotANumber {
        /// The line without the white space around it.
        text: String,
    },
    /// The number is none of the menu.
    OutOfRange {
        /// The number.
        choice: usize,
        /// How many entries the menu has.
        count: usize,
    },
}

/// What a [`ChoiceError`] holds.
pub enum ChoiceErrorView {
    NotANumber { text: Seq<char> },
    OutOfRange { choice: usize, count: usize },
}

impl View for ChoiceError {
    type V = ChoiceErrorView;

    open spec fn view(&self) -> ChoiceErrorView {
        match *self {
            ChoiceError::NotANumber { text } => ChoiceErrorView::NotANumber { text: text@ },
            ChoiceError::OutOfRange { choice, count } => ChoiceErrorView::OutOfRange {
                choice,
                count,
            },
        }
    }
}

impl ChoiceError {
    /// The message for people.
    pub fn message(&self) -> (r: String)
        ensures
            r@ == (match self@ {
                ChoiceErrorView::NotANumber { text } => "`"@ + text + "` is not a browser number"@,
                ChoiceErrorView::OutOfRange { choice, count } => "choice "@ + text::decimal(
                    choice as nat,
                ) + " is out of range 1..="@ + text::decimal(count as nat),
            }),
    {
        let mut message: String = String::new();
        match self {
            ChoiceError::NotANumber { text } => {
                message.append("`");
                message.append(text.as_str());
                message.append("` is not a browser number");
            },
            ChoiceError::OutOfRange { choice, count } => {
                message.append("choice ");
                message.append(text::to_decimal(*choice as u64).as_str());
                message.append(" is out of range 1..=");
                message.append(text::to_decimal(*count as u64).as_str());
            },
        }
        message
    }
}

/// Whether a character is a decimal digit.
pub open spec fn is_digit(c: char) -> bool {
    '0' <= c && c <= '9'
}

/// Whether a text is made of decimal digits.
pub open spec fn all_digits(digits: Seq<char>) -> bool {
    forall|i: int| 0 <= i < digits.len() ==> is_digit(#[trigger] digits[i])
}

/// The number that decimal digits stand for.
pub open spec fn digits_value(digits: Seq<char>) -> int
    decreases digits.len(),
{
    if digits.len() == 0 {
        0
    } else {
        digits_value(digits.drop_last()) * 10 + (digits.last() as int - 48)
    }
}

/// The digits of a number: what follows a plus sign, where there is one.
pub open spec fn digits_of(number: Seq<char>) -> Seq<char> {
    if number.len() > 0 && number[0] == '+' {
        number.drop_first()
    } else {
        number
    }
}

/// The number that a text stands for: decimal digits behind an optional plus sign, where it is not
/// too large for the machine.
pub open spec fn number_of(number: Seq<char>) -> Option<int> {
    let digits = digits_of(number);
    if digits.len() > 0 && all_digits(digits) && digits_value(digits) <= usize::MAX {
        Some(digits_value(digits))
    } else {
        None
    }
}

proof fn lemma_digits_grow(digits: Seq<char>, n: int)
    requires
        0 <= n <= digits.len(),
        all_digits(digits),
    ensures
        0 <= digits_value(digits.take(n)) <= digits_value(digits),
    decreases digits.len(),
{
    if n == digits.len() {
        assert(digits.take(n) =~= digits);
        if n > 0 {
            assert(digits.drop_last() =~= digits.take(n - 1));
            lemma_digits_grow(digits.drop_last(), n - 1);
            assert(digits.drop_last().take(n - 1) =~= digits.drop_last());
            assert(is_digit(digits[n - 1]));
        }
    } else {
        lemma_digits_grow(digits.drop_last(), n);
        assert(digits.drop_last().take(n) =~= digits.take(n));
        assert(is_digit(digits[digits.len() - 1]));
    }
}

/// The number that a text stands for.
pub fn parse_number(number: &str) -> (r: Option<usize>)
    ensures
        match r {
            Some(n) => number_of(number@) == Some(n as int),
            None => number_of(number@) is None,
        },
{
    let chars: Vec<char> = chars_of(number);
    let start: usize = if chars.len() > 0 && chars[0] == '+' {
        1
    } else {
        0
    };
    let ghost digits = digits_of(number@);
    proof {
        assert(digits =~= chars@.skip(start as int));
    }
    if start >= chars.len() {
        return None;
    }
    let mut value: usize = 0;
    let mut i: usize = start;
    proof {
        assert(digits.take(0) =~= Seq::<char>::empty());
    }
    while i < chars.len()
        invariant
            start <= i <= chars@.len(),
            digits == chars@.skip(start as int),
            digits == digits_of(number@),
            all_digits(digits.take(i - start)),
            value == digits_value(digits.take(i - start)),
        decreases chars.len() - i,
    {
        let c: char = chars[i];
        let ghost n = i - start;
        proof {
            assert(digits[n] == c);
            assert(digits.take(n + 1).drop_last() =~= digits.take(n));
            assert(digits.take(n + 1).last() == c);
        }
        if !('0' <= c && c <= '9') {
            proof {
                assert(!is_digit(digits[n]));
            }
            return None;
        }
        let d: usize = (c as u32 - 48) as usize;
        let next: Option<usize> = match value.checked_mul(10) {
            Some(tens) => tens.checked_add(d),
            None => None,
        };
        match next {
            Some(next) => {
                value = next;
            },
            None => {
                proof {
                    if all_digits(digits) {
                        lemma_digits_grow(digits, n + 1);
                    }
                }
                return None;
            },
        }
        proof {
            assert forall|k: int| 0 <= k < n + 1 implies is_digit(
                #[trigger] digits.take(n + 1)[k],
            ) by {
                if k < n {
                    assert(is_digit(digits.take(n)[k]));
                }
            }
        }
        i += 1;
    }
    proof {
        assert(digits.take(i - start) =~= digits);
    }
    Some(value)
}

/// The entry, counted from zero, that a text without white space around it chooses in a menu of
/// `count` entries. An empty one chooses `enter_index`; any other must be a number from one to
/// `count`.
pub open spec fn chosen(text: Seq<char>, count: usize, enter_index: usize) -> Result<
    usize,
    ChoiceErrorView,
> {
    if text.len() == 0 {
        Ok(enter_index)
    } else {
        match number_of(text) {
            None => Err(ChoiceErrorView::NotANumber { text }),
            Some(n) => if 1 <= n <= count {
                Ok((n - 1) as usize)
            } else {
                Err(ChoiceErrorView::OutOfRange { choice: n as usize, count })
            },
        }
    }
}

/// What a choice came to.
pub open spec fn seen_choice(result: Result<usize, ChoiceError>) -> Result<usize, ChoiceErrorView> {
    match result {
        Ok(index) => Ok(index),
        Err(error) => Err(error@),
    }
}

/// The entry that a text without white space around it chooses.
pub fn choose_entry(text: String, count: usize, enter_index: usize) -> (r: Result<
    usize,
    ChoiceError,
>)
    ensures
        seen_choice(r) == chosen(text@, count, enter_index),
{
    if text.as_str().is_empty() {
        return Ok(enter_index);
    }
    match parse_number(text.as_str()) {
        None => Err(ChoiceError::NotANumber { text }),
        Some(choice) => if 1 <= choice && choice <= count {
            Ok(choice - 1)
        } else {
            Err(ChoiceError::OutOfRange { choice, count })
        },
    }
}

/// Resolve a raw menu line into a 0-based index. Empty input selects `enter_index`; otherwise the
/// input must be a 1-based number within `1..=count`.
pub fn parse_choice(input: &str, count: usize, enter_index: usize) -> (r: Result<
    usize,
    ChoiceError,
>)
    ensures
        seen_choice(r) == chosen(trimmed(input@), count, enter_index),
{
    choose_entry(text::trim(input), count, enter_index)
}

// --- The entry for a blank line. --------------------------------------------------------------

/// Whether two paths are equal as `PathBuf` compares them: component by component.
pub uninterp spec fn equal_paths(a: PathBuf, b: PathBuf) -> bool;

/// `PathBuf == PathBuf`: component by component, so that a path equals itself. Which different
/// spellings have the same components is not said.
#[verifier::external_body]
fn same_path(a: &PathBuf, b: &PathBuf) -> (r: bool)
    ensures
        r == equal_paths(*a, *b),
        *a == *b ==> r,
{
    a == b
}

/// Index of the OS default within `browsers`, matched by executable path. `None` if the default
/// is unsupported, unset, or not among the discovered browsers.
pub fn os_default_index(browsers: &[Browser], default: &DefaultBrowser) -> (r: Option<usize>)
    ensures
        match (*default, r) {
            (DefaultBrowser::Supported(browser), Some(i)) => {
                &&& i < browsers@.len()
                &&& equal_paths(browsers@[i as int].path, browser.path)
                &&& forall|j: int|
                    0 <= j < i ==> !equal_paths((#[trigger] browsers@[j]).path, browser.path)
            },
            (DefaultBrowser::Supported(browser), None) => forall|j: int|
                0 <= j < browsers@.len() ==> {
                    &&& !equal_paths((#[trigger] browsers@[j]).path, browser.path)
                    &&& browsers@[j].path != browser.path
                },
            (_, r) => r is None,
        },
{
    let wanted: &PathBuf = match default {
        DefaultBrowser::Supported(browser) => &browser.path,
        _ => {
            return None;
        },
    };
    let mut i: usize = 0;
    while i < browsers.len()
        invariant
            i <= browsers@.len(),
            *default matches DefaultBrowser::Supported(browser) && browser.path == *wanted,
            forall|j: int|
                0 <= j < i ==> {
                    &&& !equal_paths((#[trigger] browsers@[j]).path, *wanted)
                    &&& browsers@[j].path != *wanted
                },
        decreases browsers.len() - i,
    {
        if same_path(&browsers[i].path, wanted) {
            return Some(i);
        }
        i += 1;
    }
    None
}

/// A choice is always an entry of the menu, where the entry for a blank line is one.
pub proof fn lemma_choice_is_an_entry(text: Seq<char>, count: usize, enter_index: usize)
    requires
        enter_index < count,
    ensures
        chosen(text, count, enter_index) matches Ok(index) ==> index < count,
{
}

/// The decimal digits of a number stand for that number, and but for those of zero begin with none.
pub proof fn lemma_decimal_is_read_back(n: nat)
    ensures
        all_digits(text::decimal(n)),
        digits_value(text::decimal(n)) == n,
        n > 0 ==> text::decimal(n)[0] != '0',
    decreases n,
{
    let digits = text::decimal(n);
    text::lemma_decimal_digits(n);
    assert forall|i: int| 0 <= i < digits.len() implies is_digit(#[trigger] digits[i]) by {}
    assert(digits.last() as int == 48 + n % 10);
    if n < 10 {
        assert(digits.drop_last() =~= Seq::<char>::empty());
        assert(digits_value(digits.drop_last()) == 0);
        assert(digits[0] as int == 48 + n);
    } else {
        lemma_decimal_is_read_back(n / 10);
        assert(digits.drop_last() =~= text::decimal(n / 10));
        text::lemma_decimal_digits(n / 10);
        assert(digits[0] == text::decimal(n / 10)[0]);
    }
}

/// Typing the number of an entry chooses that entry; typing any other number chooses none and names
/// that number; typing nothing chooses the entry for a blank line.
pub proof fn lemma_number_chooses_its_entry(n: usize, count: usize, enter_index: usize)
    ensures
        1 <= n <= count ==> chosen(text::decimal(n as nat), count, enter_index) == Ok::<
            usize,
            ChoiceErrorView,
        >((n - 1) as usize),
        !(1 <= n <= count) ==> chosen(text::decimal(n as nat), count, enter_index) == Err::<
            usize,
            ChoiceErrorView,
        >(ChoiceErrorView::OutOfRange { choice: n, count }),
        chosen(Seq::empty(), count, enter_index) == Ok::<usize, ChoiceErrorView>(enter_index),
{
    lemma_decimal_is_read_back(n as nat);
    text::lemma_decimal_digits(n as nat);
    let digits = text::decimal(n as nat);
    assert(is_digit(digits[0]));
    assert(digits_of(digits) == digits);
}

/// A text with anything but digits behind an optional plus sign chooses nothing, and is named.
pub proof fn lemma_other_text_chooses_nothing(
    text: Seq<char>,
    at: int,
    count: usize,
    enter_index: usize,
)
    requires
        0 <= at < text.len(),
        !('0' <= text[at] <= '9'),
        !(at == 0 && text[at] == '+'),
    ensures
        chosen(text, count, enter_index) == Err::<usize, ChoiceErrorView>(
            ChoiceErrorView::NotANumber { text },
        ),
{
    let digits = digits_of(text);
    if text[0] == '+' {
        assert(digits[at - 1] == text[at]);
        assert(!is_digit(digits[at - 1]));
    } else {
        assert(!is_digit(digits[at]));
    }
}

} // verus!
