use vstd::prelude::*;
use vstd::string::StrSliceExecFns;

verus! {

/// The text without its leading and trailing white space, as `str::trim` gives it.
pub uninterp spec fn trimmed(s: Seq<char>) -> Seq<char>;

/// The text in lower case, as `str::to_lowercase` gives it.
pub uninterp spec fn lower_of(s: Seq<char>) -> Seq<char>;

/// An ASCII decimal digit.
pub open spec fn is_digit(c: char) -> bool {
    '0' <= c <= '9'
}

/// The number that the decimal digits `d` spell.
pub open spec fn digits_value(d: Seq<char>) -> int
    decreases d.len(),
{
    if d.len() == 0 {
        0
    } else {
        digits_value(d.drop_last()) * 10 + (d.last() as int - '0' as int)
    }
}

/// The digits of `s` after an optional leading `+`.
pub open spec fn unsigned_digits(s: Seq<char>) -> Seq<char> {
    if s.len() > 0 && s[0] == '+' {
        s.subrange(1, s.len() as int)
    } else {
        s
    }
}

/// `s` read as a `u32` in decimal: an optional `+` followed by at least one
/// digit and nothing else, with a value that fits.
pub open spec fn decimal_u32(s: Seq<char>) -> Option<u32> {
    let d = unsigned_digits(s);
    if d.len() > 0 && (forall|i: int| 0 <= i < d.len() ==> is_digit(#[trigger] d[i]))
        && digits_value(d) <= u32::MAX {
        Some(digits_value(d) as u32)
    } else {
        None
    }
}

/// `s` is one of the answers that mean yes: `y` or `yes`.
pub open spec fn is_yes(s: Seq<char>) -> bool {
    s == seq!['y'] || s == seq!['y', 'e', 's']
}

/// Relies on str::trim: the slice of `s` without leading and trailing
/// white space, which depends on the characters of `s` alone.
#[verifier::external_body]
pub(crate) fn trim(s: &str) -> (r: &str)
    ensures
        r@ == trimmed(s@),
{
    s.trim()
}

/// Relies on str::to_lowercase: the lower-case form of `s`, which depends on
/// the characters of `s` alone.
#[verifier::external_body]
fn lowercase(s: &str) -> (r: String)
    ensures
        r@ == lower_of(s@),
{
    s.to_lowercase()
}

/// Relies on `<u32 as FromStr>::from_str` (through str::parse): it accepts an
/// optional `+` followed by decimal digits only, and fails on an empty text,
/// on any other character and on a value above `u32::MAX`.
#[verifier::external_body]
pub(crate) fn parse_u32(s: &str) -> (r: Option<u32>)
    ensures
        r == decimal_u32(s@),
{
    s.parse::<u32>().ok()
}

/// Whether `text` is exactly `y` or `yes`.
pub fn is_yes_word(text: &str) -> (r: bool)
    ensures
        r == is_yes(text@),
{
    let n = text.unicode_len();
    if n == 1 {
        let r = text.get_char(0) == 'y';
        assert(r ==> text@ =~= seq!['y']);
        r
    } else if n == 3 {
        let r = text.get_char(0) == 'y' && text.get_char(1) == 'e' && text.get_char(2) == 's';
        assert(r ==> text@ =~= seq!['y', 'e', 's']);
        r
    } else {
        false
    }
}

/// Whether an answer to "play again?" means yes: after lower-casing and
/// trimming it reads `y` or `yes`.
pub fn answer_is_yes(answer: &str) -> (r: bool)
    ensures
        r == is_yes(trimmed(lower_of(answer@))),
{
    let lowered = lowercase(answer);
    is_yes_word(trim(lowered.as_str()))
}

} // verus!
