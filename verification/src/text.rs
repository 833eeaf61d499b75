//! Text primitives shared by the matching rules.
//!
//! Texts are compared by their characters. What the standard library computes
//! from a text is stated here in full, but for white space and letter case
//! beyond ASCII: these are named by functions without a body, since stating
//! them would take the tables of Unicode.

use vstd::prelude::*;

verus! {

/// The lower-case form of one character under ASCII rules: `A`..`Z` map to
/// `a`..`z`, every other character is unchanged.
pub open spec fn ascii_lower_char(c: char) -> char {
    if 'A' <= c && c <= 'Z' {
        ((c as u8) + 32) as char
    } else {
        c
    }
}

/// A text with every character lower-cased under ASCII rules.
pub open spec fn ascii_lower(s: Seq<char>) -> Seq<char> {
    s.map_values(|c: char| ascii_lower_char(c))
}

/// Equality of two texts up to ASCII letter case.
pub open spec fn eq_ignore_case(a: Seq<char>, b: Seq<char>) -> bool {
    ascii_lower(a) == ascii_lower(b)
}

/// What `str::trim` returns for a text: the text without its leading and
/// trailing Unicode white space.
pub uninterp spec fn trimmed(s: Seq<char>) -> Seq<char>;

/// What `str::to_lowercase` returns for a text: its lower-case form under the
/// Unicode case mappings.
pub uninterp spec fn lowercase(s: Seq<char>) -> Seq<char>;

/// The character of a decimal digit.
pub open spec fn digit_char(d: nat) -> char {
    (48 + d) as char
}

/// A count in decimal notation: its digits, the highest first, without zeros
/// in front.
pub open spec fn digits(n: nat) -> Seq<char>
    decreases n,
{
    if n < 10 {
        seq![digit_char(n)]
    } else {
        digits(n / 10).push(digit_char(n % 10))
    }
}

/// A whole number in decimal notation: its digits, behind a minus sign where
/// it is below zero.
pub open spec fn decimal(n: int) -> Seq<char> {
    if n < 0 {
        seq!['-'] + digits((-n) as nat)
    } else {
        digits(n as nat)
    }
}

/// The character is a decimal digit.
pub open spec fn is_digit(c: char) -> bool {
    '0' <= c && c <= '9'
}

/// The count that a text of decimal digits writes, or nothing where the text
/// is empty or holds anything but digits.
pub open spec fn digits_value(s: Seq<char>) -> Option<nat>
    decreases s.len(),
{
    if s.len() == 0 {
        None
    } else if !is_digit(s.last()) {
        None
    } else if s.len() == 1 {
        Some((s.last() as int - 48) as nat)
    } else {
        match digits_value(s.drop_last()) {
            Some(v) => Some(v * 10 + (s.last() as int - 48) as nat),
            None => None,
        }
    }
}

/// A text without the sign in front of it, where it has one of the signs.
pub open spec fn unsigned_part(s: Seq<char>, minus_too: bool) -> Seq<char> {
    if s.len() > 0 && (s[0] == '+' || (minus_too && s[0] == '-')) {
        s.subrange(1, s.len() as int)
    } else {
        s
    }
}

/// A text without the characters `c` at its end.
pub open spec fn without_trailing(s: Seq<char>, c: char) -> Seq<char>
    decreases s.len(),
{
    if s.len() > 0 && s.last() == c {
        without_trailing(s.drop_last(), c)
    } else {
        s
    }
}

/// `part` occurs in `s` as a run of consecutive characters.
pub open spec fn has_part(s: Seq<char>, part: Seq<char>) -> bool {
    exists|i: int| 0 <= i && i + part.len() <= s.len() && #[trigger] s.subrange(i, i + part.len()) == part
}

/// The number from 0 to 255 that a text writes: decimal digits, with or
/// without a plus sign in front. Anything else writes no such number.
pub open spec fn parsed_u8(s: Seq<char>) -> Option<u8> {
    match digits_value(unsigned_part(s, false)) {
        Some(v) => if v <= 255 {
            Some(v as u8)
        } else {
            None
        },
        None => None,
    }
}

/// The two parts of a text around the first `c` in it, or nothing where it
/// holds no `c`.
pub open spec fn split_first(s: Seq<char>, c: char) -> Option<(Seq<char>, Seq<char>)> {
    let i = index_of(s, c);
    if 0 <= i < s.len() {
        Some((s.subrange(0, i), s.subrange(i + 1, s.len() as int)))
    } else {
        None
    }
}

/// The position of the first `c` in `s`, or the length of `s` where there is
/// none.
pub open spec fn index_of(s: Seq<char>, c: char) -> int
    decreases s.len(),
{
    if s.len() == 0 {
        0
    } else if s[0] == c {
        0
    } else {
        1 + index_of(s.drop_first(), c)
    }
}

/// The pieces of `s` between the occurrences of `sep`. A text without `sep`,
/// the empty text too, is one piece.
pub open spec fn split_on(s: Seq<char>, sep: char) -> Seq<Seq<char>>
    decreases s.len(),
{
    let i = index_of(s, sep);
    if 0 <= i < s.len() {
        seq![s.subrange(0, i)] + split_on(s.subrange(i + 1, s.len() as int), sep)
    } else {
        seq![s]
    }
}

/// `s` begins with `prefix`.
pub open spec fn starts_with(s: Seq<char>, prefix: Seq<char>) -> bool {
    prefix.len() <= s.len() && s.subrange(0, prefix.len() as int) == prefix
}

/// The whole number that a text writes: decimal digits, with or without a
/// plus or a minus sign in front, where the number fits. Anything else writes
/// no such number.
pub open spec fn parsed_i64(s: Seq<char>) -> Option<i64> {
    match digits_value(unsigned_part(s, true)) {
        Some(v) => if s[0] == '-' {
            if v <= 0x8000_0000_0000_0000 {
                Some((-(v as int)) as i64)
            } else {
                None
            }
        } else if v <= 0x7FFF_FFFF_FFFF_FFFF {
            Some(v as i64)
        } else {
            None
        },
        None => None,
    }
}

/// The text of one blank.
pub open spec fn blank() -> Seq<char> {
    seq![' ']
}

/// Calls `str::trim`. The result is named [`trimmed`]; nothing else is claimed
/// of it.
#[verifier::external_body]
pub(crate) fn trim(s: &str) -> (r: String)
    ensures
        r@ == trimmed(s@),
{
    s.trim().to_owned()
}

/// Calls `str::to_ascii_lowercase`, which maps `A`..`Z` to `a`..`z` and keeps
/// every other character.
#[verifier::external_body]
pub(crate) fn to_ascii_lower(s: &str) -> (r: String)
    ensures
        r@ == ascii_lower(s@),
{
    s.to_ascii_lowercase()
}

/// Calls `str::eq_ignore_ascii_case`, which compares two texts as if both were
/// lower-cased under ASCII rules.
#[verifier::external_body]
pub(crate) fn same_ignoring_case(a: &str, b: &str) -> (r: bool)
    ensures
        r == eq_ignore_case(a@, b@),
{
    a.eq_ignore_ascii_case(b)
}

/// Calls `str::to_lowercase`. The result is named [`lowercase`]; nothing else
/// is claimed of it.
#[verifier::external_body]
pub(crate) fn to_lower(s: &str) -> (r: String)
    ensures
        r@ == lowercase(s@),
{
    s.to_lowercase()
}

/// Calls `i64::to_string`, which writes the number in decimal notation, with
/// a minus sign in front where it is below zero.
#[verifier::external_body]
pub(crate) fn to_decimal(n: i64) -> (r: String)
    ensures
        r@ == decimal(n as int),
{
    n.to_string()
}

/// Calls `str::trim_end_matches` with one character as the pattern, which
/// removes every occurrence of that character from the end of the text.
#[verifier::external_body]
pub(crate) fn trim_end(s: &str, c: char) -> (r: String)
    ensures
        r@ == without_trailing(s@, c),
{
    s.trim_end_matches(c).to_owned()
}

/// Calls `str::contains` with a text as the pattern, which says whether the
/// pattern occurs in the text.
#[verifier::external_body]
pub(crate) fn holds_part(s: &str, part: &str) -> (r: bool)
    ensures
        r == has_part(s@, part@),
{
    s.contains(part)
}

/// Calls `str::parse::<u8>`, which reads decimal digits behind an optional
/// plus sign, and fails on an empty text, on any other character and on a
/// number above 255.
#[verifier::external_body]
pub(crate) fn parse_u8(s: &str) -> (r: Option<u8>)
    ensures
        r == parsed_u8(s@),
{
    s.parse::<u8>().ok()
}

/// Calls `str::split` with one character as the pattern, which yields the
/// pieces between the occurrences of that character.
#[verifier::external_body]
pub(crate) fn split(s: &str, sep: char) -> (r: Vec<String>)
    ensures
        crate::entities::texts(r@) == split_on(s@, sep),
{
    s.split(sep).map(|piece| piece.to_owned()).collect()
}

/// Calls `str::split_once` with one character as the delimiter, which returns
/// the text before the first occurrence of the character and the text behind
/// it.
#[verifier::external_body]
pub(crate) fn split_once(s: &str, c: char) -> (r: Option<(String, String)>)
    ensures
        match r {
            Some(parts) => split_first(s@, c) == Some((parts.0@, parts.1@)),
            None => split_first(s@, c) is None,
        },
{
    s.split_once(c).map(|parts| (parts.0.to_owned(), parts.1.to_owned()))
}

/// Calls `str::strip_prefix`, which returns the text behind the prefix where
/// the text begins with it.
#[verifier::external_body]
pub(crate) fn strip_prefix(s: &str, prefix: &str) -> (r: Option<String>)
    ensures
        starts_with(s@, prefix@) ==> r is Some && r->0@ == s@.subrange(
            prefix@.len() as int,
            s@.len() as int,
        ),
        !starts_with(s@, prefix@) ==> r is None,
{
    s.strip_prefix(prefix).map(|rest| rest.to_owned())
}

/// Calls `str::parse::<i64>`, which reads decimal digits behind an optional
/// plus or minus sign, and fails on an empty text, on a sign alone, on any
/// other character and on a number that does not fit.
#[verifier::external_body]
pub(crate) fn parse_i64(s: &str) -> (r: Option<i64>)
    ensures
        r == parsed_i64(s@),
{
    s.parse::<i64>().ok()
}

/// Calls `usize::to_string`, which writes the count in decimal notation.
#[verifier::external_body]
pub(crate) fn count_to_decimal(n: usize) -> (r: String)
    ensures
        r@ == digits(n as nat),
{
    n.to_string()
}

/// `head`, one blank, `tail`.
pub fn join_with_blank(head: &str, tail: &str) -> (r: String)
    ensures
        r@ == head@ + blank() + tail@,
{
    let mut r = head.to_owned();
    proof {
        reveal_strlit(" ");
        assert(" "@ =~= blank());
    }
    r.append(" ");
    r.append(tail);
    r
}

/// `head` followed by `tail`.
pub fn join(head: &str, tail: &str) -> (r: String)
    ensures
        r@ == head@ + tail@,
{
    let mut r = head.to_owned();
    r.append(tail);
    r
}

/// Whether two optional texts are both absent or both present and equal.
pub fn same_opt(a: &Option<String>, b: &Option<String>) -> (r: bool)
    ensures
        r == (crate::entities::opt_text(*a) == crate::entities::opt_text(*b)),
{
    match (a, b) {
        (Some(x), Some(y)) => same(x.as_str(), y.as_str()),
        (None, None) => true,
        _ => false,
    }
}

/// Whether two texts are equal, character by character.
pub fn same(a: &str, b: &str) -> (r: bool)
    ensures
        r == (a@ == b@),
{
    let x = a.to_owned();
    let y = b.to_owned();
    x == y
}

} // verus!
