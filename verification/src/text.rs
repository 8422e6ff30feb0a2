//! The character classes and string operations of the standard library that
//! heading slugs are made from, with what their documentation promises.

use vstd::prelude::*;

verus! {

/// The lowercase mapping of `c`, as `char::to_lowercase` yields it (one or
/// more chars, from the Unicode case tables).
pub uninterp spec fn lowercase_of(c: char) -> Seq<char>;

/// Whether `c` is alphabetic or numeric in the sense of
/// `char::is_alphanumeric` (the Unicode `Alphabetic` property or the
/// numeric general categories).
pub uninterp spec fn is_alphanumeric_char(c: char) -> bool;

/// An ASCII capital letter.
pub open spec fn is_ascii_upper(c: char) -> bool {
    'A' <= c && c <= 'Z'
}

/// An ASCII letter or digit.
pub open spec fn is_ascii_alnum(c: char) -> bool {
    ('a' <= c && c <= 'z') || ('A' <= c && c <= 'Z') || ('0' <= c && c <= '9')
}

/// The chars with the Unicode `White_Space` property, which is what
/// `char::is_whitespace` tests.
pub open spec fn is_white_space(c: char) -> bool {
    ||| ('\u{9}' <= c && c <= '\u{d}')
    ||| c == ' '
    ||| c == '\u{85}'
    ||| c == '\u{a0}'
    ||| c == '\u{1680}'
    ||| ('\u{2000}' <= c && c <= '\u{200a}')
    ||| c == '\u{2028}'
    ||| c == '\u{2029}'
    ||| c == '\u{202f}'
    ||| c == '\u{205f}'
    ||| c == '\u{3000}'
}

/// `char::to_lowercase`, collected. Its documentation promises at least one
/// char (the char itself where it has no lowercase mapping); on ASCII it is
/// the ASCII lowercase mapping. Beyond ASCII the result is named, not stated.
#[verifier::external_body]
pub(crate) fn char_to_lowercase(c: char) -> (r: Vec<char>)
    ensures
        r@ == lowercase_of(c),
        r@.len() >= 1,
        is_ascii_upper(c) ==> r@ == seq![((c as u32) + 32) as char],
        (c as u32) < 128 && !is_ascii_upper(c) ==> r@ == seq![c],
{
    c.to_lowercase().collect()
}

/// `char::is_alphanumeric`. On ASCII it holds exactly of letters and digits;
/// no `White_Space` char is alphabetic or numeric; beyond that the result is
/// named, not stated.
#[verifier::external_body]
pub(crate) fn char_is_alphanumeric(c: char) -> (r: bool)
    ensures
        r == is_alphanumeric_char(c),
        (c as u32) < 128 ==> (r <==> is_ascii_alnum(c)),
        is_white_space(c) ==> !r,
{
    c.is_alphanumeric()
}

/// Whether `c` has the Unicode `White_Space` property, as `char::is_whitespace`
/// tests it.
pub(crate) fn char_is_whitespace(c: char) -> (r: bool)
    ensures
        r == is_white_space(c),
{
    ('\u{9}' <= c && c <= '\u{d}') || c == ' ' || c == '\u{85}' || c == '\u{a0}' || c == '\u{1680}'
        || ('\u{2000}' <= c && c <= '\u{200a}') || c == '\u{2028}' || c == '\u{2029}'
        || c == '\u{202f}' || c == '\u{205f}' || c == '\u{3000}'
}

/// Every char of `s` is ASCII.
pub open spec fn is_ascii_text(s: Seq<char>) -> bool {
    forall|i: int| 0 <= i < s.len() ==> (#[trigger] s[i] as u32) < 128
}

/// On ASCII, the lowercase mapping is the ASCII one and the alphanumerics are
/// the letters and digits: what `char::to_lowercase` and
/// `char::is_alphanumeric` document for ASCII chars.
pub open spec fn ascii_char_tables_agree() -> bool {
    &&& forall|c: char|
        #![trigger lowercase_of(c)]
        (c as u32) < 128 ==> lowercase_of(c) == seq![ascii_lower_char(c)]
    &&& forall|c: char|
        #![trigger is_alphanumeric_char(c)]
        (c as u32) < 128 ==> (is_alphanumeric_char(c) <==> is_ascii_alnum(c))
}

/// Asks `char::to_lowercase` and `char::is_alphanumeric` about each ASCII
/// char, which settles how slugs treat ASCII text.
pub fn confirm_ascii_char_tables()
    ensures
        ascii_char_tables_agree(),
{
    let mut b: u8 = 0;
    while b < 128
        invariant
            b <= 128,
            forall|c: char|
                #![trigger lowercase_of(c)]
                (c as u32) < b ==> lowercase_of(c) == seq![ascii_lower_char(c)],
            forall|c: char|
                #![trigger is_alphanumeric_char(c)]
                (c as u32) < b ==> (is_alphanumeric_char(c) <==> is_ascii_alnum(c)),
        decreases 128 - b,
    {
        let c = b as char;
        let lower = char_to_lowercase(c);
        let _alnum = char_is_alphanumeric(c);
        proof {
            assert(lower@ == seq![ascii_lower_char(c)]);
            assert forall|d: char| (d as u32) < b + 1 implies lowercase_of(d) == seq![ascii_lower_char(d)]
                && (is_alphanumeric_char(d) <==> is_ascii_alnum(d)) by {
                if (d as u32) == b as u32 {
                    vstd::utf8::char_u32_cast(d, d as u32);
                    assert(d == c);
                }
            }
        }
        b = b + 1;
    }
}

/// `String::push`: appends one char.
#[verifier::external_body]
pub(crate) fn string_push(s: &mut String, c: char)
    ensures
        final(s)@ == old(s)@.push(c),
{
    s.push(c)
}

/// `s` without its trailing newlines.
pub open spec fn without_trailing_newlines(s: Seq<char>) -> Seq<char>
    decreases s.len(),
{
    if s.len() > 0 && s.last() == '\n' {
        without_trailing_newlines(s.drop_last())
    } else {
        s
    }
}

/// `s` without its trailing `White_Space` chars.
pub open spec fn trim_end_white_space(s: Seq<char>) -> Seq<char>
    decreases s.len(),
{
    if s.len() > 0 && is_white_space(s.last()) {
        trim_end_white_space(s.drop_last())
    } else {
        s
    }
}

/// `s` without its leading `White_Space` chars.
pub open spec fn trim_start_white_space(s: Seq<char>) -> Seq<char>
    decreases s.len(),
{
    if s.len() > 0 && is_white_space(s[0]) {
        trim_start_white_space(s.drop_first())
    } else {
        s
    }
}

/// The ASCII lowercase of one char: `A`..`Z` mapped to `a`..`z`, all else kept.
pub open spec fn ascii_lower_char(c: char) -> char {
    if is_ascii_upper(c) {
        ((c as u32) + 32) as char
    } else {
        c
    }
}

/// The ASCII lowercase of a string.
pub open spec fn ascii_lowercase(s: Seq<char>) -> Seq<char> {
    s.map_values(|c: char| ascii_lower_char(c))
}

/// `str::trim_end_matches('\n')`: all trailing newlines removed.
#[verifier::external_body]
pub(crate) fn trim_trailing_newlines(s: &str) -> (r: String)
    ensures
        r@ == without_trailing_newlines(s@),
{
    s.trim_end_matches('\n').to_string()
}

/// `str::trim`: leading and trailing `White_Space` removed.
#[verifier::external_body]
pub(crate) fn trim_white_space(s: &str) -> (r: String)
    ensures
        r@ == trim_start_white_space(trim_end_white_space(s@)),
{
    s.trim().to_string()
}

/// `str::to_ascii_lowercase`: ASCII capitals lowered, all else kept.
#[verifier::external_body]
pub(crate) fn to_ascii_lowercase(s: &str) -> (r: String)
    ensures
        r@ == ascii_lowercase(s@),
{
    s.to_ascii_lowercase()
}

} // verus!
