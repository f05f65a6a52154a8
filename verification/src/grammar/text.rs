//! Text utilities: the Unicode character classes and conversions that the
//! tokenizer uses, and substring search.
//!
//! The classes are those of `char` in std. Whitespace is a short list of
//! code points and is decided here; for the other classes and for
//! lowercasing, the ASCII part is stated and the rest, decided by Unicode
//! tables, is named and left to std.

use vstd::prelude::*;

verus! {

/// The Unicode `White_Space` property, which `char::is_whitespace` decides:
/// the controls U+0009 to U+000D and U+0085, and the spaces and separators
/// U+0020, U+00A0, U+1680, U+2000 to U+200A, U+2028, U+2029, U+202F, U+205F
/// and U+3000.
pub open spec fn char_is_whitespace(c: char) -> bool {
    ||| '\u{9}' <= c && c <= '\u{d}'
    ||| c == ' '
    ||| c == '\u{85}'
    ||| c == '\u{a0}'
    ||| c == '\u{1680}'
    ||| '\u{2000}' <= c && c <= '\u{200a}'
    ||| c == '\u{2028}'
    ||| c == '\u{2029}'
    ||| c == '\u{202f}'
    ||| c == '\u{205f}'
    ||| c == '\u{3000}'
}

/// Whether `c` has the Unicode `White_Space` property, as
/// `char::is_whitespace` answers.
pub fn is_whitespace(c: char) -> (b: bool)
    ensures
        b == char_is_whitespace(c),
{
    ('\u{9}' <= c && c <= '\u{d}') || c == ' ' || c == '\u{85}' || c == '\u{a0}' || c
        == '\u{1680}' || ('\u{2000}' <= c && c <= '\u{200a}') || c == '\u{2028}' || c
        == '\u{2029}' || c == '\u{202f}' || c == '\u{205f}' || c == '\u{3000}'
}

/// An ASCII character.
pub open spec fn is_ascii_char(c: char) -> bool {
    c <= '\u{7f}'
}

/// An ASCII letter.
pub open spec fn is_ascii_letter(c: char) -> bool {
    ('a' <= c && c <= 'z') || ('A' <= c && c <= 'Z')
}

/// An ASCII decimal digit.
pub open spec fn is_ascii_digit(c: char) -> bool {
    '0' <= c && c <= '9'
}

/// What `char::is_numeric` answers for a character beyond ASCII (Unicode
/// general categories `Nd`, `Nl`, `No`).
pub uninterp spec fn unicode_is_numeric(c: char) -> bool;

/// What `char::is_alphanumeric` answers for a character beyond ASCII
/// (Unicode `Alphabetic` property, or a numeric category).
pub uninterp spec fn unicode_is_alphanumeric(c: char) -> bool;

/// What `str::to_lowercase` gives for a text that is not all ASCII (the
/// Unicode lowercase mapping).
pub uninterp spec fn unicode_lowercase(s: Seq<char>) -> Seq<char>;

/// `char::is_numeric`: among ASCII characters the digits; beyond ASCII the
/// numeric categories, none of which holds a whitespace character.
pub open spec fn char_is_numeric(c: char) -> bool {
    if is_ascii_char(c) {
        is_ascii_digit(c)
    } else {
        !char_is_whitespace(c) && unicode_is_numeric(c)
    }
}

/// `char::is_alphanumeric`: among ASCII characters the letters and digits;
/// beyond ASCII the alphabetic and numeric characters, none of which is a
/// whitespace character.
pub open spec fn char_is_alphanumeric(c: char) -> bool {
    if is_ascii_char(c) {
        is_ascii_letter(c) || is_ascii_digit(c)
    } else {
        !char_is_whitespace(c) && unicode_is_alphanumeric(c)
    }
}

/// The ASCII lowercase of `c`; other characters stay as they are.
pub open spec fn ascii_fold(c: char) -> char {
    if 'A' <= c && c <= 'Z' {
        ((c as u32) + 32) as char
    } else {
        c
    }
}

/// `str::to_lowercase`: an ASCII text has its capitals replaced by their
/// small letters; other texts follow the Unicode lowercase mapping.
pub open spec fn lowercase(s: Seq<char>) -> Seq<char> {
    if forall|i: int| 0 <= i < s.len() ==> is_ascii_char(#[trigger] s[i]) {
        s.map_values(|c: char| ascii_fold(c))
    } else {
        unicode_lowercase(s)
    }
}

/// Calls `char::is_numeric`. The contract claims that ASCII digits, and no
/// other ASCII characters, are numeric, that no whitespace character is, and
/// names the answer for the other characters beyond ASCII.
#[verifier::external_body]
pub(crate) fn is_numeric(c: char) -> (b: bool)
    ensures
        b == if is_ascii_char(c) {
            is_ascii_digit(c)
        } else {
            !char_is_whitespace(c) && unicode_is_numeric(c)
        },
{
    c.is_numeric()
}

/// Calls `char::is_alphanumeric`. The contract claims that ASCII letters and
/// digits, and no other ASCII characters, are alphanumeric, that no
/// whitespace character is, and names the answer for the other characters
/// beyond ASCII.
#[verifier::external_body]
pub(crate) fn is_alphanumeric(c: char) -> (b: bool)
    ensures
        b == if is_ascii_char(c) {
            is_ascii_letter(c) || is_ascii_digit(c)
        } else {
            !char_is_whitespace(c) && unicode_is_alphanumeric(c)
        },
{
    c.is_alphanumeric()
}

/// Calls `str::to_lowercase`. The contract claims that an ASCII text has its
/// capitals replaced by small letters and nothing else changed, and names
/// the result for other texts.
#[verifier::external_body]
pub(crate) fn to_lowercase(s: &str) -> (r: String)
    ensures
        r@ == if forall|i: int| 0 <= i < s@.len() ==> is_ascii_char(#[trigger] s@[i]) {
            s@.map_values(|c: char| ascii_fold(c))
        } else {
            unicode_lowercase(s@)
        },
{
    s.to_lowercase()
}

/// Collects characters into a `String` (std's `FromIterator<char>`): the
/// string holds exactly those characters, in order.
#[verifier::external_body]
pub(crate) fn string_from_chars(cs: &[char]) -> (s: String)
    ensures
        s@ == cs@,
{
    cs.iter().collect()
}

/// The characters of `text`, in order.
pub fn chars_of(text: &str) -> (cs: Vec<char>)
    ensures
        cs@ == text@,
{
    let mut cs: Vec<char> = Vec::new();
    for c in it: text.chars()
        invariant
            cs@ == it.seq().take(it.index() as int),
    {
        cs.push(c);
    }
    cs
}

/// Whether `pat` occurs in `s` as a contiguous run.
pub open spec fn contains_text(s: Seq<char>, pat: Seq<char>) -> bool {
    exists|i: int| 0 <= i <= s.len() - pat.len() && #[trigger] s.subrange(i, i + pat.len()) == pat
}

/// Whether `pat` occurs in `s`.
pub fn text_contains(s: &str, pat: &str) -> (b: bool)
    ensures
        b == contains_text(s@, pat@),
{
    let cs = chars_of(s);
    let ps = chars_of(pat);
    if ps.len() > cs.len() {
        return false;
    }
    let last: usize = cs.len() - ps.len();
    let mut i: usize = 0;
    while i <= last
        invariant
            cs@ == s@,
            ps@ == pat@,
            last == cs.len() - ps.len(),
            i <= last + 1,
            forall|k: int| 0 <= k < i ==> #[trigger] s@.subrange(k, k + pat@.len()) != pat@,
        decreases last + 1 - i,
    {
        let mut j: usize = 0;
        let mut same = true;
        while j < ps.len()
            invariant
                cs@ == s@,
                ps@ == pat@,
                i <= last,
                last == cs.len() - ps.len(),
                j <= ps.len(),
                same == (forall|m: int| 0 <= m < j ==> cs@[i + m] == ps@[m]),
            decreases ps.len() - j,
        {
            if cs[i + j] != ps[j] {
                same = false;
            }
            j += 1;
        }
        if same {
            assert(s@.subrange(i as int, i + pat@.len()) =~= pat@);
            return true;
        }
        proof {
            let m = choose|m: int| 0 <= m < ps.len() && cs@[i + m] != ps@[m];
            assert(s@.subrange(i as int, i + pat@.len())[m] != pat@[m]);
        }
        i += 1;
    }
    false
}

} // verus!
