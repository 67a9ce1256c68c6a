//! Constants and character classes that the other modules share.

use crate::text::scalars;
use vstd::prelude::*;
use vstd::string::*;

verus! {

/// The library's semantic version number.
pub const VERSION: &'static str = "1.11.0";

/// The ASCII letters, lower case first.
pub const ASCII_LETTERS: &'static str = "abcdefghijklmnopqrstuvwxyzABCDEFGHIJKLMNOPQRSTUVWXYZ";

/// The lower case ASCII letters.
pub const ASCII_LOWERCASE: &'static str = "abcdefghijklmnopqrstuvwxyz";

/// The upper case ASCII letters.
pub const ASCII_UPPERCASE: &'static str = "ABCDEFGHIJKLMNOPQRSTUVWXYZ";

/// The decimal digits.
pub const DIGITS: &'static str = "0123456789";

/// The hexadecimal digits.
pub const HEXDIGITS: &'static str = "0123456789abcdefABCDEF";

/// The octal digits.
pub const OCTDIGITS: &'static str = "01234567";

/// The ASCII punctuation characters.
pub const PUNCTUATION: &'static str = "!\"#$%&'()*+,-./:;<=>?@[\\]^_`{|}~";

/// The printable ASCII characters: digits, letters, punctuation, whitespace.
pub const PRINTABLE: &'static str =
    "0123456789abcdefghijklmnopqrstuvwxyzABCDEFGHIJKLMNOPQRSTUVWXYZ!\"#$%&'()*+,-./:;<=>?@[\\]^_`{|}~ \t\n\r";

/// Space, tab, line feed and carriage return.
pub const WHITESPACE: &'static str = " \t\n\r";

/// `c` is one of the scalars of `PUNCTUATION`.
pub open spec fn is_punctuation(c: char) -> bool {
    ('!' <= c <= '/') || (':' <= c <= '@') || ('[' <= c <= '`') || ('{' <= c <= '~')
}

/// `c` is one of the scalars of `WHITESPACE`.
pub open spec fn is_plain_space(c: char) -> bool {
    c == ' ' || c == '\t' || c == '\n' || c == '\r'
}

/// `c` is one of the scalars of `DIGITS`.
pub open spec fn is_decimal_digit(c: char) -> bool {
    '0' <= c <= '9'
}

/// `c` has Unicode's property White_Space.
pub open spec fn is_white_space(c: char) -> bool {
    ||| ('\u{9}' <= c <= '\u{d}')
    ||| c == ' '
    ||| c == '\u{85}'
    ||| c == '\u{a0}'
    ||| c == '\u{1680}'
    ||| ('\u{2000}' <= c <= '\u{200a}')
    ||| c == '\u{2028}'
    ||| c == '\u{2029}'
    ||| c == '\u{202f}'
    ||| c == '\u{205f}'
    ||| c == '\u{3000}'
}

/// Whether `c` is an ASCII punctuation character.
pub fn punctuation(c: char) -> (b: bool)
    ensures
        b == is_punctuation(c),
{
    ('!' <= c && c <= '/') || (':' <= c && c <= '@') || ('[' <= c && c <= '`') || ('{' <= c && c
        <= '~')
}

/// Whether `c` is a space, a tab, a line feed or a carriage return.
pub fn plain_space(c: char) -> (b: bool)
    ensures
        b == is_plain_space(c),
{
    c == ' ' || c == '\t' || c == '\n' || c == '\r'
}

/// Whether `c` is a decimal digit.
pub fn decimal_digit(c: char) -> (b: bool)
    ensures
        b == is_decimal_digit(c),
{
    '0' <= c && c <= '9'
}

/// Whether `c` is white space to Unicode.
pub fn white_space(c: char) -> (b: bool)
    ensures
        b == is_white_space(c),
{
    ('\u{9}' <= c && c <= '\u{d}') || c == ' ' || c == '\u{85}' || c == '\u{a0}' || c
        == '\u{1680}' || ('\u{2000}' <= c && c <= '\u{200a}') || c == '\u{2028}' || c
        == '\u{2029}' || c == '\u{202f}' || c == '\u{205f}' || c == '\u{3000}'
}

/// The ASCII text that stands for `c` in a transliteration: a table of the
/// unidecode crate, with the empty text for a scalar that has no entry.
pub uninterp spec fn unidecoded_scalar(c: char) -> Seq<char>;

/// Trusted: `unidecode_char` of unidecode, a lookup in its table; the entry
/// depends on the scalar alone.
#[verifier::external_body]
fn transliteration(c: char) -> (entry: &'static str)
    ensures
        entry@ == unidecoded_scalar(c),
{
    unidecode::unidecode_char(c)
}

/// The transliteration of a text: that of its scalars, in order.
pub open spec fn unidecoded(s: Seq<char>) -> Seq<char>
    decreases s.len(),
{
    if s.len() == 0 {
        Seq::empty()
    } else {
        unidecoded(s.drop_last()) + unidecoded_scalar(s.last())
    }
}

/// The ASCII text that stands for `c`.
pub fn unidecode_char(c: char) -> (entry: &'static str)
    ensures
        entry@ == unidecoded_scalar(c),
{
    transliteration(c)
}

/// Transliterates `subject` into ASCII, scalar by scalar.
pub fn unidecode(subject: &str) -> (text: String)
    ensures
        text@ == unidecoded(subject@),
{
    let s = scalars(subject);
    let mut text = String::new();
    let mut i: usize = 0;
    while i < s.len()
        invariant
            i <= s@.len(),
            text@ == unidecoded(s@.subrange(0, i as int)),
        decreases s@.len() - i,
    {
        text.append(transliteration(s[i]));
        assert(s@.subrange(0, i as int + 1).drop_last() =~= s@.subrange(0, i as int));
        i += 1;
    }
    assert(s@.subrange(0, i as int) =~= s@);
    text
}

} // verus!
