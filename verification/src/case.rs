//! Converts a subject to a case: lower, upper, capitalized, or one of the
//! identifier cases that are built from its words.

use crate::scalar::{
    is_lower,
    scalar_is_lowercase,
    scalar_lowercase,
    scalar_uppercase,
    to_lower,
    to_upper,
};
use crate::split::{token_texts, unicode_word_segments, words, words_of};
use crate::text::scalars;
use vstd::prelude::*;
use vstd::string::*;

verus! {

/// `s` with every scalar replaced by its lower case mapping.
pub open spec fn lowered(s: Seq<char>) -> Seq<char>
    decreases s.len(),
{
    if s.len() == 0 {
        Seq::empty()
    } else {
        lowered(s.drop_last()) + scalar_lowercase(s.last())
    }
}

/// `s` with every scalar replaced by its upper case mapping.
pub open spec fn uppered(s: Seq<char>) -> Seq<char>
    decreases s.len(),
{
    if s.len() == 0 {
        Seq::empty()
    } else {
        uppered(s.drop_last()) + scalar_uppercase(s.last())
    }
}

/// `s` with its first scalar mapped to upper case (`caps`) or to lower
/// case, and the others mapped to lower case (`rest_to_lower`) or kept.
pub open spec fn recased(s: Seq<char>, rest_to_lower: bool, caps: bool) -> Seq<char> {
    if s.len() == 0 {
        Seq::empty()
    } else {
        let head = if caps {
            scalar_uppercase(s[0])
        } else {
            scalar_lowercase(s[0])
        };
        let rest = s.subrange(1, s.len() as int);
        head + if rest_to_lower {
            lowered(rest)
        } else {
            rest
        }
    }
}

/// Converts `subject` to lower case.
pub fn lower_case(subject: &str) -> (text: String)
    ensures
        text@ == lowered(subject@),
{
    let s = scalars(subject);
    let mut text = String::new();
    let mut i: usize = 0;
    while i < s.len()
        invariant
            i <= s@.len(),
            text@ == lowered(s@.subrange(0, i as int)),
        decreases s@.len() - i,
    {
        let mapped = to_lower(s[i]);
        text.append(mapped.as_str());
        assert(s@.subrange(0, i as int + 1).drop_last() =~= s@.subrange(0, i as int));
        i += 1;
    }
    assert(s@.subrange(0, i as int) =~= s@);
    text
}

/// Converts `subject` to upper case.
pub fn upper_case(subject: &str) -> (text: String)
    ensures
        text@ == uppered(subject@),
{
    let s = scalars(subject);
    let mut text = String::new();
    let mut i: usize = 0;
    while i < s.len()
        invariant
            i <= s@.len(),
            text@ == uppered(s@.subrange(0, i as int)),
        decreases s@.len() - i,
    {
        let mapped = to_upper(s[i]);
        text.append(mapped.as_str());
        assert(s@.subrange(0, i as int + 1).drop_last() =~= s@.subrange(0, i as int));
        i += 1;
    }
    assert(s@.subrange(0, i as int) =~= s@);
    text
}

fn capitalize_decapitalize(subject: &str, rest_to_lower: bool, caps: bool) -> (text: String)
    ensures
        text@ == recased(subject@, rest_to_lower, caps),
{
    let s = scalars(subject);
    if s.len() == 0 {
        return String::new();
    }
    let mut text = if caps {
        to_upper(s[0])
    } else {
        to_lower(s[0])
    };
    let ghost head = text@;
    let ghost rest = s@.subrange(1, s@.len() as int);
    let mut i: usize = 1;
    assert(rest.subrange(0, 0) =~= Seq::<char>::empty());
    assert(head + Seq::<char>::empty() =~= head);
    while i < s.len()
        invariant
            1 <= i <= s@.len(),
            rest == s@.subrange(1, s@.len() as int),
            rest_to_lower ==> text@ == head + lowered(rest.subrange(0, i - 1)),
            !rest_to_lower ==> text@ == head + rest.subrange(0, i - 1),
        decreases s@.len() - i,
    {
        if rest_to_lower {
            let mapped = to_lower(s[i]);
            text.append(mapped.as_str());
            assert(rest.subrange(0, i as int).drop_last() =~= rest.subrange(0, i - 1));
            assert(text@ =~= head + lowered(rest.subrange(0, i as int)));
        } else {
            crate::text::push_scalar(&mut text, s[i]);
            assert(text@ =~= head + rest.subrange(0, i as int));
        }
        i += 1;
    }
    assert(rest.subrange(0, i - 1) =~= rest);
    text
}

/// Converts the first scalar of `subject` to upper case and, where
/// `rest_to_lower` is set, the others to lower case.
pub fn capitalize(subject: &str, rest_to_lower: bool) -> (text: String)
    ensures
        text@ == recased(subject@, rest_to_lower, true),
{
    capitalize_decapitalize(subject, rest_to_lower, true)
}

/// Converts the first scalar of `subject` to lower case and, where
/// `rest_to_lower` is set, the others too.
pub fn decapitalize(subject: &str, rest_to_lower: bool) -> (text: String)
    ensures
        text@ == recased(subject@, rest_to_lower, false),
{
    capitalize_decapitalize(subject, rest_to_lower, false)
}

/// Converts the first scalar of `subject` to lower case.
pub fn lower_first(subject: &str) -> (text: String)
    ensures
        text@ == recased(subject@, false, false),
{
    decapitalize(subject, false)
}

/// Converts the first scalar of `subject` to upper case.
pub fn upper_first(subject: &str) -> (text: String)
    ensures
        text@ == recased(subject@, false, true),
{
    capitalize(subject, false)
}

/// The case that the words of an identifier are written in.
#[derive(Clone, Copy, PartialEq, Eq, Structural, Debug)]
pub enum WordCase {
    /// All lower case.
    Lower,
    /// All upper case.
    Upper,
    /// The first scalar in upper case, the others in lower case.
    Capital,
    /// As `Capital`, but the first word all lower case.
    Camel,
}

/// Word number `i` of an identifier written in `case`.
pub open spec fn cased(word: Seq<char>, case: WordCase, i: int) -> Seq<char> {
    match case {
        WordCase::Lower => lowered(word),
        WordCase::Upper => uppered(word),
        WordCase::Capital => recased(word, true, true),
        WordCase::Camel => if i == 0 {
            lowered(word)
        } else {
            recased(word, true, true)
        },
    }
}

/// The first `n` of the words, each written in `case`, with `separator`
/// between them.
pub open spec fn joined_cased(
    words: Seq<Seq<char>>,
    case: WordCase,
    separator: Seq<char>,
    n: int,
) -> Seq<char>
    decreases n,
{
    if n <= 0 {
        Seq::empty()
    } else if n == 1 {
        cased(words[0], case, 0)
    } else {
        joined_cased(words, case, separator, n - 1) + separator + cased(words[n - 1], case, n - 1)
    }
}

/// The identifier made of `words`, each written in `case`, with `separator`
/// between them.
pub open spec fn identifier(words: Seq<Seq<char>>, case: WordCase, separator: Seq<char>) -> Seq<
    char,
> {
    joined_cased(words, case, separator, words.len() as int)
}

/// Writes each of the words in `case` and joins them with `separator`.
pub fn join_cased(words: &Vec<&str>, case: WordCase, separator: &str) -> (text: String)
    ensures
        text@ == identifier(token_texts(words@), case, separator@),
{
    let ghost texts = token_texts(words@);
    let mut text = String::new();
    let mut i: usize = 0;
    while i < words.len()
        invariant
            i <= words@.len(),
            texts == token_texts(words@),
            text@ == joined_cased(texts, case, separator@, i as int),
        decreases words@.len() - i,
    {
        if i > 0 {
            text.append(separator);
        }
        let word = words[i];
        assert(texts[i as int] == word@);
        let written = match case {
            WordCase::Lower => lower_case(word),
            WordCase::Upper => upper_case(word),
            WordCase::Capital => capitalize(word, true),
            WordCase::Camel => if i == 0 {
                lower_case(word)
            } else {
                capitalize(word, true)
            },
        };
        text.append(written.as_str());
        assert(i == 0 ==> text@ =~= cased(texts[0], case, 0));
        i += 1;
    }
    text
}

/// What a case conversion makes of the text `s`: the identifier of its
/// words, and nothing of the empty text.
pub open spec fn converted(s: Seq<char>, case: WordCase, separator: Seq<char>) -> Seq<char> {
    if s.len() == 0 {
        Seq::empty()
    } else {
        identifier(words_of(unicode_word_segments(s)), case, separator)
    }
}

fn convert(subject: &str, case: WordCase, separator: &str) -> (text: String)
    ensures
        text@ == converted(subject@, case, separator@),
{
    if subject.is_empty() {
        return String::new();
    }
    let tokens = words(subject);
    join_cased(&tokens, case, separator)
}

/// The text of one scalar.
pub open spec fn one(c: char) -> Seq<char> {
    seq![c]
}

/// Converts `subject` to camel case: `birdFlight`.
pub fn camel_case(subject: &str) -> (text: String)
    ensures
        text@ == converted(subject@, WordCase::Camel, Seq::empty()),
{
    let separator = "";
    proof {
        reveal_strlit("");
        assert(separator@ =~= Seq::<char>::empty());
    }
    convert(subject, WordCase::Camel, separator)
}

/// Converts `subject` to pascal case: `BirdFlight`.
pub fn pascal_case(subject: &str) -> (text: String)
    ensures
        text@ == converted(subject@, WordCase::Capital, Seq::empty()),
{
    let separator = "";
    proof {
        reveal_strlit("");
        assert(separator@ =~= Seq::<char>::empty());
    }
    convert(subject, WordCase::Capital, separator)
}

/// Converts `subject` to kebab case: `goodbye-blue-sky`.
pub fn kebab_case(subject: &str) -> (text: String)
    ensures
        text@ == converted(subject@, WordCase::Lower, one('-')),
{
    let separator = "-";
    proof {
        reveal_strlit("-");
        assert(separator@ =~= one('-'));
    }
    convert(subject, WordCase::Lower, separator)
}

/// Converts `subject` to shouty kebab case: `GOODBYE-BLUE-SKY`.
pub fn shouty_kebab_case(subject: &str) -> (text: String)
    ensures
        text@ == converted(subject@, WordCase::Upper, one('-')),
{
    let separator = "-";
    proof {
        reveal_strlit("-");
        assert(separator@ =~= one('-'));
    }
    convert(subject, WordCase::Upper, separator)
}

/// Converts `subject` to train case: `Goodbye-Blue-Sky`.
pub fn train_case(subject: &str) -> (text: String)
    ensures
        text@ == converted(subject@, WordCase::Capital, one('-')),
{
    let separator = "-";
    proof {
        reveal_strlit("-");
        assert(separator@ =~= one('-'));
    }
    convert(subject, WordCase::Capital, separator)
}

/// Converts `subject` to snake case: `learning_to_fly`.
pub fn snake_case(subject: &str) -> (text: String)
    ensures
        text@ == converted(subject@, WordCase::Lower, one('_')),
{
    let separator = "_";
    proof {
        reveal_strlit("_");
        assert(separator@ =~= one('_'));
    }
    convert(subject, WordCase::Lower, separator)
}

/// Converts `subject` to shouty snake case: `LEARNING_TO_FLY`.
pub fn shouty_snake_case(subject: &str) -> (text: String)
    ensures
        text@ == converted(subject@, WordCase::Upper, one('_')),
{
    let separator = "_";
    proof {
        reveal_strlit("_");
        assert(separator@ =~= one('_'));
    }
    convert(subject, WordCase::Upper, separator)
}

/// Converts `subject` to title case: `Bird Flight`.
pub fn title_case(subject: &str) -> (text: String)
    ensures
        text@ == converted(subject@, WordCase::Capital, one(' ')),
{
    let separator = " ";
    proof {
        reveal_strlit(" ");
        assert(separator@ =~= one(' '));
    }
    convert(subject, WordCase::Capital, separator)
}

/// The scalar that takes the place of `c` when the case is swapped: the
/// first scalar of its upper case mapping for a lower case scalar, of its
/// lower case mapping for any other.
pub open spec fn swapped_scalar(c: char) -> char {
    if scalar_is_lowercase(c) {
        scalar_uppercase(c)[0]
    } else {
        scalar_lowercase(c)[0]
    }
}

/// Converts the lower case scalars of `subject` to upper case and the
/// others to lower case.
pub fn swap_case(subject: &str) -> (text: String)
    ensures
        text@ == subject@.map_values(|c: char| swapped_scalar(c)),
{
    let s = scalars(subject);
    let mut text = String::new();
    let mut i: usize = 0;
    while i < s.len()
        invariant
            i <= s@.len(),
            text@ == s@.subrange(0, i as int).map_values(|c: char| swapped_scalar(c)),
        decreases s@.len() - i,
    {
        let c = s[i];
        let mapped = if is_lower(c) {
            to_upper(c)
        } else {
            to_lower(c)
        };
        let first = mapped.as_str().get_char(0);
        crate::text::push_scalar(&mut text, first);
        assert(text@ =~= s@.subrange(0, i as int + 1).map_values(|c: char| swapped_scalar(c)));
        i += 1;
    }
    assert(s@.subrange(0, i as int) =~= s@);
    text
}

} // verus!
