//! Checks a subject against a question: what it starts with, what it holds,
//! which case it is written in.

use crate::case::{
    camel_case,
    converted,
    kebab_case,
    one,
    pascal_case,
    shouty_kebab_case,
    shouty_snake_case,
    snake_case,
    train_case,
    WordCase,
};
use crate::chop::{foreign_key, foreign_key_of};
use crate::index::{tail, token_count};
use crate::number::{is_fraction_text, is_integer_text, reads_as_fraction, reads_as_integer};
use crate::pattern::{
    is_match_from,
    lemma_bytes_cover_scalars,
    matches_from,
    pattern_compiles,
};
use crate::scalar::{
    is_lower,
    is_upper,
    lower_text,
    scalar_is_lowercase,
    scalar_is_uppercase,
    scalar_lowercase,
    scalar_uppercase,
    text_lowercase,
    to_lower,
    to_upper,
};
use crate::split::{
    grapheme_clusters,
    graphemes,
    token_texts,
    unicode_word_segments,
    words,
    words_of,
};
use crate::text::{find_first, first_occurrence, matches_at, occurs_at, part_of, scalars};
use crate::utils::{decimal_digit, is_decimal_digit, is_white_space, white_space, PUNCTUATION};
use vstd::prelude::*;
use vstd::string::*;

verus! {

/// Whether `subject` ends with `end`. An empty subject and an empty `end`
/// answer yes.
pub fn ends_with(subject: &str, end: &str) -> (b: bool)
    ensures
        b == (subject@.len() == 0 || end@.len() == 0 || occurs_at(
            subject@,
            end@,
            subject@.len() - end@.len(),
        )),
{
    if subject.is_empty() || end.is_empty() {
        return true;
    }
    let s = scalars(subject);
    let e = scalars(end);
    if e.len() > s.len() {
        return false;
    }
    matches_at(&s, &e, s.len() - e.len())
}

/// Whether `subject` starts with `start`. An empty subject and an empty
/// `start` answer yes.
pub fn starts_with(subject: &str, start: &str) -> (b: bool)
    ensures
        b == (subject@.len() == 0 || start@.len() == 0 || occurs_at(subject@, start@, 0)),
{
    if subject.is_empty() || start.is_empty() {
        return true;
    }
    let s = scalars(subject);
    let e = scalars(start);
    matches_at(&s, &e, 0)
}

/// Whether `search` stands in `s` at or after `position`. A position past
/// the end answers no; otherwise an empty text and an empty search answer
/// yes.
pub open spec fn includes_in(s: Seq<char>, search: Seq<char>, position: int) -> bool {
    if s.len() < position {
        false
    } else if s.len() == 0 || search.len() == 0 {
        true
    } else {
        first_occurrence(s, search, position) >= 0
    }
}

/// Whether `subject` includes `search` at or after `position`.
pub fn includes(subject: &str, search: &str, position: usize) -> (b: bool)
    ensures
        b == includes_in(subject@, search@, position as int),
{
    let s = scalars(subject);
    if s.len() < position {
        return false;
    }
    if s.len() == 0 || search.is_empty() {
        return true;
    }
    let q = scalars(search);
    find_first(&s, &q, position).is_some()
}

/// Whether the scalars of `q` from `k` on occur in `s` from `i` on, in
/// their order, with anything between them.
pub open spec fn follows(s: Seq<char>, q: Seq<char>, i: int, k: int) -> bool
    decreases s.len() - i,
{
    if k >= q.len() {
        true
    } else if i < 0 || i >= s.len() {
        false
    } else if s[i] == q[k] {
        follows(s, q, i + 1, k + 1)
    } else {
        follows(s, q, i + 1, k)
    }
}

/// What `query` answers: a position past the end answers no; otherwise an
/// empty text and an empty search answer yes.
pub open spec fn query_in(s: Seq<char>, search: Seq<char>, position: int) -> bool {
    if s.len() < position {
        false
    } else if s.len() == 0 || search.len() == 0 {
        true
    } else {
        follows(s, search, position, 0)
    }
}

/// Whether `subject` holds, at or after `position`, all scalars of
/// `search` in their order.
pub fn query(subject: &str, search: &str, position: usize) -> (b: bool)
    ensures
        b == query_in(subject@, search@, position as int),
{
    let s = scalars(subject);
    if s.len() < position {
        return false;
    }
    if s.len() == 0 || search.is_empty() {
        return true;
    }
    let q = scalars(search);
    let mut i: usize = position;
    let mut k: usize = 0;
    while i < s.len() && k < q.len()
        invariant
            i <= s@.len(),
            k <= q@.len(),
            follows(s@, q@, position as int, 0) == follows(s@, q@, i as int, k as int),
        decreases s@.len() - i,
    {
        if s[i] == q[k] {
            k += 1;
        }
        i += 1;
    }
    k == q.len()
}

/// Whether `subject` is empty.
pub fn is_empty(subject: &str) -> (b: bool)
    ensures
        b == (subject@.len() == 0),
{
    subject.is_empty()
}

/// Every scalar of `s` is white space.
pub open spec fn all_white(s: Seq<char>) -> bool {
    forall|i: int| 0 <= i < s.len() ==> is_white_space(#[trigger] s[i])
}

/// Every scalar of `s` is a decimal digit.
pub open spec fn all_digits(s: Seq<char>) -> bool {
    forall|i: int| 0 <= i < s.len() ==> is_decimal_digit(#[trigger] s[i])
}

/// Whether `subject` is empty or holds nothing but white space.
pub fn is_blank(subject: &str) -> (b: bool)
    ensures
        b == all_white(subject@),
{
    let s = scalars(subject);
    let mut i: usize = 0;
    while i < s.len()
        invariant
            i <= s@.len(),
            s@ == subject@,
            forall|j: int| 0 <= j < i ==> is_white_space(#[trigger] s@[j]),
        decreases s@.len() - i,
    {
        if !white_space(s[i]) {
            assert(!is_white_space(subject@[i as int]));
            return false;
        }
        i += 1;
    }
    true
}

/// Whether `subject` is empty or holds nothing but decimal digits.
pub fn is_digit(subject: &str) -> (b: bool)
    ensures
        b == all_digits(subject@),
{
    let s = scalars(subject);
    let mut i: usize = 0;
    while i < s.len()
        invariant
            i <= s@.len(),
            s@ == subject@,
            forall|j: int| 0 <= j < i ==> is_decimal_digit(#[trigger] s@[j]),
        decreases s@.len() - i,
    {
        if !decimal_digit(s[i]) {
            assert(!is_decimal_digit(subject@[i as int]));
            return false;
        }
        i += 1;
    }
    true
}

/// No scalar of `s` is upper case.
pub open spec fn no_uppercase(s: Seq<char>) -> bool {
    forall|i: int| 0 <= i < s.len() ==> !scalar_is_uppercase(#[trigger] s[i])
}

/// No scalar of `s` is lower case.
pub open spec fn no_lowercase(s: Seq<char>) -> bool {
    forall|i: int| 0 <= i < s.len() ==> !scalar_is_lowercase(#[trigger] s[i])
}

fn is_upper_or_lowercase(s: &Vec<char>, from: usize, lowercase: bool) -> (b: bool)
    requires
        from <= s@.len(),
    ensures
        lowercase ==> b == no_uppercase(s@.subrange(from as int, s@.len() as int)),
        !lowercase ==> b == no_lowercase(s@.subrange(from as int, s@.len() as int)),
{
    let ghost rest = s@.subrange(from as int, s@.len() as int);
    let mut i: usize = from;
    while i < s.len()
        invariant
            from <= i <= s@.len(),
            rest == s@.subrange(from as int, s@.len() as int),
            lowercase ==> forall|j: int| 0 <= j < i - from ==> !scalar_is_uppercase(#[trigger] rest[j]),
            !lowercase ==> forall|j: int|
                0 <= j < i - from ==> !scalar_is_lowercase(#[trigger] rest[j]),
        decreases s@.len() - i,
    {
        let c = s[i];
        assert(rest[i - from] == c);
        if lowercase {
            if is_upper(c) {
                return false;
            }
        } else {
            if is_lower(c) {
                return false;
            }
        }
        i += 1;
    }
    true
}

/// Whether `subject` has no upper case scalar.
pub fn is_lowercase(subject: &str) -> (b: bool)
    ensures
        b == no_uppercase(subject@),
{
    let s = scalars(subject);
    assert(s@.subrange(0, s@.len() as int) =~= s@);
    is_upper_or_lowercase(&s, 0, true)
}

/// Whether `subject` has no lower case scalar.
pub fn is_uppercase(subject: &str) -> (b: bool)
    ensures
        b == no_lowercase(subject@),
{
    let s = scalars(subject);
    assert(s@.subrange(0, s@.len() as int) =~= s@);
    is_upper_or_lowercase(&s, 0, false)
}

/// Whether the first scalar of `subject` is not upper case. An empty
/// subject answers yes.
pub fn is_lower_first(subject: &str) -> (b: bool)
    ensures
        b == (subject@.len() == 0 || !scalar_is_uppercase(subject@[0])),
{
    if subject.is_empty() {
        return true;
    }
    !is_upper(subject.get_char(0))
}

/// Whether the first scalar of `subject` is not lower case. An empty
/// subject answers yes.
pub fn is_upper_first(subject: &str) -> (b: bool)
    ensures
        b == (subject@.len() == 0 || !scalar_is_lowercase(subject@[0])),
{
    if subject.is_empty() {
        return true;
    }
    !is_lower(subject.get_char(0))
}

fn is_capitalize_or_decapitalize(subject: &str, if_capitalize: bool) -> (b: bool)
    ensures
        if_capitalize ==> b == (subject@.len() == 0 || (!scalar_is_lowercase(subject@[0])
            && no_uppercase(subject@.subrange(1, subject@.len() as int)))),
        !if_capitalize ==> b == (subject@.len() == 0 || (!scalar_is_uppercase(subject@[0])
            && no_uppercase(subject@.subrange(1, subject@.len() as int)))),
{
    let s = scalars(subject);
    if s.len() == 0 {
        return true;
    }
    let first_ok = if if_capitalize {
        !is_lower(s[0])
    } else {
        !is_upper(s[0])
    };
    first_ok && is_upper_or_lowercase(&s, 1, true)
}

/// Whether `subject` is capitalized: its first scalar is not lower case
/// and none of the others is upper case. An empty subject answers yes.
pub fn is_capitalize(subject: &str) -> (b: bool)
    ensures
        b == (subject@.len() == 0 || (!scalar_is_lowercase(subject@[0]) && no_uppercase(
            subject@.subrange(1, subject@.len() as int),
        ))),
{
    is_capitalize_or_decapitalize(subject, true)
}

/// Whether `subject` is decapitalized: none of its scalars is upper case.
/// An empty subject answers yes.
pub fn is_decapitalize(subject: &str) -> (b: bool)
    ensures
        b == (subject@.len() == 0 || (!scalar_is_uppercase(subject@[0]) && no_uppercase(
            subject@.subrange(1, subject@.len() as int),
        ))),
{
    is_capitalize_or_decapitalize(subject, false)
}

fn same_text(subject: &str, other: &String) -> (b: bool)
    ensures
        b == (subject@ == other@),
{
    let mine = String::from_str(subject);
    mine == *other
}

/// Whether `subject` is written in camel case.
pub fn is_camel_case(subject: &str) -> (b: bool)
    ensures
        b == (subject@ == converted(subject@, WordCase::Camel, Seq::empty())),
{
    same_text(subject, &camel_case(subject))
}

/// Whether `subject` is written in pascal case.
pub fn is_pascal_case(subject: &str) -> (b: bool)
    ensures
        b == (subject@ == converted(subject@, WordCase::Capital, Seq::empty())),
{
    same_text(subject, &pascal_case(subject))
}

/// Whether `subject` is written in kebab case.
pub fn is_kebab_case(subject: &str) -> (b: bool)
    ensures
        b == (subject@ == converted(subject@, WordCase::Lower, one('-'))),
{
    same_text(subject, &kebab_case(subject))
}

/// Whether `subject` is written in shouty kebab case.
pub fn is_shouty_kebab_case(subject: &str) -> (b: bool)
    ensures
        b == (subject@ == converted(subject@, WordCase::Upper, one('-'))),
{
    same_text(subject, &shouty_kebab_case(subject))
}

/// Whether `subject` is written in train case.
pub fn is_train_case(subject: &str) -> (b: bool)
    ensures
        b == (subject@ == converted(subject@, WordCase::Capital, one('-'))),
{
    same_text(subject, &train_case(subject))
}

/// Whether `subject` is written in snake case.
pub fn is_snake_case(subject: &str) -> (b: bool)
    ensures
        b == (subject@ == converted(subject@, WordCase::Lower, one('_'))),
{
    same_text(subject, &snake_case(subject))
}

/// Whether `subject` is written in shouty snake case.
pub fn is_shouty_snake_case(subject: &str) -> (b: bool)
    ensures
        b == (subject@ == converted(subject@, WordCase::Upper, one('_'))),
{
    same_text(subject, &shouty_snake_case(subject))
}

/// The word is written as in a title: its first scalar is its own upper
/// case mapping, and each of the others its own lower case mapping.
pub open spec fn is_titled(word: Seq<char>) -> bool {
    forall|i: int|
        0 <= i < word.len() ==> if i == 0 {
            scalar_uppercase(#[trigger] word[i]) == seq![word[i]]
        } else {
            scalar_lowercase(word[i]) == seq![word[i]]
        }
}

/// Every word is written as in a title.
pub open spec fn all_titled(words: Seq<Seq<char>>) -> bool {
    forall|k: int| 0 <= k < words.len() ==> is_titled(#[trigger] words[k])
}

fn maps_to_itself(mapped: &String, c: char) -> (b: bool)
    ensures
        b == (mapped@ == seq![c]),
{
    let m = mapped.as_str();
    let b = m.unicode_len() == 1 && m.get_char(0) == c;
    assert(b ==> mapped@ =~= seq![c]);
    b
}

fn titled(word: &str) -> (b: bool)
    ensures
        b == is_titled(word@),
{
    let w = scalars(word);
    let mut i: usize = 0;
    while i < w.len()
        invariant
            i <= w@.len(),
            w@ == word@,
            forall|j: int|
                0 <= j < i ==> if j == 0 {
                    scalar_uppercase(#[trigger] w@[j]) == seq![w@[j]]
                } else {
                    scalar_lowercase(w@[j]) == seq![w@[j]]
                },
        decreases w@.len() - i,
    {
        let c = w[i];
        let mapped = if i == 0 {
            to_upper(c)
        } else {
            to_lower(c)
        };
        if !maps_to_itself(&mapped, c) {
            return false;
        }
        i += 1;
    }
    true
}

/// Whether each of the words is written as in a title.
pub fn are_titled(words: &Vec<&str>) -> (b: bool)
    ensures
        b == all_titled(token_texts(words@)),
{
    let ghost texts = token_texts(words@);
    let mut k: usize = 0;
    while k < words.len()
        invariant
            k <= words@.len(),
            texts == token_texts(words@),
            forall|j: int| 0 <= j < k ==> is_titled(#[trigger] texts[j]),
        decreases words@.len() - k,
    {
        assert(texts[k as int] == words@[k as int]@);
        if !titled(words[k]) {
            return false;
        }
        k += 1;
    }
    true
}

/// Whether `subject` is not empty and each of its words is written as in
/// a title.
pub fn is_title(subject: &str) -> (b: bool)
    ensures
        b == (subject@.len() > 0 && all_titled(words_of(unicode_word_segments(subject@)))),
{
    if subject.is_empty() {
        return false;
    }
    let tokens = words(subject);
    are_titled(&tokens)
}

/// The ASCII punctuation characters, in the order of the code chart.
pub open spec fn punctuation_text() -> Seq<char> {
    seq![
        '!',
        '"',
        '#',
        '$',
        '%',
        '&',
        '\'',
        '(',
        ')',
        '*',
        '+',
        ',',
        '-',
        '.',
        '/',
        ':',
        ';',
        '<',
        '=',
        '>',
        '?',
        '@',
        '[',
        '\\',
        ']',
        '^',
        '_',
        '`',
        '{',
        '|',
        '}',
        '~',
    ]
}

/// A grapheme cluster that a word of letters cannot hold: white space, a
/// piece of the punctuation text, or, where digits do not count as
/// letters, digits.
pub open spec fn breaks_word(cluster: Seq<char>, count_digits: bool) -> bool {
    ||| (!count_digits && all_digits(cluster))
    ||| all_white(cluster)
    ||| first_occurrence(punctuation_text(), cluster, 0) >= 0
}

/// No cluster breaks a word of letters.
pub open spec fn all_alpha(clusters: Seq<Seq<char>>, count_digits: bool) -> bool {
    forall|k: int| 0 <= k < clusters.len() ==> !breaks_word(#[trigger] clusters[k], count_digits)
}

/// Whether none of the grapheme clusters is white space, punctuation or,
/// unless `count_digits` is set, digits.
pub fn is_alpha_or_alphadigit(clusters: &Vec<&str>, count_digits: bool) -> (b: bool)
    ensures
        b == all_alpha(token_texts(clusters@), count_digits),
{
    let ghost texts = token_texts(clusters@);
    let marks = PUNCTUATION;
    proof {
        reveal_strlit("!\"#$%&'()*+,-./:;<=>?@[\\]^_`{|}~");
        assert(marks@ =~= punctuation_text());
    }
    let punctuation = scalars(marks);
    let mut k: usize = 0;
    while k < clusters.len()
        invariant
            k <= clusters@.len(),
            texts == token_texts(clusters@),
            punctuation@ == punctuation_text(),
            forall|j: int| 0 <= j < k ==> !breaks_word(#[trigger] texts[j], count_digits),
        decreases clusters@.len() - k,
    {
        let cluster = clusters[k];
        assert(texts[k as int] == cluster@);
        let c = scalars(cluster);
        if (!count_digits && is_digit(cluster)) || is_blank(cluster) || find_first(
            &punctuation,
            &c,
            0,
        ).is_some() {
            return false;
        }
        k += 1;
    }
    true
}

/// Whether `subject` is not empty and holds letters only: no white space,
/// no punctuation, no digits.
pub fn is_alpha(subject: &str) -> (b: bool)
    ensures
        b == (subject@.len() > 0 && all_alpha(grapheme_clusters(subject@), false)),
{
    if subject.is_empty() {
        return false;
    }
    let clusters = graphemes(subject);
    is_alpha_or_alphadigit(&clusters, false)
}

/// Whether `subject` is not empty and holds letters and digits only: no
/// white space and no punctuation.
pub fn is_alphadigit(subject: &str) -> (b: bool)
    ensures
        b == (subject@.len() > 0 && all_alpha(grapheme_clusters(subject@), true)),
{
    if subject.is_empty() {
        return false;
    }
    let clusters = graphemes(subject);
    is_alpha_or_alphadigit(&clusters, true)
}

/// What `matches` answers for the text `s`: no where `position` is not
/// below the token count of `s`; else yes for an empty pattern; else no for
/// a pattern that does not compile; else whether the pattern finds a match
/// from byte `position` on.
pub open spec fn matches_in(s: Seq<char>, pattern: Seq<char>, position: int) -> bool {
    if position >= token_count(s) {
        false
    } else if pattern.len() == 0 {
        true
    } else {
        pattern_compiles(pattern) && matches_from(pattern, s, position)
    }
}

/// Whether the regular expression `pattern` matches in `subject` from byte
/// `position` on. A position that is not below the subject's token count
/// answers no, then an empty pattern answers yes, and a pattern that does
/// not compile answers no.
pub fn matches(subject: &str, pattern: &str, position: usize) -> (b: bool)
    ensures
        b == matches_in(subject@, pattern@, position as int),
{
    let tokens = subject.unicode_len();
    if (tokens == 0 && position >= 1) || (tokens > 0 && position >= tokens) {
        return false;
    }
    if pattern.is_empty() {
        return true;
    }
    proof {
        lemma_bytes_cover_scalars(subject@);
    }
    match is_match_from(pattern, subject, position) {
        Err(_) => false,
        Ok(found) => found,
    }
}

/// Whether `subject` is a foreign key: what `foreign_key` makes of it is
/// the subject itself.
pub fn is_foreign_key(subject: &str) -> (b: bool)
    ensures
        b == (subject@ == foreign_key_of(subject@)),
{
    same_text(subject, &foreign_key(subject))
}

/// `n` reads as a number: as a decimal fraction where it holds a point, as
/// a whole number of 32 bits where it holds none.
pub open spec fn reads_as_number(n: Seq<char>) -> bool {
    if first_occurrence(n, seq!['.'], 0) >= 0 {
        is_fraction_text(n)
    } else {
        is_integer_text(n, 10)
    }
}

/// The two scalars that start a number in base sixteen.
pub open spec fn hex_prefix() -> Seq<char> {
    seq!['0', 'x']
}

/// `s` from `i` on, without the hex prefixes that it starts with there.
pub open spec fn without_prefixes(s: Seq<char>, i: int) -> Seq<char>
    decreases s.len() - i,
{
    if occurs_at(s, hex_prefix(), i) {
        without_prefixes(s, i + 2)
    } else {
        tail(s, i)
    }
}

/// Whether the text `s`, whose lower case is `lowered`, is numeric. An
/// empty text is. A text with an `e` in its lower case is, if what stands
/// before the first `e` reads as a number and what stands between it and the
/// next `e` does too. A text that starts with `0x` is, if the rest reads as
/// a whole number in base sixteen. Any other text is, if it reads as a
/// number.
pub open spec fn numeric_form(s: Seq<char>, lowered: Seq<char>) -> bool {
    let e = first_occurrence(lowered, seq!['e'], 0);
    let next = first_occurrence(lowered, seq!['e'], e + 1);
    let end = if next >= 0 {
        next
    } else {
        lowered.len() as int
    };
    if s.len() == 0 {
        true
    } else if e >= 0 {
        reads_as_number(lowered.subrange(0, e)) && reads_as_number(lowered.subrange(e + 1, end))
    } else if lowered.len() == 0 || occurs_at(lowered, hex_prefix(), 0) {
        is_integer_text(without_prefixes(lowered, 0), 16)
    } else {
        reads_as_number(s)
    }
}

fn single(c: char) -> (v: Vec<char>)
    ensures
        v@ == seq![c],
{
    let mut v: Vec<char> = Vec::new();
    v.push(c);
    assert(v@ =~= seq![c]);
    v
}

fn parse_str_num(n: &Vec<char>) -> (b: bool)
    ensures
        b == reads_as_number(n@),
{
    let point = single('.');
    if find_first(n, &point, 0).is_some() {
        reads_as_fraction(n)
    } else {
        reads_as_integer(n, 10)
    }
}

/// Whether `subject`, whose lower case is `lowered`, is numeric.
pub fn is_numeric_form(subject: &str, lowered: &str) -> (b: bool)
    ensures
        b == numeric_form(subject@, lowered@),
{
    if subject.is_empty() {
        return true;
    }
    let sbj = scalars(lowered);
    let e = single('e');
    match find_first(&sbj, &e, 0) {
        Some(at) => {
            assert(e@.len() == 1);
            assert(at < sbj.len());
            let end = match find_first(&sbj, &e, at + 1) {
                Some(next) => next,
                None => sbj.len(),
            };
            let mantissa = part_of(&sbj, 0, at);
            let exponent = part_of(&sbj, at + 1, end);
            parse_str_num(&mantissa) && parse_str_num(&exponent)
        },
        None => {
            let mut prefix = single('0');
            prefix.push('x');
            assert(prefix@ =~= hex_prefix());
            if sbj.len() == 0 || matches_at(&sbj, &prefix, 0) {
                let mut i: usize = 0;
                while matches_at(&sbj, &prefix, i)
                    invariant
                        prefix@ == hex_prefix(),
                        i <= sbj@.len(),
                        without_prefixes(sbj@, 0) == without_prefixes(sbj@, i as int),
                    decreases sbj@.len() - i,
                {
                    assert(prefix@.len() == 2);
                    assert(i + 2 <= sbj.len());
                    i += 2;
                }
                let digits = part_of(&sbj, i, sbj.len());
                reads_as_integer(&digits, 16)
            } else {
                let n = scalars(subject);
                parse_str_num(&n)
            }
        },
    }
}

/// Whether `subject` is numeric: empty, a whole number of 32 bits, a
/// decimal fraction, a number with an exponent, or a whole number in base
/// sixteen after `0x`.
pub fn is_numeric(subject: &str) -> (b: bool)
    ensures
        b == numeric_form(subject@, text_lowercase(subject@)),
{
    let lowered = lower_text(subject);
    is_numeric_form(subject, lowered.as_str())
}

} // verus!
