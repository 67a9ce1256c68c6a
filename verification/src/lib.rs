//! String utilities built on Unicode-aware segmentation: splitting a text into
//! scalars, grapheme clusters and words, and cutting it by position.
//!
//! Every operation is a function of a module, and a method of the trait
//! [`Voca`], whose methods start with an underscore, on `str` and `String`.

pub mod case;
pub mod chop;
pub mod count;
pub mod escape;
pub mod index;
pub mod manipulate;
pub mod number;
pub mod pattern;
pub mod query;
pub mod scalar;
pub mod split;
pub mod strip;
pub mod text;
pub mod utils;
pub mod word_laws;

use crate::case::{converted, lowered, one, recased, swapped_scalar, uppered, WordCase};
use crate::chop::{
    after_match,
    char_position,
    cluster_position,
    extreme_text,
    foreign_key_of,
    least,
    pruned,
    slice_of,
    substr_of,
    substring_of,
    truncated,
};
use crate::count::{count_set, grapheme_count, occurrences};
use crate::escape::{html_escaped, html_unescaped, regexp_escaped};
use crate::index::{index_in, last_index_in, member_positions, search_in, tail, wrapped_i8};
use crate::manipulate::{
    first_replaced,
    inserted,
    padded,
    PadMode,
    slug_source,
    spaces_expanded,
    spliced,
    translated,
    trimmed,
    wrapped,
};
use crate::query::{
    all_alpha,
    all_digits,
    all_titled,
    all_white,
    includes_in,
    matches_in,
    no_lowercase,
    no_uppercase,
    numeric_form,
    query_in,
};
use crate::scalar::{scalar_is_lowercase, scalar_is_uppercase, text_lowercase};
use crate::split::{
    grapheme_clusters,
    grapheme_tokens,
    scalar_tokens,
    split_of,
    token_texts,
    undelimited_all,
    unicode_word_segments,
    utf16_units,
    words_of,
};
use crate::strip::stripped;
use crate::text::{
    all_single,
    concat,
    first_occurrence,
    is_partition,
    joined,
    last_occurrence,
    occurs_at,
    repeated,
    replaced,
};
use crate::utils::unidecoded;
use vstd::prelude::*;
use vstd::string::*;

verus! {

/// The operations of the library as methods of a text.
pub trait Voca {
    /// The scalars of the text that the methods work on.
    spec fn subject_text(&self) -> Seq<char>;

    /// Converts the text to camel case: `birdFlight`.
    fn _camel_case(&self) -> (text: String)
        ensures
            text@ == converted(self.subject_text(), WordCase::Camel, Seq::empty()),
    ;

    /// Converts the first scalar of the text to upper case and, where
    /// `rest_to_lower` is set, the others to lower case.
    fn _capitalize(&self, rest_to_lower: bool) -> (text: String)
        ensures
            text@ == recased(self.subject_text(), rest_to_lower, true),
    ;

    /// Converts the first scalar of the text to lower case and, where
    /// `rest_to_lower` is set, the others too.
    fn _decapitalize(&self, rest_to_lower: bool) -> (text: String)
        ensures
            text@ == recased(self.subject_text(), rest_to_lower, false),
    ;

    /// Converts the text to kebab case: `goodbye-blue-sky`.
    fn _kebab_case(&self) -> (text: String)
        ensures
            text@ == converted(self.subject_text(), WordCase::Lower, one('-')),
    ;

    /// Converts the text to shouty kebab case: `GOODBYE-BLUE-SKY`.
    fn _shouty_kebab_case(&self) -> (text: String)
        ensures
            text@ == converted(self.subject_text(), WordCase::Upper, one('-')),
    ;

    /// Converts the text to lower case.
    fn _lower_case(&self) -> (text: String)
        ensures
            text@ == lowered(self.subject_text()),
    ;

    /// Converts the text to pascal case: `BirdFlight`.
    fn _pascal_case(&self) -> (text: String)
        ensures
            text@ == converted(self.subject_text(), WordCase::Capital, Seq::empty()),
    ;

    /// Converts the text to snake case: `learning_to_fly`.
    fn _snake_case(&self) -> (text: String)
        ensures
            text@ == converted(self.subject_text(), WordCase::Lower, one('_')),
    ;

    /// Converts the text to shouty snake case: `LEARNING_TO_FLY`.
    fn _shouty_snake_case(&self) -> (text: String)
        ensures
            text@ == converted(self.subject_text(), WordCase::Upper, one('_')),
    ;

    /// Converts the lower case scalars of the text to upper case and the
    /// others to lower case.
    fn _swap_case(&self) -> (text: String)
        ensures
            text@ == self.subject_text().map_values(|c: char| swapped_scalar(c)),
    ;

    /// Converts the text to title case: `Bird Flight`.
    fn _title_case(&self) -> (text: String)
        ensures
            text@ == converted(self.subject_text(), WordCase::Capital, one(' ')),
    ;

    /// Converts the text to train case: `Goodbye-Blue-Sky`.
    fn _train_case(&self) -> (text: String)
        ensures
            text@ == converted(self.subject_text(), WordCase::Capital, one('-')),
    ;

    /// Converts the text to upper case.
    fn _upper_case(&self) -> (text: String)
        ensures
            text@ == uppered(self.subject_text()),
    ;

    /// Converts the first scalar of the text to lower case.
    fn _lower_first(&self) -> (text: String)
        ensures
            text@ == recased(self.subject_text(), false, false),
    ;

    /// Converts the first scalar of the text to upper case.
    fn _upper_first(&self) -> (text: String)
        ensures
            text@ == recased(self.subject_text(), false, true),
    ;

    /// Everything in the text after the first occurrence of `search`; nothing
    /// where `search` does not occur.
    fn _after(&self, search: &str) -> (text: String)
        ensures
            text@ == after_match(self.subject_text(), search@, first_occurrence(self.subject_text(), search@, 0)),
    ;

    /// Everything in the text after the last occurrence of `search`; nothing
    /// where `search` does not occur.
    fn _after_last(&self, search: &str) -> (text: String)
        ensures
            text@ == after_match(
                self.subject_text(),
                search@,
                last_occurrence(self.subject_text(), search@, 0, self.subject_text().len() as int),
            ),
    ;

    /// The scalar of the text at `position`, the last one if the position is
    /// at or past the end; the empty text for an empty subject.
    fn _char_at(&self, position: usize) -> (text: String)
        ensures
            self.subject_text().len() == 0 ==> text@.len() == 0,
            self.subject_text().len() > 0 ==> text@ == seq![
                self.subject_text()[char_position(position as int, self.subject_text().len() as int)],
            ],
    ;

    /// The UTF-16 code units of the grapheme cluster of the text at
    /// `position`, the last cluster if the position is at or past the end.
    fn _code_point_at(&self, position: usize) -> (units: Vec<u16>)
        ensures
            self.subject_text().len() == 0 ==> units@.len() == 0,
            self.subject_text().len() > 0 ==> units@ == utf16_units(
                grapheme_clusters(self.subject_text())[cluster_position(
                    position as int,
                    grapheme_count(self.subject_text()) as int,
                )],
            ),
    ;

    /// The first `length` scalars of the text; the whole subject for a length
    /// at or past its end.
    fn _first(&self, length: usize) -> (text: String)
        ensures
            text@ == self.subject_text().subrange(0, least(length as int, self.subject_text().len() as int)),
            length >= self.subject_text().len() ==> text@ == self.subject_text(),
    ;

    /// Converts the text to a foreign key: the name after the last `::` in
    /// snake case, ending in `_id`.
    fn _foreign_key(&self) -> (text: String)
        ensures
            text@ == foreign_key_of(self.subject_text()),
    ;

    /// The grapheme cluster of the text at `position`, the last one if the
    /// position is at or past the end; the empty text for an empty subject.
    fn _grapheme_at(&self, position: usize) -> (text: String)
        ensures
            self.subject_text().len() == 0 ==> text@.len() == 0,
            self.subject_text().len() > 0 ==> text@ == grapheme_clusters(self.subject_text())[cluster_position(
                position as int,
                grapheme_count(self.subject_text()) as int,
            )],
    ;

    /// The last `length` scalars of the text; the whole subject for a length
    /// at or past its end.
    fn _last(&self, length: usize) -> (text: String)
        ensures
            text@ == self.subject_text().subrange(
                self.subject_text().len() - least(length as int, self.subject_text().len() as int),
                self.subject_text().len() as int,
            ),
            length >= self.subject_text().len() ==> text@ == self.subject_text(),
    ;

    /// Truncates the text to `length` scalars without cutting a word: the cut
    /// is pulled back to where the last run of spaces or punctuation starts.
    /// The result, suffix included, is never longer than `length`.
    fn _prune(&self, length: usize, end: &str) -> (text: String)
        ensures
            text@ == pruned(self.subject_text(), length as int, end@),
            text@.len() <= length,
    ;

    /// Extracts from the text the scalars from `start` up to `end`. Negative
    /// bounds count from the end; an `end` of zero is the end of the subject.
    fn _slice(&self, start: isize, end: isize) -> (text: String)
        ensures
            text@ == slice_of(self.subject_text(), start as int, end as int),
    ;

    /// Extracts `length` scalars of the text from `start` on; a `length` of
    /// zero extracts to the end.
    fn _substr(&self, start: usize, length: usize) -> (text: String)
        ensures
            text@ == substr_of(self.subject_text(), start as int, length as int),
    ;

    /// Extracts the scalars of the text from `start` up to `end`; an `end`
    /// of zero extracts to the end.
    fn _substring(&self, start: usize, end: usize) -> (text: String)
        ensures
            text@ == substring_of(self.subject_text(), start as int, end as int),
    ;

    /// Truncates the text to `length` scalars, the suffix `end` included;
    /// three dots stand in for an empty `end`.
    fn _truncate(&self, length: usize, end: &str) -> (text: String)
        ensures
            text@ == truncated(self.subject_text(), length as int, end@),
    ;

    /// The text of the largest UTF-16 code unit of the text.
    fn _max_code_point(&self) -> (text: String)
        ensures
            text@ == extreme_text(utf16_units(self.subject_text()), true),
    ;

    /// The text of the smallest UTF-16 code unit of the text.
    fn _min_code_point(&self) -> (text: String)
        ensures
            text@ == extreme_text(utf16_units(self.subject_text()), false),
    ;

    /// Counts the scalars of the text.
    fn _count(&self) -> (n: usize)
        ensures
            n == self.subject_text().len(),
    ;

    /// Counts the grapheme clusters of the text. There are never more clusters
    /// than scalars, and as many exactly when every cluster is a single scalar.
    fn _count_graphemes(&self) -> (n: usize)
        ensures
            n == grapheme_count(self.subject_text()),
            n <= self.subject_text().len(),
            self.subject_text().len() > 0 ==> n >= 1,
            self.subject_text().len() > 0 ==> is_partition(self.subject_text(), grapheme_clusters(self.subject_text())),
            self.subject_text().len() > 0 ==> (n == self.subject_text().len() <==> all_single(grapheme_clusters(self.subject_text()))),
    ;

    /// Counts how often `substring` occurs in the text.
    fn _count_substrings(&self, substring: &str) -> (n: usize)
        ensures
            n == occurrences(self.subject_text(), substring@, 0),
    ;

    /// Counts the grapheme clusters of the text for which `predicate` answers
    /// yes: there is an answer of the predicate for each cluster, and the count
    /// is the number of those that are yes.
    fn _count_where<F: Fn(&str) -> bool>(&self, predicate: F) -> (n: usize)
        requires
            forall|token: &str| call_requires(predicate, (token,)),
        ensures
            self.subject_text().len() == 0 ==> n == 0,
            self.subject_text().len() > 0 ==> exists|tokens: Seq<&str>, flags: Seq<bool>|
                {
                    &&& token_texts(tokens) == grapheme_clusters(self.subject_text())
                    &&& flags.len() == tokens.len()
                    &&& forall|i: int|
                        0 <= i < tokens.len() ==> call_ensures(
                            predicate,
                            (#[trigger] tokens[i],),
                            flags[i],
                        )
                    &&& n == count_set(flags)
                },
    ;

    /// Counts the words of the text, or, with a `pattern`, the pieces that
    /// the pattern splits it into.
    fn _count_words(&self, pattern: &str) -> (n: usize)
        ensures
            self.subject_text().len() == 0 ==> n == 0,
            self.subject_text().len() > 0 && pattern@.len() == 0 ==> n == words_of(
                unicode_word_segments(self.subject_text()),
            ).len(),
            self.subject_text().len() > 0 && pattern@.len() > 0 ==> n == split_of(self.subject_text(), pattern@).len(),
    ;

    /// Counts the different words of the text, or, with a `pattern`, the
    /// different pieces that the pattern splits it into.
    fn _count_unique_words(&self, pattern: &str) -> (n: usize)
        ensures
            self.subject_text().len() == 0 ==> n == 0,
            self.subject_text().len() > 0 && pattern@.len() == 0 ==> n == words_of(
                unicode_word_segments(self.subject_text()),
            ).to_set().len(),
            self.subject_text().len() > 0 && pattern@.len() > 0 ==> n == split_of(
                self.subject_text(),
                pattern@,
            ).to_set().len(),
    ;

    /// Escapes the characters `<`, `>`, `&`, `"`, `'` and `` ` `` of the text
    /// as HTML entities.
    fn _escape_html(&self) -> (text: String)
        ensures
            text@ == html_escaped(self.subject_text()),
    ;

    /// Escapes the regular expression special characters
    /// `- [ ] / { } ( ) * + ? . \ ^ $ |` of the text with a backslash.
    fn _escape_regexp(&self) -> (text: String)
        ensures
            text@ == regexp_escaped(self.subject_text()),
    ;

    /// Unescapes the HTML entities `&lt;`, `&gt;`, `&amp;`, `&quot;`, `&#x27;`
    /// and `&#x60;` of the text.
    fn _unescape_html(&self) -> (text: String)
        ensures
            text@ == html_unescaped(self.subject_text()),
    ;

    /// The positions, counted from `from_index`, of all scalars of the text
    /// at or after `from_index` that occur in `search`.
    fn _index_all(&self, search: &str, from_index: usize) -> (found: Vec<usize>)
        ensures
            found@.map_values(|i: usize| i as int) == member_positions(
                tail(self.subject_text(), from_index as int),
                search@,
                tail(self.subject_text(), from_index as int).len() as int,
            ),
    ;

    /// The first position of `search` in the text at or after `from_index`,
    /// counted from `from_index` and narrowed to eight bits; -1 if there is none.
    fn _index_of(&self, search: &str, from_index: usize) -> (position: i8)
        ensures
            position == wrapped_i8(index_in(self.subject_text(), search@, from_index as int)),
    ;

    /// The last position of `search` in the text at or after `from_index`,
    /// counted from `from_index` and narrowed to eight bits; -1 if there is none.
    fn _last_index_of(&self, search: &str, from_index: usize) -> (position: i8)
        ensures
            position == wrapped_i8(last_index_in(self.subject_text(), search@, from_index as int)),
    ;

    /// The byte at which the regular expression `pattern` first matches in
    /// the text, searching from byte `from_index` on, narrowed to eight bits.
    /// The answer is -1 where `from_index` is not below the subject's token
    /// count, where the pattern does not compile and where nothing matches; it is
    /// zero for an empty pattern.
    fn _search(&self, pattern: &str, from_index: usize) -> (position: i8)
        ensures
            position == search_in(self.subject_text(), pattern@, from_index as int),
    ;

    /// Replaces every tab in the text by `tabsize` spaces.
    fn _expand_tabs(&self, tabsize: usize) -> (text: String)
        ensures
            text@ == replaced(self.subject_text(), seq!['\t'], repeated(seq![' '], tabsize as int)),
    ;

    /// Replaces every run of `tabsize` spaces in the text by a tab.
    fn _expand_spaces(&self, tabsize: usize) -> (text: String)
        ensures
            text@ == spaces_expanded(self.subject_text(), tabsize as int),
    ;

    /// Inserts `to_insert` into the text at `position`. An empty subject stays
    /// empty.
    fn _insert(&self, to_insert: &str, position: usize) -> (text: String)
        ensures
            self.subject_text().len() == 0 ==> text@ == self.subject_text(),
            self.subject_text().len() > 0 ==> text@ == inserted(self.subject_text(), to_insert@, position as int),
    ;

    /// Latinises the text: every scalar is replaced by the ASCII text that
    /// stands for it.
    fn _latinise(&self) -> (text: String)
        ensures
            text@ == unidecoded(self.subject_text()),
    ;

    /// Pads the text on both sides to `length` grapheme clusters.
    fn _pad(&self, length: usize, filler: &str) -> (text: String)
        ensures
            text@ == padded(
                self.subject_text(),
                grapheme_count(self.subject_text()) as int,
                length as int,
                filler@,
                PadMode::Both,
            ),
    ;

    /// Pads the text on the left to `length` grapheme clusters.
    fn _pad_left(&self, length: usize, pad: &str) -> (text: String)
        ensures
            text@ == padded(
                self.subject_text(),
                grapheme_count(self.subject_text()) as int,
                length as int,
                pad@,
                PadMode::Left,
            ),
    ;

    /// Pads the text on the right to `length` grapheme clusters.
    fn _pad_right(&self, length: usize, pad: &str) -> (text: String)
        ensures
            text@ == padded(
                self.subject_text(),
                grapheme_count(self.subject_text()) as int,
                length as int,
                pad@,
                PadMode::Right,
            ),
    ;

    /// Repeats the text `times` times.
    fn _repeat(&self, times: usize) -> (text: String)
        ensures
            text@ == repeated(self.subject_text(), times as int),
    ;

    /// Replaces the first occurrence of `pattern` in the text by
    /// `replacement`.
    fn _replace(&self, pattern: &str, replacement: &str) -> (text: String)
        ensures
            text@ == first_replaced(self.subject_text(), pattern@, replacement@),
    ;

    /// Replaces every occurrence of `pattern` in the text by `replacement`,
    /// taking the occurrences from the left. An empty pattern occurs nowhere.
    fn _replace_all(&self, pattern: &str, replacement: &str) -> (text: String)
        ensures
            text@ == replaced(self.subject_text(), pattern@, replacement@),
    ;

    /// Reverses the scalars of the text.
    fn _reverse(&self) -> (text: String)
        ensures
            text@ == self.subject_text().reverse(),
    ;

    /// Reverses the grapheme clusters of the text, so that marks stay with
    /// their base.
    fn _reverse_grapheme(&self) -> (text: String)
        ensures
            self.subject_text().len() == 0 ==> text@.len() == 0,
            self.subject_text().len() > 0 ==> text@ == concat(grapheme_clusters(self.subject_text()).reverse()),
    ;

    /// Slugifies the text: the words of its latinised lower case form, joined
    /// by `-`.
    fn _slugify(&self) -> (text: String)
        ensures
            self.subject_text().len() == 0 ==> text@.len() == 0,
            self.subject_text().len() > 0 ==> text@ == crate::text::joined(
                words_of(unicode_word_segments(slug_source(self.subject_text()))),
                seq!['-'],
            ),
    ;

    /// Deletes `delete_count` scalars of the text from `start` on and puts
    /// `to_add` in their place. A negative `start` counts from the end.
    fn _splice(&self, start: isize, delete_count: usize, to_add: &str) -> (text: String)
        ensures
            text@ == spliced(self.subject_text(), start as int, delete_count as int, to_add@),
    ;

    /// Removes white space, or the scalars of `whitespace` where it is not
    /// empty, from both ends of the text.
    fn _trim(&self, whitespace: &str) -> (text: String)
        ensures
            text@ == trimmed(self.subject_text(), whitespace@, true, true),
    ;

    /// Removes white space, or the scalars of `whitespace` where it is not
    /// empty, from the end of the text.
    fn _trim_right(&self, whitespace: &str) -> (text: String)
        ensures
            text@ == trimmed(self.subject_text(), whitespace@, false, true),
    ;

    /// Removes white space, or the scalars of `whitespace` where it is not
    /// empty, from the start of the text.
    fn _trim_left(&self, whitespace: &str) -> (text: String)
        ensures
            text@ == trimmed(self.subject_text(), whitespace@, true, false),
    ;

    /// Pads the text on the left with zeros to `length` grapheme clusters.
    fn _zfill(&self, length: usize) -> (text: String)
        ensures
            text@ == padded(
                self.subject_text(),
                grapheme_count(self.subject_text()) as int,
                length as int,
                seq!['0'],
                PadMode::Left,
            ),
    ;

    /// Translates the grapheme clusters of `from` in the text into those of
    /// `to`.
    fn _tr(&self, from: &str, to: &str) -> (text: String)
        ensures
            from@.len() == 0 || self.subject_text().len() == 0 ==> text@ == self.subject_text(),
            from@.len() > 0 && self.subject_text().len() > 0 ==> text@ == translated(
                self.subject_text(),
                grapheme_clusters(from@),
                grapheme_tokens(to@),
                grapheme_clusters(from@).len() as int,
            ),
    ;

    /// Wraps the text into lines of `width` grapheme clusters, breaking at
    /// white space and punctuation. Each line but the last ends with `newline`,
    /// or with a line feed where `newline` is empty, and each line starts with
    /// `indent`.
    fn _word_wrap(&self, width: usize, newline: &str, indent: &str) -> (text: String)
        ensures
            text@ == wrapped(self.subject_text(), width as int, newline@, indent@),
    ;

    /// Whether the text is a foreign key: what `foreign_key` makes of it is
    /// the subject itself.
    fn _is_foreign_key(&self) -> (b: bool)
        ensures
            b == (self.subject_text() == foreign_key_of(self.subject_text())),
    ;

    /// Whether the text ends with `end`. An empty subject and an empty `end`
    /// answer yes.
    fn _ends_with(&self, end: &str) -> (b: bool)
        ensures
            b == (self.subject_text().len() == 0 || end@.len() == 0 || occurs_at(
                self.subject_text(),
                end@,
                self.subject_text().len() - end@.len(),
            )),
    ;

    /// Whether the text includes `search` at or after `position`.
    fn _includes(&self, search: &str, position: usize) -> (b: bool)
        ensures
            b == includes_in(self.subject_text(), search@, position as int),
    ;

    /// Whether the text is not empty and holds letters only: no white space,
    /// no punctuation, no digits.
    fn _is_alpha(&self) -> (b: bool)
        ensures
            b == (self.subject_text().len() > 0 && all_alpha(grapheme_clusters(self.subject_text()), false)),
    ;

    /// Whether the text is not empty and holds letters and digits only: no
    /// white space and no punctuation.
    fn _is_alphadigit(&self) -> (b: bool)
        ensures
            b == (self.subject_text().len() > 0 && all_alpha(grapheme_clusters(self.subject_text()), true)),
    ;

    /// Whether the text is empty or holds nothing but white space.
    fn _is_blank(&self) -> (b: bool)
        ensures
            b == all_white(self.subject_text()),
    ;

    /// Whether the text is written in camel case.
    fn _is_camel_case(&self) -> (b: bool)
        ensures
            b == (self.subject_text() == converted(self.subject_text(), WordCase::Camel, Seq::empty())),
    ;

    /// Whether the text is capitalized: its first scalar is not lower case
    /// and none of the others is upper case. An empty subject answers yes.
    fn _is_capitalize(&self) -> (b: bool)
        ensures
            b == (self.subject_text().len() == 0 || (!scalar_is_lowercase(self.subject_text()[0]) && no_uppercase(
                self.subject_text().subrange(1, self.subject_text().len() as int),
            ))),
    ;

    /// Whether the text is decapitalized: none of its scalars is upper case.
    /// An empty subject answers yes.
    fn _is_decapitalize(&self) -> (b: bool)
        ensures
            b == (self.subject_text().len() == 0 || (!scalar_is_uppercase(self.subject_text()[0]) && no_uppercase(
                self.subject_text().subrange(1, self.subject_text().len() as int),
            ))),
    ;

    /// Whether the text is empty or holds nothing but decimal digits.
    fn _is_digit(&self) -> (b: bool)
        ensures
            b == all_digits(self.subject_text()),
    ;

    /// Whether the text is empty.
    fn _is_empty(&self) -> (b: bool)
        ensures
            b == (self.subject_text().len() == 0),
    ;

    /// Whether the text has no upper case scalar.
    fn _is_lowercase(&self) -> (b: bool)
        ensures
            b == no_uppercase(self.subject_text()),
    ;

    /// Whether the first scalar of the text is not upper case. An empty
    /// subject answers yes.
    fn _is_lower_first(&self) -> (b: bool)
        ensures
            b == (self.subject_text().len() == 0 || !scalar_is_uppercase(self.subject_text()[0])),
    ;

    /// Whether the text is written in kebab case.
    fn _is_kebab_case(&self) -> (b: bool)
        ensures
            b == (self.subject_text() == converted(self.subject_text(), WordCase::Lower, one('-'))),
    ;

    /// Whether the text is numeric: empty, a whole number of 32 bits, a
    /// decimal fraction, a number with an exponent, or a whole number in base
    /// sixteen after `0x`.
    fn _is_numeric(&self) -> (b: bool)
        ensures
            b == numeric_form(self.subject_text(), text_lowercase(self.subject_text())),
    ;

    /// Whether the text is written in pascal case.
    fn _is_pascal_case(&self) -> (b: bool)
        ensures
            b == (self.subject_text() == converted(self.subject_text(), WordCase::Capital, Seq::empty())),
    ;

    /// Whether the text is written in shouty kebab case.
    fn _is_shouty_kebab_case(&self) -> (b: bool)
        ensures
            b == (self.subject_text() == converted(self.subject_text(), WordCase::Upper, one('-'))),
    ;

    /// Whether the text is written in snake case.
    fn _is_snake_case(&self) -> (b: bool)
        ensures
            b == (self.subject_text() == converted(self.subject_text(), WordCase::Lower, one('_'))),
    ;

    /// Whether the text is written in shouty snake case.
    fn _is_shouty_snake_case(&self) -> (b: bool)
        ensures
            b == (self.subject_text() == converted(self.subject_text(), WordCase::Upper, one('_'))),
    ;

    /// Whether the text is not empty and each of its words is written as in
    /// a title.
    fn _is_title(&self) -> (b: bool)
        ensures
            b == (self.subject_text().len() > 0 && all_titled(words_of(unicode_word_segments(self.subject_text())))),
    ;

    /// Whether the text is written in train case.
    fn _is_train_case(&self) -> (b: bool)
        ensures
            b == (self.subject_text() == converted(self.subject_text(), WordCase::Capital, one('-'))),
    ;

    /// Whether the text has no lower case scalar.
    fn _is_uppercase(&self) -> (b: bool)
        ensures
            b == no_lowercase(self.subject_text()),
    ;

    /// Whether the first scalar of the text is not lower case. An empty
    /// subject answers yes.
    fn _is_upper_first(&self) -> (b: bool)
        ensures
            b == (self.subject_text().len() == 0 || !scalar_is_lowercase(self.subject_text()[0])),
    ;

    /// Whether the regular expression `pattern` matches in the text from byte
    /// `position` on. A position that is not below the subject's token count
    /// answers no, then an empty pattern answers yes, and a pattern that does
    /// not compile answers no.
    fn _matches(&self, pattern: &str, position: usize) -> (b: bool)
        ensures
            b == matches_in(self.subject_text(), pattern@, position as int),
    ;

    /// Whether the text holds, at or after `position`, all scalars of
    /// `search` in their order.
    fn _query(&self, search: &str, position: usize) -> (b: bool)
        ensures
            b == query_in(self.subject_text(), search@, position as int),
    ;

    /// Whether the text starts with `start`. An empty subject and an empty
    /// `start` answer yes.
    fn _starts_with(&self, start: &str) -> (b: bool)
        ensures
            b == (self.subject_text().len() == 0 || start@.len() == 0 || occurs_at(self.subject_text(), start@, 0)),
    ;

    /// Splits the text into its scalars. Laid end to end the tokens give the
    /// subject back.
    fn _chars(&self) -> (tokens: Vec<&str>)
        ensures
            token_texts(tokens@) == scalar_tokens(self.subject_text()),
            concat(token_texts(tokens@)) == self.subject_text(),
    ;

    /// Splits the text at every occurrence of `pattern`, taken from the left.
    /// An empty subject gives one empty token, an empty pattern the subject
    /// whole; a separator at the very end adds no empty token after it.
    fn _split<'a>(&'a self, pattern: &str) -> (tokens: Vec<&'a str>)
        ensures
            token_texts(tokens@) == split_of(self.subject_text(), pattern@),
    ;

    /// Splits the text into words: at Unicode's word boundaries, at `-` and
    /// `_`, and where a camelCase or PascalCase identifier changes case. The
    /// words hold, in order, every scalar of the word segments but the
    /// delimiters.
    fn _words(&self) -> (tokens: Vec<&str>)
        ensures
            token_texts(tokens@) == words_of(unicode_word_segments(self.subject_text())),
            concat(token_texts(tokens@)) == undelimited_all(unicode_word_segments(self.subject_text())),
    ;

    /// Splits the text into its grapheme clusters. Laid end to end the tokens
    /// give the subject back.
    fn _graphemes(&self) -> (tokens: Vec<&str>)
        ensures
            token_texts(tokens@) == grapheme_tokens(self.subject_text()),
            concat(token_texts(tokens@)) == self.subject_text(),
            tokens@.len() >= 1,
            self.subject_text().len() > 0 ==> is_partition(self.subject_text(), token_texts(tokens@)),
    ;

    /// The UTF-16 code units of the text.
    fn _code_points(&self) -> (units: Vec<u16>)
        ensures
            units@ == utf16_units(self.subject_text()),
    ;

    /// Strips the byte order mark from the start of the text, if it starts
    /// with one.
    fn _strip_bom(&self) -> (text: String)
        ensures
            text@ == if self.subject_text().len() > 0 && self.subject_text()[0] == '\u{feff}' {
                self.subject_text().subrange(1, self.subject_text().len() as int)
            } else {
                self.subject_text()
            },
    ;

    /// Strips all HTML tags, comments and doctype declarations from the text,
    /// reading it cluster by cluster.
    fn _strip_tags(&self) -> (text: String)
        ensures
            self.subject_text().len() == 0 ==> text@.len() == 0,
            self.subject_text().len() > 0 ==> text@ == stripped(grapheme_clusters(self.subject_text())),
    ;
}

impl Voca for str {
    open spec fn subject_text(&self) -> Seq<char> {
        self@
    }

    fn _camel_case(&self) -> (text: String) {
        crate::case::camel_case(self)
    }

    fn _capitalize(&self, rest_to_lower: bool) -> (text: String) {
        crate::case::capitalize(self, rest_to_lower)
    }

    fn _decapitalize(&self, rest_to_lower: bool) -> (text: String) {
        crate::case::decapitalize(self, rest_to_lower)
    }

    fn _kebab_case(&self) -> (text: String) {
        crate::case::kebab_case(self)
    }

    fn _shouty_kebab_case(&self) -> (text: String) {
        crate::case::shouty_kebab_case(self)
    }

    fn _lower_case(&self) -> (text: String) {
        crate::case::lower_case(self)
    }

    fn _pascal_case(&self) -> (text: String) {
        crate::case::pascal_case(self)
    }

    fn _snake_case(&self) -> (text: String) {
        crate::case::snake_case(self)
    }

    fn _shouty_snake_case(&self) -> (text: String) {
        crate::case::shouty_snake_case(self)
    }

    fn _swap_case(&self) -> (text: String) {
        crate::case::swap_case(self)
    }

    fn _title_case(&self) -> (text: String) {
        crate::case::title_case(self)
    }

    fn _train_case(&self) -> (text: String) {
        crate::case::train_case(self)
    }

    fn _upper_case(&self) -> (text: String) {
        crate::case::upper_case(self)
    }

    fn _lower_first(&self) -> (text: String) {
        crate::case::lower_first(self)
    }

    fn _upper_first(&self) -> (text: String) {
        crate::case::upper_first(self)
    }

    fn _after(&self, search: &str) -> (text: String) {
        crate::chop::after(self, search)
    }

    fn _after_last(&self, search: &str) -> (text: String) {
        crate::chop::after_last(self, search)
    }

    fn _char_at(&self, position: usize) -> (text: String) {
        crate::chop::char_at(self, position)
    }

    fn _code_point_at(&self, position: usize) -> (units: Vec<u16>) {
        crate::chop::code_point_at(self, position)
    }

    fn _first(&self, length: usize) -> (text: String) {
        crate::chop::first(self, length)
    }

    fn _foreign_key(&self) -> (text: String) {
        crate::chop::foreign_key(self)
    }

    fn _grapheme_at(&self, position: usize) -> (text: String) {
        crate::chop::grapheme_at(self, position)
    }

    fn _last(&self, length: usize) -> (text: String) {
        crate::chop::last(self, length)
    }

    fn _prune(&self, length: usize, end: &str) -> (text: String) {
        crate::chop::prune(self, length, end)
    }

    fn _slice(&self, start: isize, end: isize) -> (text: String) {
        crate::chop::slice(self, start, end)
    }

    fn _substr(&self, start: usize, length: usize) -> (text: String) {
        crate::chop::substr(self, start, length)
    }

    fn _substring(&self, start: usize, end: usize) -> (text: String) {
        crate::chop::substring(self, start, end)
    }

    fn _truncate(&self, length: usize, end: &str) -> (text: String) {
        crate::chop::truncate(self, length, end)
    }

    fn _max_code_point(&self) -> (text: String) {
        crate::chop::max(self)
    }

    fn _min_code_point(&self) -> (text: String) {
        crate::chop::min(self)
    }

    fn _count(&self) -> (n: usize) {
        crate::count::count(self)
    }

    fn _count_graphemes(&self) -> (n: usize) {
        crate::count::count_graphemes(self)
    }

    fn _count_substrings(&self, substring: &str) -> (n: usize) {
        crate::count::count_substrings(self, substring)
    }

    fn _count_where<F: Fn(&str) -> bool>(&self, predicate: F) -> (n: usize) {
        crate::count::count_where(self, predicate)
    }

    fn _count_words(&self, pattern: &str) -> (n: usize) {
        crate::count::count_words(self, pattern)
    }

    fn _count_unique_words(&self, pattern: &str) -> (n: usize) {
        crate::count::count_unique_words(self, pattern)
    }

    fn _escape_html(&self) -> (text: String) {
        crate::escape::escape_html(self)
    }

    fn _escape_regexp(&self) -> (text: String) {
        crate::escape::escape_regexp(self)
    }

    fn _unescape_html(&self) -> (text: String) {
        crate::escape::unescape_html(self)
    }

    fn _index_all(&self, search: &str, from_index: usize) -> (found: Vec<usize>) {
        crate::index::index_all(self, search, from_index)
    }

    fn _index_of(&self, search: &str, from_index: usize) -> (position: i8) {
        crate::index::index_of(self, search, from_index)
    }

    fn _last_index_of(&self, search: &str, from_index: usize) -> (position: i8) {
        crate::index::last_index_of(self, search, from_index)
    }

    fn _search(&self, pattern: &str, from_index: usize) -> (position: i8) {
        crate::index::search(self, pattern, from_index)
    }

    fn _expand_tabs(&self, tabsize: usize) -> (text: String) {
        crate::manipulate::expand_tabs(self, tabsize)
    }

    fn _expand_spaces(&self, tabsize: usize) -> (text: String) {
        crate::manipulate::expand_spaces(self, tabsize)
    }

    fn _insert(&self, to_insert: &str, position: usize) -> (text: String) {
        crate::manipulate::insert(self, to_insert, position)
    }

    fn _latinise(&self) -> (text: String) {
        crate::manipulate::latinise(self)
    }

    fn _pad(&self, length: usize, filler: &str) -> (text: String) {
        crate::manipulate::pad(self, length, filler)
    }

    fn _pad_left(&self, length: usize, pad: &str) -> (text: String) {
        crate::manipulate::pad_left(self, length, pad)
    }

    fn _pad_right(&self, length: usize, pad: &str) -> (text: String) {
        crate::manipulate::pad_right(self, length, pad)
    }

    fn _repeat(&self, times: usize) -> (text: String) {
        crate::manipulate::repeat(self, times)
    }

    fn _replace(&self, pattern: &str, replacement: &str) -> (text: String) {
        crate::manipulate::replace(self, pattern, replacement)
    }

    fn _replace_all(&self, pattern: &str, replacement: &str) -> (text: String) {
        crate::manipulate::replace_all(self, pattern, replacement)
    }

    fn _reverse(&self) -> (text: String) {
        crate::manipulate::reverse(self)
    }

    fn _reverse_grapheme(&self) -> (text: String) {
        crate::manipulate::reverse_grapheme(self)
    }

    fn _slugify(&self) -> (text: String) {
        crate::manipulate::slugify(self)
    }

    fn _splice(&self, start: isize, delete_count: usize, to_add: &str) -> (text: String) {
        crate::manipulate::splice(self, start, delete_count, to_add)
    }

    fn _trim(&self, whitespace: &str) -> (text: String) {
        crate::manipulate::trim(self, whitespace)
    }

    fn _trim_right(&self, whitespace: &str) -> (text: String) {
        crate::manipulate::trim_right(self, whitespace)
    }

    fn _trim_left(&self, whitespace: &str) -> (text: String) {
        crate::manipulate::trim_left(self, whitespace)
    }

    fn _zfill(&self, length: usize) -> (text: String) {
        crate::manipulate::zfill(self, length)
    }

    fn _tr(&self, from: &str, to: &str) -> (text: String) {
        crate::manipulate::tr(self, from, to)
    }

    fn _word_wrap(&self, width: usize, newline: &str, indent: &str) -> (text: String) {
        crate::manipulate::word_wrap(self, width, newline, indent)
    }

    fn _is_foreign_key(&self) -> (b: bool) {
        crate::query::is_foreign_key(self)
    }

    fn _ends_with(&self, end: &str) -> (b: bool) {
        crate::query::ends_with(self, end)
    }

    fn _includes(&self, search: &str, position: usize) -> (b: bool) {
        crate::query::includes(self, search, position)
    }

    fn _is_alpha(&self) -> (b: bool) {
        crate::query::is_alpha(self)
    }

    fn _is_alphadigit(&self) -> (b: bool) {
        crate::query::is_alphadigit(self)
    }

    fn _is_blank(&self) -> (b: bool) {
        crate::query::is_blank(self)
    }

    fn _is_camel_case(&self) -> (b: bool) {
        crate::query::is_camel_case(self)
    }

    fn _is_capitalize(&self) -> (b: bool) {
        crate::query::is_capitalize(self)
    }

    fn _is_decapitalize(&self) -> (b: bool) {
        crate::query::is_decapitalize(self)
    }

    fn _is_digit(&self) -> (b: bool) {
        crate::query::is_digit(self)
    }

    fn _is_empty(&self) -> (b: bool) {
        crate::query::is_empty(self)
    }

    fn _is_lowercase(&self) -> (b: bool) {
        crate::query::is_lowercase(self)
    }

    fn _is_lower_first(&self) -> (b: bool) {
        crate::query::is_lower_first(self)
    }

    fn _is_kebab_case(&self) -> (b: bool) {
        crate::query::is_kebab_case(self)
    }

    fn _is_numeric(&self) -> (b: bool) {
        crate::query::is_numeric(self)
    }

    fn _is_pascal_case(&self) -> (b: bool) {
        crate::query::is_pascal_case(self)
    }

    fn _is_shouty_kebab_case(&self) -> (b: bool) {
        crate::query::is_shouty_kebab_case(self)
    }

    fn _is_snake_case(&self) -> (b: bool) {
        crate::query::is_snake_case(self)
    }

    fn _is_shouty_snake_case(&self) -> (b: bool) {
        crate::query::is_shouty_snake_case(self)
    }

    fn _is_title(&self) -> (b: bool) {
        crate::query::is_title(self)
    }

    fn _is_train_case(&self) -> (b: bool) {
        crate::query::is_train_case(self)
    }

    fn _is_uppercase(&self) -> (b: bool) {
        crate::query::is_uppercase(self)
    }

    fn _is_upper_first(&self) -> (b: bool) {
        crate::query::is_upper_first(self)
    }

    fn _matches(&self, pattern: &str, position: usize) -> (b: bool) {
        crate::query::matches(self, pattern, position)
    }

    fn _query(&self, search: &str, position: usize) -> (b: bool) {
        crate::query::query(self, search, position)
    }

    fn _starts_with(&self, start: &str) -> (b: bool) {
        crate::query::starts_with(self, start)
    }

    fn _chars(&self) -> (tokens: Vec<&str>) {
        crate::split::chars(self)
    }

    fn _split<'a>(&'a self, pattern: &str) -> (tokens: Vec<&'a str>) {
        crate::split::split(self, pattern)
    }

    fn _words(&self) -> (tokens: Vec<&str>) {
        crate::split::words(self)
    }

    fn _graphemes(&self) -> (tokens: Vec<&str>) {
        crate::split::graphemes(self)
    }

    fn _code_points(&self) -> (units: Vec<u16>) {
        crate::split::code_points(self)
    }

    fn _strip_bom(&self) -> (text: String) {
        crate::strip::strip_bom(self)
    }

    fn _strip_tags(&self) -> (text: String) {
        crate::strip::strip_tags(self)
    }
}

impl Voca for String {
    open spec fn subject_text(&self) -> Seq<char> {
        self@
    }

    fn _camel_case(&self) -> (text: String) {
        crate::case::camel_case(self.as_str())
    }

    fn _capitalize(&self, rest_to_lower: bool) -> (text: String) {
        crate::case::capitalize(self.as_str(), rest_to_lower)
    }

    fn _decapitalize(&self, rest_to_lower: bool) -> (text: String) {
        crate::case::decapitalize(self.as_str(), rest_to_lower)
    }

    fn _kebab_case(&self) -> (text: String) {
        crate::case::kebab_case(self.as_str())
    }

    fn _shouty_kebab_case(&self) -> (text: String) {
        crate::case::shouty_kebab_case(self.as_str())
    }

    fn _lower_case(&self) -> (text: String) {
        crate::case::lower_case(self.as_str())
    }

    fn _pascal_case(&self) -> (text: String) {
        crate::case::pascal_case(self.as_str())
    }

    fn _snake_case(&self) -> (text: String) {
        crate::case::snake_case(self.as_str())
    }

    fn _shouty_snake_case(&self) -> (text: String) {
        crate::case::shouty_snake_case(self.as_str())
    }

    fn _swap_case(&self) -> (text: String) {
        crate::case::swap_case(self.as_str())
    }

    fn _title_case(&self) -> (text: String) {
        crate::case::title_case(self.as_str())
    }

    fn _train_case(&self) -> (text: String) {
        crate::case::train_case(self.as_str())
    }

    fn _upper_case(&self) -> (text: String) {
        crate::case::upper_case(self.as_str())
    }

    fn _lower_first(&self) -> (text: String) {
        crate::case::lower_first(self.as_str())
    }

    fn _upper_first(&self) -> (text: String) {
        crate::case::upper_first(self.as_str())
    }

    fn _after(&self, search: &str) -> (text: String) {
        crate::chop::after(self.as_str(), search)
    }

    fn _after_last(&self, search: &str) -> (text: String) {
        crate::chop::after_last(self.as_str(), search)
    }

    fn _char_at(&self, position: usize) -> (text: String) {
        crate::chop::char_at(self.as_str(), position)
    }

    fn _code_point_at(&self, position: usize) -> (units: Vec<u16>) {
        crate::chop::code_point_at(self.as_str(), position)
    }

    fn _first(&self, length: usize) -> (text: String) {
        crate::chop::first(self.as_str(), length)
    }

    fn _foreign_key(&self) -> (text: String) {
        crate::chop::foreign_key(self.as_str())
    }

    fn _grapheme_at(&self, position: usize) -> (text: String) {
        crate::chop::grapheme_at(self.as_str(), position)
    }

    fn _last(&self, length: usize) -> (text: String) {
        crate::chop::last(self.as_str(), length)
    }

    fn _prune(&self, length: usize, end: &str) -> (text: String) {
        crate::chop::prune(self.as_str(), length, end)
    }

    fn _slice(&self, start: isize, end: isize) -> (text: String) {
        crate::chop::slice(self.as_str(), start, end)
    }

    fn _substr(&self, start: usize, length: usize) -> (text: String) {
        crate::chop::substr(self.as_str(), start, length)
    }

    fn _substring(&self, start: usize, end: usize) -> (text: String) {
        crate::chop::substring(self.as_str(), start, end)
    }

    fn _truncate(&self, length: usize, end: &str) -> (text: String) {
        crate::chop::truncate(self.as_str(), length, end)
    }

    fn _max_code_point(&self) -> (text: String) {
        crate::chop::max(self.as_str())
    }

    fn _min_code_point(&self) -> (text: String) {
        crate::chop::min(self.as_str())
    }

    fn _count(&self) -> (n: usize) {
        crate::count::count(self.as_str())
    }

    fn _count_graphemes(&self) -> (n: usize) {
        crate::count::count_graphemes(self.as_str())
    }

    fn _count_substrings(&self, substring: &str) -> (n: usize) {
        crate::count::count_substrings(self.as_str(), substring)
    }

    fn _count_where<F: Fn(&str) -> bool>(&self, predicate: F) -> (n: usize) {
        crate::count::count_where(self.as_str(), predicate)
    }

    fn _count_words(&self, pattern: &str) -> (n: usize) {
        crate::count::count_words(self.as_str(), pattern)
    }

    fn _count_unique_words(&self, pattern: &str) -> (n: usize) {
        crate::count::count_unique_words(self.as_str(), pattern)
    }

    fn _escape_html(&self) -> (text: String) {
        crate::escape::escape_html(self.as_str())
    }

    fn _escape_regexp(&self) -> (text: String) {
        crate::escape::escape_regexp(self.as_str())
    }

    fn _unescape_html(&self) -> (text: String) {
        crate::escape::unescape_html(self.as_str())
    }

    fn _index_all(&self, search: &str, from_index: usize) -> (found: Vec<usize>) {
        crate::index::index_all(self.as_str(), search, from_index)
    }

    fn _index_of(&self, search: &str, from_index: usize) -> (position: i8) {
        crate::index::index_of(self.as_str(), search, from_index)
    }

    fn _last_index_of(&self, search: &str, from_index: usize) -> (position: i8) {
        crate::index::last_index_of(self.as_str(), search, from_index)
    }

    fn _search(&self, pattern: &str, from_index: usize) -> (position: i8) {
        crate::index::search(self.as_str(), pattern, from_index)
    }

    fn _expand_tabs(&self, tabsize: usize) -> (text: String) {
        crate::manipulate::expand_tabs(self.as_str(), tabsize)
    }

    fn _expand_spaces(&self, tabsize: usize) -> (text: String) {
        crate::manipulate::expand_spaces(self.as_str(), tabsize)
    }

    fn _insert(&self, to_insert: &str, position: usize) -> (text: String) {
        crate::manipulate::insert(self.as_str(), to_insert, position)
    }

    fn _latinise(&self) -> (text: String) {
        crate::manipulate::latinise(self.as_str())
    }

    fn _pad(&self, length: usize, filler: &str) -> (text: String) {
        crate::manipulate::pad(self.as_str(), length, filler)
    }

    fn _pad_left(&self, length: usize, pad: &str) -> (text: String) {
        crate::manipulate::pad_left(self.as_str(), length, pad)
    }

    fn _pad_right(&self, length: usize, pad: &str) -> (text: String) {
        crate::manipulate::pad_right(self.as_str(), length, pad)
    }

    fn _repeat(&self, times: usize) -> (text: String) {
        crate::manipulate::repeat(self.as_str(), times)
    }

    fn _replace(&self, pattern: &str, replacement: &str) -> (text: String) {
        crate::manipulate::replace(self.as_str(), pattern, replacement)
    }

    fn _replace_all(&self, pattern: &str, replacement: &str) -> (text: String) {
        crate::manipulate::replace_all(self.as_str(), pattern, replacement)
    }

    fn _reverse(&self) -> (text: String) {
        crate::manipulate::reverse(self.as_str())
    }

    fn _reverse_grapheme(&self) -> (text: String) {
        crate::manipulate::reverse_grapheme(self.as_str())
    }

    fn _slugify(&self) -> (text: String) {
        crate::manipulate::slugify(self.as_str())
    }

    fn _splice(&self, start: isize, delete_count: usize, to_add: &str) -> (text: String) {
        crate::manipulate::splice(self.as_str(), start, delete_count, to_add)
    }

    fn _trim(&self, whitespace: &str) -> (text: String) {
        crate::manipulate::trim(self.as_str(), whitespace)
    }

    fn _trim_right(&self, whitespace: &str) -> (text: String) {
        crate::manipulate::trim_right(self.as_str(), whitespace)
    }

    fn _trim_left(&self, whitespace: &str) -> (text: String) {
        crate::manipulate::trim_left(self.as_str(), whitespace)
    }

    fn _zfill(&self, length: usize) -> (text: String) {
        crate::manipulate::zfill(self.as_str(), length)
    }

    fn _tr(&self, from: &str, to: &str) -> (text: String) {
        crate::manipulate::tr(self.as_str(), from, to)
    }

    fn _word_wrap(&self, width: usize, newline: &str, indent: &str) -> (text: String) {
        crate::manipulate::word_wrap(self.as_str(), width, newline, indent)
    }

    fn _is_foreign_key(&self) -> (b: bool) {
        crate::query::is_foreign_key(self.as_str())
    }

    fn _ends_with(&self, end: &str) -> (b: bool) {
        crate::query::ends_with(self.as_str(), end)
    }

    fn _includes(&self, search: &str, position: usize) -> (b: bool) {
        crate::query::includes(self.as_str(), search, position)
    }

    fn _is_alpha(&self) -> (b: bool) {
        crate::query::is_alpha(self.as_str())
    }

    fn _is_alphadigit(&self) -> (b: bool) {
        crate::query::is_alphadigit(self.as_str())
    }

    fn _is_blank(&self) -> (b: bool) {
        crate::query::is_blank(self.as_str())
    }

    fn _is_camel_case(&self) -> (b: bool) {
        crate::query::is_camel_case(self.as_str())
    }

    fn _is_capitalize(&self) -> (b: bool) {
        crate::query::is_capitalize(self.as_str())
    }

    fn _is_decapitalize(&self) -> (b: bool) {
        crate::query::is_decapitalize(self.as_str())
    }

    fn _is_digit(&self) -> (b: bool) {
        crate::query::is_digit(self.as_str())
    }

    fn _is_empty(&self) -> (b: bool) {
        crate::query::is_empty(self.as_str())
    }

    fn _is_lowercase(&self) -> (b: bool) {
        crate::query::is_lowercase(self.as_str())
    }

    fn _is_lower_first(&self) -> (b: bool) {
        crate::query::is_lower_first(self.as_str())
    }

    fn _is_kebab_case(&self) -> (b: bool) {
        crate::query::is_kebab_case(self.as_str())
    }

    fn _is_numeric(&self) -> (b: bool) {
        crate::query::is_numeric(self.as_str())
    }

    fn _is_pascal_case(&self) -> (b: bool) {
        crate::query::is_pascal_case(self.as_str())
    }

    fn _is_shouty_kebab_case(&self) -> (b: bool) {
        crate::query::is_shouty_kebab_case(self.as_str())
    }

    fn _is_snake_case(&self) -> (b: bool) {
        crate::query::is_snake_case(self.as_str())
    }

    fn _is_shouty_snake_case(&self) -> (b: bool) {
        crate::query::is_shouty_snake_case(self.as_str())
    }

    fn _is_title(&self) -> (b: bool) {
        crate::query::is_title(self.as_str())
    }

    fn _is_train_case(&self) -> (b: bool) {
        crate::query::is_train_case(self.as_str())
    }

    fn _is_uppercase(&self) -> (b: bool) {
        crate::query::is_uppercase(self.as_str())
    }

    fn _is_upper_first(&self) -> (b: bool) {
        crate::query::is_upper_first(self.as_str())
    }

    fn _matches(&self, pattern: &str, position: usize) -> (b: bool) {
        crate::query::matches(self.as_str(), pattern, position)
    }

    fn _query(&self, search: &str, position: usize) -> (b: bool) {
        crate::query::query(self.as_str(), search, position)
    }

    fn _starts_with(&self, start: &str) -> (b: bool) {
        crate::query::starts_with(self.as_str(), start)
    }

    fn _chars(&self) -> (tokens: Vec<&str>) {
        crate::split::chars(self.as_str())
    }

    fn _split<'a>(&'a self, pattern: &str) -> (tokens: Vec<&'a str>) {
        crate::split::split(self.as_str(), pattern)
    }

    fn _words(&self) -> (tokens: Vec<&str>) {
        crate::split::words(self.as_str())
    }

    fn _graphemes(&self) -> (tokens: Vec<&str>) {
        crate::split::graphemes(self.as_str())
    }

    fn _code_points(&self) -> (units: Vec<u16>) {
        crate::split::code_points(self.as_str())
    }

    fn _strip_bom(&self) -> (text: String) {
        crate::strip::strip_bom(self.as_str())
    }

    fn _strip_tags(&self) -> (text: String) {
        crate::strip::strip_tags(self.as_str())
    }
}

} // verus!
