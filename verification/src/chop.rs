//! Extracts parts of a subject by position. Positions count scalars; a
//! position or length past the end is clamped to the end, never refused.

use crate::case::{converted, one, snake_case, WordCase};
use crate::count::grapheme_count;
use crate::split::{code_points, grapheme_clusters, graphemes, token_texts, utf16_units};
use crate::text::{
    find_first,
    find_last,
    first_occurrence,
    last_occurrence,
    matches_at,
    occurs_at,
    scalars,
};
use crate::utils::{is_plain_space, is_punctuation, plain_space, punctuation};
use vstd::prelude::*;
use vstd::string::*;

verus! {

/// The smaller of two numbers.
pub open spec fn least(a: int, b: int) -> int {
    if a <= b {
        a
    } else {
        b
    }
}

/// The scalars of `subject` from `start` up to `end`, which is not included.
fn get_chars(subject: &str, start: usize, end: usize) -> (text: String)
    requires
        start <= end <= subject@.len(),
    ensures
        text@ == subject@.subrange(start as int, end as int),
{
    String::from_str(subject.substring_char(start, end))
}

/// The scalar that `char_at` reads in a text of `scalars` scalars: the
/// last one for a position at or past the end.
pub open spec fn char_position(position: int, scalars: int) -> int {
    least(position, scalars - 1)
}

/// The scalar of `subject` at `position`, the last one if the position is
/// at or past the end; the empty text for an empty subject.
pub fn char_at(subject: &str, position: usize) -> (text: String)
    ensures
        subject@.len() == 0 ==> text@.len() == 0,
        subject@.len() > 0 ==> text@ == seq![
            subject@[char_position(position as int, subject@.len() as int)],
        ],
{
    let scalars = subject.unicode_len();
    if scalars == 0 {
        return String::new();
    }
    let at = if position < scalars {
        position
    } else {
        scalars - 1
    };
    let text = get_chars(subject, at, at + 1);
    assert(text@ =~= seq![subject@[at as int]]);
    text
}

/// The first `length` scalars of `subject`; the whole subject for a length
/// at or past its end.
pub fn first(subject: &str, length: usize) -> (text: String)
    ensures
        text@ == subject@.subrange(0, least(length as int, subject@.len() as int)),
        length >= subject@.len() ==> text@ == subject@,
{
    let scalars = subject.unicode_len();
    let the_length = if length > scalars {
        scalars
    } else {
        length
    };
    let text = get_chars(subject, 0, the_length);
    assert(length >= scalars ==> text@ =~= subject@);
    text
}

/// The grapheme cluster that `grapheme_at` reads: the last one for a
/// position at or past the end.
pub open spec fn cluster_position(position: int, clusters: int) -> int {
    if position >= clusters {
        clusters - 1
    } else {
        position
    }
}

/// The grapheme cluster of `subject` at `position`, the last one if the
/// position is at or past the end; the empty text for an empty subject.
pub fn grapheme_at(subject: &str, position: usize) -> (text: String)
    ensures
        subject@.len() == 0 ==> text@.len() == 0,
        subject@.len() > 0 ==> text@ == grapheme_clusters(subject@)[cluster_position(
            position as int,
            grapheme_count(subject@) as int,
        )],
{
    if subject.is_empty() {
        return String::new();
    }
    let tokens = graphemes(subject);
    let at = if position >= tokens.len() {
        tokens.len() - 1
    } else {
        position
    };
    assert(token_texts(tokens@)[at as int] == tokens@[at as int]@);
    String::from_str(tokens[at])
}

/// The last `length` scalars of `subject`; the whole subject for a length
/// at or past its end.
pub fn last(subject: &str, length: usize) -> (text: String)
    ensures
        text@ == subject@.subrange(
            subject@.len() - least(length as int, subject@.len() as int),
            subject@.len() as int,
        ),
        length >= subject@.len() ==> text@ == subject@,
{
    let scalars = subject.unicode_len();
    let the_length = if length >= scalars {
        scalars
    } else {
        length
    };
    let text = get_chars(subject, scalars - the_length, scalars);
    assert(length >= scalars ==> text@ =~= subject@);
    text
}

/// A bound of `slice` as a position in a text of `len` scalars: a negative
/// bound counts from the end, zero is the start for a start and the end for
/// an end, and what falls outside is clamped.
pub open spec fn slice_position(len: int, x: int, start: bool) -> int {
    if x < 0 {
        if len + x < 0 {
            0
        } else {
            len + x
        }
    } else if x == 0 {
        if start {
            0
        } else {
            len
        }
    } else if x > len {
        len
    } else {
        x
    }
}

/// What `slice` extracts from `s`: nothing when the start is not before the
/// end.
pub open spec fn slice_of(s: Seq<char>, start: int, end: int) -> Seq<char> {
    let from = slice_position(s.len() as int, start, true);
    let to = slice_position(s.len() as int, end, false);
    if from < to {
        s.subrange(from, to)
    } else {
        Seq::empty()
    }
}

fn calculate_position(length: usize, x: i128, start: bool) -> (position: usize)
    ensures
        position == slice_position(length as int, x as int, start),
{
    if x < 0 {
        if x < -(length as i128) {
            0
        } else {
            (length as i128 + x) as usize
        }
    } else if x == 0 {
        if start {
            0
        } else {
            length
        }
    } else if x > length as i128 {
        length
    } else {
        x as usize
    }
}

/// `slice` for bounds of any size.
pub(crate) fn slice_wide(subject: &str, start: i128, end: i128) -> (text: String)
    ensures
        text@ == slice_of(subject@, start as int, end as int),
{
    let length = subject.unicode_len();
    let from = calculate_position(length, start, true);
    let to = calculate_position(length, end, false);
    if from < to {
        get_chars(subject, from, to)
    } else {
        String::new()
    }
}

/// Extracts from `subject` the scalars from `start` up to `end`. Negative
/// bounds count from the end; an `end` of zero is the end of the subject.
pub fn slice(subject: &str, start: isize, end: isize) -> (text: String)
    ensures
        text@ == slice_of(subject@, start as int, end as int),
{
    slice_wide(subject, start as i128, end as i128)
}

/// What `substr` extracts from `s`: `length` scalars from `start`, or all
/// that follow `start` where `length` is zero or reaches past the end.
pub open spec fn substr_of(s: Seq<char>, start: int, length: int) -> Seq<char> {
    if start >= s.len() {
        Seq::empty()
    } else if length == 0 || start + length > s.len() {
        s.subrange(start, s.len() as int)
    } else {
        s.subrange(start, start + length)
    }
}

/// Extracts `length` scalars of `subject` from `start` on; a `length` of
/// zero extracts to the end.
pub fn substr(subject: &str, start: usize, length: usize) -> (text: String)
    ensures
        text@ == substr_of(subject@, start as int, length as int),
{
    let subject_length = subject.unicode_len();
    if start >= subject_length {
        return String::new();
    }
    let to = if length == 0 || length > subject_length - start {
        subject_length
    } else {
        start + length
    };
    get_chars(subject, start, to)
}

/// What `substring` extracts from `s`: the scalars from `start` up to
/// `end`, where an `end` of zero or past the end is the end of the text.
pub open spec fn substring_of(s: Seq<char>, start: int, end: int) -> Seq<char> {
    let to = if end == 0 || end > s.len() {
        s.len() as int
    } else {
        end
    };
    if start >= s.len() || start > to {
        Seq::empty()
    } else {
        s.subrange(start, to)
    }
}

/// Extracts the scalars of `subject` from `start` up to `end`; an `end`
/// of zero extracts to the end.
pub fn substring(subject: &str, start: usize, end: usize) -> (text: String)
    ensures
        text@ == substring_of(subject@, start as int, end as int),
{
    let subject_length = subject.unicode_len();
    if start >= subject_length {
        return String::new();
    }
    let to = if end == 0 || end > subject_length {
        subject_length
    } else {
        end
    };
    if start > to {
        return String::new();
    }
    get_chars(subject, start, to)
}

/// The three dots that stand for what was cut off.
pub open spec fn ellipsis() -> Seq<char> {
    seq!['.', '.', '.']
}

/// The suffix that marks a cut: `end`, or three dots where `end` is empty.
pub open spec fn suffix_of(end: Seq<char>) -> Seq<char> {
    if end.len() == 0 {
        ellipsis()
    } else {
        end
    }
}

/// What `truncate` makes of `s`: `s` itself where it fits into `length` or
/// the suffix does not; else its start, cut so that the suffix fits in.
pub open spec fn truncated(s: Seq<char>, length: int, end: Seq<char>) -> Seq<char> {
    let suffix = suffix_of(end);
    if length == 0 {
        Seq::empty()
    } else if s.len() <= length || length < suffix.len() {
        s
    } else {
        s.subrange(0, length - suffix.len()) + suffix
    }
}

fn suffix_text(end: &str) -> (suffix: String)
    ensures
        suffix@ == suffix_of(end@),
{
    if end.is_empty() {
        let dots = "...";
        proof {
            reveal_strlit("...");
            assert(dots@ =~= ellipsis());
        }
        String::from_str(dots)
    } else {
        String::from_str(end)
    }
}

/// Truncates `subject` to `length` scalars, the suffix `end` included;
/// three dots stand in for an empty `end`.
pub fn truncate(subject: &str, length: usize, end: &str) -> (text: String)
    ensures
        text@ == truncated(subject@, length as int, end@),
{
    if length == 0 {
        return String::new();
    }
    let suffix = suffix_text(end);
    let subject_length = subject.unicode_len();
    let end_length = suffix.as_str().unicode_len();
    if subject_length <= length || length < end_length {
        String::from_str(subject)
    } else {
        let mut text = get_chars(subject, 0, length - end_length);
        text.append(suffix.as_str());
        text
    }
}

/// `c` ends a word: it is punctuation or a plain space.
pub open spec fn is_break(c: char) -> bool {
    is_plain_space(c) || is_punctuation(c)
}

/// A run of word-ending scalars starts at `p`.
pub open spec fn starts_break(s: Seq<char>, p: int) -> bool {
    0 <= p < s.len() && is_break(s[p]) && (p == 0 || !is_break(s[p - 1]))
}

/// Where the last run of word-ending scalars starts that starts at or
/// before `limit`; zero if there is none.
pub open spec fn last_break(s: Seq<char>, limit: int) -> int
    decreases limit,
{
    if limit <= 0 {
        0
    } else if starts_break(s, limit) {
        limit
    } else {
        last_break(s, limit - 1)
    }
}

/// What `prune` makes of `s`: `s` itself where it fits into `length`;
/// nothing where not even the suffix fits; else its start up to the last
/// word end that leaves room for the suffix, and the suffix.
pub open spec fn pruned(s: Seq<char>, length: int, end: Seq<char>) -> Seq<char> {
    let suffix = suffix_of(end);
    if length == 0 {
        Seq::empty()
    } else if s.len() <= length {
        s
    } else if length < suffix.len() {
        Seq::empty()
    } else {
        s.subrange(0, last_break(s, length - suffix.len())) + suffix
    }
}

/// The last word end lies inside its limit.
pub proof fn lemma_last_break_bounds(s: Seq<char>, limit: int)
    ensures
        0 <= last_break(s, limit),
        last_break(s, limit) <= limit || limit < 0,
    decreases limit,
{
    if limit > 0 && !starts_break(s, limit) {
        lemma_last_break_bounds(s, limit - 1);
    }
}

/// Truncates `subject` to `length` scalars without cutting a word: the cut
/// is pulled back to where the last run of spaces or punctuation starts.
/// The result, suffix included, is never longer than `length`.
pub fn prune(subject: &str, length: usize, end: &str) -> (text: String)
    ensures
        text@ == pruned(subject@, length as int, end@),
        text@.len() <= length,
{
    if length == 0 {
        return String::new();
    }
    let suffix = suffix_text(end);
    let subject_chars = scalars(subject);
    let subject_length = subject_chars.len();
    let end_length = suffix.as_str().unicode_len();
    if subject_length <= length {
        return String::from_str(subject);
    }
    if length < end_length {
        return String::new();
    }
    let string_length = length - end_length;
    let mut end_position: usize = 0;
    let mut current_position: usize = 0;
    let mut in_words = true;
    while current_position <= string_length
        invariant
            subject_chars@ == subject@,
            string_length < subject_chars.len(),
            current_position <= string_length + 1,
            end_position == last_break(subject@, current_position as int - 1),
            in_words == (current_position == 0 || !is_break(subject@[current_position as int - 1])),
        decreases string_length + 1 - current_position,
    {
        let c = subject_chars[current_position];
        if plain_space(c) || punctuation(c) {
            if in_words {
                end_position = current_position;
                in_words = false;
            }
        } else {
            in_words = true;
        }
        current_position += 1;
    }
    proof {
        lemma_last_break_bounds(subject@, string_length as int);
    }
    let mut text = get_chars(subject, 0, end_position);
    text.append(suffix.as_str());
    text
}

/// What follows in `s` the occurrence of `search` at position `at`:
/// nothing for an empty text and where `search` occurs nowhere (`at` is
/// -1), `s` whole for an empty `search`, else all that stands after the
/// occurrence.
pub open spec fn after_match(s: Seq<char>, search: Seq<char>, at: int) -> Seq<char> {
    if s.len() == 0 {
        Seq::empty()
    } else if search.len() == 0 {
        s
    } else if at < 0 {
        Seq::empty()
    } else {
        s.subrange(at + search.len(), s.len() as int)
    }
}

fn return_after_or_after_last(subject: &str, search: &str, last: bool) -> (text: String)
    ensures
        !last ==> text@ == after_match(subject@, search@, first_occurrence(subject@, search@, 0)),
        last ==> text@ == after_match(
            subject@,
            search@,
            last_occurrence(subject@, search@, 0, subject@.len() as int),
        ),
{
    if subject.is_empty() {
        return String::new();
    }
    if search.is_empty() {
        return String::from_str(subject);
    }
    let s = scalars(subject);
    let pattern = scalars(search);
    let found = if last {
        find_last(&s, &pattern, 0)
    } else {
        find_first(&s, &pattern, 0)
    };
    match found {
        Some(at) => {
            assert(at + pattern.len() <= s.len());
            get_chars(subject, at + pattern.len(), s.len())
        },
        None => String::new(),
    }
}

/// Everything in `subject` after the first occurrence of `search`; nothing
/// where `search` does not occur.
pub fn after(subject: &str, search: &str) -> (text: String)
    ensures
        text@ == after_match(subject@, search@, first_occurrence(subject@, search@, 0)),
{
    return_after_or_after_last(subject, search, false)
}

/// Everything in `subject` after the last occurrence of `search`; nothing
/// where `search` does not occur.
pub fn after_last(subject: &str, search: &str) -> (text: String)
    ensures
        text@ == after_match(
            subject@,
            search@,
            last_occurrence(subject@, search@, 0, subject@.len() as int),
        ),
{
    return_after_or_after_last(subject, search, true)
}

/// The UTF-16 code units of the grapheme cluster of `subject` at
/// `position`, the last cluster if the position is at or past the end.
pub fn code_point_at(subject: &str, position: usize) -> (units: Vec<u16>)
    ensures
        subject@.len() == 0 ==> units@.len() == 0,
        subject@.len() > 0 ==> units@ == utf16_units(
            grapheme_clusters(subject@)[cluster_position(
                position as int,
                grapheme_count(subject@) as int,
            )],
        ),
{
    if subject.is_empty() {
        return Vec::new();
    }
    let grapheme = grapheme_at(subject, position);
    code_points(grapheme.as_str())
}

/// What is left of `s` from `start` on after the last `::`; the separators
/// are taken from the left, from `i` on, and do not overlap.
pub open spec fn last_segment(s: Seq<char>, start: int, i: int) -> Seq<char>
    decreases s.len() - i,
{
    if i < 0 || i + 2 > s.len() {
        s.subrange(start, s.len() as int)
    } else if s[i] == ':' && s[i + 1] == ':' {
        last_segment(s, i + 2, i + 2)
    } else {
        last_segment(s, start, i + 1)
    }
}

/// The three scalars that end a foreign key.
pub open spec fn id_suffix() -> Seq<char> {
    seq!['_', 'i', 'd']
}

/// `snake` with `_id` at its end, added where it does not end so.
pub open spec fn with_id(snake: Seq<char>) -> Seq<char> {
    if occurs_at(snake, id_suffix(), snake.len() - 3) {
        snake
    } else {
        snake + id_suffix()
    }
}

/// What `foreign_key` makes of `s`: the snake case of what follows the last
/// `::`, with `_id` at its end.
pub open spec fn foreign_key_of(s: Seq<char>) -> Seq<char> {
    if s.len() == 0 {
        Seq::empty()
    } else {
        with_id(converted(last_segment(s, 0, 0), WordCase::Lower, one('_')))
    }
}

fn safe_string(subject: &str) -> (segment: &str)
    ensures
        segment@ == last_segment(subject@, 0, 0),
{
    let s = scalars(subject);
    let n = s.len();
    let mut start: usize = 0;
    let mut i: usize = 0;
    while i < n && n - i >= 2
        invariant
            s@ == subject@,
            n == s@.len(),
            start <= i <= n,
            last_segment(subject@, 0, 0) == last_segment(subject@, start as int, i as int),
        decreases n - i,
    {
        if s[i] == ':' && s[i + 1] == ':' {
            i += 2;
            start = i;
        } else {
            i += 1;
        }
    }
    subject.substring_char(start, n)
}

/// Converts `subject` to a foreign key: the name after the last `::` in
/// snake case, ending in `_id`.
pub fn foreign_key(subject: &str) -> (text: String)
    ensures
        text@ == foreign_key_of(subject@),
{
    if subject.is_empty() {
        return String::new();
    }
    let mut snake = snake_case(safe_string(subject));
    let suffix = "_id";
    proof {
        reveal_strlit("_id");
        assert(suffix@ =~= id_suffix());
    }
    let cs = scalars(snake.as_str());
    let id = scalars(suffix);
    if cs.len() >= 3 && matches_at(&cs, &id, cs.len() - 3) {
        snake
    } else {
        snake.append(suffix);
        snake
    }
}

/// The digit of base sixteen for `n`, in upper case.
pub open spec fn hex_digit(n: int) -> char {
    if n < 10 {
        ('0' as int + n) as char
    } else {
        ('A' as int + n - 10) as char
    }
}

/// The text that stands for one UTF-16 code unit: the scalar itself, or an
/// escape for a backslash, a control character or a surrogate.
pub open spec fn unit_text(unit: u16) -> Seq<char> {
    if unit == 0x5C {
        seq!['\\', '\\']
    } else if unit == 0x09 {
        seq!['\\', 't']
    } else if unit == 0x0A {
        seq!['\\', 'n']
    } else if unit == 0x0D {
        seq!['\\', 'r']
    } else if unit < 0x20 {
        seq!['\\', 'x', hex_digit(unit as int / 16), hex_digit(unit as int % 16)]
    } else if 0xD800 <= unit <= 0xDFFF {
        seq![
            '\\',
            'u',
            '0',
            '0',
            hex_digit(unit as int / 4096),
            hex_digit(unit as int / 256 % 16),
            hex_digit(unit as int / 16 % 16),
            hex_digit(unit as int % 16),
        ]
    } else {
        seq![unit as char]
    }
}

/// Trusted: `encode_u16` of stfu8 on a single code unit. A backslash is
/// doubled; tab, line feed and carriage return become `\t`, `\n` and `\r`;
/// another unit below 0x20 becomes `\x` and two hex digits; a surrogate,
/// which stands alone here, becomes `\u` and six hex digits; any other unit
/// is the scalar of that number.
#[verifier::external_body]
fn encode_unit(unit: u16) -> (text: String)
    ensures
        text@ == unit_text(unit),
{
    stfu8::encode_u16(&[unit])
}

/// The smallest (or, with `largest`, the largest) of the first `n` units.
pub open spec fn extreme_unit(units: Seq<u16>, largest: bool, n: int) -> u16
    decreases n,
{
    if n <= 1 {
        units[0]
    } else {
        let rest = extreme_unit(units, largest, n - 1);
        if (largest && units[n - 1] >= rest) || (!largest && units[n - 1] < rest) {
            units[n - 1]
        } else {
            rest
        }
    }
}

/// The text of the smallest or largest code unit of a text; nothing for a
/// text without units.
pub open spec fn extreme_text(units: Seq<u16>, largest: bool) -> Seq<char> {
    if units.len() == 0 {
        Seq::empty()
    } else {
        unit_text(extreme_unit(units, largest, units.len() as int))
    }
}

fn min_max(subject: &str, largest: bool) -> (text: String)
    ensures
        text@ == extreme_text(utf16_units(subject@), largest),
{
    let units = code_points(subject);
    if units.len() == 0 {
        return String::new();
    }
    let mut best: u16 = units[0];
    let mut i: usize = 1;
    while i < units.len()
        invariant
            1 <= i <= units@.len(),
            best == extreme_unit(units@, largest, i as int),
        decreases units@.len() - i,
    {
        let unit = units[i];
        if (largest && unit >= best) || (!largest && unit < best) {
            best = unit;
        }
        i += 1;
    }
    encode_unit(best)
}

/// The text of the largest UTF-16 code unit of `subject`.
pub fn max(subject: &str) -> (text: String)
    ensures
        text@ == extreme_text(utf16_units(subject@), true),
{
    min_max(subject, true)
}

/// The text of the smallest UTF-16 code unit of `subject`.
pub fn min(subject: &str) -> (text: String)
    ensures
        text@ == extreme_text(utf16_units(subject@), false),
{
    min_max(subject, false)
}

} // verus!
