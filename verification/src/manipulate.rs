//! Changes a subject: pads, trims, repeats, replaces, reverses, splices,
//! translates and wraps it.

use crate::chop::{least, prune, pruned, slice_of, slice_wide};
use crate::count::{count_graphemes, grapheme_count};
use crate::scalar::{lower_text, text_lowercase};
use crate::split::{
    grapheme_clusters,
    grapheme_tokens,
    graphemes,
    token_texts,
    unicode_word_segments,
    words,
    words_of,
};
use crate::text::{
    byte_length,
    concat,
    cycle,
    cyclic,
    find_first,
    first_occurrence,
    holds,
    lemma_replaced_long_pattern,
    matches_at,
    occurs_at,
    repeat_scalars,
    repeated,
    replace_every,
    replaced,
    scalars,
    text_of,
    utf8_length,
};
use crate::utils::{
    is_punctuation,
    is_white_space,
    punctuation,
    unidecode,
    unidecoded,
    white_space,
};
use vstd::prelude::*;
use vstd::string::*;

verus! {

/// What `expand_spaces` makes of `s`: every run of `tabsize` spaces becomes
/// a tab; a `tabsize` of zero changes nothing.
pub open spec fn spaces_expanded(s: Seq<char>, tabsize: int) -> Seq<char> {
    if tabsize <= 0 {
        s
    } else {
        replaced(s, repeated(seq![' '], tabsize), seq!['\t'])
    }
}

/// Replaces every run of `tabsize` spaces in `subject` by a tab.
pub fn expand_spaces(subject: &str, tabsize: usize) -> (text: String)
    ensures
        text@ == spaces_expanded(subject@, tabsize as int),
{
    let s = scalars(subject);
    if tabsize == 0 {
        return String::from_str(subject);
    }
    if tabsize > s.len() {
        proof {
            lemma_repeated_length(seq![' '], tabsize as int);
            assert(tabsize * 1 == tabsize) by (nonlinear_arith);
            lemma_replaced_long_pattern(s@, repeated(seq![' '], tabsize as int), seq!['\t'], 0);
            assert(s@.subrange(0, s@.len() as int) =~= s@);
        }
        return String::from_str(subject);
    }
    let mut space: Vec<char> = Vec::new();
    space.push(' ');
    let mut tab: Vec<char> = Vec::new();
    tab.push('\t');
    assert(space@ =~= seq![' ']);
    assert(tab@ =~= seq!['\t']);
    let pattern = repeat_scalars(&space, tabsize);
    let out = replace_every(&s, &pattern, &tab);
    text_of(&out, 0, out.len())
}

/// A text written `n` times is `n` times as long.
pub proof fn lemma_repeated_length(s: Seq<char>, n: int)
    requires
        n >= 0,
    ensures
        repeated(s, n).len() == n * s.len(),
    decreases n,
{
    if n > 0 {
        lemma_repeated_length(s, n - 1);
        assert(n * s.len() == (n - 1) * s.len() + s.len()) by (nonlinear_arith);
    } else {
        assert(0 * s.len() == 0) by (nonlinear_arith);
    }
}

/// Replaces every tab in `subject` by `tabsize` spaces.
pub fn expand_tabs(subject: &str, tabsize: usize) -> (text: String)
    ensures
        text@ == replaced(subject@, seq!['\t'], repeated(seq![' '], tabsize as int)),
{
    let s = scalars(subject);
    let mut space: Vec<char> = Vec::new();
    space.push(' ');
    let mut tab: Vec<char> = Vec::new();
    tab.push('\t');
    assert(space@ =~= seq![' ']);
    assert(tab@ =~= seq!['\t']);
    let spaces = repeat_scalars(&space, tabsize);
    let out = replace_every(&s, &tab, &spaces);
    text_of(&out, 0, out.len())
}

/// `s` with `addition` put in before position `position`, or at the end
/// where the position lies past it.
pub open spec fn inserted(s: Seq<char>, addition: Seq<char>, position: int) -> Seq<char> {
    let at = least(position, s.len() as int);
    s.subrange(0, at) + addition + s.subrange(at, s.len() as int)
}

/// Inserts `to_insert` into `subject` at `position`. An empty subject stays
/// empty.
pub fn insert(subject: &str, to_insert: &str, position: usize) -> (text: String)
    ensures
        subject@.len() == 0 ==> text@ == subject@,
        subject@.len() > 0 ==> text@ == inserted(subject@, to_insert@, position as int),
{
    let length = subject.unicode_len();
    if length == 0 || to_insert.is_empty() {
        assert(length > 0 ==> subject@.subrange(0, least(position as int, length as int))
            + to_insert@ + subject@.subrange(least(position as int, length as int), length as int)
            =~= subject@);
        return String::from_str(subject);
    }
    let at = if position > length {
        length
    } else {
        position
    };
    let mut text = String::from_str(subject.substring_char(0, at));
    text.append(to_insert);
    text.append(subject.substring_char(at, length));
    text
}

/// Latinises `subject`: every scalar is replaced by the ASCII text that
/// stands for it.
pub fn latinise(subject: &str) -> (text: String)
    ensures
        text@ == unidecoded(subject@),
{
    unidecode(subject)
}

/// Repeats `subject` `times` times.
pub fn repeat(subject: &str, times: usize) -> (text: String)
    ensures
        text@ == repeated(subject@, times as int),
{
    let s = scalars(subject);
    if s.len() == 0 {
        proof {
            lemma_repeated_length(subject@, times as int);
            assert(times * 0 == 0) by (nonlinear_arith);
            assert(repeated(subject@, times as int) =~= Seq::<char>::empty());
        }
        return String::new();
    }
    let out = repeat_scalars(&s, times);
    text_of(&out, 0, out.len())
}

/// Replaces every occurrence of `pattern` in `subject` by `replacement`,
/// taking the occurrences from the left. An empty pattern occurs nowhere.
pub fn replace_all(subject: &str, pattern: &str, replacement: &str) -> (text: String)
    ensures
        text@ == replaced(subject@, pattern@, replacement@),
{
    let s = scalars(subject);
    let p = scalars(pattern);
    let r = scalars(replacement);
    let out = replace_every(&s, &p, &r);
    text_of(&out, 0, out.len())
}

/// Reverses the scalars of `subject`.
pub fn reverse(subject: &str) -> (text: String)
    ensures
        text@ == subject@.reverse(),
{
    let s = scalars(subject);
    let n = s.len();
    let mut text = String::new();
    let mut i: usize = 0;
    while i < n
        invariant
            n == s@.len(),
            i <= n,
            text@ == s@.reverse().subrange(0, i as int),
        decreases n - i,
    {
        crate::text::push_scalar(&mut text, s[n - 1 - i]);
        assert(text@ =~= s@.reverse().subrange(0, i as int + 1));
        i += 1;
    }
    assert(s@.reverse().subrange(0, n as int) =~= s@.reverse());
    text
}

/// Reverses the grapheme clusters of `subject`, so that marks stay with
/// their base.
pub fn reverse_grapheme(subject: &str) -> (text: String)
    ensures
        subject@.len() == 0 ==> text@.len() == 0,
        subject@.len() > 0 ==> text@ == concat(grapheme_clusters(subject@).reverse()),
{
    if subject.is_empty() {
        return String::new();
    }
    let tokens = graphemes(subject);
    reverse_tokens(&tokens)
}

/// Lays the tokens end to end, the last one first.
pub fn reverse_tokens(tokens: &Vec<&str>) -> (text: String)
    ensures
        text@ == concat(token_texts(tokens@).reverse()),
{
    let ghost turned = token_texts(tokens@).reverse();
    let n = tokens.len();
    let mut text = String::new();
    let mut i: usize = 0;
    while i < n
        invariant
            n == tokens@.len(),
            i <= n,
            turned == token_texts(tokens@).reverse(),
            text@ == concat(turned.subrange(0, i as int)),
        decreases n - i,
    {
        text.append(tokens[n - 1 - i]);
        proof {
            let upto = turned.subrange(0, i as int + 1);
            assert(upto.drop_last() =~= turned.subrange(0, i as int));
            assert(upto.last() == tokens@[n - 1 - i]@);
        }
        i += 1;
    }
    assert(turned.subrange(0, n as int) =~= turned);
    text
}

/// `c` is trimmed away: it is white space where no set is given, else it
/// is one of the scalars of the set.
pub open spec fn strips(c: char, set: Seq<char>) -> bool {
    if set.len() == 0 {
        is_white_space(c)
    } else {
        set.contains(c)
    }
}

/// Where the scalars end that are trimmed away from `i` on.
pub open spec fn leading(s: Seq<char>, set: Seq<char>, i: int) -> int
    decreases s.len() - i,
{
    if 0 <= i < s.len() && strips(s[i], set) {
        leading(s, set, i + 1)
    } else {
        i
    }
}

/// Where the scalars start that are trimmed away up to `j`.
pub open spec fn trailing(s: Seq<char>, set: Seq<char>, j: int) -> int
    decreases j,
{
    if 0 < j <= s.len() && strips(s[j - 1], set) {
        trailing(s, set, j - 1)
    } else {
        j
    }
}

/// `s` without the scalars to trim at its start (`left`) and at its end
/// (`right`).
pub open spec fn trimmed(s: Seq<char>, set: Seq<char>, left: bool, right: bool) -> Seq<char> {
    let from = if left {
        leading(s, set, 0)
    } else {
        0
    };
    let to = if right {
        trailing(s, set, s.len() as int)
    } else {
        s.len() as int
    };
    if from < to {
        s.subrange(from, to)
    } else {
        Seq::empty()
    }
}

fn is_stripped(c: char, set: &Vec<char>) -> (b: bool)
    ensures
        b == strips(c, set@),
{
    if set.len() == 0 {
        white_space(c)
    } else {
        holds(set, c)
    }
}

fn trim_left_or_right(subject: &str, whitespace: &str, to_left: bool, to_right: bool) -> (text:
    String)
    ensures
        text@ == trimmed(subject@, whitespace@, to_left, to_right),
{
    let s = scalars(subject);
    let set = scalars(whitespace);
    let n = s.len();
    let mut from: usize = 0;
    if to_left {
        while from < n && is_stripped(s[from], &set)
            invariant
                n == s@.len(),
                from <= n,
                leading(s@, set@, 0) == leading(s@, set@, from as int),
            decreases n - from,
        {
            from += 1;
        }
    }
    let mut to: usize = n;
    if to_right {
        while to > 0 && is_stripped(s[to - 1], &set)
            invariant
                n == s@.len(),
                to <= n,
                trailing(s@, set@, n as int) == trailing(s@, set@, to as int),
            decreases to,
        {
            to -= 1;
        }
    }
    if from < to {
        text_of(&s, from, to)
    } else {
        String::new()
    }
}

/// Removes white space, or the scalars of `whitespace` where it is not
/// empty, from both ends of `subject`.
pub fn trim(subject: &str, whitespace: &str) -> (text: String)
    ensures
        text@ == trimmed(subject@, whitespace@, true, true),
{
    trim_left_or_right(subject, whitespace, true, true)
}

/// Removes white space, or the scalars of `whitespace` where it is not
/// empty, from the start of `subject`.
pub fn trim_left(subject: &str, whitespace: &str) -> (text: String)
    ensures
        text@ == trimmed(subject@, whitespace@, true, false),
{
    trim_left_or_right(subject, whitespace, true, false)
}

/// Removes white space, or the scalars of `whitespace` where it is not
/// empty, from the end of `subject`.
pub fn trim_right(subject: &str, whitespace: &str) -> (text: String)
    ensures
        text@ == trimmed(subject@, whitespace@, false, true),
{
    trim_left_or_right(subject, whitespace, false, true)
}

/// `s` after the first `n` symbols of `from` were replaced, one after the
/// other, by the symbols of `to` that stand at the same place; a symbol
/// without a partner is removed.
pub open spec fn translated(s: Seq<char>, from: Seq<Seq<char>>, to: Seq<Seq<char>>, n: int) -> Seq<
    char,
>
    decreases n,
{
    if n <= 0 {
        s
    } else {
        replaced(
            translated(s, from, to, n - 1),
            from[n - 1],
            if n - 1 < to.len() {
                to[n - 1]
            } else {
                Seq::empty()
            },
        )
    }
}

/// Replaces in `subject` each symbol of `from_symbols` by the symbol of
/// `to_symbols` at the same place, one symbol after the other.
pub fn translate(subject: &str, from_symbols: &Vec<&str>, to_symbols: &Vec<&str>) -> (text: String)
    ensures
        text@ == translated(
            subject@,
            token_texts(from_symbols@),
            token_texts(to_symbols@),
            from_symbols@.len() as int,
        ),
{
    let ghost from = token_texts(from_symbols@);
    let ghost to = token_texts(to_symbols@);
    let mut result = scalars(subject);
    let mut i: usize = 0;
    while i < from_symbols.len()
        invariant
            i <= from_symbols@.len(),
            from == token_texts(from_symbols@),
            to == token_texts(to_symbols@),
            result@ == translated(subject@, from, to, i as int),
        decreases from_symbols@.len() - i,
    {
        let pattern = scalars(from_symbols[i]);
        let replacement = if i < to_symbols.len() {
            scalars(to_symbols[i])
        } else {
            Vec::new()
        };
        assert(from[i as int] == pattern@);
        assert(i < to.len() ==> to[i as int] == replacement@);
        result = replace_every(&result, &pattern, &replacement);
        i += 1;
    }
    text_of(&result, 0, result.len())
}

/// Translates the grapheme clusters of `from` in `subject` into those of
/// `to`.
pub fn tr(subject: &str, from: &str, to: &str) -> (text: String)
    ensures
        from@.len() == 0 || subject@.len() == 0 ==> text@ == subject@,
        from@.len() > 0 && subject@.len() > 0 ==> text@ == translated(
            subject@,
            grapheme_clusters(from@),
            grapheme_tokens(to@),
            grapheme_clusters(from@).len() as int,
        ),
{
    if from.is_empty() || subject.is_empty() {
        return String::from_str(subject);
    }
    let from_symbols = graphemes(from);
    let to_symbols = graphemes(to);
    translate(subject, &from_symbols, &to_symbols)
}

/// Where the padding of a text goes.
#[derive(Clone, Copy, PartialEq, Eq, Structural, Debug)]
pub enum PadMode {
    /// Half before the text and half after it.
    Both,
    /// Before the text.
    Left,
    /// After the text.
    Right,
}

/// The text that pads: `pad`, or a space where `pad` is empty.
pub open spec fn pad_unit(pad: Seq<char>) -> Seq<char> {
    if pad.len() == 0 {
        seq![' ']
    } else {
        pad
    }
}

/// How many scalars of padding are at hand for a gap of `width`: the unit
/// is written once more than its length in bytes goes into the gap.
pub open spec fn pad_supply(width: int, unit: Seq<char>) -> int {
    (width / utf8_length(unit, unit.len() as int) + 1) * unit.len()
}

/// `s`, a text of `clusters` grapheme clusters, padded to `length` of them.
/// A text that is empty or long enough stays as it is. Padding on one side
/// fills the gap as far as the supply goes; padding on both sides puts half
/// of the gap before the text, rounded down, and after it the same and one
/// more scalar where the gap is odd.
pub open spec fn padded(s: Seq<char>, clusters: int, length: int, pad: Seq<char>, mode: PadMode) -> Seq<
    char,
> {
    let unit = pad_unit(pad);
    let width = length - clusters;
    let supply = pad_supply(width, unit);
    if clusters == 0 {
        Seq::empty()
    } else if clusters >= length {
        s
    } else {
        match mode {
            PadMode::Left => cyclic(unit, least(width, supply)) + s,
            PadMode::Right => s + cyclic(unit, least(width, supply)),
            PadMode::Both => {
                let middle = if supply < width {
                    supply / 2
                } else {
                    width / 2
                };
                cyclic(unit, middle) + s + cyclic(unit, middle + width % 2)
            },
        }
    }
}

/// Padding with a unit of one-byte scalars fills the gap: the padded text
/// has as many scalars more than the text as the text has grapheme clusters
/// fewer than `length`.
pub proof fn lemma_padding_fills_the_gap(
    s: Seq<char>,
    clusters: int,
    length: int,
    pad: Seq<char>,
    mode: PadMode,
)
    requires
        0 < clusters < length,
        utf8_length(pad_unit(pad), pad_unit(pad).len() as int) == pad_unit(pad).len(),
    ensures
        padded(s, clusters, length, pad, mode).len() == s.len() + (length - clusters),
{
    let unit = pad_unit(pad);
    let width = length - clusters;
    let n = unit.len() as int;
    let supply = pad_supply(width, unit);
    assert(n >= 1);
    assert(supply > width) by (nonlinear_arith)
        requires
            supply == (width / n + 1) * n,
            n >= 1,
            width >= 0,
    ;
    assert(width / 2 + (width / 2 + width % 2) == width);
}

fn supply_of(width: usize, unit: &Vec<char>) -> (supply: u128)
    requires
        unit@.len() > 0,
    ensures
        supply == pad_supply(width as int, unit@),
        supply >= 1,
{
    let bytes = byte_length(unit);
    let times: u128 = width as u128 / bytes;
    assert((times + 1) * unit.len() <= u128::MAX) by (nonlinear_arith)
        requires
            times <= usize::MAX,
            unit.len() <= usize::MAX,
            usize::MAX <= u64::MAX,
    ;
    let supply: u128 = (times + 1) * (unit.len() as u128);
    assert(supply >= 1) by (nonlinear_arith)
        requires
            supply == (times + 1) * unit.len(),
            unit.len() >= 1,
    ;
    supply
}

fn pad_left_right(subject: &str, clusters: usize, length: usize, pad: &str, mode: PadMode) -> (text:
    String)
    requires
        0 < clusters < length,
    ensures
        text@ == padded(subject@, clusters as int, length as int, pad@, mode),
{
    let width = length - clusters;
    let mut unit = scalars(pad);
    if unit.len() == 0 {
        unit.push(' ');
        assert(unit@ =~= seq![' ']);
    }
    let supply = supply_of(width, &unit);
    let mut text = String::new();
    match mode {
        PadMode::Left => {
            let count = if (width as u128) < supply {
                width
            } else {
                supply as usize
            };
            let padding = cycle(&unit, count);
            text = text_of(&padding, 0, padding.len());
            text.append(subject);
        },
        PadMode::Right => {
            let count = if (width as u128) < supply {
                width
            } else {
                supply as usize
            };
            let padding = cycle(&unit, count);
            text.append(subject);
            let end = text_of(&padding, 0, padding.len());
            text.append(end.as_str());
        },
        PadMode::Both => {
            let middle = if supply < width as u128 {
                (supply / 2) as usize
            } else {
                width / 2
            };
            let add: usize = if width % 2 != 0 {
                1
            } else {
                0
            };
            let before = cycle(&unit, middle);
            let after = cycle(&unit, middle + add);
            text = text_of(&before, 0, before.len());
            text.append(subject);
            let end = text_of(&after, 0, after.len());
            text.append(end.as_str());
        },
    }
    text
}

fn pad_to(subject: &str, length: usize, pad: &str, mode: PadMode) -> (text: String)
    ensures
        text@ == padded(subject@, grapheme_count(subject@) as int, length as int, pad@, mode),
{
    let clusters = count_graphemes(subject);
    if clusters == 0 {
        String::new()
    } else if clusters >= length {
        String::from_str(subject)
    } else {
        pad_left_right(subject, clusters, length, pad, mode)
    }
}

/// Pads `subject` on both sides to `length` grapheme clusters.
pub fn pad(subject: &str, length: usize, filler: &str) -> (text: String)
    ensures
        text@ == padded(
            subject@,
            grapheme_count(subject@) as int,
            length as int,
            filler@,
            PadMode::Both,
        ),
{
    pad_to(subject, length, filler, PadMode::Both)
}

/// Pads `subject` on the left to `length` grapheme clusters.
pub fn pad_left(subject: &str, length: usize, pad: &str) -> (text: String)
    ensures
        text@ == padded(
            subject@,
            grapheme_count(subject@) as int,
            length as int,
            pad@,
            PadMode::Left,
        ),
{
    pad_to(subject, length, pad, PadMode::Left)
}

/// Pads `subject` on the right to `length` grapheme clusters.
pub fn pad_right(subject: &str, length: usize, pad: &str) -> (text: String)
    ensures
        text@ == padded(
            subject@,
            grapheme_count(subject@) as int,
            length as int,
            pad@,
            PadMode::Right,
        ),
{
    pad_to(subject, length, pad, PadMode::Right)
}

/// Pads `subject` on the left with zeros to `length` grapheme clusters.
pub fn zfill(subject: &str, length: usize) -> (text: String)
    ensures
        text@ == padded(
            subject@,
            grapheme_count(subject@) as int,
            length as int,
            seq!['0'],
            PadMode::Left,
        ),
{
    let zero = "0";
    proof {
        reveal_strlit("0");
        assert(zero@ =~= seq!['0']);
    }
    pad_to(subject, length, zero, PadMode::Left)
}

/// Where `splice` starts in a text of `len` scalars: a negative start
/// counts from the end, and what falls outside is clamped.
pub open spec fn splice_start(start: int, len: int) -> int {
    if start < 0 {
        if -start > len {
            0
        } else {
            len + start
        }
    } else if start >= len {
        len
    } else {
        start
    }
}

/// What `splice` makes of `s`. Without a deletion, `to_add` is put in at
/// the start position. With one, the result is what stands before the
/// start position, then `to_add`, then what stands after the deletion.
pub open spec fn spliced(s: Seq<char>, start: int, delete_count: int, to_add: Seq<char>) -> Seq<
    char,
> {
    let at = splice_start(start, s.len() as int);
    let end = if delete_count > s.len() - at {
        s.len() as int
    } else {
        at + delete_count
    };
    if delete_count == 0 && to_add.len() == 0 {
        s
    } else {
        s.subrange(0, at) + to_add + s.subrange(end, s.len() as int)
    }
}

fn calculate_start_position(start: i128, subject_len: usize) -> (at: usize)
    ensures
        at == splice_start(start as int, subject_len as int),
{
    if start < 0 {
        if start < -(subject_len as i128) {
            0
        } else {
            (subject_len as i128 + start) as usize
        }
    } else if start >= subject_len as i128 {
        subject_len
    } else {
        start as usize
    }
}

fn splice_wide(subject: &str, start: i128, delete_count: usize, to_add: &str) -> (text: String)
    ensures
        text@ == spliced(subject@, start as int, delete_count as int, to_add@),
{
    let subject_len = subject.unicode_len();
    let at = calculate_start_position(start, subject_len);
    if delete_count == 0 && to_add.is_empty() {
        return String::from_str(subject);
    }
    let end = if delete_count > subject_len - at {
        subject_len
    } else {
        at + delete_count
    };
    let mut text = String::from_str(subject.substring_char(0, at));
    text.append(to_add);
    text.append(subject.substring_char(end, subject_len));
    text
}

/// Deletes `delete_count` scalars of `subject` from `start` on and puts
/// `to_add` in their place. A negative `start` counts from the end.
pub fn splice(subject: &str, start: isize, delete_count: usize, to_add: &str) -> (text: String)
    ensures
        text@ == spliced(subject@, start as int, delete_count as int, to_add@),
{
    splice_wide(subject, start as i128, delete_count, to_add)
}

/// What `replace` makes of `s`: its first occurrence of `pattern` gives
/// way to `replacement`. A text without an occurrence, and any text for an
/// empty pattern, stays as it is.
pub open spec fn first_replaced(s: Seq<char>, pattern: Seq<char>, replacement: Seq<char>) -> Seq<
    char,
> {
    let at = first_occurrence(s, pattern, 0);
    if pattern.len() == 0 || at < 0 {
        s
    } else {
        s.subrange(0, at) + replacement + s.subrange(at + pattern.len(), s.len() as int)
    }
}

/// Replaces the first occurrence of `pattern` in `subject` by
/// `replacement`.
pub fn replace(subject: &str, pattern: &str, replacement: &str) -> (text: String)
    ensures
        text@ == first_replaced(subject@, pattern@, replacement@),
{
    if pattern.is_empty() {
        return String::from_str(subject);
    }
    let s = scalars(subject);
    let p = scalars(pattern);
    match find_first(&s, &p, 0) {
        None => String::from_str(subject),
        Some(at) => {
            assert(at + p.len() <= s.len());
            let mut text = String::from_str(subject.substring_char(0, at));
            text.append(replacement);
            text.append(subject.substring_char(at + p.len(), s.len()));
            text
        },
    }
}

/// The text whose words make the slug of `s`: `s` latinised, without
/// apostrophes, in lower case and trimmed.
pub open spec fn slug_source(s: Seq<char>) -> Seq<char> {
    trimmed(
        text_lowercase(replaced(unidecoded(s), seq!['\''], Seq::empty())),
        Seq::empty(),
        true,
        true,
    )
}

/// Slugifies `subject`: the words of its latinised lower case form, joined
/// by `-`.
pub fn slugify(subject: &str) -> (text: String)
    ensures
        subject@.len() == 0 ==> text@.len() == 0,
        subject@.len() > 0 ==> text@ == crate::text::joined(
            words_of(unicode_word_segments(slug_source(subject@))),
            seq!['-'],
        ),
{
    if subject.is_empty() {
        return String::new();
    }
    let latin = unidecode(subject);
    let apostrophe = "'";
    let nothing = "";
    let hyphen = "-";
    proof {
        reveal_strlit("'");
        reveal_strlit("");
        reveal_strlit("-");
        assert(apostrophe@ =~= seq!['\'']);
        assert(nothing@ =~= Seq::<char>::empty());
        assert(hyphen@ =~= seq!['-']);
    }
    let bare = replace_all(latin.as_str(), apostrophe, nothing);
    let lower = lower_text(bare.as_str());
    let source = trim(lower.as_str(), nothing);
    let tokens = words(source.as_str());
    crate::split::join(&tokens, hyphen)
}

/// `s` without the white space at its ends.
pub open spec fn white_trimmed(s: Seq<char>) -> Seq<char> {
    trimmed(s, Seq::empty(), true, true)
}

/// The line that `string` starts with: what `prune` keeps of it within
/// `width` and one scalar for the mark `+`, without that mark and without
/// white space at its ends.
pub open spec fn line_start(string: Seq<char>, width: int) -> Seq<char> {
    white_trimmed(slice_of(pruned(string, width + 1, seq!['+']), 0, -1))
}

/// What is left of `string` once `cut` scalars were taken from its start,
/// without white space at its ends.
pub open spec fn rest_after(string: Seq<char>, cut: int) -> Seq<char> {
    white_trimmed(slice_of(string, cut, 0))
}

/// The line `part` and the text `string` that follows it, after the
/// punctuation that `string` starts with has moved to the end of the line,
/// one scalar at a time, while the line has fewer than `width` grapheme
/// clusters.
pub open spec fn absorbed(part: Seq<char>, string: Seq<char>, width: int) -> (
    Seq<char>,
    Seq<char>,
)
    decreases string.len(),
{
    if grapheme_count(part) < width && string.len() > 0 && is_punctuation(string[0])
        && rest_after(string, 1).len() < string.len() {
        absorbed(part.push(string[0]), rest_after(string, 1), width)
    } else {
        (part, string)
    }
}

/// Moving punctuation to the line leaves no more text than there was.
pub proof fn lemma_absorbed_shorter(part: Seq<char>, string: Seq<char>, width: int)
    ensures
        absorbed(part, string, width).1.len() <= string.len(),
    decreases string.len(),
{
    if grapheme_count(part) < width && string.len() > 0 && is_punctuation(string[0])
        && rest_after(string, 1).len() < string.len() {
        lemma_absorbed_shorter(part.push(string[0]), rest_after(string, 1), width);
    }
}

/// The text wrapped so far, `result`, followed by the wrapping of `string`.
/// `clusters` is the number of grapheme clusters that decides whether
/// `string` is wrapped any further: that of the text as it was before
/// punctuation moved to the last line. Each line is indented and ended by
/// `new_line`; the wrapping stops at a line that is empty, that is all the
/// text, or that takes nothing from it.
pub open spec fn wrapped_from(
    result: Seq<char>,
    string: Seq<char>,
    clusters: int,
    width: int,
    new_line: Seq<char>,
    indent: Seq<char>,
) -> Seq<char>
    decreases string.len(),
    via wrapped_from_decreases
{
    let part = line_start(string, width);
    let rest = rest_after(string, grapheme_count(part) as int);
    let (line, left) = absorbed(part, rest, width);
    if clusters <= width {
        result + indent + string
    } else if part == rest || part.len() == 0 || rest.len() >= string.len() {
        result + indent + rest
    } else {
        wrapped_from(
            result + indent + line + new_line,
            left,
            grapheme_count(rest) as int,
            width,
            new_line,
            indent,
        )
    }
}

#[via_fn]
proof fn wrapped_from_decreases(
    result: Seq<char>,
    string: Seq<char>,
    clusters: int,
    width: int,
    new_line: Seq<char>,
    indent: Seq<char>,
) {
    let part = line_start(string, width);
    let rest = rest_after(string, grapheme_count(part) as int);
    lemma_absorbed_shorter(part, rest, width);
}

/// What ends a line: `newline`, or a line feed where `newline` is empty.
pub open spec fn line_end(newline: Seq<char>) -> Seq<char> {
    if newline.len() == 0 {
        seq!['\n']
    } else {
        newline
    }
}

/// What `word_wrap` makes of `s`: `s` itself where it is empty, or shorter
/// than `width` and not to be indented; else its lines.
pub open spec fn wrapped(s: Seq<char>, width: int, newline: Seq<char>, indent: Seq<char>) -> Seq<
    char,
> {
    if s.len() == 0 || (grapheme_count(s) < width && indent.len() == 0) {
        s
    } else {
        wrapped_from(
            Seq::empty(),
            s,
            grapheme_count(s) as int,
            width,
            line_end(newline),
            indent,
        )
    }
}

fn absorb(part: String, string: String, width: usize) -> (r: (String, String))
    ensures
        (r.0@, r.1@) == absorbed(part@, string@, width as int),
{
    let mut part = part;
    let mut string = string;
    let ghost target = absorbed(part@, string@, width as int);
    let nothing = "";
    proof {
        reveal_strlit("");
        assert(nothing@ =~= Seq::<char>::empty());
    }
    loop
        invariant
            nothing@ == Seq::<char>::empty(),
            absorbed(part@, string@, width as int) == target,
        ensures
            (part@, string@) == target,
        decreases string@.len(),
    {
        let n = string.as_str().unicode_len();
        if !(count_graphemes(part.as_str()) < width && n > 0) {
            break ;
        }
        let c = string.as_str().get_char(0);
        if !punctuation(c) {
            break ;
        }
        let next = trim(slice_wide(string.as_str(), 1, 0).as_str(), nothing);
        if next.as_str().unicode_len() >= n {
            break ;
        }
        crate::text::push_scalar(&mut part, c);
        string = next;
    }
    (part, string)
}

/// Wraps `subject` into lines of `width` grapheme clusters, breaking at
/// white space and punctuation. Each line but the last ends with `newline`,
/// or with a line feed where `newline` is empty, and each line starts with
/// `indent`.
pub fn word_wrap(subject: &str, width: usize, newline: &str, indent: &str) -> (text: String)
    ensures
        text@ == wrapped(subject@, width as int, newline@, indent@),
{
    let mut subject_len = count_graphemes(subject);
    if subject.is_empty() || (subject_len < width && indent.is_empty()) {
        return String::from_str(subject);
    }
    let feed = "\n";
    let mark = "+";
    let nothing = "";
    proof {
        reveal_strlit("\n");
        reveal_strlit("+");
        reveal_strlit("");
        assert(feed@ =~= seq!['\n']);
        assert(mark@ =~= seq!['+']);
        assert(nothing@ =~= Seq::<char>::empty());
    }
    let new_line = if newline.is_empty() {
        feed
    } else {
        newline
    };
    let mut result = String::new();
    let mut string = String::from_str(subject);
    let ghost target = wrapped(subject@, width as int, newline@, indent@);
    while subject_len > width
        invariant
            mark@ == seq!['+'],
            nothing@ == Seq::<char>::empty(),
            new_line@ == line_end(newline@),
            target == wrapped(subject@, width as int, newline@, indent@),
            wrapped_from(result@, string@, subject_len as int, width as int, new_line@, indent@)
                == target,
        decreases string@.len(),
    {
        let pruned_part = prune(string.as_str(), width + 1, mark);
        let part = trim(slice_wide(pruned_part.as_str(), 0, -1).as_str(), nothing);
        let length_to_cut = count_graphemes(part.as_str());
        let rest = trim(slice_wide(string.as_str(), length_to_cut as i128, 0).as_str(), nothing);
        if part == rest || part.as_str().is_empty() || rest.as_str().unicode_len()
            >= string.as_str().unicode_len() {
            result.append(indent);
            result.append(rest.as_str());
            return result;
        }
        subject_len = count_graphemes(rest.as_str());
        proof {
            lemma_absorbed_shorter(part@, rest@, width as int);
        }
        let (line, left) = absorb(part, rest, width);
        result.append(indent);
        result.append(line.as_str());
        result.append(new_line);
        string = left;
    }
    result.append(indent);
    result.append(string.as_str());
    result
}

/// Ends `subject` with `suffix`: the suffix is added unless it is empty or
/// the subject ends with it already.
pub fn finish(subject: &str, suffix: &str) -> (text: String)
    ensures
        text@ == if suffix@.len() == 0 || occurs_at(
            subject@,
            suffix@,
            subject@.len() - suffix@.len(),
        ) {
            subject@
        } else {
            subject@ + suffix@
        },
{
    let s = scalars(subject);
    let e = scalars(suffix);
    let mut text = String::from_str(subject);
    if e.len() == 0 || (e.len() <= s.len() && matches_at(&s, &e, s.len() - e.len())) {
        text
    } else {
        text.append(suffix);
        text
    }
}

/// Starts `subject` with `prefix`: the prefix is added unless it is empty
/// or the subject starts with it already.
pub fn start(subject: &str, prefix: &str) -> (text: String)
    ensures
        text@ == if prefix@.len() == 0 || occurs_at(subject@, prefix@, 0) {
            subject@
        } else {
            prefix@ + subject@
        },
{
    let s = scalars(subject);
    let e = scalars(prefix);
    if e.len() == 0 || matches_at(&s, &e, 0) {
        String::from_str(subject)
    } else {
        let mut text = String::from_str(prefix);
        text.append(subject);
        text
    }
}

} // verus!
