//! Finds where a search text or a pattern stands in a subject. Positions
//! count scalars from the place where the search starts.

use crate::pattern::{find_start, first_match_start, lemma_bytes_cover_scalars, pattern_compiles};
use crate::text::{find_first, find_last, first_occurrence, holds, last_occurrence, scalars};
use vstd::prelude::*;
use vstd::string::*;

verus! {

/// What is left of `n` in eight bits, read as a signed number.
pub open spec fn wrapped_i8(n: int) -> int {
    let low = n % 256;
    if low < 128 {
        low
    } else {
        low - 256
    }
}

/// Narrows a position to the eight bits of the result type.
pub fn narrow(n: usize) -> (r: i8)
    ensures
        r == wrapped_i8(n as int),
{
    let low = n % 256;
    if low < 128 {
        low as i8
    } else {
        (low as i16 - 256) as i8
    }
}

/// The positions before `n` of the scalars of `s` that occur in `set`.
pub open spec fn member_positions(s: Seq<char>, set: Seq<char>, n: int) -> Seq<int>
    decreases n,
{
    if n <= 0 {
        Seq::empty()
    } else if set.contains(s[n - 1]) {
        member_positions(s, set, n - 1).push(n - 1)
    } else {
        member_positions(s, set, n - 1)
    }
}

/// The scalars of `s` from `from` on.
pub open spec fn tail(s: Seq<char>, from: int) -> Seq<char> {
    if 0 <= from <= s.len() {
        s.subrange(from, s.len() as int)
    } else {
        Seq::empty()
    }
}

/// The positions, counted from `from_index`, of all scalars of `subject`
/// at or after `from_index` that occur in `search`.
pub fn index_all(subject: &str, search: &str, from_index: usize) -> (found: Vec<usize>)
    ensures
        found@.map_values(|i: usize| i as int) == member_positions(
            tail(subject@, from_index as int),
            search@,
            tail(subject@, from_index as int).len() as int,
        ),
{
    let s = scalars(subject);
    let set = scalars(search);
    let mut found: Vec<usize> = Vec::new();
    let ghost rest = tail(subject@, from_index as int);
    if from_index >= s.len() {
        assert(found@.map_values(|i: usize| i as int) =~= member_positions(rest, search@, 0));
        return found;
    }
    let n = s.len() - from_index;
    let mut i: usize = 0;
    assert(found@.map_values(|i: usize| i as int) =~= member_positions(rest, search@, 0));
    while i < n
        invariant
            s@ == subject@,
            set@ == search@,
            from_index < s@.len(),
            from_index + n == s.len(),
            rest == tail(subject@, from_index as int),
            i <= n,
            found@.map_values(|i: usize| i as int) == member_positions(rest, search@, i as int),
        decreases n - i,
    {
        let ghost before = found@.map_values(|i: usize| i as int);
        if holds(&set, s[from_index + i]) {
            found.push(i);
            assert(found@.map_values(|i: usize| i as int) =~= before.push(i as int));
        }
        i += 1;
    }
    found
}

/// Where `pattern` first stands in `s` at or after `from`, counted from
/// `from`: zero for an empty pattern, -1 where it stands nowhere.
pub open spec fn index_in(s: Seq<char>, pattern: Seq<char>, from: int) -> int {
    if pattern.len() == 0 {
        0
    } else if first_occurrence(s, pattern, from) < 0 {
        -1
    } else {
        first_occurrence(s, pattern, from) - from
    }
}

/// Where `pattern` last stands in `s` at or after `from`, counted from
/// `from`: zero for an empty pattern, -1 where it stands nowhere.
pub open spec fn last_index_in(s: Seq<char>, pattern: Seq<char>, from: int) -> int {
    if pattern.len() == 0 {
        0
    } else if last_occurrence(s, pattern, from, s.len() as int) < 0 {
        -1
    } else {
        last_occurrence(s, pattern, from, s.len() as int) - from
    }
}

/// The first position of `search` in `subject` at or after `from_index`,
/// counted from `from_index` and narrowed to eight bits; -1 if there is none.
pub fn index_of(subject: &str, search: &str, from_index: usize) -> (position: i8)
    ensures
        position == wrapped_i8(index_in(subject@, search@, from_index as int)),
{
    if search.is_empty() {
        return 0;
    }
    let s = scalars(subject);
    let pattern = scalars(search);
    match find_first(&s, &pattern, from_index) {
        Some(at) => narrow(at - from_index),
        None => -1,
    }
}

/// The last position of `search` in `subject` at or after `from_index`,
/// counted from `from_index` and narrowed to eight bits; -1 if there is none.
pub fn last_index_of(subject: &str, search: &str, from_index: usize) -> (position: i8)
    ensures
        position == wrapped_i8(last_index_in(subject@, search@, from_index as int)),
{
    if search.is_empty() {
        return 0;
    }
    let s = scalars(subject);
    let pattern = scalars(search);
    match find_last(&s, &pattern, from_index) {
        Some(at) => narrow(at - from_index),
        None => -1,
    }
}

/// How many tokens the scalar splitter makes of `s`: one for the empty text.
pub open spec fn token_count(s: Seq<char>) -> int {
    if s.len() == 0 {
        1
    } else {
        s.len() as int
    }
}

/// What `search` answers once the pattern was run: the byte where the match
/// starts, narrowed to eight bits, or -1 without a match.
pub open spec fn match_answer(found: Option<int>) -> int {
    match found {
        Some(at) => wrapped_i8(at),
        None => -1,
    }
}

/// What `search` answers for the text `s`: -1 where `from` is not below the
/// token count of `s`; else zero for an empty pattern; else -1 for a pattern
/// that does not compile; else the answer of the match.
pub open spec fn search_in(s: Seq<char>, pattern: Seq<char>, from: int) -> int {
    if from >= token_count(s) {
        -1
    } else if pattern.len() == 0 {
        0
    } else if !pattern_compiles(pattern) {
        -1
    } else {
        match_answer(first_match_start(pattern, s, from))
    }
}

/// The answer of `search` for what the pattern found.
pub fn search_outcome(found: Option<usize>) -> (position: i8)
    ensures
        found is None ==> position == match_answer(None),
        found matches Some(at) ==> position == match_answer(Some(at as int)),
{
    match found {
        Some(at) => narrow(at),
        None => -1,
    }
}

/// The byte at which the regular expression `pattern` first matches in
/// `subject`, searching from byte `from_index` on, narrowed to eight bits.
/// The answer is -1 where `from_index` is not below the subject's token
/// count, where the pattern does not compile and where nothing matches; it is
/// zero for an empty pattern.
pub fn search(subject: &str, pattern: &str, from_index: usize) -> (position: i8)
    ensures
        position == search_in(subject@, pattern@, from_index as int),
{
    let tokens = subject.unicode_len();
    if (tokens == 0 && from_index >= 1) || (tokens > 0 && from_index >= tokens) {
        return -1;
    }
    if pattern.is_empty() {
        return 0;
    }
    proof {
        lemma_bytes_cover_scalars(subject@);
    }
    match find_start(pattern, subject, from_index) {
        Err(_) => -1,
        Ok(found) => search_outcome(found),
    }
}

} // verus!
