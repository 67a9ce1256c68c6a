//! Counts the scalars, grapheme clusters, words and matches in a subject.

use crate::split::{
    grapheme_clusters,
    graphemes,
    split,
    split_of,
    token_texts,
    unicode_word_segments,
    words,
    words_of,
};
use crate::text::{all_single, is_partition, lemma_partition_counts, matches_at, occurs_at, scalars};
use vstd::prelude::*;
use vstd::string::*;

verus! {

/// Counts the scalars of `subject`.
pub fn count(subject: &str) -> (n: usize)
    ensures
        n == subject@.len(),
{
    subject.unicode_len()
}

/// The number of grapheme clusters of `s`; none for the empty text.
pub open spec fn grapheme_count(s: Seq<char>) -> nat {
    if s.len() == 0 {
        0
    } else {
        grapheme_clusters(s).len()
    }
}

/// Counts the grapheme clusters of `subject`. There are never more clusters
/// than scalars, and as many exactly when every cluster is a single scalar.
pub fn count_graphemes(subject: &str) -> (n: usize)
    ensures
        n == grapheme_count(subject@),
        n <= subject@.len(),
        subject@.len() > 0 ==> n >= 1,
        subject@.len() > 0 ==> is_partition(subject@, grapheme_clusters(subject@)),
        subject@.len() > 0 ==> (n == subject@.len() <==> all_single(grapheme_clusters(subject@))),
{
    if subject.is_empty() {
        return 0;
    }
    let tokens = graphemes(subject);
    proof {
        lemma_partition_counts(subject@, token_texts(tokens@));
    }
    tokens.len()
}

/// How often `pattern` occurs in `s` from `i` on; the occurrences are taken
/// from the left and do not overlap.
pub open spec fn occurrences(s: Seq<char>, pattern: Seq<char>, i: int) -> nat
    decreases s.len() - i,
{
    if i < 0 || pattern.len() == 0 || i + pattern.len() > s.len() {
        0
    } else if occurs_at(s, pattern, i) {
        1 + occurrences(s, pattern, i + pattern.len())
    } else {
        occurrences(s, pattern, i + 1)
    }
}

/// Counts how often `substring` occurs in `subject`.
pub fn count_substrings(subject: &str, substring: &str) -> (n: usize)
    ensures
        n == occurrences(subject@, substring@, 0),
{
    let s = scalars(subject);
    let p = scalars(substring);
    if p.len() == 0 || p.len() > s.len() {
        return 0;
    }
    let mut n: usize = 0;
    let mut i: usize = 0;
    while i <= s.len() - p.len()
        invariant
            s@ == subject@,
            p@ == substring@,
            0 < p@.len() <= s@.len(),
            i <= s@.len(),
            n <= i,
            n + occurrences(s@, p@, i as int) == occurrences(s@, p@, 0),
        decreases s@.len() - i,
    {
        if matches_at(&s, &p, i) {
            n += 1;
            i += p.len();
        } else {
            i += 1;
        }
    }
    n
}

/// How many of the flags are set.
pub open spec fn count_set(flags: Seq<bool>) -> nat
    decreases flags.len(),
{
    if flags.len() == 0 {
        0
    } else {
        count_set(flags.drop_last()) + if flags.last() {
            1nat
        } else {
            0nat
        }
    }
}

/// Counts the grapheme clusters of `subject` for which `predicate` answers
/// yes: there is an answer of the predicate for each cluster, and the count
/// is the number of those that are yes.
pub fn count_where<F: Fn(&str) -> bool>(subject: &str, predicate: F) -> (n: usize)
    requires
        forall|token: &str| call_requires(predicate, (token,)),
    ensures
        subject@.len() == 0 ==> n == 0,
        subject@.len() > 0 ==> exists|tokens: Seq<&str>, flags: Seq<bool>|
            {
                &&& token_texts(tokens) == grapheme_clusters(subject@)
                &&& flags.len() == tokens.len()
                &&& forall|i: int|
                    0 <= i < tokens.len() ==> call_ensures(
                        predicate,
                        (#[trigger] tokens[i],),
                        flags[i],
                    )
                &&& n == count_set(flags)
            },
{
    if subject.is_empty() {
        return 0;
    }
    let tokens = graphemes(subject);
    let mut n: usize = 0;
    let ghost mut flags: Seq<bool> = Seq::empty();
    let mut i: usize = 0;
    while i < tokens.len()
        invariant
            i <= tokens@.len(),
            forall|token: &str| call_requires(predicate, (token,)),
            flags.len() == i,
            n <= i,
            n == count_set(flags),
            forall|j: int|
                0 <= j < i ==> call_ensures(predicate, (#[trigger] tokens@[j],), flags[j]),
        decreases tokens@.len() - i,
    {
        let answer = predicate(tokens[i]);
        proof {
            assert(flags.push(answer).drop_last() =~= flags);
            flags = flags.push(answer);
        }
        if answer {
            n += 1;
        }
        i += 1;
    }
    n
}

/// Counts the words of `subject`, or, with a `pattern`, the pieces that
/// the pattern splits it into.
pub fn count_words(subject: &str, pattern: &str) -> (n: usize)
    ensures
        subject@.len() == 0 ==> n == 0,
        subject@.len() > 0 && pattern@.len() == 0 ==> n == words_of(
            unicode_word_segments(subject@),
        ).len(),
        subject@.len() > 0 && pattern@.len() > 0 ==> n == split_of(subject@, pattern@).len(),
{
    if subject.is_empty() {
        return 0;
    }
    if pattern.is_empty() {
        let tokens = words(subject);
        assert(token_texts(tokens@).len() == tokens@.len());
        tokens.len()
    } else {
        let tokens = split(subject, pattern);
        assert(token_texts(tokens@).len() == tokens@.len());
        tokens.len()
    }
}

fn is_same(a: &str, b: &str) -> (same: bool)
    ensures
        same == (a@ == b@),
{
    let x = String::from_str(a);
    let y = String::from_str(b);
    x == y
}

/// Counts the different texts among the tokens.
pub fn count_distinct(tokens: &Vec<&str>) -> (n: usize)
    ensures
        n == token_texts(tokens@).to_set().len(),
{
    let ghost texts = token_texts(tokens@);
    let mut seen: Vec<&str> = Vec::new();
    let mut i: usize = 0;
    assert(texts.subrange(0, 0).to_set() =~= token_texts(seen@).to_set());
    while i < tokens.len()
        invariant
            i <= tokens@.len(),
            texts == token_texts(tokens@),
            seen@.len() <= i,
            token_texts(seen@).no_duplicates(),
            token_texts(seen@).to_set() == texts.subrange(0, i as int).to_set(),
        decreases tokens@.len() - i,
    {
        let token = tokens[i];
        assert(texts[i as int] == token@);
        let ghost seen_texts = token_texts(seen@);
        let mut known = false;
        let mut k: usize = 0;
        while k < seen.len()
            invariant
                k <= seen@.len(),
                seen_texts == token_texts(seen@),
                known == exists|j: int| 0 <= j < k && seen_texts[j] == token@,
            decreases seen@.len() - k,
        {
            assert(seen_texts[k as int] == seen@[k as int]@);
            if is_same(seen[k], token) {
                known = true;
            }
            k += 1;
        }
        proof {
            let upto = texts.subrange(0, i as int + 1);
            assert(upto =~= texts.subrange(0, i as int).push(token@));
            assert(upto.to_set() =~= texts.subrange(0, i as int).to_set().insert(token@)) by {
                assert forall|t: Seq<char>| upto.to_set().contains(t) implies texts.subrange(
                    0,
                    i as int,
                ).to_set().insert(token@).contains(t) by {
                    let j = choose|j: int| 0 <= j < upto.len() && upto[j] == t;
                    if j < i {
                        assert(texts.subrange(0, i as int)[j] == t);
                    }
                }
                assert forall|t: Seq<char>|
                    texts.subrange(0, i as int).to_set().insert(token@).contains(
                        t,
                    ) implies upto.to_set().contains(t) by {
                    if t == token@ {
                        assert(upto[i as int] == t);
                    } else {
                        let j = choose|j: int|
                            0 <= j < i && texts.subrange(0, i as int)[j] == t;
                        assert(upto[j] == t);
                    }
                }
            }
        }
        if !known {
            seen.push(token);
            proof {
                assert(token_texts(seen@) =~= seen_texts.push(token@));
                assert(!seen_texts.contains(token@));
                assert(seen_texts.push(token@).to_set() =~= seen_texts.to_set().insert(token@))
                    by {
                    let pushed = seen_texts.push(token@);
                    assert forall|t: Seq<char>| pushed.to_set().contains(t) implies seen_texts.to_set().insert(
                        token@,
                    ).contains(t) by {
                        let j = choose|j: int| 0 <= j < pushed.len() && pushed[j] == t;
                        if j < seen_texts.len() {
                            assert(seen_texts[j] == t);
                        }
                    }
                    assert forall|t: Seq<char>|
                        seen_texts.to_set().insert(token@).contains(
                            t,
                        ) implies pushed.to_set().contains(t) by {
                        if t == token@ {
                            assert(pushed[seen_texts.len() as int] == t);
                        } else {
                            let j = choose|j: int| 0 <= j < seen_texts.len() && seen_texts[j] == t;
                            assert(pushed[j] == t);
                        }
                    }
                }
            }
        } else {
            proof {
                let j = choose|j: int| 0 <= j < seen_texts.len() && seen_texts[j] == token@;
                assert(seen_texts.to_set().contains(token@));
                assert(seen_texts.to_set().insert(token@) =~= seen_texts.to_set());
            }
        }
        i += 1;
    }
    proof {
        assert(texts.subrange(0, i as int) =~= texts);
        token_texts(seen@).unique_seq_to_set();
    }
    seen.len()
}

/// Counts the different words of `subject`, or, with a `pattern`, the
/// different pieces that the pattern splits it into.
pub fn count_unique_words(subject: &str, pattern: &str) -> (n: usize)
    ensures
        subject@.len() == 0 ==> n == 0,
        subject@.len() > 0 && pattern@.len() == 0 ==> n == words_of(
            unicode_word_segments(subject@),
        ).to_set().len(),
        subject@.len() > 0 && pattern@.len() > 0 ==> n == split_of(
            subject@,
            pattern@,
        ).to_set().len(),
{
    if subject.is_empty() {
        return 0;
    }
    let tokens = if pattern.is_empty() {
        words(subject)
    } else {
        split(subject, pattern)
    };
    count_distinct(&tokens)
}

} // verus!
