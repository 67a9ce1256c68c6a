//! Texts as sequences of scalars: the model that every contract of the
//! library is stated over, and the conversions between `&str`, `String` and
//! `Vec<char>`.

use vstd::prelude::*;
use vstd::string::*;

verus! {

/// Appends one scalar to `target`.
///
/// Trusted: `String::push` of std, which appends the given `char` to the end
/// of the string and changes nothing else.
#[verifier::external_body]
pub(crate) fn push_scalar(target: &mut String, c: char)
    ensures
        final(target)@ == old(target)@.push(c),
{
    target.push(c)
}

/// The scalars of `subject` as a vector.
pub(crate) fn scalars(subject: &str) -> (v: Vec<char>)
    ensures
        v@ == subject@,
{
    let mut v: Vec<char> = Vec::new();
    for c in it: subject.chars()
        invariant
            it.seq() == subject@,
            v@.len() == it.index(),
            forall|i: int| 0 <= i < v@.len() ==> v@[i] == it.seq()[i],
    {
        v.push(c);
    }
    assert(v@ =~= subject@);
    v
}

/// Whether `token` is the single scalar `c`.
pub(crate) fn is_scalar(token: &str, c: char) -> (b: bool)
    ensures
        b == (token@.len() == 1 && token@[0] == c),
{
    token.unicode_len() == 1 && token.get_char(0) == c
}

/// The text made of the scalars `v[from..to]`.
pub(crate) fn text_of(v: &Vec<char>, from: usize, to: usize) -> (text: String)
    requires
        from <= to <= v@.len(),
    ensures
        text@ == v@.subrange(from as int, to as int),
{
    let mut text = String::new();
    let mut i: usize = from;
    while i < to
        invariant
            from <= i <= to <= v@.len(),
            text@ == v@.subrange(from as int, i as int),
        decreases to - i,
    {
        push_scalar(&mut text, v[i]);
        assert(text@ =~= v@.subrange(from as int, i as int + 1));
        i += 1;
    }
    text
}

/// `pattern` stands in `s` at position `i`.
pub open spec fn occurs_at(s: Seq<char>, pattern: Seq<char>, i: int) -> bool {
    0 <= i && i + pattern.len() <= s.len() && s.subrange(i, i + pattern.len()) == pattern
}

/// Whether `pattern` stands in `s` at position `i`.
pub(crate) fn matches_at(s: &Vec<char>, pattern: &Vec<char>, i: usize) -> (b: bool)
    ensures
        b == occurs_at(s@, pattern@, i as int),
{
    let n = s.len();
    let m = pattern.len();
    if i > n || m > n - i {
        return false;
    }
    let mut k: usize = 0;
    while k < m
        invariant
            n == s@.len(),
            m == pattern@.len(),
            i + m <= n,
            k <= m,
            forall|j: int| 0 <= j < k ==> s@[i + j] == pattern@[j],
        decreases m - k,
    {
        if s[i + k] != pattern[k] {
            assert(s@.subrange(i as int, i + m)[k as int] != pattern@[k as int]);
            return false;
        }
        k += 1;
    }
    assert(s@.subrange(i as int, i + m) =~= pattern@);
    true
}

/// The first position at or after `from` where `pattern` stands in `s`, or
/// -1 where it stands nowhere there.
pub open spec fn first_occurrence(s: Seq<char>, pattern: Seq<char>, from: int) -> int
    decreases s.len() - from + 1,
{
    if from < 0 || from + pattern.len() > s.len() {
        -1
    } else if occurs_at(s, pattern, from) {
        from
    } else {
        first_occurrence(s, pattern, from + 1)
    }
}

/// The last position from `upto` down to `from` where `pattern` stands in
/// `s`, or -1 where it stands nowhere there.
pub open spec fn last_occurrence(s: Seq<char>, pattern: Seq<char>, from: int, upto: int) -> int
    decreases upto - from + 1,
{
    if upto < from {
        -1
    } else if occurs_at(s, pattern, upto) {
        upto
    } else {
        last_occurrence(s, pattern, from, upto - 1)
    }
}

/// Finds the first position at or after `from` where `pattern` stands.
pub(crate) fn find_first(s: &Vec<char>, pattern: &Vec<char>, from: usize) -> (found: Option<usize>)
    ensures
        found matches Some(i) ==> i == first_occurrence(s@, pattern@, from as int) && from <= i
            && i + pattern@.len() <= s@.len(),
        found is None ==> first_occurrence(s@, pattern@, from as int) == -1,
{
    let n = s.len();
    let m = pattern.len();
    if from > n || m > n - from {
        return None;
    }
    let mut i: usize = from;
    loop
        invariant
            n == s@.len(),
            m == pattern@.len(),
            m <= n,
            from <= i <= n - m,
            first_occurrence(s@, pattern@, from as int) == first_occurrence(
                s@,
                pattern@,
                i as int,
            ),
        decreases n - m - i,
    {
        if matches_at(s, pattern, i) {
            return Some(i);
        }
        if i == n - m {
            assert(first_occurrence(s@, pattern@, i as int + 1) == -1);
            return None;
        }
        i += 1;
    }
}

/// Finds the last position at or after `from` where `pattern` stands.
pub(crate) fn find_last(s: &Vec<char>, pattern: &Vec<char>, from: usize) -> (found: Option<usize>)
    ensures
        found matches Some(i) ==> i == last_occurrence(
            s@,
            pattern@,
            from as int,
            s@.len() as int,
        ) && from <= i && i + pattern@.len() <= s@.len(),
        found is None ==> last_occurrence(s@, pattern@, from as int, s@.len() as int) == -1,
{
    let n = s.len();
    if from > n {
        return None;
    }
    let mut i: usize = n;
    loop
        invariant
            n == s@.len(),
            from <= i <= n,
            last_occurrence(s@, pattern@, from as int, n as int) == last_occurrence(
                s@,
                pattern@,
                from as int,
                i as int,
            ),
        decreases i - from,
    {
        if matches_at(s, pattern, i) {
            return Some(i);
        }
        if i == from {
            assert(last_occurrence(s@, pattern@, from as int, i as int - 1) == -1);
            return None;
        }
        i -= 1;
    }
}

/// Whether `c` is one of the scalars of `set`.
pub(crate) fn holds(set: &Vec<char>, c: char) -> (b: bool)
    ensures
        b == set@.contains(c),
{
    let mut k: usize = 0;
    while k < set.len()
        invariant
            k <= set@.len(),
            forall|j: int| 0 <= j < k ==> set@[j] != c,
        decreases set@.len() - k,
    {
        if set[k] == c {
            return true;
        }
        k += 1;
    }
    false
}

/// A pattern longer than the text occurs nowhere in it, so replacing it
/// changes nothing.
pub proof fn lemma_replaced_long_pattern(
    s: Seq<char>,
    pattern: Seq<char>,
    replacement: Seq<char>,
    i: int,
)
    requires
        pattern.len() > s.len(),
        0 <= i <= s.len(),
    ensures
        replaced_from(s, pattern, replacement, i) == s.subrange(i, s.len() as int),
    decreases s.len() - i,
{
    if i < s.len() {
        lemma_replaced_long_pattern(s, pattern, replacement, i + 1);
        assert(seq![s[i]] + s.subrange(i + 1, s.len() as int) =~= s.subrange(i, s.len() as int));
    } else {
        assert(s.subrange(i, s.len() as int) =~= Seq::<char>::empty());
    }
}

/// The text `s` written `n` times.
pub open spec fn repeated(s: Seq<char>, n: int) -> Seq<char>
    decreases n,
{
    if n <= 0 {
        Seq::empty()
    } else {
        repeated(s, n - 1) + s
    }
}

/// The scalars of `s` written `n` times.
pub(crate) fn repeat_scalars(s: &Vec<char>, n: usize) -> (out: Vec<char>)
    ensures
        out@ == repeated(s@, n as int),
{
    let mut out: Vec<char> = Vec::new();
    let mut k: usize = 0;
    while k < n
        invariant
            k <= n,
            out@ == repeated(s@, k as int),
        decreases n - k,
    {
        append_all(&mut out, s);
        k += 1;
    }
    out
}

/// The first `n` scalars of `pad` repeated without end.
pub(crate) fn cycle(pad: &Vec<char>, n: usize) -> (out: Vec<char>)
    requires
        pad@.len() > 0,
    ensures
        out@ == cyclic(pad@, n as int),
{
    let mut out: Vec<char> = Vec::new();
    let mut k: usize = 0;
    let mut at: usize = 0;
    while k < n
        invariant
            k <= n,
            pad@.len() > 0,
            at == (k as int) % (pad@.len() as int),
            at < pad@.len(),
            out@ == cyclic(pad@, k as int),
        decreases n - k,
    {
        out.push(pad[at]);
        assert(out@ =~= cyclic(pad@, k as int + 1));
        proof {
            lemma_step_modulo(k as int, pad@.len() as int);
        }
        at = if at == pad.len() - 1 {
            0
        } else {
            at + 1
        };
        k += 1;
    }
    out
}

/// How the remainder moves when a number grows by one.
pub proof fn lemma_step_modulo(k: int, m: int)
    requires
        k >= 0,
        m > 0,
    ensures
        (k + 1) % m == if k % m + 1 == m {
            0
        } else {
            k % m + 1
        },
{
    assert((k + 1) % m == if k % m + 1 == m {
        0
    } else {
        k % m + 1
    }) by (nonlinear_arith)
        requires
            k >= 0,
            m > 0,
    ;
}

/// How many bytes the scalars of `s` take in UTF-8.
pub(crate) fn byte_length(s: &Vec<char>) -> (bytes: u128)
    ensures
        bytes == utf8_length(s@, s@.len() as int),
        s@.len() <= bytes <= 4 * s@.len(),
{
    let mut bytes: u128 = 0;
    let mut k: usize = 0;
    while k < s.len()
        invariant
            k <= s@.len(),
            bytes == utf8_length(s@, k as int),
            k <= bytes <= 4 * k,
        decreases s@.len() - k,
    {
        let c = s[k];
        let width: u128 = if c <= '\u{7f}' {
            1
        } else if c <= '\u{7ff}' {
            2
        } else if c <= '\u{ffff}' {
            3
        } else {
            4
        };
        bytes = bytes + width;
        k += 1;
    }
    bytes
}

/// The first `n` parts with `separator` between them.
pub open spec fn joined_upto(parts: Seq<Seq<char>>, separator: Seq<char>, n: int) -> Seq<char>
    decreases n,
{
    if n <= 0 {
        Seq::empty()
    } else if n == 1 {
        parts[0]
    } else {
        joined_upto(parts, separator, n - 1) + separator + parts[n - 1]
    }
}

/// The parts with `separator` between them.
pub open spec fn joined(parts: Seq<Seq<char>>, separator: Seq<char>) -> Seq<char> {
    joined_upto(parts, separator, parts.len() as int)
}

/// The scalars `v[from..to]` as a vector of their own.
pub(crate) fn part_of(v: &Vec<char>, from: usize, to: usize) -> (part: Vec<char>)
    requires
        from <= to <= v@.len(),
    ensures
        part@ == v@.subrange(from as int, to as int),
{
    let mut part: Vec<char> = Vec::new();
    let mut i: usize = from;
    while i < to
        invariant
            from <= i <= to <= v@.len(),
            part@ == v@.subrange(from as int, i as int),
        decreases to - i,
    {
        part.push(v[i]);
        assert(part@ =~= v@.subrange(from as int, i as int + 1));
        i += 1;
    }
    part
}

/// Appends the scalars of `part` to `out`.
pub(crate) fn append_all(out: &mut Vec<char>, part: &Vec<char>)
    ensures
        final(out)@ == old(out)@ + part@,
{
    let ghost before = out@;
    let mut k: usize = 0;
    while k < part.len()
        invariant
            k <= part@.len(),
            out@ == before + part@.subrange(0, k as int),
        decreases part@.len() - k,
    {
        out.push(part[k]);
        assert(out@ =~= before + part@.subrange(0, k as int + 1));
        k += 1;
    }
    assert(part@.subrange(0, k as int) =~= part@);
}

/// `s` from `i` on, with every occurrence of `pattern` replaced by
/// `replacement`. Occurrences are taken from the left and do not overlap; an
/// empty pattern occurs nowhere.
pub open spec fn replaced_from(
    s: Seq<char>,
    pattern: Seq<char>,
    replacement: Seq<char>,
    i: int,
) -> Seq<char>
    decreases s.len() - i,
{
    if i < 0 || i >= s.len() {
        Seq::empty()
    } else if pattern.len() > 0 && occurs_at(s, pattern, i) {
        replacement + replaced_from(s, pattern, replacement, i + pattern.len())
    } else {
        seq![s[i]] + replaced_from(s, pattern, replacement, i + 1)
    }
}

/// `s` with every occurrence of `pattern` replaced by `replacement`.
pub open spec fn replaced(s: Seq<char>, pattern: Seq<char>, replacement: Seq<char>) -> Seq<char> {
    replaced_from(s, pattern, replacement, 0)
}

/// Replaces every occurrence of `pattern` in `s` by `replacement`.
pub(crate) fn replace_every(s: &Vec<char>, pattern: &Vec<char>, replacement: &Vec<char>) -> (out:
    Vec<char>)
    ensures
        out@ == replaced(s@, pattern@, replacement@),
{
    let mut out: Vec<char> = Vec::new();
    let n = s.len();
    let mut i: usize = 0;
    assert(out@ + replaced_from(s@, pattern@, replacement@, 0) =~= replaced(
        s@,
        pattern@,
        replacement@,
    ));
    while i < n
        invariant
            n == s@.len(),
            i <= n,
            out@ + replaced_from(s@, pattern@, replacement@, i as int) == replaced(
                s@,
                pattern@,
                replacement@,
            ),
        decreases n - i,
    {
        let ghost before = out@;
        if pattern.len() > 0 && matches_at(s, pattern, i) {
            append_all(&mut out, replacement);
            assert(before + (replacement@ + replaced_from(
                s@,
                pattern@,
                replacement@,
                i + pattern@.len(),
            )) =~= (before + replacement@) + replaced_from(
                s@,
                pattern@,
                replacement@,
                i + pattern@.len(),
            ));
            i += pattern.len();
        } else {
            out.push(s[i]);
            assert(before + (seq![s@[i as int]] + replaced_from(
                s@,
                pattern@,
                replacement@,
                i + 1,
            )) =~= before.push(s@[i as int]) + replaced_from(s@, pattern@, replacement@, i + 1));
            i += 1;
        }
    }
    assert(out@ + Seq::<char>::empty() =~= out@);
    out
}

/// How many bytes the scalar takes in UTF-8.
pub open spec fn utf8_width(c: char) -> int {
    if c <= '\u{7f}' {
        1
    } else if c <= '\u{7ff}' {
        2
    } else if c <= '\u{ffff}' {
        3
    } else {
        4
    }
}

/// How many bytes the first `n` scalars of `s` take in UTF-8.
pub open spec fn utf8_length(s: Seq<char>, n: int) -> int
    decreases n,
{
    if n <= 0 {
        0
    } else {
        utf8_length(s, n - 1) + utf8_width(s[n - 1])
    }
}

/// The first `n` scalars of `pad` repeated without end.
pub open spec fn cyclic(pad: Seq<char>, n: int) -> Seq<char> {
    Seq::new(
        if n < 0 {
            0
        } else {
            n as nat
        },
        |i: int| pad[i % pad.len() as int],
    )
}

/// The parts laid end to end.
pub open spec fn concat(parts: Seq<Seq<char>>) -> Seq<char>
    decreases parts.len(),
{
    if parts.len() == 0 {
        Seq::empty()
    } else {
        concat(parts.drop_last()) + parts.last()
    }
}

/// One more part at the end adds its scalars at the end.
pub proof fn lemma_concat_push(parts: Seq<Seq<char>>, part: Seq<char>)
    ensures
        concat(parts.push(part)) == concat(parts) + part,
{
    assert(parts.push(part).drop_last() =~= parts);
}

/// A single part laid end to end is that part.
pub proof fn lemma_concat_single(part: Seq<char>)
    ensures
        concat(seq![part]) == part,
{
    lemma_concat_push(Seq::empty(), part);
    assert(Seq::<Seq<char>>::empty().push(part) =~= seq![part]);
    assert(concat(Seq::<Seq<char>>::empty()) + part =~= part);
}

/// Two runs of parts laid end to end are the one run followed by the other.
pub proof fn lemma_concat_append(a: Seq<Seq<char>>, b: Seq<Seq<char>>)
    ensures
        concat(a + b) == concat(a) + concat(b),
    decreases b.len(),
{
    if b.len() == 0 {
        assert(a + b =~= a);
        assert(concat(a) + concat(b) =~= concat(a));
    } else {
        lemma_concat_append(a, b.drop_last());
        assert((a + b).drop_last() =~= a + b.drop_last());
        assert((a + b).last() == b.last());
        assert(concat(a + b) =~= concat(a) + concat(b));
    }
}

/// `parts` cuts `s` into consecutive pieces, none of them empty.
pub open spec fn is_partition(s: Seq<char>, parts: Seq<Seq<char>>) -> bool {
    &&& concat(parts) == s
    &&& forall|i: int| 0 <= i < parts.len() ==> (#[trigger] parts[i]).len() > 0
}

/// Every part is a single scalar.
pub open spec fn all_single(parts: Seq<Seq<char>>) -> bool {
    forall|i: int| 0 <= i < parts.len() ==> (#[trigger] parts[i]).len() == 1
}

/// Laying parts end to end adds their lengths up: with no empty part there
/// are at most as many parts as scalars, and exactly as many if and only if
/// every part is a single scalar.
pub proof fn lemma_partition_counts(s: Seq<char>, parts: Seq<Seq<char>>)
    requires
        is_partition(s, parts),
    ensures
        parts.len() <= s.len(),
        parts.len() == s.len() <==> all_single(parts),
    decreases parts.len(),
{
    if parts.len() > 0 {
        let head = parts.drop_last();
        assert forall|i: int| 0 <= i < head.len() implies (#[trigger] head[i]).len() > 0 by {
            assert(head[i] == parts[i]);
        }
        lemma_partition_counts(concat(head), head);
        assert(s.len() == concat(head).len() + parts.last().len());
        if all_single(parts) {
            assert forall|i: int| 0 <= i < head.len() implies (#[trigger] head[i]).len() == 1 by {
                assert(head[i] == parts[i]);
            }
        }
        if parts.len() == s.len() {
            assert(all_single(head));
            assert forall|i: int| 0 <= i < parts.len() implies (#[trigger] parts[i]).len() == 1 by {
                if i < head.len() {
                    assert(head[i] == parts[i]);
                }
            }
        }
    }
}

} // verus!
