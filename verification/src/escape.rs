//! Escapes and unescapes the special characters of HTML and of regular
//! expressions.

use crate::text::{occurs_at, replace_every, replaced, replaced_from, scalars, text_of};
use vstd::prelude::*;
use vstd::string::*;

verus! {

/// The entity that stands for `c` in HTML, if `c` is special there.
pub open spec fn html_entity(c: char) -> Seq<char> {
    if c == '&' {
        seq!['&', 'a', 'm', 'p', ';']
    } else if c == '<' {
        seq!['&', 'l', 't', ';']
    } else if c == '>' {
        seq!['&', 'g', 't', ';']
    } else if c == '"' {
        seq!['&', 'q', 'u', 'o', 't', ';']
    } else if c == '\'' {
        seq!['&', '#', 'x', '2', '7', ';']
    } else if c == '`' {
        seq!['&', '#', 'x', '6', '0', ';']
    } else {
        seq![c]
    }
}

/// `s` with every scalar replaced by what `html_entity` makes of it.
pub open spec fn html_escaped(s: Seq<char>) -> Seq<char>
    decreases s.len(),
{
    if s.len() == 0 {
        Seq::empty()
    } else {
        html_escaped(s.drop_last()) + html_entity(s.last())
    }
}

fn entity(c: char) -> (text: &'static str)
    ensures
        text@ == html_entity(c) || (text@.len() == 0 && html_entity(c) == seq![c]),
{
    if c == '&' {
        let e = "&amp;";
        proof {
            reveal_strlit("&amp;");
            assert(e@ =~= html_entity(c));
        }
        e
    } else if c == '<' {
        let e = "&lt;";
        proof {
            reveal_strlit("&lt;");
            assert(e@ =~= html_entity(c));
        }
        e
    } else if c == '>' {
        let e = "&gt;";
        proof {
            reveal_strlit("&gt;");
            assert(e@ =~= html_entity(c));
        }
        e
    } else if c == '"' {
        let e = "&quot;";
        proof {
            reveal_strlit("&quot;");
            assert(e@ =~= html_entity(c));
        }
        e
    } else if c == '\'' {
        let e = "&#x27;";
        proof {
            reveal_strlit("&#x27;");
            assert(e@ =~= html_entity(c));
        }
        e
    } else if c == '`' {
        let e = "&#x60;";
        proof {
            reveal_strlit("&#x60;");
            assert(e@ =~= html_entity(c));
        }
        e
    } else {
        let e = "";
        proof {
            reveal_strlit("");
        }
        e
    }
}

/// Escapes the characters `<`, `>`, `&`, `"`, `'` and `` ` `` of `subject`
/// as HTML entities.
pub fn escape_html(subject: &str) -> (text: String)
    ensures
        text@ == html_escaped(subject@),
{
    let s = scalars(subject);
    let mut text = String::new();
    let mut i: usize = 0;
    while i < s.len()
        invariant
            i <= s@.len(),
            text@ == html_escaped(s@.subrange(0, i as int)),
        decreases s@.len() - i,
    {
        let e = entity(s[i]);
        if e.is_empty() {
            crate::text::push_scalar(&mut text, s[i]);
        } else {
            text.append(e);
        }
        assert(s@.subrange(0, i as int + 1).drop_last() =~= s@.subrange(0, i as int));
        assert(text@ =~= html_escaped(s@.subrange(0, i as int)) + html_entity(s@[i as int]));
        i += 1;
    }
    assert(s@.subrange(0, i as int) =~= s@);
    text
}

/// `c` is special in a regular expression.
pub open spec fn is_regexp_special(c: char) -> bool {
    ||| c == '-'
    ||| c == '['
    ||| c == ']'
    ||| c == '/'
    ||| c == '{'
    ||| c == '}'
    ||| c == '('
    ||| c == ')'
    ||| c == '*'
    ||| c == '+'
    ||| c == '?'
    ||| c == '.'
    ||| c == '\\'
    ||| c == '^'
    ||| c == '$'
    ||| c == '|'
}

/// `s` with a backslash before every scalar that is special in a regular
/// expression.
pub open spec fn regexp_escaped(s: Seq<char>) -> Seq<char>
    decreases s.len(),
{
    if s.len() == 0 {
        Seq::empty()
    } else if is_regexp_special(s.last()) {
        regexp_escaped(s.drop_last()).push('\\').push(s.last())
    } else {
        regexp_escaped(s.drop_last()).push(s.last())
    }
}

/// Escapes the regular expression special characters
/// `- [ ] / { } ( ) * + ? . \ ^ $ |` of `subject` with a backslash.
pub fn escape_regexp(subject: &str) -> (text: String)
    ensures
        text@ == regexp_escaped(subject@),
{
    let s = scalars(subject);
    let mut text = String::new();
    let mut i: usize = 0;
    while i < s.len()
        invariant
            i <= s@.len(),
            text@ == regexp_escaped(s@.subrange(0, i as int)),
        decreases s@.len() - i,
    {
        let c = s[i];
        if c == '-' || c == '[' || c == ']' || c == '/' || c == '{' || c == '}' || c == '(' || c
            == ')' || c == '*' || c == '+' || c == '?' || c == '.' || c == '\\' || c == '^' || c
            == '$' || c == '|' {
            crate::text::push_scalar(&mut text, '\\');
        }
        crate::text::push_scalar(&mut text, c);
        assert(s@.subrange(0, i as int + 1).drop_last() =~= s@.subrange(0, i as int));
        i += 1;
    }
    assert(s@.subrange(0, i as int) =~= s@);
    text
}

/// `s` with the six HTML entities replaced by their characters, one entity
/// after the other: first every `&lt;`, then `&gt;`, `&amp;`, `&quot;`,
/// `&#x27;` and `&#x60;`.
pub open spec fn html_unescaped(s: Seq<char>) -> Seq<char> {
    let a = replaced(s, html_entity('<'), seq!['<']);
    let b = replaced(a, html_entity('>'), seq!['>']);
    let c = replaced(b, html_entity('&'), seq!['&']);
    let d = replaced(c, html_entity('"'), seq!['"']);
    let e = replaced(d, html_entity('\''), seq!['\'']);
    replaced(e, html_entity('`'), seq!['`'])
}

fn unescape_one(s: Vec<char>, c: char) -> (out: Vec<char>)
    requires
        html_entity(c) != seq![c],
    ensures
        out@ == replaced(s@, html_entity(c), seq![c]),
{
    let e = entity(c);
    let pattern = scalars(e);
    let mut replacement: Vec<char> = Vec::new();
    replacement.push(c);
    assert(replacement@ =~= seq![c]);
    replace_every(&s, &pattern, &replacement)
}

/// Unescapes the HTML entities `&lt;`, `&gt;`, `&amp;`, `&quot;`, `&#x27;`
/// and `&#x60;` of `subject`.
pub fn unescape_html(subject: &str) -> (text: String)
    ensures
        text@ == html_unescaped(subject@),
{
    let s = scalars(subject);
    proof {
        assert(html_entity('<').len() == 4);
        assert(html_entity('>').len() == 4);
        assert(html_entity('&').len() == 5);
        assert(html_entity('"').len() == 6);
        assert(html_entity('\'').len() == 6);
        assert(html_entity('`').len() == 6);
        assert(seq!['<'].len() == 1);
    }
    let a = unescape_one(s, '<');
    let b = unescape_one(a, '>');
    let c = unescape_one(b, '&');
    let d = unescape_one(c, '"');
    let e = unescape_one(d, '\'');
    let f = unescape_one(e, '`');
    text_of(&f, 0, f.len())
}

/// The place of `c` among the six characters that unescaping restores, in
/// the order in which it restores them; zero for any other scalar.
pub open spec fn rank(c: char) -> int {
    if c == '<' {
        1
    } else if c == '>' {
        2
    } else if c == '&' {
        3
    } else if c == '"' {
        4
    } else if c == '\'' {
        5
    } else if c == '`' {
        6
    } else {
        0
    }
}

/// The character with the given rank.
pub open spec fn ranked(k: int) -> char {
    if k == 1 {
        '<'
    } else if k == 2 {
        '>'
    } else if k == 3 {
        '&'
    } else if k == 4 {
        '"'
    } else if k == 5 {
        '\''
    } else {
        '`'
    }
}

/// What stands for `c` in an escaped text once the entities of the first
/// `k` ranks were restored.
pub open spec fn form(k: int, c: char) -> Seq<char> {
    if 1 <= rank(c) <= k {
        seq![c]
    } else {
        html_entity(c)
    }
}

/// `s` from `j` on, each scalar in its form after `k` ranks were restored.
pub open spec fn forms_from(s: Seq<char>, k: int, j: int) -> Seq<char>
    decreases s.len() - j,
{
    if j < 0 || j >= s.len() {
        Seq::empty()
    } else {
        form(k, s[j]) + forms_from(s, k, j + 1)
    }
}

/// One more scalar at the end of a text adds its form at the end.
pub proof fn lemma_forms_push(s: Seq<char>, c: char, k: int, j: int)
    requires
        0 <= j <= s.len(),
    ensures
        forms_from(s.push(c), k, j) == forms_from(s, k, j) + form(k, c),
    decreases s.len() - j,
{
    let t = s.push(c);
    if j < s.len() {
        lemma_forms_push(s, c, k, j + 1);
        assert(t[j] == s[j]);
        assert(forms_from(t, k, j) =~= forms_from(s, k, j) + form(k, c));
    } else {
        assert(forms_from(t, k, j + 1) =~= Seq::<char>::empty());
        assert(forms_from(t, k, j) =~= forms_from(s, k, j) + form(k, c));
    }
}

/// An escaped text is the text with every scalar in its first form.
pub proof fn lemma_escaped_forms(s: Seq<char>)
    ensures
        html_escaped(s) == forms_from(s, 0, 0),
    decreases s.len(),
{
    if s.len() > 0 {
        lemma_escaped_forms(s.drop_last());
        lemma_forms_push(s.drop_last(), s.last(), 0, 0);
        assert(s.drop_last().push(s.last()) =~= s);
    }
}

/// Once all six ranks were restored, the text is itself again.
pub proof fn lemma_last_forms(s: Seq<char>, j: int)
    requires
        0 <= j <= s.len(),
    ensures
        forms_from(s, 6, j) == s.subrange(j, s.len() as int),
    decreases s.len() - j,
{
    if j < s.len() {
        lemma_last_forms(s, j + 1);
        assert(form(6, s[j]) =~= seq![s[j]]);
        assert(seq![s[j]] + s.subrange(j + 1, s.len() as int) =~= s.subrange(j, s.len() as int));
    } else {
        assert(s.subrange(j, s.len() as int) =~= Seq::<char>::empty());
    }
}

/// Where the first scalar of the pattern stands nowhere in a stretch of a
/// text, replacing copies the stretch.
pub proof fn lemma_stretch_is_copied(
    t: Seq<char>,
    pattern: Seq<char>,
    replacement: Seq<char>,
    pos: int,
    n: int,
)
    requires
        pattern.len() > 0,
        0 <= pos,
        0 <= n,
        pos + n <= t.len(),
        forall|m: int| pos <= m < pos + n ==> t[m] != pattern[0],
    ensures
        replaced_from(t, pattern, replacement, pos) == t.subrange(pos, pos + n) + replaced_from(
            t,
            pattern,
            replacement,
            pos + n,
        ),
    decreases n,
{
    if n > 0 {
        lemma_stretch_is_copied(t, pattern, replacement, pos + 1, n - 1);
        if occurs_at(t, pattern, pos) {
            assert(t.subrange(pos, pos + pattern.len())[0] == pattern[0]);
            assert(false);
        }
        assert(seq![t[pos]] + (t.subrange(pos + 1, pos + n) + replaced_from(
            t,
            pattern,
            replacement,
            pos + n,
        )) =~= t.subrange(pos, pos + n) + replaced_from(t, pattern, replacement, pos + n));
    } else {
        assert(t.subrange(pos, pos) + replaced_from(t, pattern, replacement, pos)
            =~= replaced_from(t, pattern, replacement, pos));
    }
}

/// A text whose end from `pos` on is a block and a rest holds the block at
/// `pos` and the rest after it.
pub proof fn lemma_block_and_rest(t: Seq<char>, pos: int, block: Seq<char>, rest: Seq<char>)
    requires
        0 <= pos <= t.len(),
        t.subrange(pos, t.len() as int) == block + rest,
    ensures
        pos + block.len() + rest.len() == t.len(),
        t.subrange(pos, pos + block.len()) == block,
        t.subrange(pos + block.len(), t.len() as int) == rest,
{
    let end = t.len() as int;
    let tail = t.subrange(pos, end);
    let n = block.len() as int;
    assert(tail.len() == end - pos);
    assert((block + rest).len() == n + rest.len());
    assert(tail.subrange(0, n) =~= block);
    assert(tail.subrange(n, tail.len() as int) =~= rest);
    assert(t.subrange(pos, pos + n) =~= tail.subrange(0, n));
    assert(t.subrange(pos + n, end) =~= tail.subrange(n, tail.len() as int));
}

/// An entity that is not the pattern is copied when the pattern, another
/// entity, is replaced: the two differ in their second or in their fourth
/// scalar, and an entity holds no ampersand after its first scalar.
pub proof fn lemma_other_entity_is_copied(
    t: Seq<char>,
    pattern: Seq<char>,
    replacement: Seq<char>,
    pos: int,
    block: Seq<char>,
)
    requires
        0 <= pos,
        pos + block.len() <= t.len(),
        t.subrange(pos, pos + block.len()) == block,
        block.len() >= 4,
        pattern.len() >= 4,
        pattern[0] == '&',
        forall|m: int| 1 <= m < block.len() ==> block[m] != '&',
        block[1] != pattern[1] || block[3] != pattern[3],
    ensures
        replaced_from(t, pattern, replacement, pos) == block + replaced_from(
            t,
            pattern,
            replacement,
            pos + block.len(),
        ),
{
    let n = block.len() as int;
    assert forall|m: int| 0 <= m < n implies t[pos + m] == block[m] by {
        assert(t.subrange(pos, pos + n)[m] == block[m]);
    }
    if occurs_at(t, pattern, pos) {
        assert(t.subrange(pos, pos + pattern.len())[1] == pattern[1]);
        assert(t.subrange(pos, pos + pattern.len())[3] == pattern[3]);
        assert(t[pos + 1] == block[1]);
        assert(t[pos + 3] == block[3]);
        assert(false);
    }
    assert forall|m: int| pos + 1 <= m < pos + n implies t[m] != pattern[0] by {
        assert(t[pos + (m - pos)] == block[m - pos]);
    }
    lemma_stretch_is_copied(t, pattern, replacement, pos + 1, n - 1);
    assert(seq![t[pos]] + t.subrange(pos + 1, pos + n) =~= block);
    assert(replaced_from(t, pattern, replacement, pos) =~= block + replaced_from(
        t,
        pattern,
        replacement,
        pos + n,
    ));
}

/// Restoring the entity of rank `k` takes a text in which the first `k - 1`
/// ranks were restored to one in which the first `k` are, read from scalar
/// `j` of `s` on, which stands at `pos` in the text.
pub proof fn lemma_rank_is_restored(s: Seq<char>, k: int, j: int, pos: int)
    requires
        1 <= k <= 6,
        !s.contains('&'),
        0 <= j <= s.len(),
        0 <= pos <= forms_from(s, k - 1, 0).len(),
        forms_from(s, k - 1, 0).subrange(pos, forms_from(s, k - 1, 0).len() as int) == forms_from(
            s,
            k - 1,
            j,
        ),
    ensures
        replaced_from(forms_from(s, k - 1, 0), html_entity(ranked(k)), seq![ranked(k)], pos)
            == forms_from(s, k, j),
    decreases s.len() - j,
{
    let t = forms_from(s, k - 1, 0);
    let end = t.len() as int;
    let pattern = html_entity(ranked(k));
    let replacement = seq![ranked(k)];
    if j < s.len() {
        let c = s[j];
        let block = form(k - 1, c);
        let rest = forms_from(s, k - 1, j + 1);
        let n = block.len() as int;
        assert(s.contains(c));
        assert(t.subrange(pos, end) == block + rest);
        lemma_block_and_rest(t, pos, block, rest);
        assert forall|m: int| 0 <= m < n implies t[pos + m] == block[m] by {
            assert(t.subrange(pos, pos + n)[m] == block[m]);
        }
        lemma_rank_is_restored(s, k, j + 1, pos + n);
        if rank(c) == k {
            assert(t.subrange(pos, pos + n) =~= pattern);
            assert(occurs_at(t, pattern, pos));
            assert(form(k, c) =~= replacement);
        } else if n == 1 {
            assert(block[0] != '&');
            lemma_stretch_is_copied(t, pattern, replacement, pos, 1);
            assert(t.subrange(pos, pos + 1) =~= block);
            assert(form(k, c) == block);
        } else {
            assert(block == html_entity(c));
            assert(block[1] != pattern[1] || block[3] != pattern[3]);
            lemma_other_entity_is_copied(t, pattern, replacement, pos, block);
            assert(form(k, c) == block);
        }
    } else {
        assert(forms_from(s, k - 1, j) =~= Seq::<char>::empty());
        assert(pos == end);
    }
}

/// Unescaping gives an escaped text back, for a text without an ampersand.
/// With one the law fails: `&quot;` is escaped with its ampersand as an
/// entity, which is restored before the entity of the quote is looked for.
pub proof fn lemma_unescape_escaped(s: Seq<char>)
    requires
        !s.contains('&'),
    ensures
        html_unescaped(html_escaped(s)) == s,
{
    lemma_escaped_forms(s);
    let t0 = forms_from(s, 0, 0);
    assert(t0.subrange(0, t0.len() as int) =~= t0);
    lemma_rank_is_restored(s, 1, 0, 0);
    let t1 = forms_from(s, 1, 0);
    assert(t1.subrange(0, t1.len() as int) =~= t1);
    lemma_rank_is_restored(s, 2, 0, 0);
    let t2 = forms_from(s, 2, 0);
    assert(t2.subrange(0, t2.len() as int) =~= t2);
    lemma_rank_is_restored(s, 3, 0, 0);
    let t3 = forms_from(s, 3, 0);
    assert(t3.subrange(0, t3.len() as int) =~= t3);
    lemma_rank_is_restored(s, 4, 0, 0);
    let t4 = forms_from(s, 4, 0);
    assert(t4.subrange(0, t4.len() as int) =~= t4);
    lemma_rank_is_restored(s, 5, 0, 0);
    let t5 = forms_from(s, 5, 0);
    assert(t5.subrange(0, t5.len() as int) =~= t5);
    lemma_rank_is_restored(s, 6, 0, 0);
    lemma_last_forms(s, 0);
    assert(s.subrange(0, s.len() as int) =~= s);
}

} // verus!
