//! Strips a byte order mark or HTML-like markup from a subject.

use crate::split::{grapheme_clusters, graphemes, token_texts};
use crate::text::{concat, is_scalar};
use vstd::prelude::*;
use vstd::string::*;

verus! {

/// Strips the byte order mark from the start of `subject`, if it starts
/// with one.
pub fn strip_bom(subject: &str) -> (text: String)
    ensures
        text@ == if subject@.len() > 0 && subject@[0] == '\u{feff}' {
            subject@.subrange(1, subject@.len() as int)
        } else {
            subject@
        },
{
    let n = subject.unicode_len();
    if n > 0 && subject.get_char(0) == '\u{feff}' {
        String::from_str(subject.substring_char(1, n))
    } else {
        String::from_str(subject)
    }
}

/// Where the tag stripper stands in the markup.
#[derive(Clone, Copy, PartialEq, Eq, Structural, Debug)]
pub enum StateMode {
    /// Plain text: tokens are emitted.
    Output,
    /// Inside a tag.
    Html,
    /// Just after `<!`.
    Exclamation,
    /// Inside `<!-- -->`.
    Comment,
}

/// The state of the tag stripper between two tokens.
#[derive(Clone, Copy, Debug)]
pub struct TagStripperState {
    pub mode: StateMode,
    /// How many `<` inside the current tag are still open.
    pub depth: usize,
    /// The quote that opened the attribute value the stripper is in, if any.
    pub quote: Option<char>,
}

/// The state before the first token.
pub open spec fn initial_state() -> TagStripperState {
    TagStripperState { mode: StateMode::Output, depth: 0, quote: None }
}

/// Token `i` exists and is the single scalar `c`.
pub open spec fn token_is(tokens: Seq<Seq<char>>, i: int, c: char) -> bool {
    0 <= i < tokens.len() && tokens[i].len() == 1 && tokens[i][0] == c
}

/// Token `i` exists and is one of the two given scalars.
pub open spec fn token_is_either(tokens: Seq<Seq<char>>, i: int, a: char, b: char) -> bool {
    token_is(tokens, i, a) || token_is(tokens, i, b)
}

/// The seven tokens that end at `i` spell `doctype`, in any mix of cases.
pub open spec fn ends_doctype(tokens: Seq<Seq<char>>, i: int) -> bool {
    &&& token_is_either(tokens, i - 6, 'd', 'D')
    &&& token_is_either(tokens, i - 5, 'o', 'O')
    &&& token_is_either(tokens, i - 4, 'c', 'C')
    &&& token_is_either(tokens, i - 3, 't', 'T')
    &&& token_is_either(tokens, i - 2, 'y', 'Y')
    &&& token_is_either(tokens, i - 1, 'p', 'P')
    &&& token_is_either(tokens, i, 'e', 'E')
}

/// The three tokens that end at `i` are `-->`.
pub open spec fn ends_comment(tokens: Seq<Seq<char>>, i: int) -> bool {
    token_is(tokens, i - 2, '-') && token_is(tokens, i - 1, '-') && token_is(tokens, i, '>')
}

/// The three tokens that end at `i` are `!--`.
pub open spec fn opens_comment(tokens: Seq<Seq<char>>, i: int) -> bool {
    token_is(tokens, i - 2, '!') && token_is(tokens, i - 1, '-') && token_is(tokens, i, '-')
}

/// One step of the tag stripper: the state after token `i`, and whether the
/// token belongs to the text. Only a token read in `Output` that leaves the
/// stripper in `Output` is text.
pub open spec fn step(state: TagStripperState, tokens: Seq<Seq<char>>, i: int) -> (
    TagStripperState,
    bool,
) {
    let in_text = state.mode == StateMode::Output;
    if token_is(tokens, i, '<') {
        if state.quote is Some {
            (state, false)
        } else if token_is(tokens, i + 1, ' ') {
            (state, in_text)
        } else if state.mode == StateMode::Output {
            (TagStripperState { mode: StateMode::Html, ..state }, false)
        } else if state.mode == StateMode::Html {
            (TagStripperState { depth: (state.depth + 1) as usize, ..state }, false)
        } else {
            (state, false)
        }
    } else if token_is(tokens, i, '!') {
        if state.mode == StateMode::Html && token_is(tokens, i - 1, '<') {
            (TagStripperState { mode: StateMode::Exclamation, ..state }, false)
        } else {
            (state, in_text)
        }
    } else if token_is(tokens, i, '-') {
        if state.mode == StateMode::Exclamation && opens_comment(tokens, i) {
            (TagStripperState { mode: StateMode::Comment, ..state }, false)
        } else {
            (state, in_text)
        }
    } else if token_is_either(tokens, i, '"', '\'') {
        if state.mode == StateMode::Html {
            if state.quote == Some(tokens[i][0]) {
                (TagStripperState { quote: None, ..state }, false)
            } else if state.quote is None {
                (TagStripperState { quote: Some(tokens[i][0]), ..state }, false)
            } else {
                (state, false)
            }
        } else {
            (state, in_text)
        }
    } else if token_is_either(tokens, i, 'e', 'E') {
        if state.mode == StateMode::Exclamation && ends_doctype(tokens, i) {
            (TagStripperState { mode: StateMode::Html, ..state }, false)
        } else {
            (state, in_text)
        }
    } else if token_is(tokens, i, '>') {
        if state.depth > 0 {
            (TagStripperState { depth: (state.depth - 1) as usize, ..state }, false)
        } else if state.quote is Some {
            (state, false)
        } else if state.mode == StateMode::Html || state.mode == StateMode::Exclamation || (
        state.mode == StateMode::Comment && ends_comment(tokens, i)) {
            (TagStripperState { mode: StateMode::Output, depth: state.depth, quote: None }, false)
        } else {
            (state, in_text)
        }
    } else {
        (state, in_text)
    }
}

/// The state of the stripper and the text it has emitted after the first
/// `n` tokens.
pub open spec fn run(tokens: Seq<Seq<char>>, n: int) -> (TagStripperState, Seq<char>)
    decreases n,
{
    if n <= 0 {
        (initial_state(), Seq::empty())
    } else {
        let (state, text) = run(tokens, n - 1);
        let (next, emit) = step(state, tokens, n - 1);
        (
            next,
            if emit {
                text + tokens[n - 1]
            } else {
                text
            },
        )
    }
}

/// What is left of a text, given as its tokens, once the markup is gone.
/// A tag that never closes swallows the rest.
pub open spec fn stripped(tokens: Seq<Seq<char>>) -> Seq<char> {
    run(tokens, tokens.len() as int).1
}

/// While the stripper runs, no more `<` are open than tokens were read.
pub proof fn lemma_depth_bounded(tokens: Seq<Seq<char>>, n: int)
    requires
        0 <= n <= tokens.len(),
    ensures
        run(tokens, n).0.depth <= n,
    decreases n,
{
    if n > 0 {
        lemma_depth_bounded(tokens, n - 1);
    }
}

/// None of the first `n` tokens is `<`.
pub open spec fn opens_no_tag(tokens: Seq<Seq<char>>, n: int) -> bool {
    forall|i: int| 0 <= i < n ==> !token_is(tokens, i, '<')
}

/// As long as no tag opens, the stripper stays in `Output` and emits every
/// token.
pub proof fn lemma_plain_text_is_kept(tokens: Seq<Seq<char>>, n: int)
    requires
        0 <= n <= tokens.len(),
        opens_no_tag(tokens, n),
    ensures
        run(tokens, n) == (initial_state(), concat(tokens.subrange(0, n))),
    decreases n,
{
    if n > 0 {
        lemma_plain_text_is_kept(tokens, n - 1);
        assert(!token_is(tokens, n - 1, '<'));
        assert(tokens.subrange(0, n).drop_last() =~= tokens.subrange(0, n - 1));
        assert(tokens.subrange(0, n).last() == tokens[n - 1]);
    }
}

/// Stripping the tags of a text without a `<` changes nothing.
pub proof fn lemma_text_without_tags(tokens: Seq<Seq<char>>)
    requires
        opens_no_tag(tokens, tokens.len() as int),
    ensures
        stripped(tokens) == concat(tokens),
{
    lemma_plain_text_is_kept(tokens, tokens.len() as int);
    assert(tokens.subrange(0, tokens.len() as int) =~= tokens);
}

fn at(tokens: &Vec<&str>, i: usize, back: usize, c: char) -> (b: bool)
    ensures
        b == token_is(token_texts(tokens@), i - back, c),
{
    if back > i || i - back >= tokens.len() {
        false
    } else {
        is_scalar(tokens[i - back], c)
    }
}

fn at_either(tokens: &Vec<&str>, i: usize, back: usize, a: char, b: char) -> (r: bool)
    ensures
        r == token_is_either(token_texts(tokens@), i - back, a, b),
{
    at(tokens, i, back, a) || at(tokens, i, back, b)
}

/// One step of the tag stripper on the tokens of a text.
pub fn advance(state: TagStripperState, tokens: &Vec<&str>, i: usize) -> (r: (
    TagStripperState,
    bool,
))
    requires
        i < tokens@.len(),
        state.depth < usize::MAX,
    ensures
        r == step(state, token_texts(tokens@), i as int),
{
    let ghost texts = token_texts(tokens@);
    let in_text = state.mode == StateMode::Output;
    if at(tokens, i, 0, '<') {
        if state.quote.is_some() {
            (state, false)
        } else if i < tokens.len() - 1 && is_scalar(tokens[i + 1], ' ') {
            (state, in_text)
        } else if state.mode == StateMode::Output {
            (TagStripperState { mode: StateMode::Html, ..state }, false)
        } else if state.mode == StateMode::Html {
            (TagStripperState { depth: state.depth + 1, ..state }, false)
        } else {
            (state, false)
        }
    } else if at(tokens, i, 0, '!') {
        if state.mode == StateMode::Html && at(tokens, i, 1, '<') {
            (TagStripperState { mode: StateMode::Exclamation, ..state }, false)
        } else {
            (state, in_text)
        }
    } else if at(tokens, i, 0, '-') {
        if state.mode == StateMode::Exclamation && at(tokens, i, 2, '!') && at(tokens, i, 1, '-') {
            (TagStripperState { mode: StateMode::Comment, ..state }, false)
        } else {
            (state, in_text)
        }
    } else if at_either(tokens, i, 0, '"', '\'') {
        if state.mode == StateMode::Html {
            let c = tokens[i].get_char(0);
            match state.quote {
                None => (TagStripperState { quote: Some(c), ..state }, false),
                Some(q) => {
                    if q == c {
                        (TagStripperState { quote: None, ..state }, false)
                    } else {
                        (state, false)
                    }
                },
            }
        } else {
            (state, in_text)
        }
    } else if at_either(tokens, i, 0, 'e', 'E') {
        if state.mode == StateMode::Exclamation && at_either(tokens, i, 6, 'd', 'D') && at_either(
            tokens,
            i,
            5,
            'o',
            'O',
        ) && at_either(tokens, i, 4, 'c', 'C') && at_either(tokens, i, 3, 't', 'T') && at_either(
            tokens,
            i,
            2,
            'y',
            'Y',
        ) && at_either(tokens, i, 1, 'p', 'P') {
            (TagStripperState { mode: StateMode::Html, ..state }, false)
        } else {
            (state, in_text)
        }
    } else if at(tokens, i, 0, '>') {
        if state.depth > 0 {
            (TagStripperState { depth: state.depth - 1, ..state }, false)
        } else if state.quote.is_some() {
            (state, false)
        } else if state.mode == StateMode::Html || state.mode == StateMode::Exclamation || (
        state.mode == StateMode::Comment && at(tokens, i, 2, '-') && at(tokens, i, 1, '-')) {
            (TagStripperState { mode: StateMode::Output, depth: state.depth, quote: None }, false)
        } else {
            (state, in_text)
        }
    } else {
        (state, in_text)
    }
}

/// Strips all HTML tags, comments and doctype declarations from `subject`,
/// reading it cluster by cluster.
pub fn strip_tags(subject: &str) -> (text: String)
    ensures
        subject@.len() == 0 ==> text@.len() == 0,
        subject@.len() > 0 ==> text@ == stripped(grapheme_clusters(subject@)),
{
    if subject.is_empty() {
        return String::new();
    }
    let tokens = graphemes(subject);
    strip_html_tags(&tokens)
}

/// Runs the tag stripper over the tokens of a text and collects what it
/// emits.
pub fn strip_html_tags(tokens: &Vec<&str>) -> (text: String)
    ensures
        text@ == stripped(token_texts(tokens@)),
{
    let ghost texts = token_texts(tokens@);
    let mut state = TagStripperState { mode: StateMode::Output, depth: 0, quote: None };
    let mut text = String::new();
    let mut i: usize = 0;
    while i < tokens.len()
        invariant
            i <= tokens@.len(),
            texts == token_texts(tokens@),
            (state, text@) == run(texts, i as int),
        decreases tokens@.len() - i,
    {
        proof {
            lemma_depth_bounded(texts, i as int);
        }
        let (next, emit) = advance(state, tokens, i);
        if emit {
            text.append(tokens[i]);
        }
        state = next;
        i += 1;
    }
    text
}

} // verus!
