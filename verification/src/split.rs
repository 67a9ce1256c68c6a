//! Splits a subject into scalars, grapheme clusters, words and code units.

use crate::scalar::{is_lower, is_upper, scalar_is_lowercase, scalar_is_uppercase};
use crate::text::{
    concat,
    is_partition,
    lemma_concat_single,
    lemma_partition_counts,
    matches_at,
    occurs_at,
    scalars,
};
use crate::word_laws::lemma_words_keep_scalars;
use unicode_segmentation::UnicodeSegmentation;
use vstd::prelude::*;
use vstd::string::*;

verus! {

/// The scalars of `s`, each as a text of its own. An empty text has one
/// scalar token, the empty one.
pub open spec fn scalar_tokens(s: Seq<char>) -> Seq<Seq<char>> {
    if s.len() == 0 {
        seq![Seq::<char>::empty()]
    } else {
        Seq::new(s.len(), |i: int| seq![s[i]])
    }
}

/// The texts that a vector of borrowed tokens holds, in order.
pub open spec fn token_texts(tokens: Seq<&str>) -> Seq<Seq<char>> {
    Seq::new(tokens.len(), |i: int| tokens[i]@)
}

/// The first `n` scalar tokens of a text, laid end to end, are its first
/// `n` scalars.
pub proof fn lemma_scalar_tokens_concat(s: Seq<char>, n: int)
    requires
        0 <= n <= s.len(),
    ensures
        concat(Seq::new(n as nat, |i: int| seq![s[i]])) == s.subrange(0, n),
    decreases n,
{
    let tokens = Seq::new(n as nat, |i: int| seq![s[i]]);
    if n > 0 {
        lemma_scalar_tokens_concat(s, n - 1);
        assert(tokens.drop_last() =~= Seq::new((n - 1) as nat, |i: int| seq![s[i]]));
        assert(s.subrange(0, n - 1) + tokens.last() =~= s.subrange(0, n));
    } else {
        assert(s.subrange(0, 0) =~= Seq::<char>::empty());
    }
}

/// Splits `subject` into its scalars. Laid end to end the tokens give the
/// subject back.
pub fn chars(subject: &str) -> (tokens: Vec<&str>)
    ensures
        token_texts(tokens@) == scalar_tokens(subject@),
        concat(token_texts(tokens@)) == subject@,
{
    let n = subject.unicode_len();
    let mut tokens: Vec<&str> = Vec::new();
    if n == 0 {
        tokens.push(subject);
        assert(token_texts(tokens@) =~~= scalar_tokens(subject@));
        proof {
            lemma_concat_single(subject@);
        }
        return tokens;
    }
    let mut i: usize = 0;
    while i < n
        invariant
            n == subject@.len(),
            i <= n,
            tokens@.len() == i,
            forall|k: int| 0 <= k < i ==> (#[trigger] tokens@[k])@ == seq![subject@[k]],
        decreases n - i,
    {
        let piece = subject.substring_char(i, i + 1);
        assert(piece@ =~= seq![subject@[i as int]]);
        tokens.push(piece);
        i += 1;
    }
    assert(token_texts(tokens@) =~~= scalar_tokens(subject@));
    proof {
        lemma_scalar_tokens_concat(subject@, n as int);
        assert(subject@.subrange(0, n as int) =~= subject@);
    }
    tokens
}

/// The extended grapheme clusters of a text, in order, as Unicode's rules
/// of text segmentation cut it. The rules fill tables, so the contracts name
/// the result and state of it only that it cuts the text into pieces.
pub uninterp spec fn grapheme_clusters(s: Seq<char>) -> Seq<Seq<char>>;

/// The grapheme tokens of `s`. An empty text has one token, the empty one.
pub open spec fn grapheme_tokens(s: Seq<char>) -> Seq<Seq<char>> {
    if s.len() == 0 {
        seq![Seq::<char>::empty()]
    } else {
        grapheme_clusters(s)
    }
}

/// Trusted: `UnicodeSegmentation::graphemes` of unicode-segmentation, asked
/// for extended clusters. Its iterator hands out consecutive substrings of
/// the text from the first byte to the last, each holding at least one
/// scalar; which substrings they are is named, not stated.
#[verifier::external_body]
pub(crate) fn extended_clusters(subject: &str) -> (pieces: Vec<&str>)
    ensures
        token_texts(pieces@) == grapheme_clusters(subject@),
        is_partition(subject@, token_texts(pieces@)),
{
    UnicodeSegmentation::graphemes(subject, true).collect()
}

/// Splits `subject` into its grapheme clusters. Laid end to end the tokens
/// give the subject back.
pub fn graphemes(subject: &str) -> (tokens: Vec<&str>)
    ensures
        token_texts(tokens@) == grapheme_tokens(subject@),
        concat(token_texts(tokens@)) == subject@,
        tokens@.len() >= 1,
        subject@.len() > 0 ==> is_partition(subject@, token_texts(tokens@)),
{
    if subject.is_empty() {
        let mut tokens: Vec<&str> = Vec::new();
        tokens.push(subject);
        assert(token_texts(tokens@) =~~= grapheme_tokens(subject@));
        proof {
            lemma_concat_single(subject@);
        }
        return tokens;
    }
    let tokens = extended_clusters(subject);
    proof {
        lemma_partition_counts(subject@, token_texts(tokens@));
        if tokens@.len() == 0 {
            assert(concat(token_texts(tokens@)) =~= Seq::<char>::empty());
        }
    }
    tokens
}

/// The words of a text as Unicode's rules of text segmentation cut them,
/// without the segments that hold no letter and no digit. The rules fill
/// tables, so the contracts name the result.
pub uninterp spec fn unicode_word_segments(s: Seq<char>) -> Seq<Seq<char>>;

/// Trusted: `UnicodeSegmentation::unicode_words` of unicode-segmentation,
/// whose iterator hands out, in order, the segments between word boundaries
/// that hold a letter or a digit; which segments they are is named, not
/// stated.
#[verifier::external_body]
pub(crate) fn unicode_word_pieces(subject: &str) -> (pieces: Vec<&str>)
    ensures
        token_texts(pieces@) == unicode_word_segments(subject@),
{
    subject.unicode_words().collect()
}

/// `c` separates the words of an identifier.
pub open spec fn is_delimiter(c: char) -> bool {
    c == '-' || c == '_'
}

/// The pieces of `s[start..]` between delimiters, read from `i` on, where the
/// piece being read began at `start`. Empty pieces are left out.
pub open spec fn pieces_from(s: Seq<char>, start: int, i: int) -> Seq<Seq<char>>
    decreases s.len() - i,
{
    if i >= s.len() {
        if start < s.len() {
            seq![s.subrange(start, s.len() as int)]
        } else {
            Seq::empty()
        }
    } else if is_delimiter(s[i]) {
        if start < i {
            seq![s.subrange(start, i)] + pieces_from(s, i + 1, i + 1)
        } else {
            pieces_from(s, i + 1, i + 1)
        }
    } else {
        pieces_from(s, start, i + 1)
    }
}

/// The pieces of `s` between `-` and `_`, without the empty ones.
pub open spec fn delimited_pieces(s: Seq<char>) -> Seq<Seq<char>> {
    pieces_from(s, 0, 0)
}

/// What the scalars read so far say of the word being read.
#[derive(Clone, Copy, PartialEq, Eq, Structural, Debug)]
pub enum WordMode {
    /// The word has no cased scalar yet.
    Boundary,
    /// The last cased scalar of the word is lower case.
    Lowercase,
    /// The last cased scalar of the word is upper case.
    Uppercase,
}

/// The mode after `c` was read in `mode`: a scalar without case keeps it.
pub open spec fn mode_after(mode: WordMode, c: char) -> WordMode {
    if scalar_is_lowercase(c) {
        WordMode::Lowercase
    } else if scalar_is_uppercase(c) {
        WordMode::Uppercase
    } else {
        mode
    }
}

/// A word ends after `s[i]`: the word's case is lower and an upper case
/// scalar follows, as between `foo` and `Bar`.
pub open spec fn ends_word_after(s: Seq<char>, mode: WordMode, i: int) -> bool {
    mode_after(mode, s[i]) == WordMode::Lowercase && scalar_is_uppercase(s[i + 1])
}

/// A word ends before `s[i]`: it is the last of a run of upper case scalars
/// and a lower case one follows, as between `XML` and `Http`.
pub open spec fn ends_word_before(s: Seq<char>, mode: WordMode, i: int) -> bool {
    mode == WordMode::Uppercase && scalar_is_uppercase(s[i]) && scalar_is_lowercase(s[i + 1])
}

/// The camel case words of `s[start..]`, read from `i` on in `mode`, where
/// the word being read began at `start`.
pub open spec fn camel_from(s: Seq<char>, mode: WordMode, start: int, i: int) -> Seq<Seq<char>>
    decreases s.len() - i,
{
    if i + 1 >= s.len() {
        seq![s.subrange(start, s.len() as int)]
    } else if ends_word_after(s, mode, i) {
        seq![s.subrange(start, i + 1)] + camel_from(s, WordMode::Boundary, i + 1, i + 1)
    } else if ends_word_before(s, mode, i) {
        seq![s.subrange(start, i)] + camel_from(s, WordMode::Boundary, i, i + 1)
    } else {
        camel_from(s, mode_after(mode, s[i]), start, i + 1)
    }
}

/// The words of a camelCase or PascalCase identifier.
pub open spec fn camel_words(s: Seq<char>) -> Seq<Seq<char>> {
    camel_from(s, WordMode::Boundary, 0, 0)
}

/// The camel case words of all pieces, in order.
pub open spec fn camel_words_of_all(pieces: Seq<Seq<char>>) -> Seq<Seq<char>>
    decreases pieces.len(),
{
    if pieces.len() == 0 {
        Seq::empty()
    } else {
        camel_words_of_all(pieces.drop_last()) + camel_words(pieces.last())
    }
}

/// The words of a text, given as its word segments: every segment is cut at
/// its delimiters and every piece at its case changes.
pub open spec fn words_of(segments: Seq<Seq<char>>) -> Seq<Seq<char>>
    decreases segments.len(),
{
    if segments.len() == 0 {
        Seq::empty()
    } else {
        words_of(segments.drop_last()) + camel_words_of_all(delimited_pieces(segments.last()))
    }
}

/// `s` from `i` on without its delimiters.
pub open spec fn undelimited(s: Seq<char>, i: int) -> Seq<char>
    decreases s.len() - i,
{
    if i < 0 || i >= s.len() {
        Seq::empty()
    } else if is_delimiter(s[i]) {
        undelimited(s, i + 1)
    } else {
        seq![s[i]] + undelimited(s, i + 1)
    }
}

/// The segments laid end to end, without their delimiters.
pub open spec fn undelimited_all(segments: Seq<Seq<char>>) -> Seq<char>
    decreases segments.len(),
{
    if segments.len() == 0 {
        Seq::empty()
    } else {
        undelimited_all(segments.drop_last()) + undelimited(segments.last(), 0)
    }
}

/// Appends to `words` what `segment` holds between its delimiters.
pub fn push_delimited<'a>(words: &mut Vec<&'a str>, segment: &'a str)
    ensures
        token_texts(final(words)@) == token_texts(old(words)@) + delimited_pieces(segment@),
{
    let cs = scalars(segment);
    let n = cs.len();
    let ghost before = token_texts(words@);
    let mut start: usize = 0;
    let mut i: usize = 0;
    while i < n
        invariant
            cs@ == segment@,
            n == cs@.len(),
            start <= i <= n,
            token_texts(words@) + pieces_from(segment@, start as int, i as int) == before
                + delimited_pieces(segment@),
        decreases n - i,
    {
        let ghost so_far = token_texts(words@);
        if cs[i] == '-' || cs[i] == '_' {
            if start < i {
                let piece = segment.substring_char(start, i);
                words.push(piece);
                assert(token_texts(words@) =~= so_far + seq![piece@]);
                assert(so_far + (seq![piece@] + pieces_from(segment@, i as int + 1, i as int + 1))
                    =~= (so_far + seq![piece@]) + pieces_from(
                    segment@,
                    i as int + 1,
                    i as int + 1,
                ));
            }
            start = i + 1;
        }
        i += 1;
    }
    let ghost so_far = token_texts(words@);
    if start < n {
        let piece = segment.substring_char(start, n);
        words.push(piece);
        assert(token_texts(words@) =~= so_far + seq![piece@]);
    } else {
        assert(so_far + Seq::<Seq<char>>::empty() =~= so_far);
    }
}

/// Appends to `words` the camel case words of `piece`.
pub fn push_camel_case<'a>(words: &mut Vec<&'a str>, piece: &'a str)
    ensures
        token_texts(final(words)@) == token_texts(old(words)@) + camel_words(piece@),
{
    let cs = scalars(piece);
    let n = cs.len();
    let ghost before = token_texts(words@);
    if n == 0 {
        words.push(piece);
        assert(token_texts(words@) =~~= before + camel_words(piece@));
        return ;
    }
    let mut mode = WordMode::Boundary;
    let mut start: usize = 0;
    let mut i: usize = 0;
    while i < n - 1
        invariant
            cs@ == piece@,
            n == cs@.len(),
            start <= i <= n - 1,
            token_texts(words@) + camel_from(piece@, mode, start as int, i as int) == before
                + camel_words(piece@),
        decreases n - i,
    {
        let ghost so_far = token_texts(words@);
        let c = cs[i];
        let next = cs[i + 1];
        let next_mode = if is_lower(c) {
            WordMode::Lowercase
        } else if is_upper(c) {
            WordMode::Uppercase
        } else {
            mode
        };
        if next_mode == WordMode::Lowercase && is_upper(next) {
            let word = piece.substring_char(start, i + 1);
            words.push(word);
            assert(token_texts(words@) =~= so_far + seq![word@]);
            assert(so_far + (seq![word@] + camel_from(
                piece@,
                WordMode::Boundary,
                i as int + 1,
                i as int + 1,
            )) =~= (so_far + seq![word@]) + camel_from(
                piece@,
                WordMode::Boundary,
                i as int + 1,
                i as int + 1,
            ));
            start = i + 1;
            mode = WordMode::Boundary;
        } else if mode == WordMode::Uppercase && is_upper(c) && is_lower(next) {
            let word = piece.substring_char(start, i);
            words.push(word);
            assert(token_texts(words@) =~= so_far + seq![word@]);
            assert(so_far + (seq![word@] + camel_from(
                piece@,
                WordMode::Boundary,
                i as int,
                i as int + 1,
            )) =~= (so_far + seq![word@]) + camel_from(
                piece@,
                WordMode::Boundary,
                i as int,
                i as int + 1,
            ));
            start = i;
            mode = WordMode::Boundary;
        } else {
            mode = next_mode;
        }
        i += 1;
    }
    let ghost so_far = token_texts(words@);
    let word = piece.substring_char(start, n);
    words.push(word);
    assert(token_texts(words@) =~= so_far + seq![word@]);
}

/// The words of a text whose word segments are `segments`.
pub fn words_in<'a>(segments: &Vec<&'a str>) -> (words: Vec<&'a str>)
    ensures
        token_texts(words@) == words_of(token_texts(segments@)),
        concat(token_texts(words@)) == undelimited_all(token_texts(segments@)),
{
    let ghost texts = token_texts(segments@);
    let mut words: Vec<&'a str> = Vec::new();
    assert(token_texts(words@) =~= words_of(texts.subrange(0, 0)));
    let mut k: usize = 0;
    while k < segments.len()
        invariant
            k <= segments@.len(),
            texts == token_texts(segments@),
            token_texts(words@) == words_of(texts.subrange(0, k as int)),
        decreases segments@.len() - k,
    {
        let mut pieces: Vec<&'a str> = Vec::new();
        assert(token_texts(pieces@) =~= Seq::<Seq<char>>::empty());
        push_delimited(&mut pieces, segments[k]);
        assert(token_texts(pieces@) =~= delimited_pieces(texts[k as int]));
        let ghost base = token_texts(words@);
        let ghost piece_texts = token_texts(pieces@);
        assert(base + camel_words_of_all(piece_texts.subrange(0, 0)) =~= base);
        let mut j: usize = 0;
        while j < pieces.len()
            invariant
                j <= pieces@.len(),
                piece_texts == token_texts(pieces@),
                token_texts(words@) == base + camel_words_of_all(
                    piece_texts.subrange(0, j as int),
                ),
            decreases pieces@.len() - j,
        {
            push_camel_case(&mut words, pieces[j]);
            proof {
                let upto = piece_texts.subrange(0, j as int + 1);
                assert(upto.drop_last() =~= piece_texts.subrange(0, j as int));
                assert(upto.last() == pieces@[j as int]@);
                assert(token_texts(words@) =~= base + camel_words_of_all(upto));
            }
            j += 1;
        }
        proof {
            assert(piece_texts.subrange(0, j as int) =~= piece_texts);
            let upto = texts.subrange(0, k as int + 1);
            assert(upto.drop_last() =~= texts.subrange(0, k as int));
            assert(upto.last() == texts[k as int]);
        }
        k += 1;
    }
    assert(texts.subrange(0, k as int) =~= texts);
    proof {
        lemma_words_keep_scalars(texts);
    }
    words
}

/// Splits `subject` into words: at Unicode's word boundaries, at `-` and
/// `_`, and where a camelCase or PascalCase identifier changes case. The
/// words hold, in order, every scalar of the word segments but the
/// delimiters.
pub fn words(subject: &str) -> (tokens: Vec<&str>)
    ensures
        token_texts(tokens@) == words_of(unicode_word_segments(subject@)),
        concat(token_texts(tokens@)) == undelimited_all(unicode_word_segments(subject@)),
{
    let segments = unicode_word_pieces(subject);
    words_in(&segments)
}

/// The pieces of `s` that `pattern` separates, read from `i` on, where the
/// piece being read began at `start`. A separator at the very end adds no
/// empty piece after it.
pub open spec fn split_from(s: Seq<char>, pattern: Seq<char>, start: int, i: int) -> Seq<
    Seq<char>,
>
    decreases s.len() - i,
{
    if i >= s.len() || pattern.len() == 0 {
        if start < s.len() {
            seq![s.subrange(start, s.len() as int)]
        } else {
            Seq::empty()
        }
    } else if occurs_at(s, pattern, i) {
        seq![s.subrange(start, i)] + split_from(
            s,
            pattern,
            i + pattern.len(),
            i + pattern.len(),
        )
    } else {
        split_from(s, pattern, start, i + 1)
    }
}

/// What `split` makes of `s`: `s` whole where it or the pattern is empty,
/// else its pieces between the occurrences of `pattern`, taken from the left.
pub open spec fn split_of(s: Seq<char>, pattern: Seq<char>) -> Seq<Seq<char>> {
    if s.len() == 0 || pattern.len() == 0 {
        seq![s]
    } else {
        split_from(s, pattern, 0, 0)
    }
}

/// Joins the tokens with `separator` between them.
pub fn join(tokens: &Vec<&str>, separator: &str) -> (text: String)
    ensures
        text@ == crate::text::joined(token_texts(tokens@), separator@),
{
    let ghost texts = token_texts(tokens@);
    let mut text = String::new();
    let mut i: usize = 0;
    while i < tokens.len()
        invariant
            i <= tokens@.len(),
            texts == token_texts(tokens@),
            text@ == crate::text::joined_upto(texts, separator@, i as int),
        decreases tokens@.len() - i,
    {
        if i > 0 {
            text.append(separator);
        }
        text.append(tokens[i]);
        assert(texts[i as int] == tokens@[i as int]@);
        assert(i == 0 ==> text@ =~= texts[0]);
        i += 1;
    }
    text
}

/// Splits `subject` at every occurrence of `pattern`, taken from the left.
/// An empty subject gives one empty token, an empty pattern the subject
/// whole; a separator at the very end adds no empty token after it.
pub fn split<'a>(subject: &'a str, pattern: &str) -> (tokens: Vec<&'a str>)
    ensures
        token_texts(tokens@) == split_of(subject@, pattern@),
{
    let mut tokens: Vec<&'a str> = Vec::new();
    if subject.is_empty() || pattern.is_empty() {
        tokens.push(subject);
        assert(token_texts(tokens@) =~= seq![subject@]);
        return tokens;
    }
    let s = scalars(subject);
    let p = scalars(pattern);
    let n = s.len();
    let mut start: usize = 0;
    let mut i: usize = 0;
    assert(token_texts(tokens@) + split_from(subject@, pattern@, 0, 0) =~= split_of(
        subject@,
        pattern@,
    ));
    while i < n
        invariant
            s@ == subject@,
            p@ == pattern@,
            p@.len() > 0,
            n == s@.len(),
            n > 0,
            start <= i <= n,
            token_texts(tokens@) + split_from(subject@, pattern@, start as int, i as int)
                == split_of(subject@, pattern@),
        decreases n - i,
    {
        let ghost so_far = token_texts(tokens@);
        if matches_at(&s, &p, i) {
            let piece = subject.substring_char(start, i);
            tokens.push(piece);
            assert(token_texts(tokens@) =~= so_far + seq![piece@]);
            assert(so_far + (seq![piece@] + split_from(
                subject@,
                pattern@,
                i + p@.len(),
                i + p@.len(),
            )) =~= (so_far + seq![piece@]) + split_from(
                subject@,
                pattern@,
                i + p@.len(),
                i + p@.len(),
            ));
            i += p.len();
            start = i;
        } else {
            i += 1;
        }
    }
    let ghost so_far = token_texts(tokens@);
    if start < n {
        let piece = subject.substring_char(start, n);
        tokens.push(piece);
        assert(token_texts(tokens@) =~= so_far + seq![piece@]);
    } else {
        assert(so_far + Seq::<Seq<char>>::empty() =~= so_far);
    }
    tokens
}

#[verifier::external_type_specification]
#[verifier::external_body]
pub struct ExDecodeError(stfu8::DecodeError);

/// The UTF-16 code units of a scalar: one unit, or a pair of surrogates for
/// a scalar past the basic plane.
pub open spec fn scalar_units(c: char) -> Seq<u16> {
    if (c as int) < 0x1_0000 {
        seq![c as u16]
    } else {
        seq![
            (0xD800 + (c as int - 0x1_0000) / 0x400) as u16,
            (0xDC00 + (c as int - 0x1_0000) % 0x400) as u16,
        ]
    }
}

/// The UTF-16 code units of a text.
pub open spec fn utf16_units(s: Seq<char>) -> Seq<u16>
    decreases s.len(),
{
    if s.len() == 0 {
        Seq::empty()
    } else {
        utf16_units(s.drop_last()) + scalar_units(s.last())
    }
}

/// The code units of two texts laid end to end are the code units of the
/// one followed by those of the other.
pub proof fn lemma_units_of_concat(a: Seq<char>, b: Seq<char>)
    ensures
        utf16_units(a + b) == utf16_units(a) + utf16_units(b),
    decreases b.len(),
{
    if b.len() == 0 {
        assert(a + b =~= a);
        assert(utf16_units(a) + utf16_units(b) =~= utf16_units(a));
    } else {
        lemma_units_of_concat(a, b.drop_last());
        assert((a + b).drop_last() =~= a + b.drop_last());
        assert((a + b).last() == b.last());
        assert(utf16_units(a + b) =~= utf16_units(a) + utf16_units(b));
    }
}

/// Trusted: `decode_u16` of stfu8 on a text without a backslash. A backslash
/// starts an escape there; a text without one holds no escape, and the call
/// returns the UTF-16 encoding of each scalar in order. With a backslash the
/// call may fail or panic, which `requires` leaves out.
#[verifier::external_body]
fn decode_plain(run: &str) -> (decoded: Result<Vec<u16>, stfu8::DecodeError>)
    requires
        !run@.contains('\\'),
    ensures
        decoded is Ok,
        decoded matches Ok(units) ==> units@ == utf16_units(run@),
{
    stfu8::decode_u16(run)
}

/// The UTF-16 code units of `subject`.
pub fn code_points(subject: &str) -> (units: Vec<u16>)
    ensures
        units@ == utf16_units(subject@),
{
    let s = scalars(subject);
    let n = s.len();
    let mut units: Vec<u16> = Vec::new();
    let mut start: usize = 0;
    let mut i: usize = 0;
    assert(s@.subrange(0, 0) =~= Seq::<char>::empty());
    while i < n
        invariant
            s@ == subject@,
            n == s@.len(),
            start <= i <= n,
            units@ == utf16_units(s@.subrange(0, start as int)),
            forall|j: int| start <= j < i ==> s@[j] != '\\',
        decreases n - i,
    {
        if s[i] == '\\' {
            push_plain(&mut units, subject, start, i);
            proof {
                lemma_units_of_concat(
                    s@.subrange(0, start as int),
                    s@.subrange(start as int, i as int),
                );
                assert(s@.subrange(0, start as int) + s@.subrange(start as int, i as int)
                    =~= s@.subrange(0, i as int));
                assert(s@.subrange(0, i as int + 1).drop_last() =~= s@.subrange(0, i as int));
                assert(scalar_units('\\') =~= seq![0x5Cu16]);
            }
            units.push(0x5C);
            assert(units@ =~= utf16_units(s@.subrange(0, i as int + 1)));
            start = i + 1;
        }
        i += 1;
    }
    push_plain(&mut units, subject, start, n);
    proof {
        lemma_units_of_concat(s@.subrange(0, start as int), s@.subrange(start as int, n as int));
        assert(s@.subrange(0, start as int) + s@.subrange(start as int, n as int) =~= s@);
    }
    units
}

fn push_plain(units: &mut Vec<u16>, subject: &str, start: usize, end: usize)
    requires
        start <= end <= subject@.len(),
        forall|j: int| start <= j < end ==> subject@[j] != '\\',
    ensures
        final(units)@ == old(units)@ + utf16_units(subject@.subrange(start as int, end as int)),
{
    if start == end {
        assert(subject@.subrange(start as int, end as int) =~= Seq::<char>::empty());
        assert(units@ + Seq::<u16>::empty() =~= units@);
        return ;
    }
    let run = subject.substring_char(start, end);
    assert(!run@.contains('\\'));
    match decode_plain(run) {
        Ok(mut decoded) => {
            units.append(&mut decoded);
        },
        Err(_) => {},
    }
}

} // verus!
