//! What holds of the words of every text: splitting loses no scalar but the
//! delimiters, and the words are not split any further when they are split
//! again.

use crate::scalar::{scalar_is_lowercase, scalar_is_uppercase};
use crate::split::{
    camel_from,
    camel_words,
    camel_words_of_all,
    delimited_pieces,
    ends_word_after,
    ends_word_before,
    is_delimiter,
    mode_after,
    pieces_from,
    undelimited,
    undelimited_all,
    unicode_word_segments,
    words_of,
    WordMode,
};
use crate::text::{concat, joined, lemma_concat_append, lemma_concat_single};
use vstd::prelude::*;

verus! {

/// Cutting a text at its delimiters loses nothing but the delimiters: the
/// pieces laid end to end are the text without them.
pub proof fn lemma_pieces_keep_scalars(s: Seq<char>, start: int, i: int)
    requires
        0 <= start <= i <= s.len(),
    ensures
        concat(pieces_from(s, start, i)) == s.subrange(start, i) + undelimited(s, i),
    decreases s.len() - i,
{
    if i >= s.len() {
        if start < s.len() {
            lemma_concat_single(s.subrange(start, s.len() as int));
        }
        assert(s.subrange(start, i) + undelimited(s, i) =~= s.subrange(start, i));
        assert(start >= s.len() ==> s.subrange(start, i) =~= Seq::<char>::empty());
    } else if is_delimiter(s[i]) {
        lemma_pieces_keep_scalars(s, i + 1, i + 1);
        let rest = pieces_from(s, i + 1, i + 1);
        assert(s.subrange(i + 1, i + 1) + undelimited(s, i + 1) =~= undelimited(s, i + 1));
        if start < i {
            lemma_concat_append(seq![s.subrange(start, i)], rest);
            lemma_concat_single(s.subrange(start, i));
        } else {
            assert(s.subrange(start, i) + undelimited(s, i) =~= undelimited(s, i));
        }
    } else {
        lemma_pieces_keep_scalars(s, start, i + 1);
        assert(s.subrange(start, i + 1) + undelimited(s, i + 1) =~= s.subrange(start, i) + (
        seq![s[i]] + undelimited(s, i + 1)));
    }
}

/// `s` holds a scalar and no delimiter.
pub open spec fn is_piece(s: Seq<char>) -> bool {
    s.len() > 0 && forall|k: int| 0 <= k < s.len() ==> !is_delimiter(#[trigger] s[k])
}

/// What is cut out between delimiters holds a scalar and no delimiter.
pub proof fn lemma_pieces_are_pieces(s: Seq<char>, start: int, i: int)
    requires
        0 <= start <= i <= s.len(),
        forall|k: int| start <= k < i ==> !is_delimiter(#[trigger] s[k]),
    ensures
        forall|j: int|
            0 <= j < pieces_from(s, start, i).len() ==> is_piece(
                #[trigger] pieces_from(s, start, i)[j],
            ),
    decreases s.len() - i,
{
    let pieces = pieces_from(s, start, i);
    if i >= s.len() {
        if start < s.len() {
            assert(pieces[0] == s.subrange(start, s.len() as int));
            assert(is_piece(pieces[0]));
        }
    } else if is_delimiter(s[i]) {
        lemma_pieces_are_pieces(s, i + 1, i + 1);
        let rest = pieces_from(s, i + 1, i + 1);
        if start < i {
            assert(is_piece(s.subrange(start, i)));
            assert forall|j: int| 0 <= j < pieces.len() implies is_piece(#[trigger] pieces[j]) by {
                if j > 0 {
                    assert(pieces[j] == rest[j - 1]);
                }
            }
        } else {
            assert(pieces == rest);
        }
    } else {
        lemma_pieces_are_pieces(s, start, i + 1);
        assert(pieces == pieces_from(s, start, i + 1));
    }
}

/// What is cut out of a text in which no scalar has two cases holds no
/// such scalar.
pub proof fn lemma_pieces_are_one_cased(s: Seq<char>, start: int, i: int)
    requires
        0 <= start <= i <= s.len(),
        one_cased(s),
    ensures
        all_one_cased(pieces_from(s, start, i)),
    decreases s.len() - i,
{
    let pieces = pieces_from(s, start, i);
    if i >= s.len() {
        if start < s.len() {
            assert(pieces[0] == s.subrange(start, s.len() as int));
            assert(one_cased(pieces[0]));
        }
    } else if is_delimiter(s[i]) {
        lemma_pieces_are_one_cased(s, i + 1, i + 1);
        let rest = pieces_from(s, i + 1, i + 1);
        if start < i {
            assert(one_cased(s.subrange(start, i)));
            assert forall|j: int| 0 <= j < pieces.len() implies one_cased(#[trigger] pieces[j]) by {
                if j > 0 {
                    assert(pieces[j] == rest[j - 1]);
                }
            }
        } else {
            assert(pieces == rest);
        }
    } else {
        lemma_pieces_are_one_cased(s, start, i + 1);
        assert(pieces == pieces_from(s, start, i + 1));
    }
}

/// A text with a scalar and without a delimiter is cut into one piece,
/// itself.
pub proof fn lemma_piece_is_not_cut(s: Seq<char>, i: int)
    requires
        is_piece(s),
        0 <= i <= s.len(),
    ensures
        pieces_from(s, 0, i) == seq![s],
    decreases s.len() - i,
{
    if i >= s.len() {
        assert(s.subrange(0, s.len() as int) =~= s);
    } else {
        lemma_piece_is_not_cut(s, i + 1);
    }
}

/// Cutting an identifier where its case changes loses nothing: the words
/// laid end to end are the identifier.
pub proof fn lemma_camel_keeps_scalars(s: Seq<char>, mode: WordMode, start: int, i: int)
    requires
        0 <= start <= i <= s.len(),
    ensures
        concat(camel_from(s, mode, start, i)) == s.subrange(start, s.len() as int),
    decreases s.len() - i,
{
    let n = s.len() as int;
    if i + 1 >= n {
        lemma_concat_single(s.subrange(start, n));
    } else if ends_word_after(s, mode, i) {
        lemma_camel_keeps_scalars(s, WordMode::Boundary, i + 1, i + 1);
        lemma_concat_append(
            seq![s.subrange(start, i + 1)],
            camel_from(s, WordMode::Boundary, i + 1, i + 1),
        );
        lemma_concat_single(s.subrange(start, i + 1));
        assert(s.subrange(start, i + 1) + s.subrange(i + 1, n) =~= s.subrange(start, n));
    } else if ends_word_before(s, mode, i) {
        lemma_camel_keeps_scalars(s, WordMode::Boundary, i, i + 1);
        lemma_concat_append(
            seq![s.subrange(start, i)],
            camel_from(s, WordMode::Boundary, i, i + 1),
        );
        lemma_concat_single(s.subrange(start, i));
        assert(s.subrange(start, i) + s.subrange(i, n) =~= s.subrange(start, n));
    } else {
        lemma_camel_keeps_scalars(s, mode_after(mode, s[i]), start, i + 1);
    }
}

/// The camel case words of all pieces, laid end to end, are the pieces
/// laid end to end.
pub proof fn lemma_camel_all_keeps_scalars(pieces: Seq<Seq<char>>)
    ensures
        concat(camel_words_of_all(pieces)) == concat(pieces),
    decreases pieces.len(),
{
    if pieces.len() > 0 {
        lemma_camel_all_keeps_scalars(pieces.drop_last());
        lemma_camel_keeps_scalars(pieces.last(), WordMode::Boundary, 0, 0);
        lemma_concat_append(camel_words_of_all(pieces.drop_last()), camel_words(pieces.last()));
        assert(pieces.last().subrange(0, pieces.last().len() as int) =~= pieces.last());
    }
}

/// The words of a text lose no scalar of its word segments and add none:
/// laid end to end, they are the segments without their delimiters.
pub proof fn lemma_words_keep_scalars(segments: Seq<Seq<char>>)
    ensures
        concat(words_of(segments)) == undelimited_all(segments),
    decreases segments.len(),
{
    if segments.len() > 0 {
        let last = segments.last();
        lemma_words_keep_scalars(segments.drop_last());
        lemma_camel_all_keeps_scalars(delimited_pieces(last));
        lemma_pieces_keep_scalars(last, 0, 0);
        lemma_concat_append(
            words_of(segments.drop_last()),
            camel_words_of_all(delimited_pieces(last)),
        );
        assert(last.subrange(0, 0) + undelimited(last, 0) =~= undelimited(last, 0));
    }
}

/// No scalar of `s` is both lower case and upper case.
pub open spec fn one_cased(s: Seq<char>) -> bool {
    forall|k: int|
        0 <= k < s.len() ==> !(scalar_is_lowercase(#[trigger] s[k]) && scalar_is_uppercase(s[k]))
}

/// No scalar of any of the texts is both lower case and upper case.
pub open spec fn all_one_cased(texts: Seq<Seq<char>>) -> bool {
    forall|j: int| 0 <= j < texts.len() ==> one_cased(#[trigger] texts[j])
}

/// The scan of an identifier always finds a first word, and that word is
/// what stands in the identifier from the word's start on, at least as far
/// as the scan has come.
pub proof fn lemma_first_word(s: Seq<char>, mode: WordMode, start: int, i: int)
    requires
        0 <= start <= i <= s.len(),
    ensures
        camel_from(s, mode, start, i).len() >= 1,
        camel_from(s, mode, start, i)[0].len() >= i - start,
        start + camel_from(s, mode, start, i)[0].len() <= s.len(),
        camel_from(s, mode, start, i)[0] == s.subrange(
            start,
            start + camel_from(s, mode, start, i)[0].len(),
        ),
    decreases s.len() - i,
{
    if i + 1 >= s.len() {
    } else if ends_word_after(s, mode, i) {
    } else if ends_word_before(s, mode, i) {
    } else {
        lemma_first_word(s, mode_after(mode, s[i]), start, i + 1);
    }
}

/// A word that the scan of `s` cut out at `a` is not cut again when it is
/// scanned by itself: `x` is the word, the scan of `s` stands at `a + k` in
/// mode `m` and has not cut the word so far, and the scan of `x` stands at
/// `k` in mode `f`. The two modes are the same, or the scalar at hand is
/// lower case, which makes them the same after it.
pub proof fn lemma_word_is_not_cut(
    s: Seq<char>,
    x: Seq<char>,
    a: int,
    m: WordMode,
    f: WordMode,
    k: int,
)
    requires
        one_cased(s),
        0 <= a,
        a + x.len() <= s.len(),
        x == s.subrange(a, a + x.len()),
        0 <= k < x.len(),
        camel_from(s, m, a, a + k)[0] == x,
        m == f || (m == WordMode::Boundary && f == WordMode::Uppercase && scalar_is_lowercase(
            x[k],
        )),
    ensures
        camel_from(x, f, 0, k) == seq![x],
    decreases x.len() - k,
{
    if k + 1 >= x.len() {
        assert(x.subrange(0, x.len() as int) =~= x);
    } else {
        assert(x[k] == s[a + k]);
        assert(x[k + 1] == s[a + k + 1]);
        assert(mode_after(m, s[a + k]) == mode_after(f, x[k]));
        if ends_word_after(s, m, a + k) {
            assert(camel_from(s, m, a, a + k)[0] == s.subrange(a, a + k + 1));
            assert(false);
        } else if ends_word_before(s, m, a + k) {
            assert(camel_from(s, m, a, a + k)[0] == s.subrange(a, a + k));
            assert(false);
        } else {
            assert(!ends_word_after(x, f, k));
            assert(!ends_word_before(x, f, k));
            lemma_word_is_not_cut(s, x, a, mode_after(m, s[a + k]), mode_after(f, x[k]), k + 1);
        }
    }
}

/// Where the scan of a word stands when the word has just begun: at its
/// first scalar, or past it where the word began before an upper case
/// scalar that a lower case one follows.
pub open spec fn word_begin(a: int, after_upper: bool) -> int {
    if after_upper {
        a + 1
    } else {
        a
    }
}

/// A word begins at `a` in `s`: inside the text, and where it begins before
/// an upper case scalar, a lower case one follows.
pub open spec fn begins_word(s: Seq<char>, a: int, after_upper: bool) -> bool {
    &&& 0 <= a <= s.len()
    &&& after_upper ==> a + 1 < s.len() && scalar_is_uppercase(s[a]) && scalar_is_lowercase(
        s[a + 1],
    )
}

/// The word that begins at `a` is not cut again when it is scanned by
/// itself.
pub proof fn lemma_first_word_is_stable(s: Seq<char>, a: int, after_upper: bool)
    requires
        one_cased(s),
        begins_word(s, a, after_upper),
    ensures
        camel_words(camel_from(s, WordMode::Boundary, a, word_begin(a, after_upper))[0])
            == seq![camel_from(s, WordMode::Boundary, a, word_begin(a, after_upper))[0]],
{
    let x = camel_from(s, WordMode::Boundary, a, word_begin(a, after_upper))[0];
    lemma_first_word(s, WordMode::Boundary, a, word_begin(a, after_upper));
    if x.len() == 0 {
        assert(x.subrange(0, 0) =~= x);
    } else if !after_upper {
        lemma_word_is_not_cut(s, x, a, WordMode::Boundary, WordMode::Boundary, 0);
    } else {
        // The word holds the upper case scalar and the lower case one.
        if a + 2 < s.len() && !ends_word_after(s, WordMode::Boundary, a + 1) {
            lemma_first_word(s, mode_after(WordMode::Boundary, s[a + 1]), a, a + 2);
        }
        assert(x.len() >= 2);
        assert(x[0] == s[a]);
        assert(x[1] == s[a + 1]);
        assert(!ends_word_after(x, WordMode::Boundary, 0));
        assert(!ends_word_before(x, WordMode::Boundary, 0));
        assert(mode_after(WordMode::Boundary, x[0]) == WordMode::Uppercase);
        lemma_word_is_not_cut(s, x, a, WordMode::Boundary, WordMode::Uppercase, 1);
    }
}

/// The words of `words` are not cut when they are scanned by themselves.
pub open spec fn all_stable(words: Seq<Seq<char>>) -> bool {
    forall|j: int| 0 <= j < words.len() ==> camel_words(#[trigger] words[j]) == seq![words[j]]
}

/// None of the words that the scan cuts out is cut again when it is scanned
/// by itself. The scan stands at `i` in a word that began at `a` and that
/// it has not cut so far.
pub proof fn lemma_words_are_stable(
    s: Seq<char>,
    mode: WordMode,
    a: int,
    i: int,
    after_upper: bool,
)
    requires
        one_cased(s),
        begins_word(s, a, after_upper),
        word_begin(a, after_upper) <= i <= s.len(),
        camel_from(s, WordMode::Boundary, a, word_begin(a, after_upper)) == camel_from(
            s,
            mode,
            a,
            i,
        ),
    ensures
        all_stable(camel_from(s, mode, a, i)),
    decreases s.len() - i,
{
    let words = camel_from(s, mode, a, i);
    lemma_first_word_is_stable(s, a, after_upper);
    lemma_first_word(s, mode, a, i);
    if i + 1 >= s.len() {
        assert(words.len() == 1);
    } else if ends_word_after(s, mode, i) {
        let rest = camel_from(s, WordMode::Boundary, i + 1, i + 1);
        lemma_words_are_stable(s, WordMode::Boundary, i + 1, i + 1, false);
        assert forall|j: int| 0 <= j < words.len() implies camel_words(#[trigger] words[j])
            == seq![words[j]] by {
            if j > 0 {
                assert(words[j] == rest[j - 1]);
            }
        }
    } else if ends_word_before(s, mode, i) {
        let rest = camel_from(s, WordMode::Boundary, i, i + 1);
        lemma_words_are_stable(s, WordMode::Boundary, i, i + 1, true);
        assert forall|j: int| 0 <= j < words.len() implies camel_words(#[trigger] words[j])
            == seq![words[j]] by {
            if j > 0 {
                assert(words[j] == rest[j - 1]);
            }
        }
    } else {
        lemma_words_are_stable(s, mode_after(mode, s[i]), a, i + 1, after_upper);
        assert(words == camel_from(s, mode_after(mode, s[i]), a, i + 1));
    }
}

/// The camel case words of a text are camel case words: cut again, each
/// gives itself.
pub proof fn lemma_camel_words_are_stable(s: Seq<char>)
    requires
        one_cased(s),
    ensures
        all_stable(camel_words(s)),
{
    lemma_words_are_stable(s, WordMode::Boundary, 0, 0, false);
}

/// Every text of `words` is a word: it holds a scalar and no delimiter,
/// and its case changes nowhere so that it would be cut.
pub open spec fn are_words(words: Seq<Seq<char>>) -> bool {
    forall|j: int|
        0 <= j < words.len() ==> is_piece(#[trigger] words[j]) && camel_words(words[j])
            == seq![words[j]]
}

/// The scan of a text that holds a scalar and no delimiter cuts out texts
/// of that kind.
pub proof fn lemma_camel_words_are_pieces(s: Seq<char>, mode: WordMode, a: int, i: int)
    requires
        is_piece(s),
        0 <= a <= i <= s.len(),
        a < s.len(),
        mode == WordMode::Uppercase ==> a < i,
    ensures
        forall|j: int|
            0 <= j < camel_from(s, mode, a, i).len() ==> is_piece(
                #[trigger] camel_from(s, mode, a, i)[j],
            ),
    decreases s.len() - i,
{
    let words = camel_from(s, mode, a, i);
    if i + 1 >= s.len() {
        assert(is_piece(s.subrange(a, s.len() as int)));
    } else if ends_word_after(s, mode, i) {
        let rest = camel_from(s, WordMode::Boundary, i + 1, i + 1);
        lemma_camel_words_are_pieces(s, WordMode::Boundary, i + 1, i + 1);
        assert(is_piece(s.subrange(a, i + 1)));
        assert forall|j: int| 0 <= j < words.len() implies is_piece(#[trigger] words[j]) by {
            if j > 0 {
                assert(words[j] == rest[j - 1]);
            }
        }
    } else if ends_word_before(s, mode, i) {
        let rest = camel_from(s, WordMode::Boundary, i, i + 1);
        lemma_camel_words_are_pieces(s, WordMode::Boundary, i, i + 1);
        assert(is_piece(s.subrange(a, i)));
        assert forall|j: int| 0 <= j < words.len() implies is_piece(#[trigger] words[j]) by {
            if j > 0 {
                assert(words[j] == rest[j - 1]);
            }
        }
    } else {
        lemma_camel_words_are_pieces(s, mode_after(mode, s[i]), a, i + 1);
        assert(words == camel_from(s, mode_after(mode, s[i]), a, i + 1));
    }
}

/// The camel case words of pieces are words.
pub proof fn lemma_camel_all_are_words(pieces: Seq<Seq<char>>)
    requires
        all_one_cased(pieces),
        forall|j: int| 0 <= j < pieces.len() ==> is_piece(#[trigger] pieces[j]),
    ensures
        are_words(camel_words_of_all(pieces)),
    decreases pieces.len(),
{
    if pieces.len() > 0 {
        let head = camel_words_of_all(pieces.drop_last());
        let tail = camel_words(pieces.last());
        assert forall|j: int| 0 <= j < pieces.drop_last().len() implies is_piece(
            #[trigger] pieces.drop_last()[j],
        ) by {
            assert(pieces.drop_last()[j] == pieces[j]);
        }
        assert forall|j: int| 0 <= j < pieces.drop_last().len() implies one_cased(
            #[trigger] pieces.drop_last()[j],
        ) by {
            assert(pieces.drop_last()[j] == pieces[j]);
        }
        lemma_camel_all_are_words(pieces.drop_last());
        assert(is_piece(pieces.last()));
        assert(one_cased(pieces.last()));
        lemma_camel_words_are_pieces(pieces.last(), WordMode::Boundary, 0, 0);
        lemma_camel_words_are_stable(pieces.last());
        let all = camel_words_of_all(pieces);
        assert forall|j: int| 0 <= j < all.len() implies is_piece(#[trigger] all[j])
            && camel_words(all[j]) == seq![all[j]] by {
            if j < head.len() {
                assert(all[j] == head[j]);
            } else {
                assert(all[j] == tail[j - head.len()]);
            }
        }
    }
}

/// The words of a text are words.
pub proof fn lemma_words_are_words(segments: Seq<Seq<char>>)
    requires
        all_one_cased(segments),
    ensures
        are_words(words_of(segments)),
    decreases segments.len(),
{
    if segments.len() > 0 {
        let head = words_of(segments.drop_last());
        let tail = camel_words_of_all(delimited_pieces(segments.last()));
        assert forall|j: int| 0 <= j < segments.drop_last().len() implies one_cased(
            #[trigger] segments.drop_last()[j],
        ) by {
            assert(segments.drop_last()[j] == segments[j]);
        }
        lemma_words_are_words(segments.drop_last());
        assert(one_cased(segments.last()));
        lemma_pieces_are_pieces(segments.last(), 0, 0);
        lemma_pieces_are_one_cased(segments.last(), 0, 0);
        lemma_camel_all_are_words(delimited_pieces(segments.last()));
        let all = words_of(segments);
        assert forall|j: int| 0 <= j < all.len() implies is_piece(#[trigger] all[j])
            && camel_words(all[j]) == seq![all[j]] by {
            if j < head.len() {
                assert(all[j] == head[j]);
            } else {
                assert(all[j] == tail[j - head.len()]);
            }
        }
    }
}

/// Words taken for word segments give themselves as their words.
pub proof fn lemma_words_of_words_given(words: Seq<Seq<char>>)
    requires
        are_words(words),
    ensures
        words_of(words) == words,
    decreases words.len(),
{
    if words.len() > 0 {
        let last = words.last();
        assert forall|j: int| 0 <= j < words.drop_last().len() implies is_piece(
            #[trigger] words.drop_last()[j],
        ) && camel_words(words.drop_last()[j]) == seq![words.drop_last()[j]] by {
            assert(words.drop_last()[j] == words[j]);
        }
        lemma_words_of_words_given(words.drop_last());
        assert(is_piece(last) && camel_words(last) == seq![last]);
        lemma_piece_is_not_cut(last, 0);
        assert(seq![last].drop_last() =~= Seq::<Seq<char>>::empty());
        assert(seq![last].last() == last);
        assert(camel_words_of_all(Seq::<Seq<char>>::empty()) =~= Seq::<Seq<char>>::empty());
        assert(camel_words_of_all(seq![last]) =~= camel_words(last));
        assert(words.drop_last() + seq![last] =~= words);
    } else {
        assert(words_of(words) =~= words);
    }
}

/// Splitting into words is idempotent on the words themselves: the words
/// of a text in which no scalar is both lower and upper case, taken for
/// word segments and split again, are the same words. What the segmentation
/// by Unicode's rules makes of the joined words is not part of this law.
pub proof fn lemma_words_of_words(segments: Seq<Seq<char>>)
    requires
        all_one_cased(segments),
    ensures
        words_of(words_of(segments)) == words_of(segments),
{
    lemma_words_are_words(segments);
    lemma_words_of_words_given(words_of(segments));
}

/// The words of a text, joined by spaces and split again, are the same
/// words, wherever the segmentation by Unicode's rules hands the joined
/// words back one by one and no scalar of the text is both lower and upper
/// case. Whether the segmentation does so is a matter of its tables.
pub proof fn lemma_rejoined_words(s: Seq<char>)
    requires
        all_one_cased(unicode_word_segments(s)),
        unicode_word_segments(joined(words_of(unicode_word_segments(s)), seq![' '])) == words_of(
            unicode_word_segments(s),
        ),
    ensures
        words_of(unicode_word_segments(joined(words_of(unicode_word_segments(s)), seq![' '])))
            == words_of(unicode_word_segments(s)),
{
    lemma_words_of_words(unicode_word_segments(s));
}

} // verus!
