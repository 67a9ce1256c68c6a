//! Regular expressions, as the regex crate compiles and runs them. What a
//! pattern finds in a subject depends on the pattern, the subject and the
//! place where the search starts, and on nothing else; the syntax and the
//! matching take pages to state, so the contracts name the answers.

use vstd::prelude::*;
use vstd::string::*;
use vstd::utf8::*;

verus! {

#[verifier::external_type_specification]
#[verifier::external_body]
pub struct ExRegexError(regex::Error);

/// The regex crate accepts `pattern` as a regular expression.
pub uninterp spec fn pattern_compiles(pattern: Seq<char>) -> bool;

/// The byte of `subject` at which the leftmost match of `pattern` begins
/// that a search from byte `start` on finds, if it finds one.
pub uninterp spec fn first_match_start(pattern: Seq<char>, subject: Seq<char>, start: int) -> Option<
    int,
>;

/// Whether a search for `pattern` in `subject` from byte `start` on finds a
/// match.
pub uninterp spec fn matches_from(pattern: Seq<char>, subject: Seq<char>, start: int) -> bool;

/// Trusted: `Regex::new` of regex, then `Regex::find_at` and `Match::start`
/// on what it compiled. The compiled expression cannot be named here, so
/// the one item compiles and searches. The error is that of `Regex::new`; a
/// match begins inside the searched span; which match it is, is named. The
/// search panics for a `start` past the end, which `requires` leaves out.
#[verifier::external_body]
pub(crate) fn find_start(pattern: &str, subject: &str, start: usize) -> (found: Result<
    Option<usize>,
    regex::Error,
>)
    requires
        start <= subject.spec_bytes().len(),
    ensures
        found is Ok <==> pattern_compiles(pattern@),
        found matches Ok(Some(at)) ==> first_match_start(pattern@, subject@, start as int) == Some(
            at as int,
        ) && start <= at <= subject.spec_bytes().len(),
        found matches Ok(None) ==> first_match_start(pattern@, subject@, start as int) is None,
{
    regex::Regex::new(pattern).map(|re| re.find_at(subject, start).map(|m| m.start()))
}

/// Trusted: `Regex::new` of regex, then `Regex::is_match_at` on what it
/// compiled. The error is that of `Regex::new`; whether there is a match is
/// named. The search panics for a `start` past the end, which `requires`
/// leaves out.
#[verifier::external_body]
pub(crate) fn is_match_from(pattern: &str, subject: &str, start: usize) -> (found: Result<
    bool,
    regex::Error,
>)
    requires
        start <= subject.spec_bytes().len(),
    ensures
        found is Ok <==> pattern_compiles(pattern@),
        found matches Ok(b) ==> b == matches_from(pattern@, subject@, start as int),
{
    regex::Regex::new(pattern).map(|re| re.is_match_at(subject, start))
}

/// A text takes at least one byte for each of its scalars.
pub proof fn lemma_bytes_cover_scalars(s: Seq<char>)
    ensures
        encode_utf8(s).len() >= s.len(),
    decreases s.len(),
{
    if s.len() > 0 {
        lemma_bytes_cover_scalars(s.drop_first());
        assert(encode_scalar(s[0] as u32).len() >= 1);
    }
}

} // verus!
