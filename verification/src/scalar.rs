//! What the standard library knows of a single scalar: its case and its case
//! mappings. These follow Unicode's tables, so the contracts name the results
//! instead of stating them.

use vstd::prelude::*;

verus! {

/// `c` has Unicode's derived property Lowercase.
pub uninterp spec fn scalar_is_lowercase(c: char) -> bool;

/// `c` has Unicode's derived property Uppercase.
pub uninterp spec fn scalar_is_uppercase(c: char) -> bool;

/// The lower case mapping of `c`: one scalar or several.
pub uninterp spec fn scalar_lowercase(c: char) -> Seq<char>;

/// The upper case mapping of `c`: one scalar or several.
pub uninterp spec fn scalar_uppercase(c: char) -> Seq<char>;

/// Trusted: `char::is_lowercase` of std, a lookup in Unicode's table of the
/// property Lowercase.
#[verifier::external_body]
pub(crate) fn is_lower(c: char) -> (b: bool)
    ensures
        b == scalar_is_lowercase(c),
{
    c.is_lowercase()
}

/// Trusted: `char::is_uppercase` of std, a lookup in Unicode's table of the
/// property Uppercase.
#[verifier::external_body]
pub(crate) fn is_upper(c: char) -> (b: bool)
    ensures
        b == scalar_is_uppercase(c),
{
    c.is_uppercase()
}

/// Trusted: `char::to_lowercase` of std, whose iterator yields the lower
/// case mapping of the scalar, one scalar or more; they are collected in
/// order.
#[verifier::external_body]
pub(crate) fn to_lower(c: char) -> (mapped: String)
    ensures
        mapped@ == scalar_lowercase(c),
        mapped@.len() >= 1,
{
    c.to_lowercase().collect()
}

/// Trusted: `char::to_uppercase` of std, whose iterator yields the upper
/// case mapping of the scalar, one scalar or more; they are collected in
/// order.
#[verifier::external_body]
pub(crate) fn to_upper(c: char) -> (mapped: String)
    ensures
        mapped@ == scalar_uppercase(c),
        mapped@.len() >= 1,
{
    c.to_uppercase().collect()
}

/// The lower case of a whole text. It is the lower case mapping scalar by
/// scalar but for a capital sigma, whose mapping depends on where in a word
/// it stands.
pub uninterp spec fn text_lowercase(s: Seq<char>) -> Seq<char>;

/// Trusted: `str::to_lowercase` of std, the lower case of the text as
/// Unicode defines it; the result depends on the text alone.
#[verifier::external_body]
pub(crate) fn lower_text(subject: &str) -> (mapped: String)
    ensures
        mapped@ == text_lowercase(subject@),
{
    subject.to_lowercase()
}

} // verus!
