//! Small helpers on strings: comparisons that the standard library provides
//! and `vstd` does not describe, and putting markup together.

use vstd::prelude::*;
use vstd::string::*;

verus! {

/// The characters of an optional string slice.
pub open spec fn optional_text(text: Option<&str>) -> Option<Seq<char>> {
    match text {
        Some(found) => Some(found@),
        None => None,
    }
}

/// Whether two string slices hold the same characters.
pub(crate) fn str_eq(left: &str, right: &str) -> (equal: bool)
    ensures
        equal == (left@ == right@),
{
    left.to_owned() == right.to_owned()
}

/// `str::starts_with` with a string pattern: whether `prefix` is a prefix of
/// `text`. Trusted; a prefix in bytes of valid UTF-8 is a prefix in characters.
#[verifier::external_body]
pub(crate) fn str_starts_with(text: &str, prefix: &str) -> (found: bool)
    ensures
        found == prefix@.is_prefix_of(text@),
{
    text.starts_with(prefix)
}

/// `str::ends_with` with a string pattern: whether `suffix` is a suffix of
/// `text`. Trusted; a suffix in bytes of valid UTF-8 is a suffix in characters.
#[verifier::external_body]
pub(crate) fn str_ends_with(text: &str, suffix: &str) -> (found: bool)
    ensures
        found == suffix@.is_suffix_of(text@),
{
    text.ends_with(suffix)
}

/// The markup made of `opening`, an address and `closing`.
pub fn tag(opening: &str, address: String, closing: &str) -> (markup: String)
    ensures
        markup@ == opening@ + address@ + closing@,
{
    let mut markup = opening.to_owned();
    markup.append(address.as_str());
    markup.append(closing);
    markup
}

} // verus!
