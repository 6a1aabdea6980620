use vstd::prelude::*;

verus! {

/// The characters of `text` written in lower case, as Unicode defines it.
pub uninterp spec fn lowercase_chars(text: Seq<char>) -> Seq<char>;

/// Compares two string slices with `<str as PartialEq>::eq`; the contract
/// claims that the answer is whether they hold the same characters.
#[verifier::external_body]
pub(crate) fn same_text(a: &str, b: &str) -> (same: bool)
    ensures
        same == (a@ == b@),
{
    a == b
}

/// Calls `str::to_lowercase`; the contract claims only that the result is
/// the one function `lowercase_chars` of the characters of `text`, which
/// leaves Unicode's case mapping itself unstated.
#[verifier::external_body]
pub(crate) fn to_lowercase(text: &str) -> (lower: String)
    ensures
        lower@ == lowercase_chars(text@),
{
    text.to_lowercase()
}

} // verus!
