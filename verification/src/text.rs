use vstd::prelude::*;
use vstd::string::*;

verus! {

/// What `str::to_uppercase` gives for a string (Unicode upper-case mapping).
pub uninterp spec fn uppercase(s: Seq<char>) -> Seq<char>;

/// Trusted: calls `str::to_uppercase`; the result is the upper-case mapping of the
/// whole string, named [`uppercase`]. Nothing more is stated of Unicode case mapping.
#[verifier::external_body]
pub(crate) fn to_uppercase(s: &str) -> (r: String)
    ensures
        r@ == uppercase(s@),
{
    s.to_uppercase()
}

/// A copy of a string slice as an owned `String`.
pub(crate) fn owned(s: &str) -> (r: String)
    ensures
        r@ == s@,
{
    String::from_str(s)
}

} // verus!
