//! Upper and lower case, as the standard library has them.

use vstd::prelude::*;
use vstd::string::StringExecFns;

verus! {

/// `s` in lower case, as `str::to_lowercase` gives it.
pub uninterp spec fn lowercase(s: Seq<char>) -> Seq<char>;

/// `s` in upper case, as `str::to_uppercase` gives it.
pub uninterp spec fn uppercase(s: Seq<char>) -> Seq<char>;

/// Calls `str::to_lowercase`. The mapping is that of Unicode and depends on
/// nothing but the characters of `s`, so the result is named as a function
/// of them; nothing else is claimed of it.
#[verifier::external_body]
pub(crate) fn to_lowercase(s: &str) -> (r: String)
    ensures
        r@ == lowercase(s@),
{
    s.to_lowercase()
}

/// Calls `str::to_uppercase`. The mapping is that of Unicode and depends on
/// nothing but the characters of `s`, so the result is named as a function
/// of them; nothing else is claimed of it.
#[verifier::external_body]
pub(crate) fn to_uppercase(s: &str) -> (r: String)
    ensures
        r@ == uppercase(s@),
{
    s.to_uppercase()
}

/// Whether two strings hold the same characters.
pub fn same_text(a: &str, b: &str) -> (r: bool)
    ensures
        r == (a@ == b@),
{
    a.to_owned() == b.to_owned()
}

/// `head`, `middle` and `tail` in one string.
pub fn framed(head: &str, middle: &str, tail: &str) -> (r: String)
    ensures
        r@ == head@ + middle@ + tail@,
{
    head.to_owned().concat(middle).concat(tail)
}

} // verus!
