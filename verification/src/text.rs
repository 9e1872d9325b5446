//! Comparisons of string slices, stated over the character sequences of
//! their operands.

use vstd::prelude::*;
use vstd::string::StrSliceExecFns;

verus! {

/// Whether both slices hold the same characters in the same order.
pub(crate) fn str_eq(a: &str, b: &str) -> (same: bool)
    ensures
        same == (a@ == b@),
{
    let left = a.to_owned();
    let right = b.to_owned();
    left == right
}

/// Whether `prefix` is an initial part of `text`.
pub(crate) fn str_starts_with(text: &str, prefix: &str) -> (found: bool)
    ensures
        found == prefix@.is_prefix_of(text@),
{
    let len = prefix.unicode_len();
    if text.unicode_len() < len {
        return false;
    }
    let head = text.substring_char(0, len);
    str_eq(head, prefix)
}

} // verus!
