use vstd::prelude::*;

use crate::utils::text::dec_rep;

verus! {

/// A decimal rendering of `index` with one leading space when the list
/// has two-digit length but the index has one digit, so columns line up.
pub fn pad_index(index: usize, length: usize) -> (s: String)
    ensures
        length >= 10 && index < 10 ==> s@ == seq![' '] + dec_rep(index as nat),
        !(length >= 10 && index < 10) ==> s@ == dec_rep(index as nat),
{
    let need_padding = length >= 10 && index < 10;
    crate::utils::format_index(index, need_padding)
}

} // verus!
