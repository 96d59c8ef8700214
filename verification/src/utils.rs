pub mod format;
pub mod help;
pub mod text;
pub mod timer;
pub mod todos;

use vstd::prelude::*;

verus! {

/// A decimal rendering of `index`, with one leading space when
/// `need_padding` holds, so that single-digit indices line up under
/// two-digit ones.
pub fn format_index(index: usize, need_padding: bool) -> (s: String)
    ensures
        need_padding ==> s@ == seq![' '] + crate::utils::text::dec_rep(index as nat),
        !need_padding ==> s@ == crate::utils::text::dec_rep(index as nat),
{
    let mut v: Vec<char> = Vec::new();
    if need_padding {
        v.push(' ');
    }
    let ghost pre = v@;
    crate::utils::text::push_decimal(&mut v, index as u128);
    proof {
        assert(v@ =~= pre + crate::utils::text::dec_rep(index as nat));
        if need_padding {
            assert(pre =~= seq![' ']);
        } else {
            assert(pre =~= Seq::<char>::empty());
            assert(v@ =~= crate::utils::text::dec_rep(index as nat));
        }
    }
    crate::utils::text::chars_to_string(&v)
}

} // verus!
