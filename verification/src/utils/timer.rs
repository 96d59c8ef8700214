use vstd::prelude::*;

use crate::utils::text::{chars_to_string, dec_rep, push_decimal};

verus! {

/// The rendering of an elapsed time given in nanoseconds: whole
/// milliseconds when there is at least one, else whole microseconds when
/// there is at least one, else nanoseconds, each with its unit.
pub open spec fn duration_rep(nanos: nat) -> Seq<char> {
    if nanos / 1000000 > 0 {
        dec_rep(nanos / 1000000) + seq!['m', 's']
    } else if nanos / 1000 > 0 {
        dec_rep(nanos / 1000) + seq!['µ', 's']
    } else {
        dec_rep(nanos) + seq!['n', 's']
    }
}

/// Renders an elapsed time, given in nanoseconds, in the largest unit
/// that is non-zero.
pub fn format_duration(nanos: u128) -> (s: String)
    ensures
        s@ == duration_rep(nanos as nat),
{
    let mut v: Vec<char> = Vec::new();
    let millis: u128 = nanos / 1000000;
    let micros: u128 = nanos / 1000;
    if millis > 0 {
        push_decimal(&mut v, millis);
        v.push('m');
        v.push('s');
        proof {
            assert(v@ =~= dec_rep((nanos / 1000000) as nat) + seq!['m', 's']);
        }
    } else if micros > 0 {
        push_decimal(&mut v, micros);
        v.push('µ');
        v.push('s');
        proof {
            assert(v@ =~= dec_rep((nanos / 1000) as nat) + seq!['µ', 's']);
        }
    } else {
        push_decimal(&mut v, nanos);
        v.push('n');
        v.push('s');
        proof {
            assert(v@ =~= dec_rep(nanos as nat) + seq!['n', 's']);
        }
    }
    chars_to_string(&v)
}

} // verus!
