use vstd::prelude::*;

verus! {

/// The character for one decimal digit.
pub open spec fn digit_char(d: nat) -> char {
    if d == 0 {
        '0'
    } else if d == 1 {
        '1'
    } else if d == 2 {
        '2'
    } else if d == 3 {
        '3'
    } else if d == 4 {
        '4'
    } else if d == 5 {
        '5'
    } else if d == 6 {
        '6'
    } else if d == 7 {
        '7'
    } else if d == 8 {
        '8'
    } else {
        '9'
    }
}

/// The decimal rendering of a number: most significant digit first, no
/// leading zeros (except for the number 0 itself).
pub open spec fn dec_rep(n: nat) -> Seq<char>
    decreases n,
{
    if n < 10 {
        seq![digit_char(n)]
    } else {
        dec_rep(n / 10).push(digit_char(n % 10))
    }
}

/// Relies on `String`'s `FromIterator` implementation: collecting an
/// iterator of characters yields the string of exactly those characters,
/// in order.
#[verifier::external_body]
pub(crate) fn chars_to_string(v: &Vec<char>) -> (s: String)
    ensures
        s@ == v@,
{
    v.iter().collect()
}

/// The characters of a string, as a vector.
pub fn str_to_chars(s: &str) -> (v: Vec<char>)
    ensures
        v@ == s@,
{
    let len = s.unicode_len();
    let mut v: Vec<char> = Vec::new();
    let mut i: usize = 0;
    while i < len
        invariant
            i <= len,
            len == s@.len(),
            v@ == s@.take(i as int),
        decreases len - i,
    {
        v.push(s.get_char(i));
        i = i + 1;
        proof {
            assert(v@ =~= s@.take(i as int));
        }
    }
    proof {
        assert(v@ =~= s@);
    }
    v
}

/// Appends the decimal rendering of `n` to `v`.
pub fn push_decimal(v: &mut Vec<char>, n: u128)
    ensures
        final(v)@ == old(v)@ + dec_rep(n as nat),
{
    let ghost start: int = v@.len() as int;
    let mut m: u128 = n;
    let at: usize = v.len();
    proof {
        assert(v@.subrange(0, start) =~= old(v)@);
        assert(dec_rep(m as nat) + v@.subrange(start, v@.len() as int) =~= dec_rep(m as nat));
    }
    loop
        invariant_except_break
            at == start,
            start <= v@.len(),
            v@.subrange(0, start) == old(v)@,
            dec_rep(n as nat) == dec_rep(m as nat) + v@.subrange(start, v@.len() as int),
        ensures
            start <= v@.len(),
            v@.subrange(0, start) == old(v)@,
            dec_rep(n as nat) == v@.subrange(start, v@.len() as int),
        decreases m,
    {
        let ghost prev = v@;
        let d: u128 = m % 10;
        let c = digit(d as u8);
        v.insert(at, c);
        proof {
            let old_tail = prev.subrange(start, prev.len() as int);
            let tail = v@.subrange(start, v@.len() as int);
            assert(tail =~= seq![c] + old_tail);
            assert(v@.subrange(0, start) =~= prev.subrange(0, start));
            if m >= 10 {
                assert(dec_rep(m as nat) == dec_rep((m / 10) as nat).push(digit_char((m % 10) as nat)));
                assert(dec_rep((m / 10) as nat).push(c) =~= dec_rep((m / 10) as nat) + seq![c]);
                assert(dec_rep((m / 10) as nat) + seq![c] + old_tail =~= dec_rep((m / 10) as nat) + tail);
            } else {
                assert(dec_rep(m as nat) =~= seq![c]);
                assert(seq![c] + old_tail =~= tail);
            }
        }
        m = m / 10;
        if m == 0 {
            break;
        }
    }
    proof {
        assert(v@ =~= v@.subrange(0, start) + v@.subrange(start, v@.len() as int));
    }
}

/// Whether `c` is whitespace: the Unicode `White_Space` characters, the
/// same set Rust's `char::is_whitespace` names.
pub open spec fn is_blank_char(c: char) -> bool {
    ||| c == ' '
    ||| 0x9 <= c as u32 <= 0xd
    ||| c as u32 == 0x85
    ||| c as u32 == 0xa0
    ||| c as u32 == 0x1680
    ||| 0x2000 <= c as u32 <= 0x200a
    ||| c as u32 == 0x2028
    ||| c as u32 == 0x2029
    ||| c as u32 == 0x202f
    ||| c as u32 == 0x205f
    ||| c as u32 == 0x3000
}

/// The characters left after dropping leading whitespace.
pub open spec fn trim_front(s: Seq<char>) -> Seq<char>
    decreases s.len(),
{
    if s.len() > 0 && is_blank_char(s[0]) {
        trim_front(s.drop_first())
    } else {
        s
    }
}

/// The characters left after dropping trailing whitespace.
pub open spec fn trim_back(s: Seq<char>) -> Seq<char>
    decreases s.len(),
{
    if s.len() > 0 && is_blank_char(s.last()) {
        trim_back(s.drop_last())
    } else {
        s
    }
}

/// The characters left after dropping whitespace from both ends.
pub open spec fn trim_of(s: Seq<char>) -> Seq<char> {
    trim_back(trim_front(s))
}

/// Dropping a fully blank prefix does not change the trimmed front.
proof fn lemma_trim_front_skip(s: Seq<char>, k: int)
    requires
        0 <= k <= s.len(),
        forall|j: int| 0 <= j < k ==> is_blank_char(#[trigger] s[j]),
    ensures
        trim_front(s) == trim_front(s.subrange(k, s.len() as int)),
    decreases k,
{
    if k == 0 {
        assert(s.subrange(0, s.len() as int) =~= s);
    } else {
        let rest = s.drop_first();
        lemma_trim_front_skip(rest, k - 1);
        assert(rest.subrange(k - 1, rest.len() as int) =~= s.subrange(k, s.len() as int));
    }
}

/// Dropping a fully blank suffix does not change the trimmed back.
proof fn lemma_trim_back_skip(s: Seq<char>, k: int)
    requires
        0 <= k <= s.len(),
        forall|j: int| k <= j < s.len() ==> is_blank_char(#[trigger] s[j]),
    ensures
        trim_back(s) == trim_back(s.subrange(0, k)),
    decreases s.len() - k,
{
    if k == s.len() {
        assert(s.subrange(0, s.len() as int) =~= s);
    } else {
        let rest = s.drop_last();
        lemma_trim_back_skip(rest, k);
        assert(rest.subrange(0, k) =~= s.subrange(0, k));
    }
}

/// Whether `c` is whitespace, decided on its code point.
fn is_blank(c: char) -> (r: bool)
    ensures
        r == is_blank_char(c),
{
    let u = c as u32;
    u == 0x20 || (0x9 <= u && u <= 0xd) || u == 0x85 || u == 0xa0 || u == 0x1680 || (0x2000 <= u
        && u <= 0x200a) || u == 0x2028 || u == 0x2029 || u == 0x202f || u == 0x205f || u == 0x3000
}

/// The text with surrounding whitespace removed.
pub fn trim(s: &str) -> (r: String)
    ensures
        r@ == trim_of(s@),
{
    let v = str_to_chars(s);
    let len = v.len();
    let mut lo: usize = 0;
    while lo < len && is_blank(v[lo])
        invariant
            lo <= len,
            len == v@.len(),
            v@ == s@,
            forall|j: int| 0 <= j < lo ==> is_blank_char(#[trigger] v@[j]),
        decreases len - lo,
    {
        lo = lo + 1;
    }
    let mut hi: usize = len;
    while hi > lo && is_blank(v[hi - 1])
        invariant
            lo <= hi <= len,
            len == v@.len(),
            v@ == s@,
            forall|j: int| 0 <= j < lo ==> is_blank_char(#[trigger] v@[j]),
            lo == len || !is_blank_char(v@[lo as int]),
            forall|j: int| hi <= j < len ==> is_blank_char(#[trigger] v@[j]),
        decreases hi,
    {
        hi = hi - 1;
    }
    let mut out: Vec<char> = Vec::new();
    let mut i: usize = lo;
    while i < hi
        invariant
            lo <= i <= hi <= len,
            len == v@.len(),
            out@ == v@.subrange(lo as int, i as int),
        decreases hi - i,
    {
        out.push(v[i]);
        i = i + 1;
        proof {
            assert(out@ =~= v@.subrange(lo as int, i as int));
        }
    }
    proof {
        let full = s@;
        lemma_trim_front_skip(full, lo as int);
        let mid = full.subrange(lo as int, full.len() as int);
        assert(trim_front(full) == trim_front(mid));
        if lo < len {
            assert(!is_blank_char(mid[0]));
        }
        assert(trim_front(mid) == mid);
        assert(forall|j: int|
            hi - lo <= j < mid.len() ==> is_blank_char(#[trigger] mid[j]));
        lemma_trim_back_skip(mid, hi - lo);
        let cut = mid.subrange(0, hi - lo);
        assert(trim_back(mid) == trim_back(cut));
        if hi > lo {
            assert(cut.last() == v@[hi - 1]);
            assert(!is_blank_char(cut.last()));
        }
        assert(trim_back(cut) == cut);
        assert(out@ =~= cut);
    }
    chars_to_string(&out)
}

/// The character for one digit below ten.
fn digit(d: u8) -> (c: char)
    requires
        d < 10,
    ensures
        c == digit_char(d as nat),
{
    match d {
        0 => '0',
        1 => '1',
        2 => '2',
        3 => '3',
        4 => '4',
        5 => '5',
        6 => '6',
        7 => '7',
        8 => '8',
        _ => '9',
    }
}

} // verus!
