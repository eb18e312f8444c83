//! Decimal rendering of counters for header and statistics lines.

use vstd::prelude::*;

verus! {

/// The digit character for a value below ten.
pub open spec fn digit_char(d: nat) -> char {
    if d == 0 {
        '0'
    } else if d == 1 {
        '1'
    } else if d == 2 {
        '2'
    } else if d == 3 {
        '3'
    } else if d == 4 {
        '4'
    } else if d == 5 {
        '5'
    } else if d == 6 {
        '6'
    } else if d == 7 {
        '7'
    } else if d == 8 {
        '8'
    } else {
        '9'
    }
}

/// The usual decimal rendering of `n`: most significant digit first, no
/// leading zeroes except for the single digit `0` itself.
pub open spec fn dec_rep(n: nat) -> Seq<char>
    decreases n,
{
    if n < 10 {
        seq![digit_char(n)]
    } else {
        dec_rep(n / 10) + seq![digit_char(n % 10)]
    }
}

fn digit_of(d: u64) -> (c: char)
    requires
        d < 10,
    ensures
        c == digit_char(d as nat),
{
    if d == 0 {
        '0'
    } else if d == 1 {
        '1'
    } else if d == 2 {
        '2'
    } else if d == 3 {
        '3'
    } else if d == 4 {
        '4'
    } else if d == 5 {
        '5'
    } else if d == 6 {
        '6'
    } else if d == 7 {
        '7'
    } else if d == 8 {
        '8'
    } else {
        '9'
    }
}

/// Renders `x` in decimal, as [`dec_rep`] describes.
pub fn dec_chars(x: u64) -> (r: Vec<char>)
    ensures
        r@ == dec_rep(x as nat),
    decreases x,
{
    if x < 10 {
        let mut r: Vec<char> = Vec::new();
        r.push(digit_of(x));
        proof {
            assert(r@ =~= seq![digit_char(x as nat)]);
        }
        r
    } else {
        let mut r = dec_chars(x / 10);
        let d = digit_of(x % 10);
        let ghost prefix = r@;
        r.push(d);
        proof {
            assert(r@ =~= prefix + seq![digit_char((x % 10) as nat)]);
            assert((x as nat) / 10 == (x / 10) as nat);
            assert((x as nat) % 10 == (x % 10) as nat);
        }
        r
    }
}

} // verus!
