//! Decimal rendering and the human-readable size formatter.

use vstd::prelude::*;
use vstd::string::*;
use vstd::arithmetic::div_mod::{lemma_div_is_ordered, lemma_div_pos_is_pos};

verus! {

/// The decimal digit character for `d`; meaningful for `0 <= d <= 9`.
pub open spec fn dec_char(d: int) -> char {
    if d == 0 {
        '0'
    } else if d == 1 {
        '1'
    } else if d == 2 {
        '2'
    } else if d == 3 {
        '3'
    } else if d == 4 {
        '4'
    } else if d == 5 {
        '5'
    } else if d == 6 {
        '6'
    } else if d == 7 {
        '7'
    } else if d == 8 {
        '8'
    } else {
        '9'
    }
}

/// The decimal representation of `n`: most significant digit first, no
/// sign, no padding, a single `'0'` for zero.
pub open spec fn dec_seq(n: nat) -> Seq<char>
    decreases n,
{
    if n < 10 {
        seq![dec_char(n as int)]
    } else {
        dec_seq(n / 10).push(dec_char((n % 10) as int))
    }
}

fn digit_str(d: u64) -> (r: &'static str)
    requires
        d < 10,
    ensures
        r@ == seq![dec_char(d as int)],
{
    if d == 0 {
        proof { reveal_strlit("0"); }
        assert("0"@ =~= seq![dec_char(0int)]);
        "0"
    } else if d == 1 {
        proof { reveal_strlit("1"); }
        assert("1"@ =~= seq![dec_char(1int)]);
        "1"
    } else if d == 2 {
        proof { reveal_strlit("2"); }
        assert("2"@ =~= seq![dec_char(2int)]);
        "2"
    } else if d == 3 {
        proof { reveal_strlit("3"); }
        assert("3"@ =~= seq![dec_char(3int)]);
        "3"
    } else if d == 4 {
        proof { reveal_strlit("4"); }
        assert("4"@ =~= seq![dec_char(4int)]);
        "4"
    } else if d == 5 {
        proof { reveal_strlit("5"); }
        assert("5"@ =~= seq![dec_char(5int)]);
        "5"
    } else if d == 6 {
        proof { reveal_strlit("6"); }
        assert("6"@ =~= seq![dec_char(6int)]);
        "6"
    } else if d == 7 {
        proof { reveal_strlit("7"); }
        assert("7"@ =~= seq![dec_char(7int)]);
        "7"
    } else if d == 8 {
        proof { reveal_strlit("8"); }
        assert("8"@ =~= seq![dec_char(8int)]);
        "8"
    } else {
        proof { reveal_strlit("9"); }
        assert("9"@ =~= seq![dec_char(9int)]);
        "9"
    }
}

/// Renders `n` in decimal.
pub fn u64_to_string(n: u64) -> (s: String)
    ensures
        s@ == dec_seq(n as nat),
    decreases n,
{
    if n < 10 {
        let s = digit_str(n).to_owned();
        s
    } else {
        let mut s = u64_to_string(n / 10);
        s.append(digit_str(n % 10));
        proof {
            assert(s@ =~= dec_seq(n as nat));
        }
        s
    }
}

/// Renders `n` in decimal.
pub fn u128_to_string(n: u128) -> (s: String)
    ensures
        s@ == dec_seq(n as nat),
    decreases n,
{
    if n < 10 {
        let s = digit_str(n as u64).to_owned();
        s
    } else {
        let mut s = u128_to_string(n / 10);
        s.append(digit_str((n % 10) as u64));
        proof {
            assert(s@ =~= dec_seq(n as nat));
        }
        s
    }
}

/// The scaled value in tenths of the unit `div`, rounded half-up.
pub open spec fn tenths(n: u64, div: u64) -> int
    recommends
        div >= 2,
{
    (n as int * 10 + div as int / 2) / (div as int)
}

/// `n` scaled by `div`, one decimal place, followed by `unit`.
pub open spec fn scaled(n: u64, div: u64, unit: Seq<char>) -> Seq<char> {
    let t = tenths(n, div);
    dec_seq((t / 10) as nat) + seq!['.', dec_char(t % 10)] + unit
}

/// The human-readable form of a byte count: the plain number below 1024
/// bytes, otherwise the count scaled to KB, MB, GB or TB (base 1024,
/// both band boundaries inclusive), rounded half-up to one decimal.
pub open spec fn size_str(n: u64) -> Seq<char> {
    if n <= 1023 {
        dec_seq(n as nat)
    } else if n <= 1048575 {
        scaled(n, 1024, " KB"@)
    } else if n <= 1073741823 {
        scaled(n, 1048576, " MB"@)
    } else if n <= 1099511627775 {
        scaled(n, 1073741824, " GB"@)
    } else {
        scaled(n, 1099511627776, " TB"@)
    }
}

fn scale_band(n: u64, div: u64, unit: &str) -> (r: String)
    requires
        1024 <= div,
        n >= 1024,
    ensures
        r@ == scaled(n, div, unit@),
{
    let t128: u128 = (n as u128 * 10 + (div / 2) as u128) / (div as u128);
    proof {
        lemma_div_is_ordered(
            n as int * 10 + div as int / 2,
            u64::MAX as int * 10 + div as int / 2,
            div as int,
        );
        assert(u64::MAX as int * 10 + div as int / 2 <= u64::MAX as int * div as int)
            by (nonlinear_arith)
            requires div >= 1024;
        lemma_div_is_ordered(
            u64::MAX as int * 10 + div as int / 2,
            u64::MAX as int * div as int,
            div as int,
        );
        assert((u64::MAX as int * div as int) / (div as int) == u64::MAX as int) by (nonlinear_arith)
            requires div >= 2;
        lemma_div_pos_is_pos(n as int * 10 + div as int / 2, div as int);
    }
    let t: u64 = t128 as u64;
    let mut s = u64_to_string(t / 10);
    s.append(".");
    s.append(digit_str(t % 10));
    s.append(unit);
    proof {
        reveal_strlit(".");
        assert(s@ =~= scaled(n, div, unit@));
    }
    s
}

/// Formats a byte count for human reading, as `size_str` states.
pub fn format_size(n_bytes: u64) -> (r: String)
    ensures
        r@ == size_str(n_bytes),
{
    if n_bytes <= 1023 {
        u64_to_string(n_bytes)
    } else if n_bytes <= 1048575 {
        scale_band(n_bytes, 1024, " KB")
    } else if n_bytes <= 1073741823 {
        scale_band(n_bytes, 1048576, " MB")
    } else if n_bytes <= 1099511627775 {
        scale_band(n_bytes, 1073741824, " GB")
    } else {
        scale_band(n_bytes, 1099511627776, " TB")
    }
}

} // verus!
