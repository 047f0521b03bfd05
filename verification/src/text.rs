//! Verified construction of the rejection diagnostics: decimal rendering
//! of integers and the two message shapes the scorer returns.

use vstd::prelude::*;
use vstd::string::StringExecFns;

verus! {

/// The decimal digit character for `d < 10`.
pub open spec fn digit_char(d: nat) -> char {
    if d == 0 {
        '0'
    } else if d == 1 {
        '1'
    } else if d == 2 {
        '2'
    } else if d == 3 {
        '3'
    } else if d == 4 {
        '4'
    } else if d == 5 {
        '5'
    } else if d == 6 {
        '6'
    } else if d == 7 {
        '7'
    } else if d == 8 {
        '8'
    } else {
        '9'
    }
}

/// The decimal digit sequence of `n`, most significant digit first.
pub open spec fn dec_seq(n: nat) -> Seq<char>
    decreases n,
{
    if n < 10 {
        seq![digit_char(n)]
    } else {
        dec_seq(n / 10) + seq![digit_char(n % 10)]
    }
}

/// The decimal rendering of `v`, with a leading minus sign when negative.
pub open spec fn int_seq(v: int) -> Seq<char> {
    if v < 0 {
        seq!['-'] + dec_seq((-v) as nat)
    } else {
        dec_seq(v as nat)
    }
}

/// The diagnostic for performer `k` placed at `(x, y)` outside the
/// permitted stage sub-region.
pub open spec fn oob_text(k: int, x: int, y: int) -> Seq<char> {
    "player "@ + dec_seq(k as nat) + " out of bounds ("@ + int_seq(x) + ","@ + int_seq(y) + ")"@
}

/// The diagnostic for performers `k` and `k2` standing at squared
/// distance `d2`, closer than the minimum separation.
pub open spec fn sep_text(k: int, k2: int, d2: int) -> Seq<char> {
    "players "@ + dec_seq(k as nat) + " "@ + dec_seq(k2 as nat) + " intersect (d2="@ + int_seq(d2)
        + ")"@
}

/// The one-character string for the decimal digit `d`.
fn digit_str(d: u64) -> (r: &'static str)
    requires
        d < 10,
    ensures
        r@ == seq![digit_char(d as nat)],
{
    proof {
        reveal_strlit("0");
        reveal_strlit("1");
        reveal_strlit("2");
        reveal_strlit("3");
        reveal_strlit("4");
        reveal_strlit("5");
        reveal_strlit("6");
        reveal_strlit("7");
        reveal_strlit("8");
        reveal_strlit("9");
    }
    if d == 0 {
        "0"
    } else if d == 1 {
        "1"
    } else if d == 2 {
        "2"
    } else if d == 3 {
        "3"
    } else if d == 4 {
        "4"
    } else if d == 5 {
        "5"
    } else if d == 6 {
        "6"
    } else if d == 7 {
        "7"
    } else if d == 8 {
        "8"
    } else {
        "9"
    }
}

/// The decimal rendering of `n`.
pub fn u64_string(n: u64) -> (s: String)
    ensures
        s@ == dec_seq(n as nat),
    decreases n,
{
    if n < 10 {
        String::from_str(digit_str(n))
    } else {
        let mut s = u64_string(n / 10);
        s.append(digit_str(n % 10));
        s
    }
}

/// The decimal rendering of `v`, with a leading minus sign when negative.
pub fn i64_string(v: i64) -> (s: String)
    ensures
        s@ == int_seq(v as int),
{
    if v >= 0 {
        u64_string(v as u64)
    } else {
        let mag = (-(v as i128)) as u64;
        let mut s = String::from_str("-");
        proof {
            reveal_strlit("-");
        }
        s.append(u64_string(mag).as_str());
        s
    }
}

/// Builds the out-of-bounds diagnostic for performer `k` at `(x, y)`.
pub fn oob_message(k: usize, x: i64, y: i64) -> (s: String)
    ensures
        s@ == oob_text(k as int, x as int, y as int),
{
    let mut s = String::from_str("player ");
    s.append(u64_string(k as u64).as_str());
    s.append(" out of bounds (");
    s.append(i64_string(x).as_str());
    s.append(",");
    s.append(i64_string(y).as_str());
    s.append(")");
    s
}

/// Builds the separation diagnostic for performers `k` and `k2` at
/// squared distance `d2`.
pub fn sep_message(k: usize, k2: usize, d2: i64) -> (s: String)
    ensures
        s@ == sep_text(k as int, k2 as int, d2 as int),
{
    let mut s = String::from_str("players ");
    s.append(u64_string(k as u64).as_str());
    s.append(" ");
    s.append(u64_string(k2 as u64).as_str());
    s.append(" intersect (d2=");
    s.append(i64_string(d2).as_str());
    s.append(")");
    s
}

/// The out-of-bounds diagnostic is never the empty string.
pub proof fn lemma_oob_text_nonempty(k: int, x: int, y: int)
    ensures
        oob_text(k, x, y).len() > 0,
{
    reveal_strlit("player ");
}

/// The separation diagnostic is never the empty string.
pub proof fn lemma_sep_text_nonempty(k: int, k2: int, d2: int)
    ensures
        sep_text(k, k2, d2).len() > 0,
{
    reveal_strlit("players ");
}

} // verus!
