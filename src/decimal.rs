//! Decimal text of unsigned integers and of truncated ratios.

use vstd::prelude::*;

verus! {

/// The ten decimal digits, in order.
pub open spec fn digits() -> Seq<char> {
    seq!['0', '1', '2', '3', '4', '5', '6', '7', '8', '9']
}

/// Decimal representation of `n`, most significant digit first, without
/// leading zeros.
pub open spec fn decimal(n: nat) -> Seq<char>
    decreases n,
{
    if n < 10 {
        seq![digits()[n as int]]
    } else {
        decimal(n / 10).push(digits()[(n % 10) as int])
    }
}

/// The quotient `num / den` written with three fractional digits,
/// truncated toward zero; a zero denominator gives `"0"`.
pub open spec fn ratio_text(num: nat, den: nat) -> Seq<char> {
    if den == 0 {
        seq!['0']
    } else {
        let thousandths = (num * 1000 / den) % 1000;
        decimal(num / den) + seq![
            '.',
            digits()[(thousandths / 100) as int],
            digits()[((thousandths / 10) % 10) as int],
            digits()[(thousandths % 10) as int],
        ]
    }
}

fn digit_text(d: u128) -> (r: &'static str)
    requires
        d < 10,
    ensures
        r@ == seq![digits()[d as int]],
{
    if d == 0 {
        proof { reveal_strlit("0"); }
        "0"
    } else if d == 1 {
        proof { reveal_strlit("1"); }
        "1"
    } else if d == 2 {
        proof { reveal_strlit("2"); }
        "2"
    } else if d == 3 {
        proof { reveal_strlit("3"); }
        "3"
    } else if d == 4 {
        proof { reveal_strlit("4"); }
        "4"
    } else if d == 5 {
        proof { reveal_strlit("5"); }
        "5"
    } else if d == 6 {
        proof { reveal_strlit("6"); }
        "6"
    } else if d == 7 {
        proof { reveal_strlit("7"); }
        "7"
    } else if d == 8 {
        proof { reveal_strlit("8"); }
        "8"
    } else {
        proof { reveal_strlit("9"); }
        "9"
    }
}

/// Decimal text of `n`.
pub fn decimal_text(n: u128) -> (r: String)
    ensures
        r@ == decimal(n as nat),
    decreases n,
{
    if n < 10 {
        let mut s = String::new();
        s.append(digit_text(n));
        s
    } else {
        let mut s = decimal_text(n / 10);
        s.append(digit_text(n % 10));
        s
    }
}

/// Text of `num / den` with three truncated fractional digits, `"0"` when
/// `den` is zero.
pub fn ratio_text_of(num: u64, den: u64) -> (r: String)
    ensures
        r@ == ratio_text(num as nat, den as nat),
{
    if den == 0 {
        let mut s = String::new();
        proof { reveal_strlit("0"); }
        s.append("0");
        s
    } else {
        let scaled: u128 = num as u128 * 1000;
        let thousandths: u128 = (scaled / den as u128) % 1000;
        let mut s = decimal_text((num / den) as u128);
        proof { reveal_strlit("."); }
        s.append(".");
        s.append(digit_text(thousandths / 100));
        s.append(digit_text((thousandths / 10) % 10));
        s.append(digit_text(thousandths % 10));
        assert(s@ =~= ratio_text(num as nat, den as nat));
        s
    }
}

} // verus!
