//! Plotting-space numbers.
//!
//! Every coordinate is a [`Scalar`]: a signed count of thousandths. One whole
//! unit of plotting space is [`UNIT`]. Arithmetic that could leave the range
//! of a `Scalar` stops at the nearest bound.

use vstd::prelude::*;

verus! {

/// A plotting-space number, counted in thousandths.
pub type Scalar = i64;

/// The `Scalar` that stands for `1.0`.
pub const UNIT: Scalar = 1000;

/// `v` brought into the range of a [`Scalar`].
pub open spec fn saturate(v: int) -> int {
    if v < i64::MIN {
        i64::MIN as int
    } else if v > i64::MAX {
        i64::MAX as int
    } else {
        v
    }
}

/// The `Scalar` for `n` whole units.
pub open spec fn whole(n: int) -> int {
    saturate(n * UNIT)
}

/// Brings a wide intermediate result back into the range of a [`Scalar`].
pub fn saturated(v: i128) -> (r: Scalar)
    ensures
        r == saturate(v as int),
{
    if v < i64::MIN as i128 {
        i64::MIN
    } else if v > i64::MAX as i128 {
        i64::MAX
    } else {
        v as i64
    }
}

/// `a + b`, stopping at the bounds of a [`Scalar`].
pub fn saturating_sum(a: Scalar, b: Scalar) -> (r: Scalar)
    ensures
        r == saturate(a + b),
{
    saturated(a as i128 + b as i128)
}

/// `a - b`, stopping at the bounds of a [`Scalar`].
pub fn saturating_diff(a: Scalar, b: Scalar) -> (r: Scalar)
    ensures
        r == saturate(a - b),
{
    saturated(a as i128 - b as i128)
}

/// The `Scalar` for a count of whole units, such as an index or a tally.
pub fn from_count(n: usize) -> (r: Scalar)
    ensures
        r == whole(n as int),
{
    let unit: i128 = UNIT as i128;
    assert(unit == 1000);
    saturated(n as i128 * unit)
}

/// The character of one decimal digit.
pub open spec fn digit(d: int) -> char {
    if d == 0 {
        '0'
    } else if d == 1 {
        '1'
    } else if d == 2 {
        '2'
    } else if d == 3 {
        '3'
    } else if d == 4 {
        '4'
    } else if d == 5 {
        '5'
    } else if d == 6 {
        '6'
    } else if d == 7 {
        '7'
    } else if d == 8 {
        '8'
    } else {
        '9'
    }
}

/// The decimal digits of `n`, most significant first, without leading zeros.
pub open spec fn decimal(n: nat) -> Seq<char>
    decreases n,
{
    if n < 10 {
        seq![digit(n as int)]
    } else {
        decimal(n / 10).push(digit((n % 10) as int))
    }
}

/// The magnitude of `v` in tenths of a unit, rounded to the nearest tenth; a
/// value halfway between two tenths goes to the even one.
pub open spec fn tenths(v: int) -> nat {
    let magnitude: int = if v < 0 { -v } else { v };
    let quotient: int = magnitude / 100;
    let rest: int = magnitude % 100;
    if rest > 50 || (rest == 50 && quotient % 2 == 1) {
        (quotient + 1) as nat
    } else {
        quotient as nat
    }
}

/// The text of `v` with one decimal place: a minus sign where `v` is negative,
/// the whole part, a point, and one digit.
pub open spec fn label(v: int) -> Seq<char> {
    let sign: Seq<char> = if v < 0 { seq!['-'] } else { Seq::<char>::empty() };
    sign + decimal(tenths(v) / 10) + seq!['.', digit((tenths(v) % 10) as int)]
}

fn digit_text(d: u64) -> (s: &'static str)
    requires
        d < 10,
    ensures
        s@ == seq![digit(d as int)],
{
    proof {
        reveal_strlit("0");
        reveal_strlit("1");
        reveal_strlit("2");
        reveal_strlit("3");
        reveal_strlit("4");
        reveal_strlit("5");
        reveal_strlit("6");
        reveal_strlit("7");
        reveal_strlit("8");
        reveal_strlit("9");
    }
    let s: &'static str = if d == 0 {
        "0"
    } else if d == 1 {
        "1"
    } else if d == 2 {
        "2"
    } else if d == 3 {
        "3"
    } else if d == 4 {
        "4"
    } else if d == 5 {
        "5"
    } else if d == 6 {
        "6"
    } else if d == 7 {
        "7"
    } else if d == 8 {
        "8"
    } else {
        "9"
    };
    assert(s@ =~= seq![digit(d as int)]);
    s
}

fn push_decimal(text: &mut String, n: u64)
    ensures
        final(text)@ == old(text)@ + decimal(n as nat),
    decreases n,
{
    if n >= 10 {
        push_decimal(text, n / 10);
    }
    text.append(digit_text(n % 10));
    assert(text@ =~= old(text)@ + decimal(n as nat));
}

/// Writes a [`Scalar`] with one decimal place.
pub fn format_label(v: Scalar) -> (text: String)
    ensures
        text@ == label(v as int),
{
    let magnitude: u64 = if v < 0 {
        (-(v as i128)) as u64
    } else {
        v as u64
    };
    let quotient: u64 = magnitude / 100;
    let rest: u64 = magnitude % 100;
    let rounded: u64 = if rest > 50 || (rest == 50 && quotient % 2 == 1) {
        quotient + 1
    } else {
        quotient
    };
    assert(rounded == tenths(v as int));
    let mut text = String::new();
    proof {
        reveal_strlit("-");
        reveal_strlit(".");
    }
    if v < 0 {
        text.append("-");
    }
    push_decimal(&mut text, rounded / 10);
    text.append(".");
    text.append(digit_text(rounded % 10));
    assert(text@ =~= label(v as int));
    text
}

} // verus!
