//! Rendering of fixed-point values inside error messages.
use vstd::prelude::*;
use crate::UNIT;

verus! {

/// The decimal digit `d` (`0 <= d < 10`).
pub open spec fn digit_char(d: nat) -> char {
    (48 + d) as char
}

/// Decimal digits of `n`, most significant first, without leading zeros
/// (`0` for zero), as `{}` prints an unsigned integer.
#[verifier::opaque]
pub open spec fn decimal(n: nat) -> Seq<char>
    decreases n,
{
    if n < 10 {
        seq![digit_char(n)]
    } else {
        decimal(n / 10).push(digit_char(n % 10))
    }
}

/// Decimal digits of `n` left-padded with zeros to `width`, as `{:0width}`
/// prints an unsigned integer.
pub open spec fn padded(n: nat, width: nat) -> Seq<char> {
    let d = decimal(n);
    if d.len() >= width {
        d
    } else {
        Seq::new((width - d.len()) as nat, |i: int| '0') + d
    }
}

/// `[-]whole.ffffffffffff`: the sign, the whole part and the fraction padded
/// to twelve digits.
#[verifier::opaque]
pub open spec fn fixed_text(negative: bool, whole: nat, frac: nat) -> Seq<char> {
    (if negative {
        seq!['-']
    } else {
        Seq::empty()
    }) + decimal(whole) + seq!['.'] + padded(frac, 12)
}

/// A message made of `prefix`, a fixed-point value given by its sign, whole
/// part and twelve-digit fraction, and `suffix`.
pub open spec fn message_with_value(
    prefix: Seq<char>,
    negative: bool,
    whole: u64,
    frac: u64,
    suffix: Seq<char>,
) -> Seq<char> {
    prefix + fixed_text(negative, whole as nat, frac as nat) + suffix
}

/// A message with two fixed-point values.
pub open spec fn message_with_two_values(
    prefix: Seq<char>,
    first: (bool, u64, u64),
    middle: Seq<char>,
    second: (bool, u64, u64),
    suffix: Seq<char>,
) -> Seq<char> {
    prefix + fixed_text(first.0, first.1 as nat, first.2 as nat) + middle + fixed_text(
        second.0,
        second.1 as nat,
        second.2 as nat,
    ) + suffix
}

/// Sign, whole part and fraction (in units of `1 / UNIT`) of a fixed-point
/// value.
pub open spec fn decimal_parts_spec(v: i64) -> (bool, u64, u64) {
    let a: int = if v < 0 {
        -(v as int)
    } else {
        v as int
    };
    (v < 0, (a / (UNIT as int)) as u64, (a % (UNIT as int)) as u64)
}

/// Splits a fixed-point value into sign, whole part and fraction.
pub fn decimal_parts(v: i64) -> (r: (bool, u64, u64))
    ensures
        r == decimal_parts_spec(v),
{
    let a: u64 = if v < 0 {
        ((-(v as i128)) as u64)
    } else {
        v as u64
    };
    let u = UNIT as u64;
    (v < 0, a / u, a % u)
}

/// `format!` of a message around one fixed-point value.
#[verifier::external_body]
fn format_one(prefix: &str, negative: bool, whole: u64, frac: u64, suffix: &str) -> (r: String)
    ensures
        r@ == message_with_value(prefix@, negative, whole, frac, suffix@),
{
    format!("{}{}{}.{:012}{}", prefix, if negative { "-" } else { "" }, whole, frac, suffix)
}

/// `format!` of a message around two fixed-point values.
#[verifier::external_body]
fn format_two(
    prefix: &str,
    first: (bool, u64, u64),
    middle: &str,
    second: (bool, u64, u64),
    suffix: &str,
) -> (r: String)
    ensures
        r@ == message_with_two_values(prefix@, first, middle@, second, suffix@),
{
    format!(
        "{}{}{}.{:012}{}{}{}.{:012}{}",
        prefix,
        if first.0 { "-" } else { "" },
        first.1,
        first.2,
        middle,
        if second.0 { "-" } else { "" },
        second.1,
        second.2,
        suffix
    )
}

/// Message `prefix`, the decimal value of `v`, `suffix`.
pub fn value_message(prefix: &str, v: i64, suffix: &str) -> (r: String)
    ensures
        r@ == message_with_value(
            prefix@,
            decimal_parts_spec(v).0,
            decimal_parts_spec(v).1,
            decimal_parts_spec(v).2,
            suffix@,
        ),
{
    let (neg, whole, frac) = decimal_parts(v);
    format_one(prefix, neg, whole, frac, suffix)
}

/// Message `prefix`, the decimal value of `a`, `middle`, that of `b`, `suffix`.
pub fn two_value_message(prefix: &str, a: i64, middle: &str, b: i64, suffix: &str) -> (r: String)
    ensures
        r@ == message_with_two_values(
            prefix@,
            decimal_parts_spec(a),
            middle@,
            decimal_parts_spec(b),
            suffix@,
        ),
{
    let pa = decimal_parts(a);
    let pb = decimal_parts(b);
    format_two(prefix, pa, middle, pb, suffix)
}


/// Decimal rendering `[-]whole.ffffffffffff` of a wide fixed-point value given
/// by its sign, whole part and twelve-digit fraction.
#[verifier::opaque]
pub open spec fn fixed_digits(negative: bool, whole: u128, frac: u64) -> Seq<char> {
    fixed_text(negative, whole as nat, frac as nat)
}

/// Decimal rendering of a count.
#[verifier::opaque]
pub open spec fn count_digits(n: usize) -> Seq<char> {
    decimal(n as nat)
}

/// Sign, whole part and fraction (in units of `1 / UNIT`) of a wide
/// fixed-point value.
pub open spec fn wide_parts_spec(v: i128) -> (bool, u128, u64) {
    let a: int = if v < 0 {
        -(v as int)
    } else {
        v as int
    };
    (v < 0, (a / (UNIT as int)) as u128, (a % (UNIT as int)) as u64)
}

/// Text of a wide fixed-point value.
pub open spec fn wide_text(v: i128) -> Seq<char> {
    fixed_digits(wide_parts_spec(v).0, wide_parts_spec(v).1, wide_parts_spec(v).2)
}

/// `format!` of a wide fixed-point value from its sign, whole part and fraction.
#[verifier::external_body]
fn format_fixed(negative: bool, whole: u128, frac: u64) -> (r: String)
    ensures
        r@ == fixed_digits(negative, whole, frac),
{
    format!("{}{}.{:012}", if negative { "-" } else { "" }, whole, frac)
}

/// `format!` of a count.
#[verifier::external_body]
pub(crate) fn count_string(n: usize) -> (r: String)
    ensures
        r@ == count_digits(n),
{
    format!("{}", n)
}

/// Text of a wide fixed-point value.
pub fn wide_string(v: i128) -> (r: String)
    ensures
        r@ == wide_text(v),
{
    let a: u128 = if v < 0 {
        ((-(v + 1)) as u128) + 1
    } else {
        v as u128
    };
    let u: u128 = UNIT as u128;
    let whole = a / u;
    let frac = (a % u) as u64;
    format_fixed(v < 0, whole, frac)
}

} // verus!
