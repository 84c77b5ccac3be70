//! Floating-point literals of the expression language.
//!
//! The engine never inspects a float itself: a float is carried through
//! lexing, the tree and evaluation as an opaque `serde_json::Number`,
//! and every operation on one goes through a named, trusted wrapper.
//! By construction every such number holds a finite float: each wrapper
//! that produces one either starts from a finite float or refuses.
use vstd::prelude::*;

verus! {

#[verifier::external_type_specification]
#[verifier::external_body]
pub struct ExNumber(serde_json::Number);

/// Relies on the derived `serde_json::Number::clone`, a plain copy.
pub assume_specification[ <serde_json::Number as Clone>::clone ](
    n: &serde_json::Number,
) -> (r: serde_json::Number)
    ensures
        r == *n,
;

/// What `str::parse::<f64>` followed by `serde_json::Number::from_f64`
/// returns: the parsed number, or `None` when the text does not parse
/// as a float or parses to a non-finite value.
pub uninterp spec fn float_parse(s: Seq<char>) -> Option<serde_json::Number>;

/// What an `i64` becomes as a float.
pub uninterp spec fn float_of_int(i: i64) -> serde_json::Number;

/// The negated float; negation keeps a finite float finite.
pub uninterp spec fn float_neg(n: serde_json::Number) -> serde_json::Number;

/// Float sum, or `None` when the sum is not finite.
pub uninterp spec fn float_add(a: serde_json::Number, b: serde_json::Number) -> Option<
    serde_json::Number,
>;

/// Float difference, or `None` when it is not finite.
pub uninterp spec fn float_sub(a: serde_json::Number, b: serde_json::Number) -> Option<
    serde_json::Number,
>;

/// Float product, or `None` when it is not finite.
pub uninterp spec fn float_mul(a: serde_json::Number, b: serde_json::Number) -> Option<
    serde_json::Number,
>;

/// Float quotient, or `None` when it is not finite.
pub uninterp spec fn float_div(a: serde_json::Number, b: serde_json::Number) -> Option<
    serde_json::Number,
>;

/// Float remainder, or `None` when it is not finite.
pub uninterp spec fn float_rem(a: serde_json::Number, b: serde_json::Number) -> Option<
    serde_json::Number,
>;

/// Strict float order. For floats `a > b` holds exactly when `b < a`,
/// so both `<` and `>` speak of this one relation.
pub uninterp spec fn float_lt(a: serde_json::Number, b: serde_json::Number) -> bool;

/// Non-strict float order; `a >= b` holds exactly when `b <= a`.
pub uninterp spec fn float_le(a: serde_json::Number, b: serde_json::Number) -> bool;

/// Float equality as `serde_json::Number` compares: same-kind values
/// compared by `==` on the float. Equal values always compare equal,
/// since no number here is a NaN.
pub uninterp spec fn float_eq(a: serde_json::Number, b: serde_json::Number) -> bool;

/// Whether the float is zero, of either sign.
pub uninterp spec fn float_is_zero(n: serde_json::Number) -> bool;

/// The number rendered with two decimal places.
pub uninterp spec fn float_fmt2(n: serde_json::Number) -> Seq<char>;

/// Relies on `str::parse::<f64>` and `serde_json::Number::from_f64`:
/// both depend on the text alone, and `from_f64` refuses non-finite
/// floats.
#[verifier::external_body]
pub fn number_parse(s: &str) -> (r: Option<serde_json::Number>)
    ensures
        r == float_parse(s@),
{
    match s.parse() {
        Ok(v) => serde_json::Number::from_f64(v),
        Err(_) => None,
    }
}

/// Relies on `serde_json::Number::from_f64`; an `i64` cast to a float
/// is always finite, so the conversion never refuses.
#[verifier::external_body]
pub fn number_of_int(i: i64) -> (r: serde_json::Number)
    ensures
        r == float_of_int(i),
{
    match serde_json::Number::from_f64(i as _) {
        Some(n) => n,
        None => serde_json::Number::from(0u64),
    }
}

/// Relies on `serde_json::Number::as_f64` and `from_f64`; the negation
/// of a finite float is finite.
#[verifier::external_body]
pub fn number_neg(n: &serde_json::Number) -> (r: serde_json::Number)
    ensures
        r == float_neg(*n),
{
    match n.as_f64() {
        Some(v) => match serde_json::Number::from_f64(-v) {
            Some(m) => m,
            None => n.clone(),
        },
        None => n.clone(),
    }
}

/// Relies on `serde_json::Number::as_f64` and `from_f64`: float
/// addition, refused when the sum is not finite.
#[verifier::external_body]
pub fn number_add(a: &serde_json::Number, b: &serde_json::Number) -> (r: Option<
    serde_json::Number,
>)
    ensures
        r == float_add(*a, *b),
{
    match (a.as_f64(), b.as_f64()) {
        (Some(x), Some(y)) => serde_json::Number::from_f64(x + y),
        _ => None,
    }
}

/// Relies on `serde_json::Number::as_f64` and `from_f64`: float
/// subtraction, refused when the difference is not finite.
#[verifier::external_body]
pub fn number_sub(a: &serde_json::Number, b: &serde_json::Number) -> (r: Option<
    serde_json::Number,
>)
    ensures
        r == float_sub(*a, *b),
{
    match (a.as_f64(), b.as_f64()) {
        (Some(x), Some(y)) => serde_json::Number::from_f64(x - y),
        _ => None,
    }
}

/// Relies on `serde_json::Number::as_f64` and `from_f64`: float
/// multiplication, refused when the product is not finite.
#[verifier::external_body]
pub fn number_mul(a: &serde_json::Number, b: &serde_json::Number) -> (r: Option<
    serde_json::Number,
>)
    ensures
        r == float_mul(*a, *b),
{
    match (a.as_f64(), b.as_f64()) {
        (Some(x), Some(y)) => serde_json::Number::from_f64(x * y),
        _ => None,
    }
}

/// Relies on `serde_json::Number::as_f64` and `from_f64`: float
/// division, refused when the quotient is not finite (so also when
/// the divisor is zero).
#[verifier::external_body]
pub fn number_div(a: &serde_json::Number, b: &serde_json::Number) -> (r: Option<
    serde_json::Number,
>)
    ensures
        r == float_div(*a, *b),
{
    match (a.as_f64(), b.as_f64()) {
        (Some(x), Some(y)) => serde_json::Number::from_f64(x / y),
        _ => None,
    }
}

/// Relies on `serde_json::Number::as_f64` and `from_f64`: float
/// remainder, refused when it is not finite.
#[verifier::external_body]
pub fn number_rem(a: &serde_json::Number, b: &serde_json::Number) -> (r: Option<
    serde_json::Number,
>)
    ensures
        r == float_rem(*a, *b),
{
    match (a.as_f64(), b.as_f64()) {
        (Some(x), Some(y)) => serde_json::Number::from_f64(x % y),
        _ => None,
    }
}

/// Relies on `serde_json::Number::as_f64` and float `<`.
#[verifier::external_body]
pub fn number_lt(a: &serde_json::Number, b: &serde_json::Number) -> (r: bool)
    ensures
        r == float_lt(*a, *b),
{
    match (a.as_f64(), b.as_f64()) {
        (Some(x), Some(y)) => x < y,
        _ => false,
    }
}

/// Relies on `serde_json::Number::as_f64` and float `<=`.
#[verifier::external_body]
pub fn number_le(a: &serde_json::Number, b: &serde_json::Number) -> (r: bool)
    ensures
        r == float_le(*a, *b),
{
    match (a.as_f64(), b.as_f64()) {
        (Some(x), Some(y)) => x <= y,
        _ => false,
    }
}

/// Relies on `serde_json::Number`'s `PartialEq`: values of the same
/// kind compared by value, floats by float `==`.
#[verifier::external_body]
pub fn number_eq(a: &serde_json::Number, b: &serde_json::Number) -> (r: bool)
    ensures
        r == float_eq(*a, *b),
        a == b ==> r,
{
    a == b
}

/// Relies on `serde_json::Number::as_f64` and the float's bit form:
/// a zero of either sign has every bit clear but possibly the sign
/// bit.
#[verifier::external_body]
pub fn number_is_zero(n: &serde_json::Number) -> (r: bool)
    ensures
        r == float_is_zero(*n),
{
    match n.as_f64() {
        Some(v) => v.to_bits() << 1u32 == 0,
        None => false,
    }
}

/// Relies on `serde_json::Number::as_f64` and `format!` with `{:.2}`:
/// the number rendered at fixed two-decimal precision.
#[verifier::external_body]
pub fn number_fmt2(n: &serde_json::Number) -> (r: String)
    ensures
        r@ == float_fmt2(*n),
{
    match n.as_f64() {
        Some(v) => format!("{:.2}", v),
        None => String::new(),
    }
}

} // verus!
