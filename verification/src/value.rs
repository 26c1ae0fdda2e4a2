//! Numbers as bit patterns.
//!
//! A value is the IEEE-754 binary64 encoding of a number: one sign bit, eleven
//! exponent bits, fifty-two fraction bits. What can be read off the encoding
//! without arithmetic is decided here: the sign, whether a value is zero or
//! not a number, and how two values compare.
use vstd::prelude::*;
use crate::ast::Operator;

verus! {

/// The sign bit.
pub const SIGN: u64 = 0x8000_0000_0000_0000;

/// The encoding of positive infinity. Every larger magnitude is not a number.
pub const INFINITY: u64 = 0x7FF0_0000_0000_0000;

/// The encoding of `0.0`, which stands for false.
pub const ZERO: u64 = 0;

/// The encoding of `1.0`, which stands for true.
pub const ONE: u64 = 0x3FF0_0000_0000_0000;

/// Whether the sign bit is set.
pub open spec fn is_negative(v: u64) -> bool {
    v >= SIGN
}

/// The encoding without its sign bit.
pub open spec fn magnitude(v: u64) -> u64 {
    if is_negative(v) {
        (v - SIGN) as u64
    } else {
        v
    }
}

/// Whether the value is not a number: all exponent bits set and a fraction
/// that is not zero.
pub open spec fn is_nan(v: u64) -> bool {
    magnitude(v) > INFINITY
}

/// Whether the value is `0.0` or `-0.0`.
pub open spec fn is_zero(v: u64) -> bool {
    magnitude(v) == 0
}

/// Whether the value counts as true: it does unless it equals zero. A value
/// that is not a number differs from zero, and so counts as true.
pub open spec fn truthy(v: u64) -> bool {
    !is_zero(v)
}

/// The encoding of a truth value.
pub open spec fn from_bool(b: bool) -> u64 {
    if b {
        ONE
    } else {
        ZERO
    }
}

/// The value with its sign bit flipped.
pub open spec fn negated(v: u64) -> u64 {
    if is_negative(v) {
        (v - SIGN) as u64
    } else {
        (v + SIGN) as u64
    }
}

/// The place of a number on the number line, for values that are numbers:
/// encodings of one sign are ordered as their magnitudes, and both zeros
/// have place zero.
pub open spec fn place(v: u64) -> int {
    if is_negative(v) {
        -(magnitude(v) as int)
    } else {
        magnitude(v) as int
    }
}

/// Whether two values can be ordered: neither is not a number.
pub open spec fn comparable(a: u64, b: u64) -> bool {
    !is_nan(a) && !is_nan(b)
}

/// The truth of `a op b` for a comparison operator. A value that is not a
/// number is unequal to every value, itself included, and neither below nor
/// above any.
pub open spec fn compares(op: Operator, a: u64, b: u64) -> bool {
    match op {
        Operator::EQ => comparable(a, b) && place(a) == place(b),
        Operator::NEQ => !(comparable(a, b) && place(a) == place(b)),
        Operator::LT => comparable(a, b) && place(a) < place(b),
        Operator::GT => comparable(a, b) && place(a) > place(b),
        Operator::LE => comparable(a, b) && place(a) <= place(b),
        Operator::GE => comparable(a, b) && place(a) >= place(b),
        _ => false,
    }
}

/// Whether a value counts as true.
pub fn is_truthy(v: u64) -> (r: bool)
    ensures
        r == truthy(v),
{
    v != ZERO && v != SIGN
}

/// Encodes a truth value as `1.0` or `0.0`.
pub fn encode(b: bool) -> (r: u64)
    ensures
        r == from_bool(b),
{
    if b {
        ONE
    } else {
        ZERO
    }
}

/// Arithmetic negation: flips the sign bit and keeps the rest.
pub fn negate(v: u64) -> (r: u64)
    ensures
        r == negated(v),
{
    if v >= SIGN {
        v - SIGN
    } else {
        v + SIGN
    }
}

/// Whether `a` is strictly below `b`.
fn below(a: u64, b: u64) -> (r: bool)
    ensures
        r == (comparable(a, b) && place(a) < place(b)),
{
    let ma: u64 = if a >= SIGN {
        a - SIGN
    } else {
        a
    };
    let mb: u64 = if b >= SIGN {
        b - SIGN
    } else {
        b
    };
    if ma > INFINITY || mb > INFINITY {
        false
    } else if a >= SIGN {
        if b >= SIGN {
            ma > mb
        } else {
            ma > 0 || mb > 0
        }
    } else {
        b < SIGN && ma < mb
    }
}

/// Whether `a` equals `b` as numbers.
fn equal(a: u64, b: u64) -> (r: bool)
    ensures
        r == (comparable(a, b) && place(a) == place(b)),
{
    let ma: u64 = if a >= SIGN {
        a - SIGN
    } else {
        a
    };
    let mb: u64 = if b >= SIGN {
        b - SIGN
    } else {
        b
    };
    if ma > INFINITY || mb > INFINITY {
        false
    } else {
        a == b || (ma == 0 && mb == 0)
    }
}

/// Decides a comparison. For an operator that is no comparison the answer is
/// `false`.
pub fn compare(op: Operator, a: u64, b: u64) -> (r: bool)
    ensures
        r == compares(op, a, b),
{
    match op {
        Operator::EQ => equal(a, b),
        Operator::NEQ => !equal(a, b),
        Operator::LT => below(a, b),
        Operator::GT => below(b, a),
        Operator::LE => below(a, b) || equal(a, b),
        Operator::GE => below(b, a) || equal(a, b),
        _ => false,
    }
}

/// A value that is not a number is unequal to every value, itself included,
/// and neither below nor above any: of the six comparisons only `!=` holds.
pub proof fn law_nan_is_unordered(op: Operator, a: u64, b: u64)
    requires
        op.is_comparison(),
        is_nan(a) || is_nan(b),
    ensures
        compares(op, a, b) == (op == Operator::NEQ),
{
}

/// Of two values that are numbers exactly one of `<`, `==` and `>` holds,
/// and `<=`, `>=` and `!=` are what their signs say.
pub proof fn law_numbers_are_ordered(a: u64, b: u64)
    requires
        comparable(a, b),
    ensures
        compares(Operator::LT, a, b) || compares(Operator::EQ, a, b) || compares(
            Operator::GT,
            a,
            b,
        ),
        !(compares(Operator::LT, a, b) && compares(Operator::EQ, a, b)),
        !(compares(Operator::LT, a, b) && compares(Operator::GT, a, b)),
        !(compares(Operator::EQ, a, b) && compares(Operator::GT, a, b)),
        compares(Operator::LE, a, b) == (compares(Operator::LT, a, b) || compares(
            Operator::EQ,
            a,
            b,
        )),
        compares(Operator::GE, a, b) == (compares(Operator::GT, a, b) || compares(
            Operator::EQ,
            a,
            b,
        )),
        compares(Operator::NEQ, a, b) == !compares(Operator::EQ, a, b),
        compares(Operator::GT, a, b) == compares(Operator::LT, b, a),
{
}

/// The two zeros are equal, and neither counts as true. Every other value
/// counts as true, a value that is not a number too.
pub proof fn law_only_zero_is_false(v: u64)
    ensures
        compares(Operator::EQ, ZERO, SIGN),
        truthy(v) == !compares(Operator::EQ, v, ZERO),
        truthy(v) == (v != ZERO && v != SIGN),
        is_nan(v) ==> truthy(v),
{
}

/// Negating twice gives the value back, negation turns the order around,
/// and it keeps what is not a number so.
pub proof fn law_negation_mirrors(a: u64, b: u64)
    ensures
        negated(negated(a)) == a,
        is_nan(negated(a)) == is_nan(a),
        compares(Operator::LT, negated(a), negated(b)) == compares(Operator::LT, b, a),
        compares(Operator::EQ, negated(a), negated(b)) == compares(Operator::EQ, a, b),
{
}

} // verus!
