//! Operators shared by the three-address code and the assembly tree, and what
//! they compute on 32-bit values.

use vstd::arithmetic::div_mod::{lemma_fundamental_div_mod, lemma_mod_pos_bound};
use vstd::prelude::*;

verus! {

/// Operators with one operand.
#[derive(PartialEq, Eq, Structural, Debug, Clone, Copy)]
pub enum UnaryOp {
    Negate,
    BitwiseComplement,
}

/// Operators with two operands.
#[derive(PartialEq, Eq, Structural, Debug, Clone, Copy)]
pub enum BinaryOp {
    Add,
    Subtract,
    Multiply,
    BitwiseAnd,
    BitwiseOr,
    BitwiseXor,
    Divide,
    Remainder,
}

/// The absolute value.
pub open spec fn magnitude(n: int) -> int {
    if n < 0 {
        -n
    } else {
        n
    }
}

/// The quotient of a signed division, rounded toward zero.
pub open spec fn quotient(n: int, d: int) -> int {
    if (n < 0) == (d < 0) {
        magnitude(n) / magnitude(d)
    } else {
        -(magnitude(n) / magnitude(d))
    }
}

/// The remainder of a signed division; it has the sign of the dividend.
pub open spec fn remainder(n: int, d: int) -> int {
    if n < 0 {
        -(magnitude(n) % magnitude(d))
    } else {
        magnitude(n) % magnitude(d)
    }
}

/// Whether the division of `n` by `d` has a result in 32 bits: the divisor is
/// not zero and the quotient fits.
pub open spec fn divides(n: int, d: int) -> bool {
    d != 0 && i32::MIN <= quotient(n, d) <= i32::MAX
}

/// Signed division rounds toward zero: quotient and remainder make up the
/// dividend, the remainder is smaller than the divisor, and it has the sign
/// of the dividend unless it is zero.
pub proof fn lemma_division_rounds_toward_zero(n: int, d: int)
    requires
        d != 0,
    ensures
        n == d * quotient(n, d) + remainder(n, d),
        magnitude(remainder(n, d)) < magnitude(d),
        n >= 0 ==> remainder(n, d) >= 0,
        n <= 0 ==> remainder(n, d) <= 0,
{
    let a = magnitude(n);
    let b = magnitude(d);
    lemma_fundamental_div_mod(a, b);
    lemma_mod_pos_bound(a, b);
    let q = a / b;
    let r = a % b;
    assert(a == b * q + r);
    assert(n == d * quotient(n, d) + remainder(n, d)) by (nonlinear_arith)
        requires
            a == b * q + r,
            a == magnitude(n),
            b == magnitude(d),
            d != 0,
            quotient(n, d) == (if (n < 0) == (d < 0) {
                q
            } else {
                -q
            }),
            remainder(n, d) == (if n < 0 {
                -r
            } else {
                r
            }),
    ;
}

impl UnaryOp {
    /// The result of the operator. Negation wraps.
    pub open spec fn apply(self, value: i32) -> i32 {
        match self {
            UnaryOp::Negate => 0i32.wrapping_sub(value),
            UnaryOp::BitwiseComplement => !value,
        }
    }
}

impl BinaryOp {
    /// Division and remainder are computed by the divide instruction, which
    /// leaves its results in fixed registers; every other operator has a
    /// two-operand instruction of its own.
    pub open spec fn uses_divide(self) -> bool {
        self is Divide || self is Remainder
    }

    /// The result of the operator. Sums, differences and products wrap.
    /// Division and remainder have no result where the divisor is zero or the
    /// quotient does not fit.
    pub open spec fn apply(self, left: i32, right: i32) -> Option<i32> {
        match self {
            BinaryOp::Add => Some(left.wrapping_add(right)),
            BinaryOp::Subtract => Some(left.wrapping_sub(right)),
            BinaryOp::Multiply => Some(left.wrapping_mul(right)),
            BinaryOp::BitwiseAnd => Some(left & right),
            BinaryOp::BitwiseOr => Some(left | right),
            BinaryOp::BitwiseXor => Some(left ^ right),
            BinaryOp::Divide => if divides(left as int, right as int) {
                Some(quotient(left as int, right as int) as i32)
            } else {
                None
            },
            BinaryOp::Remainder => if divides(left as int, right as int) {
                Some(remainder(left as int, right as int) as i32)
            } else {
                None
            },
        }
    }
}

} // verus!
