//! Value computation: folding a concrete (rolled) tree into one signed
//! 64-bit total.
//!
//! A dice node contributes the sum of its rolled values, a literal its own
//! value, unary minus negates, and the five binary operators combine the
//! children with truncating (round-toward-zero) division and remainder, as
//! Rust's own signed `/` and `%` behave.  Division or modulo by zero and any
//! intermediate that does not fit in an `i64` surface as typed errors.

use vstd::arithmetic::div_mod::{lemma_div_nonincreasing, lemma_div_pos_is_pos};
use vstd::arithmetic::mul::lemma_mul_inequality;
use vstd::prelude::*;

use crate::ast::{BinaryOperator, Expr};
use crate::errors::{ArithmeticKind, RollError};

verus! {

/// Truncating (round-toward-zero) division: how `/` behaves on Rust's signed
/// integers, expressed through Euclidean division of the magnitudes.
pub open spec fn tdiv(a: int, b: int) -> int
    recommends
        b != 0,
{
    if a >= 0 && b > 0 {
        a / b
    } else if a < 0 && b > 0 {
        -((-a) / b)
    } else if a >= 0 && b < 0 {
        -(a / (-b))
    } else {
        (-a) / (-b)
    }
}

/// Truncating remainder, fixed by `a == b * tdiv(a, b) + tmod(a, b)`: how `%`
/// behaves on Rust's signed integers.
pub open spec fn tmod(a: int, b: int) -> int
    recommends
        b != 0,
{
    a - b * tdiv(a, b)
}

/// The sum of a sequence of rolled face values.
pub open spec fn sum_rolls(s: Seq<u32>) -> int
    decreases s.len(),
{
    if s.len() == 0 {
        0
    } else {
        sum_rolls(s.drop_last()) + s.last()
    }
}

/// What one binary operator contributes, over unbounded integers.
pub open spec fn apply_binop(op: BinaryOperator, a: int, b: int) -> int {
    match op {
        BinaryOperator::Add => a + b,
        BinaryOperator::Substract => a - b,
        BinaryOperator::Multiply => a * b,
        BinaryOperator::Divide => tdiv(a, b),
        BinaryOperator::Modulo => tmod(a, b),
    }
}

/// The operator/operand pairs whose value is undefined.
pub open spec fn uses_zero_divisor(op: BinaryOperator, b: int) -> bool {
    (op is Divide || op is Modulo) && b == 0
}

pub open spec fn fits_i64(v: int) -> bool {
    i64::MIN <= v <= i64::MAX
}

/// The mathematical value of a concrete tree, over unbounded integers.
/// Meaningful wherever `value_error` is `None`.
pub open spec fn spec_value_of(e: Expr<Vec<u32>>) -> int
    decreases e,
{
    match e {
        Expr::Dices(rolls) => sum_rolls(rolls@),
        Expr::Integer(n) => n as int,
        Expr::UnOp { exp, .. } => -spec_value_of(*exp),
        Expr::BinOp { lhs, op, rhs } => apply_binop(op, spec_value_of(*lhs), spec_value_of(*rhs)),
    }
}

/// The first failure met by a left-to-right, post-order evaluation of the
/// tree, if any: a zero divisor, or an intermediate outside the `i64` range.
pub open spec fn value_error(e: Expr<Vec<u32>>) -> Option<RollError>
    decreases e,
{
    match e {
        Expr::Dices(rolls) => if sum_rolls(rolls@) <= i64::MAX {
            None
        } else {
            Some(RollError::ArithmeticError { kind: ArithmeticKind::Overflow })
        },
        Expr::Integer(_) => None,
        Expr::UnOp { exp, .. } => if value_error(*exp) is Some {
            value_error(*exp)
        } else if fits_i64(-spec_value_of(*exp)) {
            None
        } else {
            Some(RollError::ArithmeticError { kind: ArithmeticKind::Overflow })
        },
        Expr::BinOp { lhs, op, rhs } => if value_error(*lhs) is Some {
            value_error(*lhs)
        } else if value_error(*rhs) is Some {
            value_error(*rhs)
        } else if uses_zero_divisor(op, spec_value_of(*rhs)) {
            Some(RollError::ArithmeticError { kind: ArithmeticKind::DivisionByZero })
        } else if fits_i64(apply_binop(op, spec_value_of(*lhs), spec_value_of(*rhs))) {
            None
        } else {
            Some(RollError::ArithmeticError { kind: ArithmeticKind::Overflow })
        },
    }
}

/// What `Expr::value` returns: the total where every step is defined and
/// representable, and the first failure otherwise.
pub open spec fn spec_value(e: Expr<Vec<u32>>) -> Result<i64, RollError> {
    match value_error(e) {
        None => Ok(spec_value_of(e) as i64),
        Some(err) => Err(err),
    }
}

/// The sum of rolled values is non-negative and at most `len * u32::MAX`.
proof fn lemma_sum_rolls_bounds(s: Seq<u32>)
    ensures
        0 <= sum_rolls(s) <= s.len() * (u32::MAX as int),
    decreases s.len(),
{
    if s.len() > 0 {
        lemma_sum_rolls_bounds(s.drop_last());
        assert((s.len() - 1) * (u32::MAX as int) + (u32::MAX as int) == s.len() * (
        u32::MAX as int)) by (nonlinear_arith);
    }
}

/// Wherever value computation succeeds, the value fits in an `i64`.
proof fn lemma_value_ok_fits(e: Expr<Vec<u32>>)
    requires
        value_error(e) is None,
    ensures
        fits_i64(spec_value_of(e)),
{
    match e {
        Expr::Dices(rolls) => {
            lemma_sum_rolls_bounds(rolls@);
        },
        _ => {},
    }
}

/// Truncating division of two values from the `i64` range, computed through
/// the magnitudes so that only unsigned division is needed.
fn div_trunc(a: i128, b: i128) -> (q: i128)
    requires
        b != 0,
        i64::MIN <= a <= i64::MAX,
        i64::MIN <= b <= i64::MAX,
    ensures
        q == tdiv(a as int, b as int),
        -0x8000_0000_0000_0000 <= q <= 0x8000_0000_0000_0000,
{
    let ua: u128 = if a < 0 {
        (-a) as u128
    } else {
        a as u128
    };
    let ub: u128 = if b < 0 {
        (-b) as u128
    } else {
        b as u128
    };
    let uq: u128 = ua / ub;
    proof {
        lemma_div_pos_is_pos(ua as int, ub as int);
        lemma_div_nonincreasing(ua as int, ub as int);
    }
    let qm: i128 = uq as i128;
    if (a < 0) != (b < 0) {
        -qm
    } else {
        qm
    }
}

/// Truncating remainder of two values from the `i64` range.
fn mod_trunc(a: i128, b: i128) -> (r: i128)
    requires
        b != 0,
        i64::MIN <= a <= i64::MAX,
        i64::MIN <= b <= i64::MAX,
    ensures
        r == tmod(a as int, b as int),
{
    let q = div_trunc(a, b);
    proof {
        assert(-0x4000_0000_0000_0000_0000_0000_0000_0000 <= b * q
            <= 0x4000_0000_0000_0000_0000_0000_0000_0000) by (nonlinear_arith)
            requires
                -0x8000_0000_0000_0000 <= b <= 0x8000_0000_0000_0000,
                -0x8000_0000_0000_0000 <= q <= 0x8000_0000_0000_0000,
        ;
    }
    a - b * q
}

impl Expr<Vec<u32>> {
    /// Fold the rolled tree into one signed 64-bit total, or report the
    /// first zero divisor or non-representable intermediate met by the
    /// left-to-right post-order evaluation.
    pub fn value(&self) -> (r: Result<i64, RollError>)
        ensures
            r == spec_value(*self),
        decreases *self,
    {
        match self {
            Expr::Dices(rolls) => {
                let mut acc: i128 = 0;
                let mut k: usize = 0;
                proof {
                    assert(rolls@.take(0) =~= Seq::<u32>::empty());
                }
                while k < rolls.len()
                    invariant
                        k <= rolls@.len(),
                        acc == sum_rolls(rolls@.take(k as int)),
                        0 <= acc <= (k as int) * (u32::MAX as int),
                    decreases rolls@.len() - k,
                {
                    proof {
                        let taken = rolls@.take(k + 1);
                        assert(taken.drop_last() =~= rolls@.take(k as int));
                        assert(taken.last() == rolls@[k as int]);
                        assert((k as int) * (u32::MAX as int) + (u32::MAX as int) == (k + 1) * (
                        u32::MAX as int)) by (nonlinear_arith);
                        lemma_mul_inequality(k + 1, usize::MAX as int, u32::MAX as int);
                    }
                    acc = acc + rolls[k] as i128;
                    k = k + 1;
                }
                proof {
                    assert(rolls@.take(rolls@.len() as int) =~= rolls@);
                    lemma_sum_rolls_bounds(rolls@);
                }
                if acc > i64::MAX as i128 {
                    Err(RollError::ArithmeticError { kind: ArithmeticKind::Overflow })
                } else {
                    Ok(acc as i64)
                }
            },
            Expr::Integer(n) => Ok(*n as i64),
            Expr::UnOp { exp, .. } => {
                let v = match exp.value() {
                    Ok(v) => v,
                    Err(e) => {
                        return Err(e);
                    },
                };
                proof {
                    lemma_value_ok_fits(**exp);
                }
                let nv: i128 = -(v as i128);
                if nv > i64::MAX as i128 {
                    Err(RollError::ArithmeticError { kind: ArithmeticKind::Overflow })
                } else {
                    Ok(nv as i64)
                }
            },
            Expr::BinOp { lhs, op, rhs } => {
                let a = match lhs.value() {
                    Ok(v) => v,
                    Err(e) => {
                        return Err(e);
                    },
                };
                let b = match rhs.value() {
                    Ok(v) => v,
                    Err(e) => {
                        return Err(e);
                    },
                };
                proof {
                    lemma_value_ok_fits(**lhs);
                    lemma_value_ok_fits(**rhs);
                }
                let wa: i128 = a as i128;
                let wb: i128 = b as i128;
                let wide: i128 = match op {
                    BinaryOperator::Add => wa + wb,
                    BinaryOperator::Substract => wa - wb,
                    BinaryOperator::Multiply => {
                        proof {
                            assert(-0x4000_0000_0000_0000_0000_0000_0000_0000 <= wa * wb
                                <= 0x4000_0000_0000_0000_0000_0000_0000_0000) by (nonlinear_arith)
                                requires
                                    -0x8000_0000_0000_0000 <= wa <= 0x7fff_ffff_ffff_ffff,
                                    -0x8000_0000_0000_0000 <= wb <= 0x7fff_ffff_ffff_ffff,
                            ;
                        }
                        wa * wb
                    },
                    BinaryOperator::Divide => {
                        if b == 0 {
                            return Err(
                                RollError::ArithmeticError { kind: ArithmeticKind::DivisionByZero },
                            );
                        }
                        div_trunc(wa, wb)
                    },
                    BinaryOperator::Modulo => {
                        if b == 0 {
                            return Err(
                                RollError::ArithmeticError { kind: ArithmeticKind::DivisionByZero },
                            );
                        }
                        mod_trunc(wa, wb)
                    },
                };
                if wide > i64::MAX as i128 || wide < i64::MIN as i128 {
                    Err(RollError::ArithmeticError { kind: ArithmeticKind::Overflow })
                } else {
                    Ok(wide as i64)
                }
            },
        }
    }
}

/// The value of a literal is the literal itself, for every representable
/// literal: value computation on `Integer(n)` always succeeds with `n`.
pub proof fn lemma_literal_value(n: u32)
    ensures
        spec_value(Expr::Integer(n)) == Ok::<i64, RollError>(n as i64),
{
}

/// Value computation fails only with an arithmetic error: every other error
/// of the taxonomy is surfaced before a concrete tree exists.
pub proof fn lemma_value_error_is_arithmetic(e: Expr<Vec<u32>>)
    requires
        value_error(e) is Some,
    ensures
        value_error(e)->Some_0 is ArithmeticError,
    decreases e,
{
    match e {
        Expr::UnOp { exp, .. } => {
            if value_error(*exp) is Some {
                lemma_value_error_is_arithmetic(*exp);
            }
        },
        Expr::BinOp { lhs, rhs, .. } => {
            if value_error(*lhs) is Some {
                lemma_value_error_is_arithmetic(*lhs);
            } else if value_error(*rhs) is Some {
                lemma_value_error_is_arithmetic(*rhs);
            }
        },
        _ => {},
    }
}

/// Division or modulo with a zero right-hand value surfaces the
/// division-by-zero error whenever the two operands themselves evaluate
/// without failure.
pub proof fn lemma_division_by_zero(l: Expr<Vec<u32>>, op: BinaryOperator, r: Expr<Vec<u32>>)
    requires
        op is Divide || op is Modulo,
        value_error(l) is None,
        value_error(r) is None,
        spec_value_of(r) == 0,
    ensures
        spec_value(Expr::BinOp { lhs: Box::new(l), op, rhs: Box::new(r) }) == Err::<
            i64,
            RollError,
        >(RollError::ArithmeticError { kind: ArithmeticKind::DivisionByZero }),
{
}

} // verus!
