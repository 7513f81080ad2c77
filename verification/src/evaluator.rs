//! Evaluation: expression tree to integer.
//!
//! A pure structural recursion with one case per node variant. Addition,
//! subtraction, multiplication and negation wrap around per two's complement
//! on `i32`; division truncates toward zero, its one overflowing case
//! (`i32::MIN / -1`) wraps to `i32::MIN`, and a zero divisor is reported as
//! `Error::DivisionByZero`. When both children of a binary node fail, the
//! left child's error wins (the left child is evaluated first).

use vstd::prelude::*;
use vstd::arithmetic::div_mod::lemma_div_is_ordered;
use vstd::arithmetic::div_mod::lemma_div_is_ordered_by_denominator;
use vstd::arithmetic::div_mod::lemma_div_nonincreasing;
use vstd::arithmetic::div_mod::lemma_div_pos_is_pos;
use vstd::wrapping::i32_specs;

use crate::Error;
use crate::parser::{BinOp, Node, UnOp};

verus! {

/// The quotient of `x / d` rounded toward zero. (Division on `int` rounds
/// toward negative infinity, so the negative cases divide magnitudes and
/// put the sign back.)
pub open spec fn div_toward_zero(x: int, d: int) -> int
    recommends
        d != 0,
{
    if x == 0 {
        0
    } else if x > 0 && d > 0 {
        x / d
    } else if x < 0 && d < 0 {
        (x * -1) / (d * -1)
    } else if x < 0 {
        ((x * -1) / d) * -1
    } else {
        (x / (d * -1)) * -1
    }
}

/// `i32` division: truncates toward zero; the one overflowing case,
/// `i32::MIN / -1`, wraps to `i32::MIN`.
pub open spec fn wrapping_div_i32(a: i32, b: i32) -> i32
    recommends
        b != 0,
{
    if a == i32::MIN && b == -1 {
        i32::MIN
    } else {
        div_toward_zero(a as int, b as int) as i32
    }
}

/// Truncating division never leaves the `i32` range except at
/// `i32::MIN / -1`.
proof fn lemma_div_toward_zero_in_range(a: i32, b: i32)
    requires
        b != 0,
        !(a == i32::MIN && b == -1),
    ensures
        i32::MIN <= div_toward_zero(a as int, b as int) <= i32::MAX,
{
    let x = a as int;
    let d = b as int;
    if x > 0 && d > 0 {
        lemma_div_pos_is_pos(x, d);
        lemma_div_nonincreasing(x, d);
    } else if x < 0 && d < 0 {
        lemma_div_pos_is_pos(x * -1, d * -1);
        lemma_div_nonincreasing(x * -1, d * -1);
        if d == -1 {
            assert(x * -1 <= i32::MAX);
        } else {
            lemma_div_is_ordered_by_denominator(x * -1, 2, d * -1);
            lemma_div_is_ordered(x * -1, 0x8000_0000, 2);
        }
    } else if x < 0 {
        lemma_div_pos_is_pos(x * -1, d);
        lemma_div_nonincreasing(x * -1, d);
    } else if x > 0 {
        lemma_div_pos_is_pos(x, d * -1);
        lemma_div_nonincreasing(x, d * -1);
    }
}

/// The value of `a op b`: `+ - *` wrap around `i32`; `/` truncates toward
/// zero and reports a zero divisor as `DivisionByZero`.
pub open spec fn spec_apply_bin(op: BinOp, a: i32, b: i32) -> Result<i32, Error> {
    match op {
        BinOp::Add => Ok(i32_specs::wrapping_add(a, b)),
        BinOp::Sub => Ok(i32_specs::wrapping_sub(a, b)),
        BinOp::Mul => Ok(i32_specs::wrapping_mul(a, b)),
        BinOp::Div => {
            if b == 0 {
                Err(Error::DivisionByZero)
            } else {
                Ok(wrapping_div_i32(a, b))
            }
        },
    }
}

/// The value of negating `v`, wrapping around `i32` (so `-i32::MIN` is
/// `i32::MIN`).
pub open spec fn spec_negate(v: i32) -> i32 {
    i32_specs::wrapping_sub(0, v)
}

/// The value of an expression tree: a leaf is its number; a binary node
/// applies its operator to its children's values (left child first, so the
/// left child's error wins); a unary node negates its operand's value.
pub open spec fn spec_eval(tree: Node) -> Result<i32, Error>
    decreases tree,
{
    match tree {
        Node::Number(num) => Ok(num),
        Node::Binary { lhs, op, rhs } => match (spec_eval(*lhs), spec_eval(*rhs)) {
            (Ok(a), Ok(b)) => spec_apply_bin(op, a, b),
            (Err(e), _) => Err(e),
            (_, Err(e)) => Err(e),
        },
        Node::Unary { operand, op } => match spec_eval(*operand) {
            Ok(a) => match op {
                UnOp::Minus => Ok(spec_negate(a)),
            },
            Err(e) => Err(e),
        },
    }
}

/// The evaluator's only error: whenever evaluating a tree fails, it fails
/// with `DivisionByZero`.
pub proof fn lemma_eval_err_is_division_by_zero(tree: Node)
    ensures
        spec_eval(tree) is Err ==> spec_eval(tree) == Err::<i32, Error>(Error::DivisionByZero),
    decreases tree,
{
    match tree {
        Node::Number(_) => {},
        Node::Binary { lhs, op: _, rhs } => {
            lemma_eval_err_is_division_by_zero(*lhs);
            lemma_eval_err_is_division_by_zero(*rhs);
        },
        Node::Unary { operand, op: _ } => {
            lemma_eval_err_is_division_by_zero(*operand);
        },
    }
}

/// Applies one binary operator to two evaluated operands.
fn apply_bin(op: BinOp, a: i32, b: i32) -> (r: Result<i32, Error>)
    ensures
        r == spec_apply_bin(op, a, b),
{
    match op {
        BinOp::Add => Ok(a.wrapping_add(b)),
        BinOp::Sub => Ok(a.wrapping_sub(b)),
        BinOp::Mul => Ok(a.wrapping_mul(b)),
        BinOp::Div => {
            if b == 0 {
                Err(Error::DivisionByZero)
            } else if a == i32::MIN && b == -1 {
                Ok(i32::MIN)
            } else {
                proof {
                    lemma_div_toward_zero_in_range(a, b);
                }
                match a.checked_div(b) {
                    Some(q) => Ok(q),
                    None => Err(Error::DivisionByZero),
                }
            }
        },
    }
}

/// Reduces an expression tree to an integer, consuming the tree.
///
/// Total but for division by zero: every other arithmetic fault wraps
/// around `i32`, as the specification functions above state.
pub fn eval(tree: Node) -> (r: Result<i32, Error>)
    ensures
        r == spec_eval(tree),
    decreases tree,
{
    match tree {
        Node::Number(num) => Ok(num),
        Node::Binary { lhs, op, rhs } => {
            match eval(*lhs) {
                Ok(a) => match eval(*rhs) {
                    Ok(b) => apply_bin(op, a, b),
                    Err(e) => Err(e),
                },
                Err(e) => Err(e),
            }
        },
        Node::Unary { operand, op } => {
            match eval(*operand) {
                Ok(a) => match op {
                    UnOp::Minus => Ok(0i32.wrapping_sub(a)),
                },
                Err(e) => Err(e),
            }
        },
    }
}

} // verus!
