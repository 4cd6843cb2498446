//! The evaluation of expressions.

use crate::error::Error;
use crate::expr::{EValue, Expr};
use vstd::prelude::*;

verus! {

/// The two operands of an operator where both are there, else the failure of
/// the left one, else that of the right one.
pub open spec fn operands(
    left: Result<EValue, Error>,
    right: Result<EValue, Error>,
) -> Result<(EValue, EValue), Error> {
    match left {
        Ok(a) => match right {
            Ok(b) => Ok((a, b)),
            Err(e) => Err(e),
        },
        Err(e) => Err(e),
    }
}

/// What an expression evaluates to: a value evaluates to itself; an operator
/// is applied to what its two operands evaluate to, and fails where one of
/// them does, with the failure of the left one first.
pub open spec fn value_of(expr: Expr) -> Result<EValue, Error>
    decreases expr,
{
    match expr {
        Expr::EValue(val) => Ok(val),
        Expr::EAdd(left, right) => match operands(value_of(*left), value_of(*right)) {
            Ok((a, b)) => a.plus(b),
            Err(e) => Err(e),
        },
        Expr::ESub(left, right) => match operands(value_of(*left), value_of(*right)) {
            Ok((a, b)) => a.minus(b),
            Err(e) => Err(e),
        },
        Expr::EMul(left, right) => match operands(value_of(*left), value_of(*right)) {
            Ok((a, b)) => a.times(b),
            Err(e) => Err(e),
        },
        Expr::EDiv(left, right) => match operands(value_of(*left), value_of(*right)) {
            Ok((a, b)) => a.over(b),
            Err(e) => Err(e),
        },
    }
}

/// Evaluates an expression.
pub fn evaluate(expr: Expr) -> (r: Result<EValue, Error>)
    ensures
        r == value_of(expr),
    decreases expr,
{
    match expr {
        Expr::EValue(val) => Ok(val),
        Expr::EAdd(expr1, expr2) => evaluate(*expr1)? + evaluate(*expr2)?,
        Expr::ESub(expr1, expr2) => evaluate(*expr1)? - evaluate(*expr2)?,
        Expr::EMul(expr1, expr2) => evaluate(*expr1)? * evaluate(*expr2)?,
        Expr::EDiv(expr1, expr2) => evaluate(*expr1)? / evaluate(*expr2)?,
    }
}

} // verus!
