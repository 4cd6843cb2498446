//! Expressions, and the values that they evaluate to.

use crate::error::Error;
use crate::ev_num::EvNum;
use crate::ev_vec::EvVec;
use vstd::prelude::*;

verus! {

/// An arithmetic expression: a value, or an operator applied to two expressions.
#[allow(clippy::enum_variant_names)]
#[derive(Debug, PartialEq)]
pub enum Expr {
    EValue(EValue),
    EAdd(Box<Expr>, Box<Expr>),
    ESub(Box<Expr>, Box<Expr>),
    EMul(Box<Expr>, Box<Expr>),
    EDiv(Box<Expr>, Box<Expr>),
}

/// What an expression evaluates to: a number or a vector, never converted into one another.
#[derive(Debug, PartialEq, Structural)]
pub enum EValue {
    ENum(EvNum),
    EVec(EvVec),
}

impl Clone for EValue {
    fn clone(&self) -> (r: Self)
        ensures
            r == *self,
    {
        match self {
            EValue::ENum(n) => EValue::ENum(*n),
            EValue::EVec(v) => EValue::EVec(*v),
        }
    }
}

impl Clone for Expr {
    fn clone(&self) -> (r: Self)
        ensures
            r == *self,
        decreases self,
    {
        match self {
            Expr::EValue(v) => Expr::EValue(v.clone()),
            Expr::EAdd(a, b) => Expr::EAdd(Box::new((&**a).clone()), Box::new((&**b).clone())),
            Expr::ESub(a, b) => Expr::ESub(Box::new((&**a).clone()), Box::new((&**b).clone())),
            Expr::EMul(a, b) => Expr::EMul(Box::new((&**a).clone()), Box::new((&**b).clone())),
            Expr::EDiv(a, b) => Expr::EDiv(Box::new((&**a).clone()), Box::new((&**b).clone())),
        }
    }
}

impl EValue {
    /// Whether the value holds residues only.
    pub open spec fn wf(self) -> bool {
        match self {
            EValue::ENum(n) => n.wf(),
            EValue::EVec(v) => v.wf(),
        }
    }

    /// Whether the two values are of one kind: two numbers or two vectors.
    pub open spec fn same_kind(self, rhs: EValue) -> bool {
        (self is ENum) == (rhs is ENum)
    }

    /// The sum of two values of one kind.
    pub open spec fn plus(self, rhs: EValue) -> Result<EValue, Error> {
        match (self, rhs) {
            (EValue::ENum(n1), EValue::ENum(n2)) => Ok(EValue::ENum(n1.plus(n2))),
            (EValue::EVec(v1), EValue::EVec(v2)) => Ok(EValue::EVec(v1.plus(v2))),
            (e1, e2) => Err(Error::IncompatibleAdd(e1, e2)),
        }
    }

    /// The difference of two values of one kind.
    pub open spec fn minus(self, rhs: EValue) -> Result<EValue, Error> {
        match (self, rhs) {
            (EValue::ENum(n1), EValue::ENum(n2)) => Ok(EValue::ENum(n1.minus(n2))),
            (EValue::EVec(v1), EValue::EVec(v2)) => Ok(EValue::EVec(v1.minus(v2))),
            (e1, e2) => Err(Error::IncompatibleSub(e1, e2)),
        }
    }

    /// The product of two values of one kind.
    pub open spec fn times(self, rhs: EValue) -> Result<EValue, Error> {
        match (self, rhs) {
            (EValue::ENum(n1), EValue::ENum(n2)) => Ok(EValue::ENum(n1.times(n2))),
            (EValue::EVec(v1), EValue::EVec(v2)) => Ok(EValue::EVec(v1.times(v2))),
            (e1, e2) => Err(Error::IncompatibleMul(e1, e2)),
        }
    }

    /// The quotient of two values of one kind, where there is one.
    pub open spec fn over(self, rhs: EValue) -> Result<EValue, Error> {
        match (self, rhs) {
            (EValue::ENum(n1), EValue::ENum(n2)) => match n1.over(n2) {
                Ok(q) => Ok(EValue::ENum(q)),
                Err(e) => Err(e),
            },
            (EValue::EVec(v1), EValue::EVec(v2)) => match v1.over(v2) {
                Ok(q) => Ok(EValue::EVec(q)),
                Err(e) => Err(e),
            },
            (e1, e2) => Err(Error::IncompatibleDiv(e1, e2)),
        }
    }

    /// The text of the value: that of the number or of the vector in it.
    pub open spec fn text(self) -> Seq<char> {
        match self {
            EValue::ENum(n) => n.text(),
            EValue::EVec(v) => v.text(),
        }
    }

    /// A number and a vector cannot be added, subtracted, multiplied or
    /// divided, in either order: each operator fails with its own error, which
    /// holds the two operands.
    pub proof fn lemma_mixed_kinds(a: EValue, b: EValue)
        requires
            !a.same_kind(b),
        ensures
            a.plus(b) == Err::<EValue, Error>(Error::IncompatibleAdd(a, b)),
            a.minus(b) == Err::<EValue, Error>(Error::IncompatibleSub(a, b)),
            a.times(b) == Err::<EValue, Error>(Error::IncompatibleMul(a, b)),
            a.over(b) == Err::<EValue, Error>(Error::IncompatibleDiv(a, b)),
    {
    }

    /// The text of the value: a digit for a number, `digit|digit` for a vector.
    pub fn to_string(&self) -> (r: String)
        ensures
            r@ == self.text(),
    {
        match self {
            EValue::ENum(n) => n.to_string(),
            EValue::EVec(v) => v.to_string(),
        }
    }
}

impl vstd::std_specs::ops::AddSpecImpl for EValue {
    open spec fn obeys_add_spec() -> bool {
        true
    }

    open spec fn add_req(self, rhs: EValue) -> bool {
        true
    }

    open spec fn add_spec(self, rhs: EValue) -> Result<EValue, Error> {
        self.plus(rhs)
    }
}

impl core::ops::Add for EValue {
    type Output = Result<EValue, Error>;

    /// The sum of two numbers or of two vectors; a number and a vector cannot
    /// be added.
    fn add(self, rhs: Self) -> (r: Result<EValue, Error>)
        ensures
            r == self.plus(rhs),
            r is Ok <==> self.same_kind(rhs),
            !self.same_kind(rhs) ==> r == Err::<EValue, Error>(Error::IncompatibleAdd(self, rhs)),
    {
        match (self, rhs) {
            (EValue::ENum(n1), EValue::ENum(n2)) => Ok(EValue::ENum(n1 + n2)),
            (EValue::EVec(v1), EValue::EVec(v2)) => Ok(EValue::EVec(v1 + v2)),
            (e1, e2) => Err(Error::IncompatibleAdd(e1, e2)),
        }
    }
}

impl vstd::std_specs::ops::SubSpecImpl for EValue {
    open spec fn obeys_sub_spec() -> bool {
        true
    }

    open spec fn sub_req(self, rhs: EValue) -> bool {
        true
    }

    open spec fn sub_spec(self, rhs: EValue) -> Result<EValue, Error> {
        self.minus(rhs)
    }
}

impl core::ops::Sub for EValue {
    type Output = Result<EValue, Error>;

    /// The difference of two numbers or of two vectors; a number and a vector
    /// cannot be subtracted.
    fn sub(self, rhs: Self) -> (r: Result<EValue, Error>)
        ensures
            r == self.minus(rhs),
            r is Ok <==> self.same_kind(rhs),
            !self.same_kind(rhs) ==> r == Err::<EValue, Error>(Error::IncompatibleSub(self, rhs)),
    {
        match (self, rhs) {
            (EValue::ENum(n1), EValue::ENum(n2)) => Ok(EValue::ENum(n1 - n2)),
            (EValue::EVec(v1), EValue::EVec(v2)) => Ok(EValue::EVec(v1 - v2)),
            (e1, e2) => Err(Error::IncompatibleSub(e1, e2)),
        }
    }
}

impl vstd::std_specs::ops::MulSpecImpl for EValue {
    open spec fn obeys_mul_spec() -> bool {
        true
    }

    open spec fn mul_req(self, rhs: EValue) -> bool {
        true
    }

    open spec fn mul_spec(self, rhs: EValue) -> Result<EValue, Error> {
        self.times(rhs)
    }
}

impl core::ops::Mul for EValue {
    type Output = Result<EValue, Error>;

    /// The product of two numbers or of two vectors; a number and a vector
    /// cannot be multiplied.
    fn mul(self, rhs: Self) -> (r: Result<EValue, Error>)
        ensures
            r == self.times(rhs),
            r is Ok <==> self.same_kind(rhs),
            !self.same_kind(rhs) ==> r == Err::<EValue, Error>(Error::IncompatibleMul(self, rhs)),
    {
        match (self, rhs) {
            (EValue::ENum(n1), EValue::ENum(n2)) => Ok(EValue::ENum(n1 * n2)),
            (EValue::EVec(v1), EValue::EVec(v2)) => Ok(EValue::EVec(v1 * v2)),
            (e1, e2) => Err(Error::IncompatibleMul(e1, e2)),
        }
    }
}

impl vstd::std_specs::ops::DivSpecImpl for EValue {
    open spec fn obeys_div_spec() -> bool {
        true
    }

    open spec fn div_req(self, rhs: EValue) -> bool {
        true
    }

    open spec fn div_spec(self, rhs: EValue) -> Result<EValue, Error> {
        self.over(rhs)
    }
}

impl core::ops::Div for EValue {
    type Output = Result<EValue, Error>;

    /// The quotient of two numbers or of two vectors, which there is unless
    /// the divisor is zero; a number and a vector cannot be divided.
    fn div(self, rhs: Self) -> (r: Result<EValue, Error>)
        ensures
            r == self.over(rhs),
            !self.same_kind(rhs) ==> r == Err::<EValue, Error>(Error::IncompatibleDiv(self, rhs)),
            r is Ok <==> self.same_kind(rhs) && match rhs {
                EValue::ENum(n) => n@ != 0,
                EValue::EVec(v) => v@ != (0int, 0int),
            },
    {
        match (self, rhs) {
            (EValue::ENum(n1), EValue::ENum(n2)) => match n1 / n2 {
                Ok(q) => Ok(EValue::ENum(q)),
                Err(e) => Err(e),
            },
            (EValue::EVec(v1), EValue::EVec(v2)) => match v1 / v2 {
                Ok(q) => Ok(EValue::EVec(q)),
                Err(e) => Err(e),
            },
            (e1, e2) => Err(Error::IncompatibleDiv(e1, e2)),
        }
    }
}

} // verus!
