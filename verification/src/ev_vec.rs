//! Pairs of ring elements, which add by component and multiply like complex
//! numbers.

use crate::error::Error;
use crate::ev_num::{digit_value, lemma_no_zero_divisors, solves, EvNum};
use crate::text::chars_of;
use core::ops::Neg;
use vstd::arithmetic::div_mod::{
    lemma_add_mod_noop, lemma_mul_mod_noop_right, lemma_sub_mod_noop, lemma_sub_mod_noop_right,
};
use vstd::prelude::*;

verus! {

/// A pair of ring elements, read as `first + second * i` with `i * i = -1`.
#[derive(Debug, Clone, Copy, PartialEq, Eq, PartialOrd, Ord, Hash, Structural)]
pub struct EvVec(pub EvNum, pub EvNum);

impl View for EvVec {
    type V = (int, int);

    /// The residues of the two components.
    open spec fn view(&self) -> (int, int) {
        (self.0@, self.1@)
    }
}

/// Whether `k` is the place of the first `|` in `s`.
pub open spec fn is_first_pipe(s: Seq<char>, k: int) -> bool {
    &&& 0 <= k < s.len()
    &&& s[k] == '|'
    &&& forall|j: int| 0 <= j < k ==> s[j] != '|'
}

/// What stands before and what stands after the first `|` in `s`, if `s` holds one.
pub open spec fn split_at_pipe(s: Seq<char>) -> Option<(Seq<char>, Seq<char>)> {
    if exists|k: int| is_first_pipe(s, k) {
        let k = choose|k: int| is_first_pipe(s, k);
        Some((s.subrange(0, k), s.subrange(k + 1, s.len() as int)))
    } else {
        None
    }
}

/// The vector of two quotients, where both divisions succeeded.
pub open spec fn both(x: Result<EvNum, Error>, y: Result<EvNum, Error>) -> Option<EvVec> {
    match (x, y) {
        (Ok(x), Ok(y)) => Some(EvVec(x, y)),
        _ => None,
    }
}

impl EvVec {
    /// Whether both components hold one of the eleven residues.
    pub open spec fn wf(self) -> bool {
        self.0.wf() && self.1.wf()
    }

    /// The sum, component by component.
    pub open spec fn plus(self, rhs: EvVec) -> EvVec {
        EvVec(self.0.plus(rhs.0), self.1.plus(rhs.1))
    }

    /// The difference, component by component.
    pub open spec fn minus(self, rhs: EvVec) -> EvVec {
        EvVec(self.0.minus(rhs.0), self.1.minus(rhs.1))
    }

    /// The product `(a*c - b*d, a*d + b*c)` of `(a, b)` and `(c, d)`, as for
    /// complex numbers.
    pub open spec fn times(self, rhs: EvVec) -> EvVec {
        EvVec(
            self.0.times(rhs.0).minus(self.1.times(rhs.1)),
            self.0.times(rhs.1).plus(self.1.times(rhs.0)),
        )
    }

    /// The zero vector minus the vector.
    pub open spec fn negated(self) -> EvVec {
        EvVec(EvNum::from_int(0), EvNum::from_int(0)).minus(self)
    }

    /// The vector that times `rhs` gives `self`, for `self = (a, b)` and
    /// `rhs = (c, d)`: none for `c = d = 0`; `(b/d, -a/d)` for `c = 0`;
    /// `(a/c, b/c)` for `d = 0`; else `(x, y)` with
    /// `x = (a*c + b*d) / (c*c + d*d)` and `y = (b - d*x) / c`. Where one of
    /// these divisions fails, there is none.
    pub open spec fn over(self, rhs: EvVec) -> Result<EvVec, Error> {
        let EvVec(a, b) = self;
        let EvVec(c, d) = rhs;
        let found = if c@ == 0 && d@ == 0 {
            None
        } else if c@ == 0 {
            both(b.over(d), a.negated().over(d))
        } else if d@ == 0 {
            both(a.over(c), b.over(c))
        } else {
            let x = a.times(c).plus(b.times(d)).over(
                c.times(c).plus(d.times(d)),
            );
            match x {
                Ok(q) => both(x, b.minus(d.times(q)).over(c)),
                Err(_) => None,
            }
        };
        match found {
            Some(v) => Ok(v),
            None => Err(Error::VecDivNoSolution(self, rhs)),
        }
    }

    /// The text of the vector: the digits of its components with `|` between them.
    pub open spec fn text(self) -> Seq<char> {
        self.0.text() + seq!['|'] + self.1.text()
    }

    /// The vector that the text `s` denotes, if it denotes one: a digit, `|`, a digit.
    pub open spec fn text_value(s: Seq<char>) -> Option<EvVec> {
        match split_at_pipe(s) {
            Some((first, second)) => match (EvNum::text_value(first), EvNum::text_value(second)) {
                (Some(a), Some(b)) => Some(EvVec(a, b)),
                _ => None,
            },
            None => None,
        }
    }

    /// Whether `e` is the error that reading a vector from the text `s` ends in:
    /// that of the part before the first `|` where that part is no number, else
    /// that of the part after it.
    pub open spec fn text_error(s: Seq<char>, e: Error) -> bool {
        match split_at_pipe(s) {
            Some((first, second)) => if EvNum::text_value(first) is None {
                EvNum::text_error(first, e)
            } else {
                EvNum::text_error(second, e)
            },
            None => e matches Error::VecStringNoPipe(t) && t@ == s,
        }
    }

    /// The vector of the two components.
    #[must_use]
    pub fn new(num1: EvNum, num2: EvNum) -> (r: Self)
        ensures
            r == EvVec(num1, num2),
            r@ == (num1@, num2@),
    {
        Self(num1, num2)
    }

    /// Reads a vector from a text: a digit, `|`, a digit.
    pub fn from_str(s: &str) -> (r: Result<EvVec, Error>)
        ensures
            match r {
                Ok(v) => Self::text_value(s@) == Some(v),
                Err(e) => Self::text_value(s@) is None && Self::text_error(s@, e),
            },
            r matches Ok(v) ==> s@.len() == 3 && v@ == (digit_value(s@[0]), digit_value(s@[2])),
    {
        let chars = chars_of(s);
        let mut k: usize = 0;
        while k < chars.len() && chars[k] != '|'
            invariant
                k <= chars.len(),
                forall|j: int| 0 <= j < k ==> chars@[j] != '|',
            decreases chars.len() - k,
        {
            k += 1;
        }
        if k == chars.len() {
            return Err(Error::VecStringNoPipe(String::from_str(s)));
        }
        assert(is_first_pipe(s@, k as int));
        let first = s.substring_char(0, k);
        let second = s.substring_char(k + 1, chars.len());
        let a = match EvNum::from_str(first) {
            Ok(a) => a,
            Err(e) => {
                return Err(e);
            },
        };
        let b = match EvNum::from_str(second) {
            Ok(b) => b,
            Err(e) => {
                return Err(e);
            },
        };
        Ok(Self(a, b))
    }

    /// The text of the vector: the digits of its components with `|` between them.
    pub fn to_string(&self) -> (r: String)
        ensures
            r@ == self.text(),
    {
        proof {
            reveal_strlit("|");
        }
        let mut s = self.0.to_string();
        s.append("|");
        s.append(self.1.to_string().as_str());
        assert(s@ =~= self.text());
        s
    }
}

impl vstd::std_specs::ops::AddSpecImpl for EvVec {
    open spec fn obeys_add_spec() -> bool {
        true
    }

    open spec fn add_req(self, rhs: EvVec) -> bool {
        true
    }

    open spec fn add_spec(self, rhs: EvVec) -> EvVec {
        self.plus(rhs)
    }
}

impl core::ops::Add for EvVec {
    type Output = EvVec;

    /// The sum, component by component.
    fn add(self, rhs: Self) -> (r: EvVec)
        ensures
            r == self.plus(rhs),
            r@ == ((self.0@ + rhs.0@) % 11, (self.1@ + rhs.1@) % 11),
    {
        EvVec(self.0 + rhs.0, self.1 + rhs.1)
    }
}

impl vstd::std_specs::ops::SubSpecImpl for EvVec {
    open spec fn obeys_sub_spec() -> bool {
        true
    }

    open spec fn sub_req(self, rhs: EvVec) -> bool {
        true
    }

    open spec fn sub_spec(self, rhs: EvVec) -> EvVec {
        self.minus(rhs)
    }
}

impl core::ops::Sub for EvVec {
    type Output = EvVec;

    /// The difference, component by component.
    fn sub(self, rhs: Self) -> (r: EvVec)
        ensures
            r == self.minus(rhs),
            r@ == ((self.0@ - rhs.0@) % 11, (self.1@ - rhs.1@) % 11),
    {
        EvVec(self.0 - rhs.0, self.1 - rhs.1)
    }
}

impl vstd::std_specs::ops::MulSpecImpl for EvVec {
    open spec fn obeys_mul_spec() -> bool {
        true
    }

    open spec fn mul_req(self, rhs: EvVec) -> bool {
        true
    }

    open spec fn mul_spec(self, rhs: EvVec) -> EvVec {
        self.times(rhs)
    }
}

impl core::ops::Mul for EvVec {
    type Output = EvVec;

    /// The product `(a*c - b*d, a*d + b*c)` of `(a, b)` and `(c, d)`, as for
    /// complex numbers.
    fn mul(self, rhs: Self) -> (r: EvVec)
        ensures
            r == self.times(rhs),
            r@ == (
                (self.0@ * rhs.0@ - self.1@ * rhs.1@) % 11,
                (self.0@ * rhs.1@ + self.1@ * rhs.0@) % 11,
            ),
    {
        proof {
            lemma_sub_mod_noop(self.0@ * rhs.0@, self.1@ * rhs.1@, 11);
            lemma_add_mod_noop(self.0@ * rhs.1@, self.1@ * rhs.0@, 11);
        }
        EvVec(self.0 * rhs.0 - self.1 * rhs.1, self.0 * rhs.1 + self.1 * rhs.0)
    }
}

impl vstd::std_specs::ops::NegSpecImpl for EvVec {
    open spec fn obeys_neg_spec() -> bool {
        true
    }

    open spec fn neg_req(self) -> bool {
        true
    }

    open spec fn neg_spec(self) -> EvVec {
        self.negated()
    }
}

impl core::ops::Neg for EvVec {
    type Output = EvVec;

    /// The zero vector minus the vector.
    fn neg(self) -> (r: EvVec)
        ensures
            r == self.negated(),
            r@ == ((0 - self.0@) % 11, (0 - self.1@) % 11),
    {
        EvVec(EvNum::new(0), EvNum::new(0)) - self
    }
}

impl vstd::std_specs::ops::DivSpecImpl for EvVec {
    open spec fn obeys_div_spec() -> bool {
        true
    }

    open spec fn div_req(self, rhs: EvVec) -> bool {
        true
    }

    open spec fn div_spec(self, rhs: EvVec) -> Result<EvVec, Error> {
        self.over(rhs)
    }
}

impl core::ops::Div for EvVec {
    type Output = Result<EvVec, Error>;

    /// The vector that times `rhs` gives `self`. There is none for the zero
    /// vector, and one for every other `rhs`.
    fn div(self, rhs: Self) -> (r: Result<EvVec, Error>)
        ensures
            r == self.over(rhs),
            rhs@ == (0int, 0int) ==> r == Err::<EvVec, Error>(Error::VecDivNoSolution(self, rhs)),
            rhs@ != (0int, 0int) ==> r is Ok,
            r matches Ok(x) ==> x.times(rhs) == self,
    {
        let EvVec(a, b) = self;
        let zero = EvNum::new(0);
        proof {
            use_type_invariant(&a);
            use_type_invariant(&b);
            use_type_invariant(&rhs.0);
            use_type_invariant(&rhs.1);
            EvNum::lemma_from_int(0);
            EvNum::lemma_view_injective(rhs.0, zero);
            EvNum::lemma_view_injective(rhs.1, zero);
            Self::lemma_div_mul(self, rhs);
        }
        let found = match rhs {
            EvVec(c, d) if c == zero && d == zero => None,
            EvVec(c, d) if c == zero => {
                let x = b / d;
                let y = a.neg() / d;
                pair(x, y)
            },
            EvVec(c, d) if d == zero => {
                let x = a / c;
                let y = b / c;
                pair(x, y)
            },
            EvVec(c, d) => {
                let x = (a * c + b * d) / (c * c + d * d);
                match x {
                    Ok(q) => {
                        let y = (b - d * q) / c;
                        pair(x, y)
                    },
                    Err(_) => None,
                }
            },
        };
        match found {
            Some(v) => Ok(v),
            None => Err(Error::VecDivNoSolution(self, rhs)),
        }
    }
}

/// The vector of two quotients, where both divisions succeeded.
fn pair(x: Result<EvNum, Error>, y: Result<EvNum, Error>) -> (r: Option<EvVec>)
    ensures
        r == both(x, y),
{
    match (x, y) {
        (Ok(x), Ok(y)) => Some(EvVec(x, y)),
        _ => None,
    }
}

/// The square of a residue is one of 0, 1, 3, 4, 5 and 9, and 0 only for 0.
pub proof fn lemma_square(c: int)
    requires
        0 <= c < 11,
    ensures
        (c * c) % 11 == 0 || (c * c) % 11 == 1 || (c * c) % 11 == 3 || (c * c) % 11 == 4 || (c * c)
            % 11 == 5 || (c * c) % 11 == 9,
        (c * c) % 11 == 0 ==> c == 0,
{
    if c == 0 {
    } else if c == 1 {
    } else if c == 2 {
    } else if c == 3 {
    } else if c == 4 {
    } else if c == 5 {
    } else if c == 6 {
    } else if c == 7 {
    } else if c == 8 {
    } else if c == 9 {
    } else {
    }
}

/// Two squares add up to zero in the ring only if both are zero: -1 is no
/// square modulo 11.
pub proof fn lemma_sum_of_squares(c: int, d: int)
    requires
        0 <= c < 11,
        0 <= d < 11,
        ((c * c) % 11 + (d * d) % 11) % 11 == 0,
    ensures
        c == 0 && d == 0,
{
    lemma_square(c);
    lemma_square(d);
}

/// Two integers with the same remainder differ by a multiple of 11.
proof fn lemma_congruent(u: int, v: int) -> (k: int)
    requires
        u % 11 == v % 11,
    ensures
        u - v == 11 * k,
{
    u / 11 - v / 11
}

/// Where `x * (c*c + d*d)` is congruent to `a*c + b*d`, and `y * c` to
/// `b - d*x`, modulo 11, and 11 does not divide `c`, `x*c - y*d` is congruent
/// to `a`.
proof fn lemma_conjugate_algebra(a: int, b: int, c: int, d: int, x: int, y: int)
    requires
        1 <= c < 11,
        (x * (c * c + d * d)) % 11 == (a * c + b * d) % 11,
        (y * c) % 11 == (b - d * x) % 11,
    ensures
        (x * c - y * d - a) % 11 == 0,
{
    let k = lemma_congruent(x * (c * c + d * d), a * c + b * d);
    let j = lemma_congruent(y * c, b - d * x);
    let p = x * c - y * d - a;
    assert(p * c == (x * (c * c + d * d) - (a * c + b * d)) - d * (y * c - (b - d * x)))
        by (nonlinear_arith)
        requires
            p == x * c - y * d - a,
    ;
    assert(d * (11 * j) == 11 * (d * j)) by (nonlinear_arith);
    assert(p * c == 11 * (k - d * j));
    lemma_no_zero_divisors(p, c);
}

/// Reducing the two summands first does not change the remainder of a sum.
proof fn lemma_sum_reduced(u: int, v: int)
    ensures
        (u % 11 + v % 11) % 11 == (u + v) % 11,
{
}

/// Where `p - q - a` is a multiple of 11, `p - q` reduces to the residue `a`,
/// with `p` and `q` reduced first or not.
proof fn lemma_difference_is(p: int, q: int, a: int)
    requires
        0 <= a < 11,
        (p - q - a) % 11 == 0,
    ensures
        (p % 11 - q % 11) % 11 == a,
{
}

/// Where `u` is congruent to `b - t` modulo 11, `t + u` reduces to the
/// residue `b`.
proof fn lemma_sum_is(t: int, u: int, b: int)
    requires
        0 <= b < 11,
        u % 11 == (b - t % 11) % 11,
    ensures
        (t % 11 + u % 11) % 11 == b,
{
}

/// With `x = (a*c + b*d) / (c*c + d*d)` and `y = (b - d*x) / c` in the ring,
/// `(x, y)` times `(c, d)` is `(a, b)`.
pub proof fn lemma_conjugate_division(a: int, b: int, c: int, d: int, x: int, y: int)
    requires
        0 <= a < 11,
        0 <= b < 11,
        1 <= c < 11,
        solves(x, ((a * c) % 11 + (b * d) % 11) % 11, ((c * c) % 11 + (d * d) % 11) % 11),
        solves(y, (b - (d * x) % 11) % 11, c),
    ensures
        ((x * c) % 11 - (y * d) % 11) % 11 == a,
        ((x * d) % 11 + (y * c) % 11) % 11 == b,
{
    assert((x * (c * c + d * d)) % 11 == (a * c + b * d) % 11) by {
        lemma_sum_reduced(a * c, b * d);
        lemma_sum_reduced(c * c, d * d);
        lemma_mul_mod_noop_right(x, c * c + d * d, 11);
    }
    assert((y * c) % 11 == (b - d * x) % 11) by {
        lemma_sub_mod_noop_right(b, d * x, 11);
    }
    lemma_conjugate_algebra(a, b, c, d, x, y);
    lemma_difference_is(x * c, y * d, a);
    assert(x * d == d * x) by (nonlinear_arith);
    lemma_sum_is(x * d, y * c, b);
}

/// With `x = b / d` and `y = -a / d` in the ring, `(x, y)` times `(0, d)` is
/// `(a, b)`.
proof fn lemma_imaginary_division(a: int, b: int, d: int, x: int, y: int)
    requires
        0 <= a < 11,
        0 <= b < 11,
        solves(x, b, d),
        solves(y, (0 - a) % 11, d),
    ensures
        ((x * 0) % 11 - (y * d) % 11) % 11 == a,
        ((x * d) % 11 + (y * 0) % 11) % 11 == b,
{
    assert(x * 0 == 0);
    assert(y * 0 == 0);
}

/// With `x = a / c` and `y = b / c` in the ring, `(x, y)` times `(c, 0)` is
/// `(a, b)`.
proof fn lemma_real_division(a: int, b: int, c: int, x: int, y: int)
    requires
        0 <= a < 11,
        0 <= b < 11,
        solves(x, a, c),
        solves(y, b, c),
    ensures
        ((x * c) % 11 - (y * 0) % 11) % 11 == a,
        ((x * 0) % 11 + (y * c) % 11) % 11 == b,
{
    assert(x * 0 == 0);
    assert(y * 0 == 0);
}

impl EvVec {
    /// The residues of the components of a product.
    pub proof fn lemma_times(v: EvVec, w: EvVec)
        ensures
            v.times(w)@ == (
                ((v.0@ * w.0@) % 11 - (v.1@ * w.1@) % 11) % 11,
                ((v.0@ * w.1@) % 11 + (v.1@ * w.0@) % 11) % 11,
            ),
            v.times(w).wf(),
    {
        EvNum::lemma_arith(v.0, w.0);
        EvNum::lemma_arith(v.1, w.1);
        EvNum::lemma_arith(v.0, w.1);
        EvNum::lemma_arith(v.1, w.0);
        EvNum::lemma_arith(v.0.times(w.0), v.1.times(w.1));
        EvNum::lemma_arith(v.0.times(w.1), v.1.times(w.0));
    }

    /// Two vectors with the same residues are the same vector.
    pub proof fn lemma_view_injective(v: EvVec, w: EvVec)
        ensures
            (v@ == w@) == (v == w),
    {
        EvNum::lemma_view_injective(v.0, w.0);
        EvNum::lemma_view_injective(v.1, w.1);
    }

    proof fn lemma_over_imaginary(v: EvVec, w: EvVec)
        requires
            v.wf(),
            w.wf(),
            w.0@ == 0,
            w.1@ != 0,
        ensures
            v.over(w) matches Ok(x) && x.wf() && x.times(w) == v,
    {
        let EvVec(a, b) = v;
        let d = w.1;
        EvNum::lemma_arith(a, a);
        EvNum::lemma_div_mul(b, d);
        EvNum::lemma_div_mul(a.negated(), d);
        let x = b.over(d)->Ok_0;
        let y = a.negated().over(d)->Ok_0;
        let q = EvVec(x, y);
        assert(v.over(w) == Ok::<EvVec, Error>(q));
        lemma_imaginary_division(a@, b@, d@, x@, y@);
        Self::lemma_times(q, w);
        Self::lemma_view_injective(q.times(w), v);
    }

    proof fn lemma_over_real(v: EvVec, w: EvVec)
        requires
            v.wf(),
            w.wf(),
            w.0@ != 0,
            w.1@ == 0,
        ensures
            v.over(w) matches Ok(x) && x.wf() && x.times(w) == v,
    {
        let EvVec(a, b) = v;
        let c = w.0;
        EvNum::lemma_div_mul(a, c);
        EvNum::lemma_div_mul(b, c);
        let x = a.over(c)->Ok_0;
        let y = b.over(c)->Ok_0;
        let q = EvVec(x, y);
        assert(v.over(w) == Ok::<EvVec, Error>(q));
        lemma_real_division(a@, b@, c@, x@, y@);
        Self::lemma_times(q, w);
        Self::lemma_view_injective(q.times(w), v);
    }

    proof fn lemma_over_general(v: EvVec, w: EvVec)
        requires
            v.wf(),
            w.wf(),
            w.0@ != 0,
            w.1@ != 0,
        ensures
            v.over(w) matches Ok(x) && x.wf() && x.times(w) == v,
    {
        let EvVec(a, b) = v;
        let EvVec(c, d) = w;
        let top = a.times(c).plus(b.times(d));
        let norm = c.times(c).plus(d.times(d));
        EvNum::lemma_arith(a, c);
        EvNum::lemma_arith(b, d);
        EvNum::lemma_arith(c, c);
        EvNum::lemma_arith(d, d);
        EvNum::lemma_arith(a.times(c), b.times(d));
        EvNum::lemma_arith(c.times(c), d.times(d));
        assert(norm@ != 0) by {
            if norm@ == 0 {
                lemma_sum_of_squares(c@, d@);
            }
        }
        EvNum::lemma_div_mul(top, norm);
        let x = top.over(norm)->Ok_0;
        EvNum::lemma_arith(d, x);
        EvNum::lemma_arith(b, d.times(x));
        let rest = b.minus(d.times(x));
        EvNum::lemma_div_mul(rest, c);
        let y = rest.over(c)->Ok_0;
        let q = EvVec(x, y);
        assert(v.over(w) == Ok::<EvVec, Error>(q));
        lemma_conjugate_division(a@, b@, c@, d@, x@, y@);
        Self::lemma_times(q, w);
        Self::lemma_view_injective(q.times(w), v);
    }

    /// Division by any vector but the zero vector succeeds, and the quotient
    /// times the divisor is the dividend again; division by the zero vector
    /// fails.
    pub proof fn lemma_div_mul(v: EvVec, w: EvVec)
        requires
            v.wf(),
            w.wf(),
        ensures
            w@ == (0int, 0int) ==> v.over(w) == Err::<EvVec, Error>(
                Error::VecDivNoSolution(v, w),
            ),
            w@ != (0int, 0int) ==> v.over(w) is Ok,
            v.over(w) matches Ok(x) ==> x.wf() && x.times(w) == v,
    {
        if w.0@ == 0 && w.1@ == 0 {
        } else if w.0@ == 0 {
            Self::lemma_over_imaginary(v, w);
        } else if w.1@ == 0 {
            Self::lemma_over_real(v, w);
        } else {
            Self::lemma_over_general(v, w);
        }
    }

    /// Reading the text of a vector gives the vector again.
    pub proof fn lemma_text_round_trip(v: EvVec)
        requires
            v.wf(),
        ensures
            Self::text_value(v.text()) == Some(v),
    {
        let s = v.text();
        assert(s.len() == 3);
        assert(is_first_pipe(s, 1));
        let k = choose|k: int| is_first_pipe(s, k);
        assert(k == 1);
        assert(s.subrange(0, 1) =~= v.0.text());
        assert(s.subrange(2, 3) =~= v.1.text());
        EvNum::lemma_text_round_trip(v.0);
        EvNum::lemma_text_round_trip(v.1);
    }
}

} // verus!
