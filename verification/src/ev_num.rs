//! The ring of the integers modulo 11: its elements, their arithmetic and
//! their digits.

use crate::error::Error;
use crate::text::digit_str;
use core::cmp::Ordering;
use vstd::prelude::*;

verus! {

/// An element of the ring of integers modulo 11.
///
/// The element always holds a residue from 0 to 10; equality and order are
/// those of the residues.
#[derive(Debug, Clone, Copy, PartialEq, Eq, Ord, Hash, Structural)]
pub struct EvNum(i32);

impl View for EvNum {
    type V = int;

    /// The residue that the element stands for.
    closed spec fn view(&self) -> int {
        self.0 as int
    }
}

/// Whether `c` is one of the eleven digits: `0` to `9`, and `X` for ten.
pub open spec fn is_digit(c: char) -> bool {
    ('0' <= c && c <= '9') || c == 'X'
}

/// The residue that the digit `c` stands for.
pub open spec fn digit_value(c: char) -> int {
    if c == 'X' {
        10
    } else {
        c as int - '0' as int
    }
}

/// The digit that stands for the residue `v`; `X` for whatever is no residue
/// from 0 to 9.
pub open spec fn digit_char(v: int) -> char {
    if v == 0 {
        '0'
    } else if v == 1 {
        '1'
    } else if v == 2 {
        '2'
    } else if v == 3 {
        '3'
    } else if v == 4 {
        '4'
    } else if v == 5 {
        '5'
    } else if v == 6 {
        '6'
    } else if v == 7 {
        '7'
    } else if v == 8 {
        '8'
    } else if v == 9 {
        '9'
    } else {
        'X'
    }
}

/// Whether `q * b` is `a` in the ring.
pub open spec fn solves(q: int, a: int, b: int) -> bool {
    (q * b) % 11 == a
}

/// Whether `q` is the first of the residues 0, 1, ..., 10 with `q * b = a` in the ring.
pub open spec fn is_first_quotient(q: int, a: int, b: int) -> bool {
    &&& 0 <= q < 11
    &&& solves(q, a, b)
    &&& forall|p: int| 0 <= p < q ==> !solves(p, a, b)
}

/// The residue that dividing `a` by `b` gives: none for `b = 0`, else the
/// first residue `q` with `q * b = a`, if there is one.
pub open spec fn quotient(a: int, b: int) -> Option<int> {
    if b != 0 && exists|q: int| is_first_quotient(q, a, b) {
        Some(choose|q: int| is_first_quotient(q, a, b))
    } else {
        None
    }
}

impl EvNum {
    /// Whether the element holds one of the eleven residues. Every element
    /// that a program holds does; a specification may speak of others.
    #[verifier::type_invariant]
    pub open spec fn wf(self) -> bool {
        0 <= self@ < 11
    }

    /// The element whose residue is `n` reduced modulo 11.
    pub closed spec fn from_int(n: int) -> EvNum {
        EvNum((n % 11) as i32)
    }

    /// The sum in the ring.
    pub open spec fn plus(self, rhs: EvNum) -> EvNum {
        Self::from_int(self@ + rhs@)
    }

    /// The difference in the ring.
    pub open spec fn minus(self, rhs: EvNum) -> EvNum {
        Self::from_int(self@ - rhs@)
    }

    /// The product in the ring.
    pub open spec fn times(self, rhs: EvNum) -> EvNum {
        Self::from_int(self@ * rhs@)
    }

    /// Zero minus the element.
    pub open spec fn negated(self) -> EvNum {
        Self::from_int(0).minus(self)
    }

    /// The element that times `rhs` gives `self`: the first of 0, 1, ..., 10 that
    /// does. There is none for `rhs` zero.
    pub open spec fn over(self, rhs: EvNum) -> Result<EvNum, Error> {
        match quotient(self@, rhs@) {
            Some(q) => Ok(Self::from_int(q)),
            None => Err(Error::NumDivNoSolution(self, rhs)),
        }
    }

    /// The element that the digit `c` stands for.
    pub open spec fn from_digit(c: char) -> Result<EvNum, Error> {
        if is_digit(c) {
            Ok(Self::from_int(digit_value(c)))
        } else {
            Err(Error::UnknownDigit(c))
        }
    }

    /// The text of the element: its one digit.
    pub open spec fn text(self) -> Seq<char> {
        seq![digit_char(self@)]
    }

    /// The element that the text `s` denotes, if it denotes one.
    pub open spec fn text_value(s: Seq<char>) -> Option<EvNum> {
        if s.len() == 1 && is_digit(s[0]) {
            Some(Self::from_int(digit_value(s[0])))
        } else {
            None
        }
    }

    /// Whether `e` is the error that reading an element from the text `s` ends in.
    pub open spec fn text_error(s: Seq<char>, e: Error) -> bool {
        if s.len() == 0 {
            e == Error::NumStringEmpty
        } else if s.len() > 1 {
            e matches Error::NumStringTooLong(t) && t@ == s
        } else {
            !is_digit(s[0]) && e == Error::UnknownDigit(s[0])
        }
    }

    /// The element for `num` reduced modulo 11, for negative `num` too.
    #[must_use]
    pub fn new(num: i32) -> (r: Self)
        ensures
            r == Self::from_int(num as int),
            r@ == (num as int) % 11,
            0 <= r@ < 11,
    {
        match num.checked_rem_euclid(11) {
            Some(rem) => EvNum(rem),
            // There is no remainder only for the divisors 0 and -1.
            None => EvNum(0),
        }
    }

    /// The residue of the element.
    #[must_use]
    pub fn inner(self) -> (r: i32)
        ensures
            r == self@,
            0 <= r < 11,
    {
        proof {
            use_type_invariant(&self);
        }
        self.0
    }

    /// Reads an element from a text of exactly one digit.
    pub fn from_str(s: &str) -> (r: Result<EvNum, Error>)
        ensures
            match r {
                Ok(n) => Self::text_value(s@) == Some(n),
                Err(e) => Self::text_value(s@) is None && Self::text_error(s@, e),
            },
            s@.len() == 1 ==> r == EvNum::from_digit(s@[0]),
            r matches Ok(n) ==> n@ == digit_value(s@[0]),
    {
        let len = s.unicode_len();
        if len > 1 {
            return Err(Error::NumStringTooLong(String::from_str(s)));
        }
        if len == 0 {
            return Err(Error::NumStringEmpty);
        }
        EvNum::try_from(s.get_char(0))
    }

    /// The text of the element: `X` for ten, else the decimal digit.
    pub fn to_string(&self) -> (r: String)
        ensures
            r@ == self.text(),
    {
        String::from_str(digit_str(self.inner() as usize))
    }
}

impl vstd::std_specs::ops::AddSpecImpl for EvNum {
    open spec fn obeys_add_spec() -> bool {
        true
    }

    open spec fn add_req(self, rhs: EvNum) -> bool {
        true
    }

    open spec fn add_spec(self, rhs: EvNum) -> EvNum {
        self.plus(rhs)
    }
}

impl core::ops::Add for EvNum {
    type Output = EvNum;

    /// The sum in the ring.
    fn add(self, rhs: Self) -> (r: EvNum)
        ensures
            r == self.plus(rhs),
            r@ == (self@ + rhs@) % 11,
    {
        proof {
            use_type_invariant(&self);
            use_type_invariant(&rhs);
        }
        EvNum::new(self.0 + rhs.0)
    }
}

impl vstd::std_specs::ops::SubSpecImpl for EvNum {
    open spec fn obeys_sub_spec() -> bool {
        true
    }

    open spec fn sub_req(self, rhs: EvNum) -> bool {
        true
    }

    open spec fn sub_spec(self, rhs: EvNum) -> EvNum {
        self.minus(rhs)
    }
}

impl core::ops::Sub for EvNum {
    type Output = EvNum;

    /// The difference in the ring.
    fn sub(self, rhs: Self) -> (r: EvNum)
        ensures
            r == self.minus(rhs),
            r@ == (self@ - rhs@) % 11,
    {
        proof {
            use_type_invariant(&self);
            use_type_invariant(&rhs);
        }
        EvNum::new(self.0 - rhs.0)
    }
}

impl vstd::std_specs::ops::MulSpecImpl for EvNum {
    open spec fn obeys_mul_spec() -> bool {
        true
    }

    open spec fn mul_req(self, rhs: EvNum) -> bool {
        true
    }

    open spec fn mul_spec(self, rhs: EvNum) -> EvNum {
        self.times(rhs)
    }
}

impl core::ops::Mul for EvNum {
    type Output = EvNum;

    /// The product in the ring.
    fn mul(self, rhs: Self) -> (r: EvNum)
        ensures
            r == self.times(rhs),
            r@ == (self@ * rhs@) % 11,
    {
        proof {
            use_type_invariant(&self);
            use_type_invariant(&rhs);
            assert(0 <= self.0 * rhs.0 <= 100) by (nonlinear_arith)
                requires
                    0 <= self.0 < 11,
                    0 <= rhs.0 < 11,
            ;
        }
        EvNum::new(self.0 * rhs.0)
    }
}

impl vstd::std_specs::ops::NegSpecImpl for EvNum {
    open spec fn obeys_neg_spec() -> bool {
        true
    }

    open spec fn neg_req(self) -> bool {
        true
    }

    open spec fn neg_spec(self) -> EvNum {
        self.negated()
    }
}

impl core::ops::Neg for EvNum {
    type Output = EvNum;

    /// Zero minus the element.
    fn neg(self) -> (r: EvNum)
        ensures
            r == self.negated(),
            r@ == (0 - self@) % 11,
    {
        EvNum(0) - self
    }
}

impl vstd::std_specs::ops::DivSpecImpl for EvNum {
    open spec fn obeys_div_spec() -> bool {
        true
    }

    open spec fn div_req(self, rhs: EvNum) -> bool {
        true
    }

    open spec fn div_spec(self, rhs: EvNum) -> Result<EvNum, Error> {
        self.over(rhs)
    }
}

impl core::ops::Div for EvNum {
    type Output = Result<EvNum, Error>;

    /// The element that times `rhs` gives `self`, found by trying 0, 1, ..., 10
    /// in turn. There is none for `rhs` zero, and exactly one otherwise.
    fn div(self, rhs: Self) -> (r: Result<EvNum, Error>)
        ensures
            r == self.over(rhs),
            rhs@ == 0 ==> r == Err::<EvNum, Error>(Error::NumDivNoSolution(self, rhs)),
            rhs@ != 0 ==> r is Ok,
            r matches Ok(q) ==> is_first_quotient(q@, self@, rhs@) && q.times(rhs) == self,
    {
        proof {
            use_type_invariant(&self);
            use_type_invariant(&rhs);
        }
        if rhs.0 == 0 {
            return Err(Error::NumDivNoSolution(self, rhs));
        }
        proof {
            lemma_quotient(self@, rhs@);
        }
        for i in 0..11i32
            invariant
                self.wf(),
                rhs.wf(),
                rhs@ != 0,
                quotient(self@, rhs@) is Some,
                is_first_quotient(quotient(self@, rhs@)->0, self@, rhs@),
                forall|p: int| 0 <= p < i ==> !solves(p, self@, rhs@),
        {
            let i = EvNum(i);
            if i * rhs == self {
                proof {
                    assert(solves(i@, self@, rhs@));
                    Self::lemma_view_injective(i, Self::from_int(quotient(self@, rhs@)->0));
                }
                return Ok(i);
            }
            assert(!solves(i@, self@, rhs@));
        }
        Err(Error::NumDivNoSolution(self, rhs))
    }
}

impl vstd::std_specs::cmp::PartialOrdSpecImpl for EvNum {
    open spec fn obeys_partial_cmp_spec() -> bool {
        true
    }

    open spec fn partial_cmp_spec(&self, other: &EvNum) -> Option<Ordering> {
        if self@ < other@ {
            Some(Ordering::Less)
        } else if self@ == other@ {
            Some(Ordering::Equal)
        } else {
            Some(Ordering::Greater)
        }
    }
}

impl PartialOrd for EvNum {
    /// The order of the residues.
    fn partial_cmp(&self, other: &EvNum) -> (r: Option<Ordering>) {
        if self.0 < other.0 {
            Some(Ordering::Less)
        } else if self.0 == other.0 {
            Some(Ordering::Equal)
        } else {
            Some(Ordering::Greater)
        }
    }
}

impl vstd::std_specs::convert::TryFromSpecImpl<char> for EvNum {
    open spec fn obeys_try_from_spec() -> bool {
        true
    }

    open spec fn try_from_spec(value: char) -> Result<EvNum, Error> {
        Self::from_digit(value)
    }
}

impl TryFrom<char> for EvNum {
    type Error = Error;

    /// The element that the digit `value` stands for.
    fn try_from(value: char) -> (r: Result<Self, Error>)
        ensures
            r == Self::from_digit(value),
            is_digit(value) ==> r is Ok && r->Ok_0@ == digit_value(value),
            !is_digit(value) ==> r == Err::<EvNum, Error>(Error::UnknownDigit(value)),
    {
        if '0' <= value && value <= '9' {
            let code = value as u32;
            Ok(EvNum((code - 48) as i32))
        } else if value == 'X' {
            Ok(EvNum(10))
        } else {
            Err(Error::UnknownDigit(value))
        }
    }
}

/// The residue that undoes multiplying by the nonzero residue `b`.
pub open spec fn inverse(b: int) -> int {
    if b == 1 {
        1
    } else if b == 2 {
        6
    } else if b == 3 {
        4
    } else if b == 4 {
        3
    } else if b == 5 {
        9
    } else if b == 6 {
        2
    } else if b == 7 {
        8
    } else if b == 8 {
        7
    } else if b == 9 {
        5
    } else {
        10
    }
}

/// Each nonzero residue times its inverse is 1.
pub proof fn lemma_inverse(b: int)
    requires
        1 <= b < 11,
    ensures
        1 <= inverse(b) < 11,
        (inverse(b) * b) % 11 == 1,
{
}

/// A product in the ring is 0 only if a factor is: 11 is prime.
pub proof fn lemma_no_zero_divisors(x: int, b: int)
    requires
        1 <= b < 11,
        (x * b) % 11 == 0,
    ensures
        x % 11 == 0,
{
    lemma_inverse(b);
    let i = inverse(b);
    let k = (x * b) / 11;
    let m = (i * b) / 11;
    assert(x * b == 11 * k);
    assert(i * b == 11 * m + 1);
    assert(i * (x * b) == (i * b) * x) by (nonlinear_arith);
    assert(i * (11 * k) == 11 * (i * k)) by (nonlinear_arith);
    assert((11 * m + 1) * x == 11 * (m * x) + x) by (nonlinear_arith);
    assert(x == 11 * (i * k - m * x));
}

/// For a nonzero residue `b`, `a` times the inverse of `b` solves `q * b = a`.
pub proof fn lemma_solution_exists(a: int, b: int)
    requires
        0 <= a < 11,
        1 <= b < 11,
    ensures
        solves((a * inverse(b)) % 11, a, b),
{
    lemma_inverse(b);
    let i = inverse(b);
    let w = (a * i) % 11;
    let k = (a * i) / 11;
    let m = (i * b) / 11;
    assert(a * i == 11 * k + w);
    assert(i * b == 11 * m + 1);
    assert((a * i) * b == a * (i * b)) by (nonlinear_arith);
    assert((11 * k + w) * b == 11 * (k * b) + w * b) by (nonlinear_arith);
    assert(a * (11 * m + 1) == 11 * (a * m) + a) by (nonlinear_arith);
    assert(w * b == 11 * (a * m - k * b) + a);
}

/// For a nonzero residue `b`, no two residues solve `q * b = a`.
pub proof fn lemma_solution_unique(p: int, q: int, a: int, b: int)
    requires
        0 <= p < 11,
        0 <= q < 11,
        1 <= b < 11,
        solves(p, a, b),
        solves(q, a, b),
    ensures
        p == q,
{
    let kp = (p * b) / 11;
    let kq = (q * b) / 11;
    assert((p - q) * b == p * b - q * b) by (nonlinear_arith);
    assert((p - q) * b == 11 * (kp - kq));
    lemma_no_zero_divisors(p - q, b);
}

/// Dividing by a nonzero residue has one answer and no more.
pub proof fn lemma_quotient(a: int, b: int)
    requires
        0 <= a < 11,
        1 <= b < 11,
    ensures
        quotient(a, b) is Some,
        is_first_quotient(quotient(a, b)->0, a, b),
        forall|q: int| 0 <= q < 11 && solves(q, a, b) ==> q == quotient(a, b)->0,
{
    lemma_solution_exists(a, b);
    lemma_first_solution(a, b, 0, (a * inverse(b)) % 11);
    assert(is_first_quotient(first_solution(a, b, 0), a, b));
    let f = quotient(a, b)->0;
    assert forall|q: int| 0 <= q < 11 && solves(q, a, b) implies q == f by {
        lemma_solution_unique(q, f, a, b);
    }
}

/// The first residue from `from` on that solves `q * b = a`, or 11.
spec fn first_solution(a: int, b: int, from: int) -> int
    decreases 11 - from,
{
    if from >= 11 || solves(from, a, b) {
        from
    } else {
        first_solution(a, b, from + 1)
    }
}

proof fn lemma_first_solution(a: int, b: int, from: int, w: int)
    requires
        0 <= from <= w < 11,
        solves(w, a, b),
    ensures
        from <= first_solution(a, b, from) <= w,
        solves(first_solution(a, b, from), a, b),
        forall|p: int| from <= p < first_solution(a, b, from) ==> !solves(p, a, b),
    decreases 11 - from,
{
    if !solves(from, a, b) {
        lemma_first_solution(a, b, from + 1, w);
    }
}

impl EvNum {
    /// `from_int` reduces with the remainder that is never negative.
    pub proof fn lemma_from_int(n: int)
        ensures
            Self::from_int(n)@ == n % 11,
            Self::from_int(n).wf(),
    {
    }

    /// Two elements with the same residue are the same element.
    pub proof fn lemma_view_injective(a: EvNum, b: EvNum)
        ensures
            (a@ == b@) == (a == b),
    {
    }

    /// The residues of the sum, the difference, the product and the negation.
    pub proof fn lemma_arith(a: EvNum, b: EvNum)
        ensures
            a.plus(b)@ == (a@ + b@) % 11,
            a.minus(b)@ == (a@ - b@) % 11,
            a.times(b)@ == (a@ * b@) % 11,
            a.negated()@ == (0 - a@) % 11,
            a.plus(b).wf(),
            a.minus(b).wf(),
            a.times(b).wf(),
            a.negated().wf(),
    {
    }

    /// Division by a nonzero element succeeds, and the quotient times the
    /// divisor is the dividend again; division by zero fails.
    pub proof fn lemma_div_mul(a: EvNum, b: EvNum)
        requires
            a.wf(),
            b.wf(),
        ensures
            b@ == 0 ==> a.over(b) == Err::<EvNum, Error>(Error::NumDivNoSolution(a, b)),
            b@ != 0 ==> a.over(b) is Ok,
            a.over(b) matches Ok(q) ==> q.wf() && q.times(b) == a && solves(q@, a@, b@),
    {
        if b@ != 0 {
            lemma_quotient(a@, b@);
        }
    }

    /// Reading the digit of an element gives the element again.
    pub proof fn lemma_text_round_trip(a: EvNum)
        requires
            a.wf(),
        ensures
            Self::from_digit(digit_char(a@)) == Ok::<EvNum, Error>(a),
            Self::text_value(a.text()) == Some(a),
    {
        assert(is_digit(digit_char(a@)));
        assert(digit_value(digit_char(a@)) == a@);
    }
}

} // verus!
