//! The grammar of expressions and the parser for it.
//!
//! ```text
//! sum    := term (('+' | '-') term)*
//! term   := factor (('*' | '/') factor)*
//! factor := atom ('^' factor)*
//! atom   := '(' sum ')' | value
//! value  := vector | scalar
//! vector := scalar '|' scalar
//! scalar := one of "0123456789X"
//! ```
//!
//! Spaces are skipped before and after a value and before and after an
//! expression in parentheses, and nowhere else; a tab is no space. Operators
//! of one rank group to the left. The grammar reads `^`, but the operator has
//! no meaning: a text that applies it is refused.

use crate::ev_num::EvNum;
use crate::ev_vec::EvVec;
use crate::expr::{EValue, Expr};
use crate::text::{chars_of, decimal, decimal_string};
use vstd::prelude::*;

verus! {

/// Why no expression was read from a text.
#[derive(Debug, Clone, Copy, PartialEq, Eq, Structural)]
pub enum ParseError {
    /// The text does not start with an expression: after its leading spaces,
    /// at the offset `at` in characters, stands neither a value nor an
    /// expression in parentheses.
    NoExpression { at: usize },
    /// The `^` at the offset `at` in characters stands between two operands.
    /// The grammar knows the operator, but it has no meaning.
    UnsupportedPower { at: usize },
}

impl ParseError {
    /// The message of the error, which ends in the offset in decimal digits.
    pub open spec fn message(self) -> Seq<char> {
        match self {
            ParseError::NoExpression { at } => "no expression at offset "@ + decimal(at as nat),
            ParseError::UnsupportedPower { at } => "unsupported operator ^ at offset "@ + decimal(
                at as nat,
            ),
        }
    }

    /// The message of the error.
    pub fn to_string(&self) -> (r: String)
        ensures
            r@ == self.message(),
    {
        match self {
            ParseError::NoExpression { at } => {
                let mut s = String::from_str("no expression at offset ");
                s.append(decimal_string(*at).as_str());
                s
            },
            ParseError::UnsupportedPower { at } => {
                let mut s = String::from_str("unsupported operator ^ at offset ");
                s.append(decimal_string(*at).as_str());
                s
            },
        }
    }
}

/// What reading a rule of the grammar at one place of a text ends in.
pub enum Outcome {
    /// The rule matches that many characters, which stand for the expression.
    Match(Expr, nat),
    /// The rule does not match.
    NoMatch,
    /// `^` at this place of the text stands between two operands.
    Power(int),
}

impl Outcome {
    /// The outcome with `k` more characters matched, where it is a match.
    pub open spec fn after(self, k: nat) -> Outcome {
        match self {
            Outcome::Match(e, n) => Outcome::Match(e, n + k),
            other => other,
        }
    }
}

/// Whether the character `c` stands at place `i` of `s`.
pub open spec fn is_at(s: Seq<char>, i: int, c: char) -> bool {
    0 <= i < s.len() && s[i] == c
}

/// The number of characters of `s` from place `i` on.
pub open spec fn remaining(s: Seq<char>, i: int) -> nat {
    if i <= s.len() {
        (s.len() - i) as nat
    } else {
        0
    }
}

/// The number of spaces in a row that start at place `i` of `s`.
pub open spec fn spaces(s: Seq<char>, i: int) -> nat
    decreases remaining(s, i),
{
    if is_at(s, i, ' ') {
        1 + spaces(s, i + 1)
    } else {
        0
    }
}

/// `scalar := one of "0123456789X"`: the number of the digit at place `i`.
pub open spec fn number(s: Seq<char>, i: int) -> Option<EvNum> {
    if 0 <= i < s.len() {
        match EvNum::from_digit(s[i]) {
            Ok(n) => Some(n),
            Err(_) => None,
        }
    } else {
        None
    }
}

/// `vector := scalar '|' scalar`: the vector of the three characters at place `i`.
pub open spec fn vector(s: Seq<char>, i: int) -> Option<EvVec> {
    match (number(s, i), number(s, i + 2)) {
        (Some(a), Some(b)) => if is_at(s, i + 1, '|') {
            Some(EvVec(a, b))
        } else {
            None
        },
        _ => None,
    }
}

/// `value := vector | scalar`, with any spaces before and after it.
pub open spec fn value(s: Seq<char>, i: int) -> Outcome {
    let j = i + spaces(s, i);
    match vector(s, j) {
        Some(v) => Outcome::Match(
            Expr::EValue(EValue::EVec(v)),
            spaces(s, i) + 3 + spaces(s, j + 3),
        ),
        None => match number(s, j) {
            Some(n) => Outcome::Match(
                Expr::EValue(EValue::ENum(n)),
                spaces(s, i) + 1 + spaces(s, j + 1),
            ),
            None => Outcome::NoMatch,
        },
    }
}

/// The expression of the operator `op` between two operands.
pub open spec fn node(op: char, left: Expr, right: Expr) -> Expr {
    if op == '+' {
        Expr::EAdd(Box::new(left), Box::new(right))
    } else if op == '-' {
        Expr::ESub(Box::new(left), Box::new(right))
    } else if op == '*' {
        Expr::EMul(Box::new(left), Box::new(right))
    } else {
        Expr::EDiv(Box::new(left), Box::new(right))
    }
}

/// `'(' sum ')'`, with any spaces before and after it.
pub open spec fn group(s: Seq<char>, i: int) -> Outcome
    decreases remaining(s, i), 0nat,
{
    let j = i + spaces(s, i);
    if is_at(s, j, '(') {
        match sum(s, j + 1) {
            Outcome::Match(e, n) => if is_at(s, j + 1 + n, ')') {
                Outcome::Match(e, spaces(s, i) + n + 2 + spaces(s, j + n + 2))
            } else {
                Outcome::NoMatch
            },
            other => other,
        }
    } else {
        Outcome::NoMatch
    }
}

/// `atom := '(' sum ')' | value`.
pub open spec fn atom(s: Seq<char>, i: int) -> Outcome
    decreases remaining(s, i), 1nat,
{
    match group(s, i) {
        Outcome::NoMatch => value(s, i),
        other => other,
    }
}

/// `factor := atom ('^' factor)*`. An atom alone is a factor; where `^` and a
/// factor follow it, the outcome is `Power`, at the place of the first `^`
/// that has its second operand read.
pub open spec fn factor(s: Seq<char>, i: int) -> Outcome
    decreases remaining(s, i), 2nat,
{
    match atom(s, i) {
        Outcome::Match(e, n) => if is_at(s, i + n, '^') {
            match factor(s, i + n + 1) {
                Outcome::Match(_, _) => Outcome::Power(i + n),
                Outcome::NoMatch => Outcome::Match(e, n),
                Outcome::Power(p) => Outcome::Power(p),
            }
        } else {
            Outcome::Match(e, n)
        },
        other => other,
    }
}

/// `(('*' | '/') factor)*` at place `i`, after the expression `acc`: each
/// factor becomes the right operand of a node whose left operand is all that
/// was read before it.
pub open spec fn factors(s: Seq<char>, i: int, acc: Expr) -> Outcome
    decreases remaining(s, i), 3nat,
{
    if is_at(s, i, '*') || is_at(s, i, '/') {
        match factor(s, i + 1) {
            Outcome::Match(rhs, n) => factors(s, i + 1 + n, node(s[i], acc, rhs)).after(1 + n),
            Outcome::NoMatch => Outcome::Match(acc, 0),
            Outcome::Power(p) => Outcome::Power(p),
        }
    } else {
        Outcome::Match(acc, 0)
    }
}

/// `term := factor (('*' | '/') factor)*`.
pub open spec fn term(s: Seq<char>, i: int) -> Outcome
    decreases remaining(s, i), 4nat,
{
    match factor(s, i) {
        Outcome::Match(e, n) => factors(s, i + n, e).after(n),
        other => other,
    }
}

/// `(('+' | '-') term)*` at place `i`, after the expression `acc`: each term
/// becomes the right operand of a node whose left operand is all that was
/// read before it.
pub open spec fn terms(s: Seq<char>, i: int, acc: Expr) -> Outcome
    decreases remaining(s, i), 5nat,
{
    if is_at(s, i, '+') || is_at(s, i, '-') {
        match term(s, i + 1) {
            Outcome::Match(rhs, n) => terms(s, i + 1 + n, node(s[i], acc, rhs)).after(1 + n),
            Outcome::NoMatch => Outcome::Match(acc, 0),
            Outcome::Power(p) => Outcome::Power(p),
        }
    } else {
        Outcome::Match(acc, 0)
    }
}

/// `sum := term (('+' | '-') term)*`.
pub open spec fn sum(s: Seq<char>, i: int) -> Outcome
    decreases remaining(s, i), 6nat,
{
    match term(s, i) {
        Outcome::Match(e, n) => terms(s, i + n, e).after(n),
        other => other,
    }
}

/// What reading an expression from the start of the text `s` gives: the rest
/// of the text and the expression, or why there is none.
pub open spec fn reading(s: Seq<char>) -> Result<(Seq<char>, Expr), ParseError> {
    match sum(s, 0) {
        Outcome::Match(e, n) => Ok((s.skip(n as int), e)),
        Outcome::NoMatch => Err(ParseError::NoExpression { at: spaces(s, 0) as usize }),
        Outcome::Power(p) => Err(ParseError::UnsupportedPower { at: p as usize }),
    }
}

/// Whether the outcome `o` of a rule read at place `i` of `s` stays within `s`:
/// a match ends in `s`, and a refused `^` stands in `s` from `i` on.
pub open spec fn within(o: Outcome, s: Seq<char>, i: int) -> bool {
    match o {
        Outcome::Match(_, n) => i + n <= s.len(),
        Outcome::NoMatch => true,
        Outcome::Power(p) => i <= p && is_at(s, p, '^'),
    }
}

/// Spaces are counted within the text.
pub proof fn lemma_spaces_within(s: Seq<char>, i: int)
    requires
        0 <= i <= s.len(),
    ensures
        i + spaces(s, i) <= s.len(),
    decreases remaining(s, i),
{
    if is_at(s, i, ' ') {
        lemma_spaces_within(s, i + 1);
    }
}

/// A value is read within the text.
proof fn lemma_value_within(s: Seq<char>, i: int)
    requires
        0 <= i <= s.len(),
    ensures
        within(value(s, i), s, i),
{
    lemma_spaces_within(s, i);
    let j = i + spaces(s, i);
    if vector(s, j) is Some {
        lemma_spaces_within(s, j + 3);
    } else if number(s, j) is Some {
        lemma_spaces_within(s, j + 1);
    }
}

/// An expression in parentheses is read within the text.
proof fn lemma_group_within(s: Seq<char>, i: int)
    requires
        0 <= i <= s.len(),
    ensures
        within(group(s, i), s, i),
    decreases remaining(s, i), 0nat,
{
    lemma_spaces_within(s, i);
    let j = i + spaces(s, i);
    if is_at(s, j, '(') {
        lemma_sum_within(s, j + 1);
        if let Outcome::Match(_, n) = sum(s, j + 1) {
            if is_at(s, j + 1 + n, ')') {
                lemma_spaces_within(s, j + n + 2);
            }
        }
    }
}

/// An atom is read within the text.
proof fn lemma_atom_within(s: Seq<char>, i: int)
    requires
        0 <= i <= s.len(),
    ensures
        within(atom(s, i), s, i),
    decreases remaining(s, i), 1nat,
{
    lemma_group_within(s, i);
    lemma_value_within(s, i);
}

/// A factor is read within the text.
proof fn lemma_factor_within(s: Seq<char>, i: int)
    requires
        0 <= i <= s.len(),
    ensures
        within(factor(s, i), s, i),
    decreases remaining(s, i), 2nat,
{
    lemma_atom_within(s, i);
    if let Outcome::Match(_, n) = atom(s, i) {
        if is_at(s, i + n, '^') {
            lemma_factor_within(s, i + n + 1);
        }
    }
}

/// Factors after an expression are read within the text.
proof fn lemma_factors_within(s: Seq<char>, i: int, acc: Expr)
    requires
        0 <= i <= s.len(),
    ensures
        within(factors(s, i, acc), s, i),
    decreases remaining(s, i), 3nat,
{
    if is_at(s, i, '*') || is_at(s, i, '/') {
        lemma_factor_within(s, i + 1);
        if let Outcome::Match(rhs, n) = factor(s, i + 1) {
            lemma_factors_within(s, i + 1 + n, node(s[i], acc, rhs));
        }
    }
}

/// A term is read within the text.
proof fn lemma_term_within(s: Seq<char>, i: int)
    requires
        0 <= i <= s.len(),
    ensures
        within(term(s, i), s, i),
    decreases remaining(s, i), 4nat,
{
    lemma_factor_within(s, i);
    if let Outcome::Match(e, n) = factor(s, i) {
        lemma_factors_within(s, i + n, e);
    }
}

/// Terms after an expression are read within the text.
proof fn lemma_terms_within(s: Seq<char>, i: int, acc: Expr)
    requires
        0 <= i <= s.len(),
    ensures
        within(terms(s, i, acc), s, i),
    decreases remaining(s, i), 5nat,
{
    if is_at(s, i, '+') || is_at(s, i, '-') {
        lemma_term_within(s, i + 1);
        if let Outcome::Match(rhs, n) = term(s, i + 1) {
            lemma_terms_within(s, i + 1 + n, node(s[i], acc, rhs));
        }
    }
}

/// A sum is read within the text.
pub proof fn lemma_sum_within(s: Seq<char>, i: int)
    requires
        0 <= i <= s.len(),
    ensures
        within(sum(s, i), s, i),
    decreases remaining(s, i), 6nat,
{
    lemma_term_within(s, i);
    if let Outcome::Match(e, n) = term(s, i) {
        lemma_terms_within(s, i + n, e);
    }
}

/// What is left of a text after an expression is an end of the text; where
/// no expression starts the text, only spaces stand before the offset of the
/// error; and the offset of a refused `^` is that of a `^`.
pub proof fn lemma_reading_within(s: Seq<char>)
    requires
        s.len() <= usize::MAX,
    ensures
        match reading(s) {
            Ok((rest, _)) => rest.len() <= s.len() && rest == s.skip(s.len() - rest.len()),
            Err(ParseError::NoExpression { at }) => at <= s.len() && forall|k: int|
                0 <= k < at ==> s[k] == ' ',
            Err(ParseError::UnsupportedPower { at }) => is_at(s, at as int, '^'),
        },
{
    lemma_sum_within(s, 0);
    lemma_spaces_within(s, 0);
    lemma_spaces_are_spaces(s, 0);
}

/// Each of the spaces that `spaces` counts is a space.
proof fn lemma_spaces_are_spaces(s: Seq<char>, i: int)
    requires
        0 <= i <= s.len(),
    ensures
        forall|k: int| i <= k < i + spaces(s, i) ==> s[k] == ' ',
    decreases remaining(s, i),
{
    if is_at(s, i, ' ') {
        lemma_spaces_are_spaces(s, i + 1);
    }
}

/// The text of a value reads back as that value, with nothing left.
pub proof fn lemma_value_text_reads_back(v: EValue)
    requires
        v.wf(),
    ensures
        reading(v.text()) == Ok::<(Seq<char>, Expr), ParseError>((Seq::empty(), Expr::EValue(v))),
{
    let s = v.text();
    let e = Expr::EValue(v);
    match v {
        EValue::ENum(n) => {
            EvNum::lemma_text_round_trip(n);
            assert(s.len() == 1);
            assert(number(s, 0) == Some(n));
            assert(spaces(s, 0) == 0);
            assert(spaces(s, 1) == 0);
            assert(group(s, 0) == Outcome::NoMatch);
            assert(value(s, 0) == Outcome::Match(e, 1));
            assert(atom(s, 0) == Outcome::Match(e, 1));
            assert(factor(s, 0) == Outcome::Match(e, 1));
            assert(factors(s, 1, e) == Outcome::Match(e, 0));
            assert(term(s, 0) == Outcome::Match(e, 1));
            assert(terms(s, 1, e) == Outcome::Match(e, 0));
            assert(sum(s, 0) == Outcome::Match(e, 1));
            assert(s.skip(1) =~= Seq::empty());
        },
        EValue::EVec(w) => {
            EvNum::lemma_text_round_trip(w.0);
            EvNum::lemma_text_round_trip(w.1);
            assert(s.len() == 3);
            assert(s[1] == '|');
            assert(number(s, 0) == Some(w.0));
            assert(number(s, 2) == Some(w.1));
            assert(vector(s, 0) == Some(w));
            assert(spaces(s, 0) == 0);
            assert(spaces(s, 3) == 0);
            assert(group(s, 0) == Outcome::NoMatch);
            assert(value(s, 0) == Outcome::Match(e, 3));
            assert(atom(s, 0) == Outcome::Match(e, 3));
            assert(factor(s, 0) == Outcome::Match(e, 3));
            assert(factors(s, 3, e) == Outcome::Match(e, 0));
            assert(term(s, 0) == Outcome::Match(e, 3));
            assert(terms(s, 3, e) == Outcome::Match(e, 0));
            assert(sum(s, 0) == Outcome::Match(e, 3));
            assert(s.skip(3) =~= Seq::empty());
        },
    }
}

/// Why a rule gave no expression.
enum Halt {
    NoMatch,
    Power(usize),
}

/// Whether `r` is what a rule that was read at place `i` of a text of `len`
/// characters hands back for the outcome `o`.
spec fn agrees(r: Result<(Expr, usize), Halt>, o: Outcome, i: usize, len: nat) -> bool {
    match o {
        Outcome::Match(e, n) => r matches Ok((expr, next)) && expr == e && next == i + n && next
            <= len,
        Outcome::NoMatch => r matches Err(Halt::NoMatch),
        Outcome::Power(p) => r matches Err(Halt::Power(at)) && at == p && p < len,
    }
}

/// The place of the first character from `i` on that is no space.
fn skip_spaces(s: &[char], i: usize) -> (j: usize)
    requires
        i <= s.len(),
    ensures
        j == i + spaces(s@, i as int),
        j <= s.len(),
{
    let mut j = i;
    while j < s.len() && s[j] == ' '
        invariant
            i <= j <= s.len(),
            spaces(s@, i as int) == (j - i) + spaces(s@, j as int),
        decreases s.len() - j,
    {
        j += 1;
    }
    j
}

/// Reads an expression from the start of `input`, as far as the grammar
/// matches, and hands back the rest of the text with it.
pub fn parse<'a>(input: &'a str) -> (r: Result<(&'a str, Expr), ParseError>)
    ensures
        match r {
            Ok((rest, expr)) => reading(input@) == Ok::<(Seq<char>, Expr), ParseError>(
                (rest@, expr),
            ),
            Err(e) => reading(input@) == Err::<(Seq<char>, Expr), ParseError>(e),
        },
        r matches Ok((rest, _)) ==> rest@.len() <= input@.len() && rest@ == input@.skip(
            input@.len() - rest@.len(),
        ),
{
    let chars = chars_of(input);
    match parse_basic_expr(chars.as_slice(), 0) {
        Ok((expr, next)) => Ok((input.substring_char(next, chars.len()), expr)),
        Err(Halt::NoMatch) => {
            let at = skip_spaces(chars.as_slice(), 0);
            Err(ParseError::NoExpression { at })
        },
        Err(Halt::Power(at)) => Err(ParseError::UnsupportedPower { at }),
    }
}

/// Reads an expression at place `i`.
fn parse_basic_expr(s: &[char], i: usize) -> (r: Result<(Expr, usize), Halt>)
    requires
        i <= s.len(),
    ensures
        agrees(r, sum(s@, i as int), i, s@.len()),
{
    parse_math_expr(s, i)
}

/// Reads `'(' sum ')'` at place `i`, with the spaces round it.
fn parse_parens(s: &[char], i: usize) -> (r: Result<(Expr, usize), Halt>)
    requires
        i <= s.len(),
    ensures
        agrees(r, group(s@, i as int), i, s@.len()),
    decreases s.len() - i, 0nat,
{
    let j = skip_spaces(s, i);
    if j < s.len() && s[j] == '(' {
        let (expr, k) = match parse_math_expr(s, j + 1) {
            Ok(found) => found,
            Err(halt) => {
                return Err(halt);
            },
        };
        if k < s.len() && s[k] == ')' {
            Ok((expr, skip_spaces(s, k + 1)))
        } else {
            Err(Halt::NoMatch)
        }
    } else {
        Err(Halt::NoMatch)
    }
}

/// Reads an atom at place `i`: an expression in parentheses, or else a value.
fn parse_operation(s: &[char], i: usize) -> (r: Result<(Expr, usize), Halt>)
    requires
        i <= s.len(),
    ensures
        agrees(r, atom(s@, i as int), i, s@.len()),
    decreases s.len() - i, 1nat,
{
    match parse_parens(s, i) {
        Err(Halt::NoMatch) => parse_value(s, i),
        other => other,
    }
}

/// Reads a factor at place `i`: an atom, which no `^` with a factor may follow.
fn parse_factor(s: &[char], i: usize) -> (r: Result<(Expr, usize), Halt>)
    requires
        i <= s.len(),
    ensures
        agrees(r, factor(s@, i as int), i, s@.len()),
    decreases s.len() - i, 2nat,
{
    let (num1, j) = match parse_operation(s, i) {
        Ok(found) => found,
        Err(halt) => {
            return Err(halt);
        },
    };
    if j < s.len() && s[j] == '^' {
        match parse_factor(s, j + 1) {
            Ok(_) => Err(Halt::Power(j)),
            Err(Halt::NoMatch) => Ok((num1, j)),
            Err(halt) => Err(halt),
        }
    } else {
        Ok((num1, j))
    }
}

/// Reads a term at place `i`: factors with `*` and `/` between them.
fn parse_term(s: &[char], i: usize) -> (r: Result<(Expr, usize), Halt>)
    requires
        i <= s.len(),
    ensures
        agrees(r, term(s@, i as int), i, s@.len()),
    decreases s.len() - i, 4nat,
{
    let (mut acc, mut j) = match parse_factor(s, i) {
        Ok(found) => found,
        Err(halt) => {
            return Err(halt);
        },
    };
    loop
        invariant
            i <= j <= s.len(),
            term(s@, i as int) == factors(s@, j as int, acc).after((j - i) as nat),
        decreases s.len() - j,
    {
        if j < s.len() && (s[j] == '*' || s[j] == '/') {
            let op = s[j];
            match parse_factor(s, j + 1) {
                Ok((expr2, next)) => {
                    acc = parse_op((op, expr2), acc);
                    j = next;
                },
                Err(Halt::NoMatch) => {
                    return Ok((acc, j));
                },
                Err(halt) => {
                    return Err(halt);
                },
            }
        } else {
            return Ok((acc, j));
        }
    }
}

/// Reads a sum at place `i`: terms with `+` and `-` between them.
fn parse_math_expr(s: &[char], i: usize) -> (r: Result<(Expr, usize), Halt>)
    requires
        i <= s.len(),
    ensures
        agrees(r, sum(s@, i as int), i, s@.len()),
    decreases s.len() - i, 6nat,
{
    let (mut acc, mut j) = match parse_term(s, i) {
        Ok(found) => found,
        Err(halt) => {
            return Err(halt);
        },
    };
    loop
        invariant
            i <= j <= s.len(),
            sum(s@, i as int) == terms(s@, j as int, acc).after((j - i) as nat),
        decreases s.len() - j,
    {
        if j < s.len() && (s[j] == '+' || s[j] == '-') {
            let op = s[j];
            match parse_term(s, j + 1) {
                Ok((expr2, next)) => {
                    acc = parse_op((op, expr2), acc);
                    j = next;
                },
                Err(Halt::NoMatch) => {
                    return Ok((acc, j));
                },
                Err(halt) => {
                    return Err(halt);
                },
            }
        } else {
            return Ok((acc, j));
        }
    }
}

/// The node of an operator and its right operand, after the left operand.
fn parse_op(tup: (char, Expr), expr1: Expr) -> (r: Expr)
    requires
        tup.0 == '+' || tup.0 == '-' || tup.0 == '*' || tup.0 == '/',
    ensures
        r == node(tup.0, expr1, tup.1),
{
    let (op, expr2) = tup;
    if op == '+' {
        Expr::EAdd(Box::new(expr1), Box::new(expr2))
    } else if op == '-' {
        Expr::ESub(Box::new(expr1), Box::new(expr2))
    } else if op == '*' {
        Expr::EMul(Box::new(expr1), Box::new(expr2))
    } else {
        Expr::EDiv(Box::new(expr1), Box::new(expr2))
    }
}

/// Reads a digit at place `i`.
fn parse_num(s: &[char], i: usize) -> (r: Option<EvNum>)
    ensures
        r == number(s@, i as int),
{
    if i < s.len() {
        match EvNum::try_from(s[i]) {
            Ok(n) => Some(n),
            Err(_) => None,
        }
    } else {
        None
    }
}

/// Reads a digit, `|` and a digit at place `i`.
fn parse_vec(s: &[char], i: usize) -> (r: Option<EvVec>)
    requires
        i <= s.len(),
    ensures
        r == vector(s@, i as int),
{
    if s.len() - i < 3 || s[i + 1] != '|' {
        return None;
    }
    match (parse_num(s, i), parse_num(s, i + 2)) {
        (Some(n1), Some(n2)) => Some(EvVec::new(n1, n2)),
        _ => None,
    }
}

/// Reads a vector or else a number at place `i`, with the spaces round it.
fn parse_value(s: &[char], i: usize) -> (r: Result<(Expr, usize), Halt>)
    requires
        i <= s.len(),
    ensures
        agrees(r, value(s@, i as int), i, s@.len()),
{
    let j = skip_spaces(s, i);
    match parse_vec(s, j) {
        Some(v) => Ok((Expr::EValue(EValue::EVec(v)), skip_spaces(s, j + 3))),
        None => match parse_num(s, j) {
            Some(n) => Ok((Expr::EValue(EValue::ENum(n)), skip_spaces(s, j + 1))),
            None => Err(Halt::NoMatch),
        },
    }
}

} // verus!
