//! Arithmetic expressions whose leaves are constants or registers, evaluated
//! against the registers of a machine.

use vstd::prelude::*;
use crate::arithmetic::{div_toward_zero, fits_i32, div_i32};
use crate::machine::{MachineError, ErrorV, slots_view};
use crate::term::{Term, TermV};
use crate::text::chars_to_string;

verus! {

broadcast use vstd::std_specs::vec::group_vec_axioms;

/// An arithmetic expression over constants and registers.
#[derive(Debug, PartialEq, Eq)]
pub enum Expression {
    /// A constant.
    Const(i32),
    /// The constant held by a register, by its index.
    Var(usize),
    Add(Box<Expression>, Box<Expression>),
    Sub(Box<Expression>, Box<Expression>),
    Mul(Box<Expression>, Box<Expression>),
    Div(Box<Expression>, Box<Expression>),
}

/// The message of a division by zero.
pub open spec fn division_by_zero() -> Seq<char> {
    "Division by zero"@
}

/// What an operation on two evaluated operands gives: the left operand is
/// evaluated first, and its error (or overflow) stops the evaluation; the
/// result is `None` where a step leaves the machine integer range.
pub open spec fn arith(l: Option<Result<int, ErrorV>>, r: Option<Result<int, ErrorV>>, op: spec_fn(int, int) -> int) -> Option<Result<int, ErrorV>> {
    match l {
        None => None,
        Some(Err(e)) => Some(Err(e)),
        Some(Ok(x)) => match r {
            None => None,
            Some(Err(e)) => Some(Err(e)),
            Some(Ok(y)) => if fits_i32(op(x, y)) { Some(Ok(op(x, y))) } else { None },
        },
    }
}

/// The outcome of evaluating an expression against registers: its value, the
/// error met first, or `None` where an intermediate value leaves the machine
/// integer range. A register that is out of range or holds no constant is
/// uninitialized; a division evaluates its divisor first and refuses zero.
pub open spec fn value_in(e: Expression, regs: Seq<Option<TermV>>) -> Option<Result<int, ErrorV>>
    decreases e,
{
    match e {
        Expression::Const(n) => Some(Ok(n as int)),
        Expression::Var(i) => if i < regs.len() {
            match regs[i as int] {
                Some(TermV::Const(v)) => Some(Ok(v as int)),
                _ => Some(Err(ErrorV::UninitializedRegister(i))),
            }
        } else {
            Some(Err(ErrorV::UninitializedRegister(i)))
        },
        Expression::Add(a, b) => arith(value_in(*a, regs), value_in(*b, regs), |x: int, y: int| x + y),
        Expression::Sub(a, b) => arith(value_in(*a, regs), value_in(*b, regs), |x: int, y: int| x - y),
        Expression::Mul(a, b) => arith(value_in(*a, regs), value_in(*b, regs), |x: int, y: int| x * y),
        Expression::Div(a, b) => match value_in(*b, regs) {
            None => None,
            Some(Err(e)) => Some(Err(e)),
            Some(Ok(y)) => if y == 0 {
                Some(Err(ErrorV::UnificationFailed(division_by_zero())))
            } else {
                arith(value_in(*a, regs), Some(Ok(y)), |x: int, z: int| div_toward_zero(x, z))
            },
        },
    }
}

/// The value of a machine result as a mathematical one.
pub open spec fn int_result(r: Result<i32, MachineError>) -> Result<int, ErrorV> {
    match r {
        Ok(v) => Ok(v as int),
        Err(e) => Err(e@),
    }
}

proof fn lemma_value_fits(e: Expression, regs: Seq<Option<TermV>>)
    ensures
        value_in(e, regs) matches Some(Ok(v)) ==> fits_i32(v),
    decreases e,
{
    match e {
        Expression::Add(a, b) => { lemma_value_fits(*a, regs); lemma_value_fits(*b, regs); }
        Expression::Sub(a, b) => { lemma_value_fits(*a, regs); lemma_value_fits(*b, regs); }
        Expression::Mul(a, b) => { lemma_value_fits(*a, regs); lemma_value_fits(*b, regs); }
        Expression::Div(a, b) => { lemma_value_fits(*a, regs); lemma_value_fits(*b, regs); }
        _ => {}
    }
}

fn division_by_zero_error() -> (r: MachineError)
    ensures
        r@ == ErrorV::UnificationFailed(division_by_zero()),
{
    let mut v: Vec<char> = Vec::new();
    let s = "Division by zero";
    proof {
        reveal_strlit("Division by zero");
    }
    let n = s.unicode_len();
    let mut i: usize = 0;
    while i < n
        invariant
            n == s@.len(),
            i <= n,
            v@ == s@.subrange(0, i as int),
        decreases n - i,
    {
        v.push(s.get_char(i));
        i += 1;
        proof {
            assert(v@ =~= s@.subrange(0, i as int));
        }
    }
    proof {
        assert(v@ =~= division_by_zero());
    }
    MachineError::UnificationFailed(chars_to_string(&v))
}

/// Evaluates an expression against registers.
///
/// A register that is out of range, empty or not holding a constant gives
/// `UninitializedRegister`; a zero divisor gives `UnificationFailed` with the
/// message "Division by zero". The operands of `+`, `-` and `*` are evaluated
/// left to right, the divisor of `/` before the dividend, and the first error
/// is returned. Inputs on which an intermediate value overflows are excluded.
pub fn evaluate(expr: &Expression, registers: &Vec<Option<Term>>) -> (r: Result<i32, MachineError>)
    requires
        value_in(*expr, slots_view(registers@)) is Some,
    ensures
        value_in(*expr, slots_view(registers@)) == Some(int_result(r)),
    decreases expr,
{
    let ghost regs = slots_view(registers@);
    match expr {
        Expression::Const(n) => Ok(*n),
        Expression::Var(idx) => {
            if *idx < registers.len() {
                match &registers[*idx] {
                    Some(Term::Const(v)) => Ok(*v),
                    _ => Err(MachineError::UninitializedRegister(*idx)),
                }
            } else {
                Err(MachineError::UninitializedRegister(*idx))
            }
        }
        Expression::Add(a, b) => {
            let x = match evaluate(a, registers) { Ok(x) => x, Err(e) => { return Err(e); } };
            let y = match evaluate(b, registers) { Ok(y) => y, Err(e) => { return Err(e); } };
            Ok(x + y)
        }
        Expression::Sub(a, b) => {
            let x = match evaluate(a, registers) { Ok(x) => x, Err(e) => { return Err(e); } };
            let y = match evaluate(b, registers) { Ok(y) => y, Err(e) => { return Err(e); } };
            Ok(x - y)
        }
        Expression::Mul(a, b) => {
            let x = match evaluate(a, registers) { Ok(x) => x, Err(e) => { return Err(e); } };
            let y = match evaluate(b, registers) { Ok(y) => y, Err(e) => { return Err(e); } };
            Ok(x * y)
        }
        Expression::Div(a, b) => {
            let y = match evaluate(b, registers) { Ok(y) => y, Err(e) => { return Err(e); } };
            if y == 0 {
                return Err(division_by_zero_error());
            }
            let x = match evaluate(a, registers) { Ok(x) => x, Err(e) => { return Err(e); } };
            proof {
                lemma_value_fits(**a, regs);
                lemma_value_fits(**b, regs);
                assert(fits_i32(div_toward_zero(x as int, y as int)));
                assert(!(x == i32::MIN && y == -1));
            }
            Ok(div_i32(x, y))
        }
    }
}

} // verus!
