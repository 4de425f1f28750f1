//! The display texts of instructions and terms.

use vstd::prelude::*;
use crate::arithmetic::Expr;
use crate::machine::{Instruction, InstrV, MachineError, ErrorV};
use crate::term::{Term, TermV};
use crate::text::{digits, int_text, term_text, push_str, push_usize, push_i32, push_term_text, chars_to_string};

verus! {

broadcast use vstd::std_specs::vec::group_vec_axioms;

/// The text of an expression in the notation of its derived debug form,
/// such as `Add(Const(1), Const(2))`.
pub open spec fn expr_text(e: Expr) -> Seq<char>
    decreases e,
{
    match e {
        Expr::Const(n) => "Const("@ + int_text(n as int) + ")"@,
        Expr::Add(a, b) => "Add("@ + expr_text(*a) + ", "@ + expr_text(*b) + ")"@,
        Expr::Sub(a, b) => "Sub("@ + expr_text(*a) + ", "@ + expr_text(*b) + ")"@,
        Expr::Mul(a, b) => "Mul("@ + expr_text(*a) + ", "@ + expr_text(*b) + ")"@,
        Expr::Div(a, b) => "Div("@ + expr_text(*a) + ", "@ + expr_text(*b) + ")"@,
    }
}

/// Numbers separated by a comma and a space.
pub open spec fn numbers_text(v: Seq<usize>) -> Seq<char>
    decreases v.len(),
{
    if v.len() == 0 {
        Seq::empty()
    } else if v.len() == 1 {
        digits(v[0] as nat)
    } else {
        numbers_text(v.drop_last()) + ", "@ + digits(v.last() as nat)
    }
}

/// A list of numbers in brackets, such as `[0, 1]`.
pub open spec fn list_numbers_text(v: Seq<usize>) -> Seq<char> {
    "["@ + numbers_text(v) + "]"@
}

pub open spec fn reg(r: usize) -> Seq<char> {
    "R"@ + digits(r as nat)
}

pub open spec fn in_quotes(s: Seq<char>) -> Seq<char> {
    "\""@ + s + "\""@
}

/// The assembly text of an instruction.
pub open spec fn instr_text(i: InstrV) -> Seq<char> {
    match i {
        InstrV::PutConst { register, value } => "PUT_CONST "@ + reg(register) + ", "@ + int_text(value as int),
        InstrV::PutVar { register, var_id, name } => "PUT_VAR   "@ + reg(register) + ", "@ + digits(var_id as nat) + ", "@ + in_quotes(name),
        InstrV::GetConst { register, value } => "GET_CONST "@ + reg(register) + ", "@ + int_text(value as int),
        InstrV::GetVar { register, var_id, name } => "GET_VAR   "@ + reg(register) + ", "@ + digits(var_id as nat) + ", "@ + in_quotes(name),
        InstrV::Call { predicate } => "CALL      "@ + in_quotes(predicate),
        InstrV::Proceed => "PROCEED"@,
        InstrV::Choice => "CHOICE"@,
        InstrV::Allocate { n } => "ALLOCATE  "@ + digits(n as nat),
        InstrV::Deallocate => "DEALLOCATE"@,
        InstrV::ArithmeticIs { target, expression } => "ARITHMETIC_IS "@ + reg(target) + ", "@ + expr_text(expression),
        InstrV::SetLocal { index, value } => "SET_LOCAL "@ + digits(index as nat) + " <- "@ + term_text(value),
        InstrV::GetLocal { index, register } => "GET_LOCAL "@ + digits(index as nat) + " -> "@ + reg(register),
        InstrV::Fail => "FAIL"@,
        InstrV::GetStructure { register, functor, arity } => "GET_STRUCTURE "@ + reg(register) + ", "@ + functor + " / "@ + digits(arity as nat),
        InstrV::IndexedCall { predicate, index_register } => "INDEXED_CALL "@ + in_quotes(predicate) + ", "@ + reg(index_register),
        InstrV::MultiIndexedCall { predicate, index_registers } => "MULTI_INDEXED_CALL "@ + in_quotes(predicate) + ", "@ + list_numbers_text(index_registers),
        InstrV::TailCall { predicate } => "TAIL_CALL "@ + in_quotes(predicate),
        InstrV::AssertClause { predicate, address } => "ASSERT_CLAUSE "@ + in_quotes(predicate) + ", "@ + digits(address as nat),
        InstrV::RetractClause { predicate, address } => "RETRACT_CLAUSE "@ + in_quotes(predicate) + ", "@ + digits(address as nat),
        InstrV::Cut => "CUT"@,
        InstrV::BuildCompound { target, functor, arg_registers } => "BUILD_COMPOUND "@ + reg(target) + ", "@ + functor + " "@ + list_numbers_text(arg_registers),
        InstrV::PutStr { register, value } => "PUT_STR   "@ + reg(register) + ", "@ + in_quotes(value),
        InstrV::GetStr { register, value } => "GET_STR   "@ + reg(register) + ", "@ + in_quotes(value),
        InstrV::Move { src, dst } => "MOVE      "@ + reg(src) + " -> "@ + reg(dst),
        InstrV::Halt => "HALT"@,
    }
}

/// The display text of a term: a number, a string as it is, a variable as
/// `Var(id)`, a compound as `f(a, b)`; the other terms in their debug form.
pub open spec fn term_display(t: TermV) -> Seq<char>
    decreases t,
{
    match t {
        TermV::Const(n) => int_text(n as int),
        TermV::Str(s) => s,
        TermV::Var(v) => "Var("@ + digits(v as nat) + ")"@,
        TermV::Compound(f, args) => f + "("@ + display_list(args) + ")"@,
        _ => term_text(t),
    }
}

/// The display texts of terms, separated by a comma and a space.
pub open spec fn display_list(ts: Seq<TermV>) -> Seq<char>
    decreases ts,
{
    if ts.len() == 0 {
        Seq::empty()
    } else if ts.len() == 1 {
        term_display(ts[0])
    } else {
        display_list(ts.drop_last()) + ", "@ + term_display(ts.last())
    }
}


fn push_expr_text(out: &mut Vec<char>, e: &Expr)
    ensures
        final(out)@ == old(out)@ + expr_text(*e),
    decreases e,
{
    proof {
        reveal_strlit("Const(");
        reveal_strlit("Add(");
        reveal_strlit("Sub(");
        reveal_strlit("Mul(");
        reveal_strlit("Div(");
        reveal_strlit(", ");
        reveal_strlit(")");
    }
    let ghost start = out@;
    match e {
        Expr::Const(n) => {
            push_str(out, "Const(");
            push_i32(out, *n);
        }
        Expr::Add(a, b) => {
            push_str(out, "Add(");
            push_expr_text(out, a);
            push_str(out, ", ");
            push_expr_text(out, b);
        }
        Expr::Sub(a, b) => {
            push_str(out, "Sub(");
            push_expr_text(out, a);
            push_str(out, ", ");
            push_expr_text(out, b);
        }
        Expr::Mul(a, b) => {
            push_str(out, "Mul(");
            push_expr_text(out, a);
            push_str(out, ", ");
            push_expr_text(out, b);
        }
        Expr::Div(a, b) => {
            push_str(out, "Div(");
            push_expr_text(out, a);
            push_str(out, ", ");
            push_expr_text(out, b);
        }
    }
    push_str(out, ")");
    proof {
        assert(out@ =~= start + expr_text(*e));
    }
}

fn push_list_numbers(out: &mut Vec<char>, v: &Vec<usize>)
    ensures
        final(out)@ == old(out)@ + list_numbers_text(v@),
{
    proof {
        reveal_strlit("[");
        reveal_strlit("]");
        reveal_strlit(", ");
    }
    push_str(out, "[");
    let ghost start = out@;
    let mut i: usize = 0;
    while i < v.len()
        invariant
            i <= v.len(),
            out@ == start + numbers_text(v@.subrange(0, i as int)),
        decreases v.len() - i,
    {
        if i > 0 {
            push_str(out, ", ");
        }
        push_usize(out, v[i]);
        i += 1;
        proof {
            let sub = v@.subrange(0, i as int);
            assert(sub.drop_last() =~= v@.subrange(0, i - 1));
            if i == 1 {
                assert(numbers_text(v@.subrange(0, 0)) =~= Seq::<char>::empty());
            }
            assert(out@ =~= start + numbers_text(sub));
        }
    }
    proof {
        assert(v@.subrange(0, v@.len() as int) =~= v@);
    }
    push_str(out, "]");
    proof {
        assert(out@ =~= old(out)@ + list_numbers_text(v@));
    }
}

fn push_reg(out: &mut Vec<char>, r: usize)
    ensures
        final(out)@ == old(out)@ + reg(r),
{
    proof {
        reveal_strlit("R");
    }
    push_str(out, "R");
    push_usize(out, r);
    proof {
        assert(out@ =~= old(out)@ + reg(r));
    }
}

fn push_in_quotes(out: &mut Vec<char>, s: &String)
    ensures
        final(out)@ == old(out)@ + in_quotes(s@),
{
    proof {
        reveal_strlit("\"");
    }
    push_str(out, "\"");
    push_str(out, s.as_str());
    push_str(out, "\"");
    proof {
        assert(out@ =~= old(out)@ + in_quotes(s@));
    }
}

impl Instruction {
    /// The assembly text of the instruction, such as `PUT_CONST R0, 42`.
    pub fn to_string(&self) -> (r: String)
        ensures
            r@ == instr_text(self@),
    {
        let mut out: Vec<char> = Vec::new();
        self.push_text(&mut out);
        proof {
            assert(out@ =~= instr_text(self@));
        }
        chars_to_string(&out)
    }

    fn push_text(&self, out: &mut Vec<char>)
        ensures
            final(out)@ == old(out)@ + instr_text(self@),
    {
        proof {
            reveal_strlit("PUT_CONST ");
            reveal_strlit("PUT_VAR   ");
            reveal_strlit("GET_CONST ");
            reveal_strlit("GET_VAR   ");
            reveal_strlit("CALL      ");
            reveal_strlit("PROCEED");
            reveal_strlit("CHOICE");
            reveal_strlit("ALLOCATE  ");
            reveal_strlit("DEALLOCATE");
            reveal_strlit("ARITHMETIC_IS ");
            reveal_strlit("SET_LOCAL ");
            reveal_strlit("GET_LOCAL ");
            reveal_strlit("FAIL");
            reveal_strlit("GET_STRUCTURE ");
            reveal_strlit("INDEXED_CALL ");
            reveal_strlit("MULTI_INDEXED_CALL ");
            reveal_strlit("TAIL_CALL ");
            reveal_strlit("ASSERT_CLAUSE ");
            reveal_strlit("RETRACT_CLAUSE ");
            reveal_strlit("CUT");
            reveal_strlit("BUILD_COMPOUND ");
            reveal_strlit("PUT_STR   ");
            reveal_strlit("GET_STR   ");
            reveal_strlit("MOVE      ");
            reveal_strlit("HALT");
            reveal_strlit(", ");
            reveal_strlit(" <- ");
            reveal_strlit(" -> ");
            reveal_strlit(" / ");
            reveal_strlit(" ");
        }
        let ghost start = out@;
        match self {
            Instruction::PutConst { register, value } => {
                push_str(out, "PUT_CONST ");
                push_reg(out, *register);
                push_str(out, ", ");
                push_i32(out, *value);
            }
            Instruction::PutVar { register, var_id, name } => {
                push_str(out, "PUT_VAR   ");
                push_reg(out, *register);
                push_str(out, ", ");
                push_usize(out, *var_id);
                push_str(out, ", ");
                push_in_quotes(out, name);
            }
            Instruction::GetConst { register, value } => {
                push_str(out, "GET_CONST ");
                push_reg(out, *register);
                push_str(out, ", ");
                push_i32(out, *value);
            }
            Instruction::GetVar { register, var_id, name } => {
                push_str(out, "GET_VAR   ");
                push_reg(out, *register);
                push_str(out, ", ");
                push_usize(out, *var_id);
                push_str(out, ", ");
                push_in_quotes(out, name);
            }
            Instruction::Call { predicate } => {
                push_str(out, "CALL      ");
                push_in_quotes(out, predicate);
            }
            Instruction::Proceed => {
                push_str(out, "PROCEED");
            }
            Instruction::Choice => {
                push_str(out, "CHOICE");
            }
            Instruction::Allocate { n } => {
                push_str(out, "ALLOCATE  ");
                push_usize(out, *n);
            }
            Instruction::Deallocate => {
                push_str(out, "DEALLOCATE");
            }
            Instruction::ArithmeticIs { target, expression } => {
                push_str(out, "ARITHMETIC_IS ");
                push_reg(out, *target);
                push_str(out, ", ");
                push_expr_text(out, expression);
            }
            Instruction::SetLocal { index, value } => {
                push_str(out, "SET_LOCAL ");
                push_usize(out, *index);
                push_str(out, " <- ");
                push_term_text(out, value);
            }
            Instruction::GetLocal { index, register } => {
                push_str(out, "GET_LOCAL ");
                push_usize(out, *index);
                push_str(out, " -> ");
                push_reg(out, *register);
            }
            Instruction::Fail => {
                push_str(out, "FAIL");
            }
            Instruction::GetStructure { register, functor, arity } => {
                push_str(out, "GET_STRUCTURE ");
                push_reg(out, *register);
                push_str(out, ", ");
                push_str(out, functor.as_str());
                push_str(out, " / ");
                push_usize(out, *arity);
            }
            Instruction::IndexedCall { predicate, index_register } => {
                push_str(out, "INDEXED_CALL ");
                push_in_quotes(out, predicate);
                push_str(out, ", ");
                push_reg(out, *index_register);
            }
            Instruction::MultiIndexedCall { predicate, index_registers } => {
                push_str(out, "MULTI_INDEXED_CALL ");
                push_in_quotes(out, predicate);
                push_str(out, ", ");
                push_list_numbers(out, index_registers);
            }
            Instruction::TailCall { predicate } => {
                push_str(out, "TAIL_CALL ");
                push_in_quotes(out, predicate);
            }
            Instruction::AssertClause { predicate, address } => {
                push_str(out, "ASSERT_CLAUSE ");
                push_in_quotes(out, predicate);
                push_str(out, ", ");
                push_usize(out, *address);
            }
            Instruction::RetractClause { predicate, address } => {
                push_str(out, "RETRACT_CLAUSE ");
                push_in_quotes(out, predicate);
                push_str(out, ", ");
                push_usize(out, *address);
            }
            Instruction::Cut => {
                push_str(out, "CUT");
            }
            Instruction::BuildCompound { target, functor, arg_registers } => {
                push_str(out, "BUILD_COMPOUND ");
                push_reg(out, *target);
                push_str(out, ", ");
                push_str(out, functor.as_str());
                push_str(out, " ");
                push_list_numbers(out, arg_registers);
            }
            Instruction::PutStr { register, value } => {
                push_str(out, "PUT_STR   ");
                push_reg(out, *register);
                push_str(out, ", ");
                push_in_quotes(out, value);
            }
            Instruction::GetStr { register, value } => {
                push_str(out, "GET_STR   ");
                push_reg(out, *register);
                push_str(out, ", ");
                push_in_quotes(out, value);
            }
            Instruction::Move { src, dst } => {
                push_str(out, "MOVE      ");
                push_reg(out, *src);
                push_str(out, " -> ");
                push_reg(out, *dst);
            }
            Instruction::Halt => {
                push_str(out, "HALT");
            }
        }
        proof {
            assert(out@ =~= start + instr_text(self@));
        }
    }
}

fn push_display_list(out: &mut Vec<char>, args: &Vec<Term>)
    ensures
        final(out)@ == old(out)@ + display_list(Term::args_view(args@)),
    decreases args, 0nat,
{
    proof {
        reveal_strlit(", ");
    }
    let mut i: usize = 0;
    while i < args.len()
        invariant
            i <= args.len(),
            out@ == old(out)@ + display_list(Term::args_view(args@).subrange(0, i as int)),
        decreases args.len() - i,
    {
        proof {
            assert(decreases_to!(args => args@[i as int]));
        }
        if i > 0 {
            push_str(out, ", ");
        }
        push_term_display(out, &args[i]);
        i += 1;
        proof {
            let sub = Term::args_view(args@).subrange(0, i as int);
            assert(sub.drop_last() =~= Term::args_view(args@).subrange(0, i - 1));
            if i == 1 {
                assert(display_list(Term::args_view(args@).subrange(0, 0)) =~= Seq::<char>::empty());
            }
            assert(out@ =~= old(out)@ + display_list(sub));
        }
    }
    proof {
        assert(Term::args_view(args@).subrange(0, args@.len() as int) =~= Term::args_view(args@));
    }
}

pub(crate) fn push_term_display(out: &mut Vec<char>, t: &Term)
    ensures
        final(out)@ == old(out)@ + term_display(t@),
    decreases t, 1nat,
{
    proof {
        reveal_strlit("Var(");
        reveal_strlit("(");
        reveal_strlit(")");
        Term::lemma_args_view(*t);
    }
    let ghost start = out@;
    match t {
        Term::Const(n) => {
            push_i32(out, *n);
        }
        Term::Str(s) => {
            push_str(out, s.as_str());
        }
        Term::Var(v) => {
            push_str(out, "Var(");
            push_usize(out, *v);
            push_str(out, ")");
        }
        Term::Compound(f, args) => {
            push_str(out, f.as_str());
            push_str(out, "(");
            push_display_list(out, args);
            push_str(out, ")");
        }
        _ => {
            push_term_text(out, t);
        }
    }
    proof {
        assert(out@ =~= start + term_display(t@));
    }
}

impl Term {
    /// The display text of the term (see `term_display`): `42`, `Var(0)`,
    /// `f(1, Var(2))`.
    pub fn to_string(&self) -> (r: String)
        ensures
            r@ == term_display(self@),
    {
        let mut out: Vec<char> = Vec::new();
        push_term_display(&mut out, self);
        proof {
            assert(out@ =~= term_display(self@));
        }
        chars_to_string(&out)
    }
}

/// The message of a machine error.
pub open spec fn error_text(e: ErrorV) -> Seq<char> {
    match e {
        ErrorV::RegisterOutOfBounds(r) => "Register "@ + digits(r as nat) + " is out of bounds."@,
        ErrorV::UninitializedRegister(r) => "Register "@ + digits(r as nat) + " is uninitialized."@,
        ErrorV::UnificationFailed(m) => "Unification failed: "@ + m,
        ErrorV::EnvironmentMissing => "Environment missing."@,
        ErrorV::PredicateNotFound(p) => "Predicate not found: "@ + p,
        ErrorV::PredicateClauseNotFound(p) => "Predicate clause not found: "@ + p,
        ErrorV::NoChoicePoint => "No choice point available."@,
        ErrorV::StructureMismatch { expected_functor, expected_arity, found_functor, found_arity } =>
            "Structure mismatch: expected "@ + expected_functor + "/"@ + digits(expected_arity as nat)
                + " but found "@ + found_functor + "/"@ + digits(found_arity as nat) + "."@,
        ErrorV::NotACompoundTerm(r) => "Term in register "@ + digits(r as nat) + " is not a compound term."@,
        ErrorV::NoIndexedClause(p, k) => "No indexed clause for predicate "@ + p + " with key "@ + term_text(k) + "."@,
        ErrorV::NoIndexEntry(p, k) => "No index entry for predicate "@ + p + " with key "@ + term_text(k) + "."@,
        ErrorV::PredicateNotInIndex(p) => "Predicate "@ + p + " is not in the index."@,
        ErrorV::NoMoreInstructions => "No more instructions."@,
    }
}

impl MachineError {
    /// The message of the error (see `error_text`), such as
    /// `Register 3 is out of bounds.`
    pub fn to_string(&self) -> (r: String)
        ensures
            r@ == error_text(self@),
    {
        proof {
            reveal_strlit("Register ");
            reveal_strlit(" is out of bounds.");
            reveal_strlit(" is uninitialized.");
            reveal_strlit("Unification failed: ");
            reveal_strlit("Environment missing.");
            reveal_strlit("Predicate not found: ");
            reveal_strlit("Predicate clause not found: ");
            reveal_strlit("No choice point available.");
            reveal_strlit("Structure mismatch: expected ");
            reveal_strlit("/");
            reveal_strlit(" but found ");
            reveal_strlit(".");
            reveal_strlit("Term in register ");
            reveal_strlit(" is not a compound term.");
            reveal_strlit("No indexed clause for predicate ");
            reveal_strlit("No index entry for predicate ");
            reveal_strlit(" with key ");
            reveal_strlit("Predicate ");
            reveal_strlit(" is not in the index.");
            reveal_strlit("No more instructions.");
        }
        let mut out: Vec<char> = Vec::new();
        match self {
            MachineError::RegisterOutOfBounds(r) => {
                push_str(&mut out, "Register ");
                push_usize(&mut out, *r);
                push_str(&mut out, " is out of bounds.");
            }
            MachineError::UninitializedRegister(r) => {
                push_str(&mut out, "Register ");
                push_usize(&mut out, *r);
                push_str(&mut out, " is uninitialized.");
            }
            MachineError::UnificationFailed(m) => {
                push_str(&mut out, "Unification failed: ");
                push_str(&mut out, m.as_str());
            }
            MachineError::EnvironmentMissing => {
                push_str(&mut out, "Environment missing.");
            }
            MachineError::PredicateNotFound(p) => {
                push_str(&mut out, "Predicate not found: ");
                push_str(&mut out, p.as_str());
            }
            MachineError::PredicateClauseNotFound(p) => {
                push_str(&mut out, "Predicate clause not found: ");
                push_str(&mut out, p.as_str());
            }
            MachineError::NoChoicePoint => {
                push_str(&mut out, "No choice point available.");
            }
            MachineError::StructureMismatch { expected_functor, expected_arity, found_functor, found_arity } => {
                push_str(&mut out, "Structure mismatch: expected ");
                push_str(&mut out, expected_functor.as_str());
                push_str(&mut out, "/");
                push_usize(&mut out, *expected_arity);
                push_str(&mut out, " but found ");
                push_str(&mut out, found_functor.as_str());
                push_str(&mut out, "/");
                push_usize(&mut out, *found_arity);
                push_str(&mut out, ".");
            }
            MachineError::NotACompoundTerm(r) => {
                push_str(&mut out, "Term in register ");
                push_usize(&mut out, *r);
                push_str(&mut out, " is not a compound term.");
            }
            MachineError::NoIndexedClause(p, k) => {
                push_str(&mut out, "No indexed clause for predicate ");
                push_str(&mut out, p.as_str());
                push_str(&mut out, " with key ");
                push_term_text(&mut out, k);
                push_str(&mut out, ".");
            }
            MachineError::NoIndexEntry(p, k) => {
                push_str(&mut out, "No index entry for predicate ");
                push_str(&mut out, p.as_str());
                push_str(&mut out, " with key ");
                push_term_text(&mut out, k);
                push_str(&mut out, ".");
            }
            MachineError::PredicateNotInIndex(p) => {
                push_str(&mut out, "Predicate ");
                push_str(&mut out, p.as_str());
                push_str(&mut out, " is not in the index.");
            }
            MachineError::NoMoreInstructions => {
                push_str(&mut out, "No more instructions.");
            }
        }
        proof {
            assert(out@ =~= error_text(self@));
        }
        chars_to_string(&out)
    }
}

/// The text of a program: each instruction's text on a line of its own.
pub open spec fn listing_text(code: Seq<InstrV>) -> Seq<char>
    decreases code.len(),
{
    if code.len() == 0 {
        Seq::empty()
    } else {
        listing_text(code.drop_last()) + instr_text(code.last()) + "\n"@
    }
}

/// The text of a program, one instruction per line, each line ended by a
/// newline (see `listing_text`).
pub fn program_listing(code: &Vec<Instruction>) -> (r: String)
    ensures
        r@ == listing_text(crate::machine::program_view(code@)),
{
    proof {
        reveal_strlit("\n");
    }
    let ghost pv = crate::machine::program_view(code@);
    let mut out: Vec<char> = Vec::new();
    let mut i: usize = 0;
    while i < code.len()
        invariant
            i <= code.len(),
            pv == crate::machine::program_view(code@),
            out@ == listing_text(pv.subrange(0, i as int)),
        decreases code.len() - i,
    {
        code[i].push_text(&mut out);
        push_str(&mut out, "\n");
        i += 1;
        proof {
            let sub = pv.subrange(0, i as int);
            assert(sub.drop_last() =~= pv.subrange(0, i - 1));
            assert(sub.last() == code@[i - 1]@);
            assert(out@ =~= listing_text(sub));
        }
    }
    proof {
        assert(pv.subrange(0, code@.len() as int) =~= pv);
    }
    chars_to_string(&out)
}

} // verus!
