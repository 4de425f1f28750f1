//! The abstract machine: registers, a program counter, a substitution with a
//! trail, a control stack, choice points for backtracking, environment
//! frames, and clause tables.

use std::collections::HashMap;
use vstd::prelude::*;
use crate::arithmetic::{Expr, eval, evaluate, copy_expr, try_evaluate};
use crate::tables::{PredicateTable, IndexTable, first_index, remove_first, key_map_push};
use crate::term::{Term, TermV, copy_term, terms_equal, strings_equal};
use crate::text::{term_text, push_str, push_term_text, chars_to_string};
use crate::builtins::{
    registers_text, subst_text, push_registers_text, push_subst_text, sorted_keys, sorted_ids,
    lemma_increasing_unique,
};
use crate::display::{term_display, push_term_display};
use crate::prolog::compiler::string_is;

verus! {

broadcast use {vstd::std_specs::vec::group_vec_axioms, vstd::std_specs::hash::group_hash_axioms};

/// A frame of the control stack: where a predicate call returns to.
#[derive(Debug, Clone)]
pub struct Frame {
    pub return_pc: usize,
}

/// A choice point: the machine state to return to when a later instruction
/// fails, the addresses of the clauses not yet tried, and the depth of the
/// control stack (the predicate call) at which it was made.
#[derive(Debug)]
pub struct ChoicePoint {
    pub saved_pc: usize,
    pub saved_registers: Vec<Option<Term>>,
    pub saved_substitution: HashMap<usize, Term>,
    pub saved_trail_len: usize,
    pub alternative_clauses: Option<Vec<usize>>,
    pub call_level: usize,
}

/// A binding made by unification, with the value the variable had before.
#[derive(Debug)]
pub struct TrailEntry {
    pub variable: usize,
    pub previous_value: Option<Term>,
}

/// The instructions of the machine.
#[derive(Debug, PartialEq)]
pub enum Instruction {
    /// Puts a constant in a register.
    PutConst { register: usize, value: i32 },
    /// Puts a variable in a register, recording its name.
    PutVar { register: usize, var_id: usize, name: String },
    /// Unifies the term in a register with a constant.
    GetConst { register: usize, value: i32 },
    /// Unifies the term in a register with a variable (or puts the variable
    /// in an empty register).
    GetVar { register: usize, var_id: usize, name: String },
    /// Calls a predicate by name.
    Call { predicate: String },
    /// Returns from the current predicate.
    Proceed,
    /// Creates a choice point.
    Choice,
    /// Fails and backtracks to the latest choice point.
    Fail,
    /// Builds a compound term from registers.
    BuildCompound { target: usize, functor: String, arg_registers: Vec<usize> },
    /// Checks that a register holds a compound term of a functor and arity.
    GetStructure { register: usize, functor: String, arity: usize },
    /// Pushes an environment frame of `n` empty slots.
    Allocate { n: usize },
    /// Pops the current environment frame.
    Deallocate,
    /// Sets a slot of the current environment frame.
    SetLocal { index: usize, value: Term },
    /// Unifies a register with a slot of the current environment frame.
    GetLocal { index: usize, register: usize },
    /// Calls a predicate after dropping the current environment frame.
    TailCall { predicate: String },
    /// Calls the clauses of a predicate indexed under the term in a register.
    IndexedCall { predicate: String, index_register: usize },
    /// Evaluates an arithmetic expression into a register.
    ArithmeticIs { target: usize, expression: Expr },
    /// Adds a clause address to a predicate.
    AssertClause { predicate: String, address: usize },
    /// Removes a clause address from a predicate.
    RetractClause { predicate: String, address: usize },
    /// Removes all choice points.
    Cut,
    /// Puts a string in a register.
    PutStr { register: usize, value: String },
    /// Unifies the term in a register with a string.
    GetStr { register: usize, value: String },
    /// Calls the clauses of a predicate indexed under the terms of several registers.
    MultiIndexedCall { predicate: String, index_registers: Vec<usize> },
    /// Copies the term of one register into another.
    Move { src: usize, dst: usize },
    /// Stops the machine.
    Halt,
}

/// The errors that can stop the machine.
#[derive(Debug)]
pub enum MachineError {
    RegisterOutOfBounds(usize),
    UninitializedRegister(usize),
    UnificationFailed(String),
    EnvironmentMissing,
    PredicateNotFound(String),
    PredicateClauseNotFound(String),
    NoChoicePoint,
    StructureMismatch {
        expected_functor: String,
        expected_arity: usize,
        found_functor: String,
        found_arity: usize,
    },
    NotACompoundTerm(usize),
    NoIndexedClause(String, Term),
    NoIndexEntry(String, Term),
    PredicateNotInIndex(String),
    NoMoreInstructions,
}

/// The abstract machine.
#[derive(Debug)]
pub struct Machine {
    /// Registers: each can hold a term.
    pub registers: Vec<Option<Term>>,
    /// The program.
    pub code: Vec<Instruction>,
    /// The program counter.
    pub pc: usize,
    /// Bindings of variables (by id) to terms.
    pub substitution: HashMap<usize, Term>,
    /// Return addresses of the predicate calls in progress.
    pub control_stack: Vec<Frame>,
    /// Clause addresses by predicate name.
    pub predicate_table: PredicateTable,
    /// Choice points for backtracking.
    pub choice_stack: Vec<ChoicePoint>,
    /// Bindings made by unification, oldest first.
    pub trail: Vec<TrailEntry>,
    /// Environment frames of local slots.
    pub environment_stack: Vec<Vec<Option<Term>>>,
    /// Clause addresses by predicate name and index key.
    pub index_table: IndexTable,
    /// Names of variables by id.
    pub variable_names: HashMap<usize, String>,
    /// What the built-in predicates have printed.
    pub output: Vec<char>,
}

// ---------------------------------------------------------------------------
// The mathematical model of the machine.

/// The value of an optional term.
pub open spec fn opt_view(o: Option<Term>) -> Option<TermV> {
    match o {
        Some(t) => Some(t@),
        None => None,
    }
}

/// The values of a sequence of slots.
pub open spec fn slots_view(v: Seq<Option<Term>>) -> Seq<Option<TermV>> {
    Seq::new(v.len(), |i: int| opt_view(v[i]))
}

/// The value of a substitution.
pub open spec fn subst_view(m: Map<usize, Term>) -> Map<usize, TermV> {
    m.map_values(|t: Term| t@)
}

/// The value of a choice point.
pub struct ChoiceV {
    pub saved_pc: usize,
    pub saved_registers: Seq<Option<TermV>>,
    pub saved_subst: Map<usize, TermV>,
    pub saved_trail_len: usize,
    pub alternatives: Option<Seq<usize>>,
    pub call_level: usize,
}

impl View for ChoicePoint {
    type V = ChoiceV;

    open spec fn view(&self) -> ChoiceV {
        ChoiceV {
            saved_pc: self.saved_pc,
            saved_registers: slots_view(self.saved_registers@),
            saved_subst: subst_view(self.saved_substitution@),
            saved_trail_len: self.saved_trail_len,
            alternatives: match self.alternative_clauses {
                Some(v) => Some(v@),
                None => None,
            },
            call_level: self.call_level,
        }
    }
}

/// The value of a trail entry.
pub struct TrailV {
    pub variable: usize,
    pub previous: Option<TermV>,
}

impl View for TrailEntry {
    type V = TrailV;

    open spec fn view(&self) -> TrailV {
        TrailV { variable: self.variable, previous: opt_view(self.previous_value) }
    }
}

/// The value of the machine.
pub struct MState {
    pub registers: Seq<Option<TermV>>,
    pub code: Seq<Instruction>,
    pub pc: usize,
    pub subst: Map<usize, TermV>,
    pub control: Seq<usize>,
    pub preds: Map<Seq<char>, Seq<usize>>,
    pub choices: Seq<ChoiceV>,
    pub trail: Seq<TrailV>,
    pub envs: Seq<Seq<Option<TermV>>>,
    pub index: Map<Seq<char>, Map<Seq<TermV>, Seq<usize>>>,
    pub names: Map<usize, Seq<char>>,
    pub output: Seq<char>,
}

impl View for Machine {
    type V = MState;

    open spec fn view(&self) -> MState {
        MState {
            registers: slots_view(self.registers@),
            code: self.code@,
            pc: self.pc,
            subst: subst_view(self.substitution@),
            control: self.control_stack@.map_values(|f: Frame| f.return_pc),
            preds: self.predicate_table@,
            choices: self.choice_stack@.map_values(|c: ChoicePoint| c@),
            trail: self.trail@.map_values(|e: TrailEntry| e@),
            envs: self.environment_stack@.map_values(|e: Vec<Option<Term>>| slots_view(e@)),
            index: self.index_table@,
            names: self.variable_names@.map_values(|s: String| s@),
            output: self.output@,
        }
    }
}

/// The value of an error.
pub enum ErrorV {
    RegisterOutOfBounds(usize),
    UninitializedRegister(usize),
    UnificationFailed(Seq<char>),
    EnvironmentMissing,
    PredicateNotFound(Seq<char>),
    PredicateClauseNotFound(Seq<char>),
    NoChoicePoint,
    StructureMismatch {
        expected_functor: Seq<char>,
        expected_arity: usize,
        found_functor: Seq<char>,
        found_arity: usize,
    },
    NotACompoundTerm(usize),
    NoIndexedClause(Seq<char>, TermV),
    NoIndexEntry(Seq<char>, TermV),
    PredicateNotInIndex(Seq<char>),
    NoMoreInstructions,
}

impl View for MachineError {
    type V = ErrorV;

    open spec fn view(&self) -> ErrorV {
        match self {
            MachineError::RegisterOutOfBounds(r) => ErrorV::RegisterOutOfBounds(*r),
            MachineError::UninitializedRegister(r) => ErrorV::UninitializedRegister(*r),
            MachineError::UnificationFailed(m) => ErrorV::UnificationFailed(m@),
            MachineError::EnvironmentMissing => ErrorV::EnvironmentMissing,
            MachineError::PredicateNotFound(p) => ErrorV::PredicateNotFound(p@),
            MachineError::PredicateClauseNotFound(p) => ErrorV::PredicateClauseNotFound(p@),
            MachineError::NoChoicePoint => ErrorV::NoChoicePoint,
            MachineError::StructureMismatch { expected_functor, expected_arity, found_functor, found_arity } =>
                ErrorV::StructureMismatch {
                    expected_functor: expected_functor@,
                    expected_arity: *expected_arity,
                    found_functor: found_functor@,
                    found_arity: *found_arity,
                },
            MachineError::NotACompoundTerm(r) => ErrorV::NotACompoundTerm(*r),
            MachineError::NoIndexedClause(p, t) => ErrorV::NoIndexedClause(p@, t@),
            MachineError::NoIndexEntry(p, t) => ErrorV::NoIndexEntry(p@, t@),
            MachineError::PredicateNotInIndex(p) => ErrorV::PredicateNotInIndex(p@),
            MachineError::NoMoreInstructions => ErrorV::NoMoreInstructions,
        }
    }
}

/// The value of the outcome of an instruction.
pub open spec fn res_view(r: Result<(), MachineError>) -> Result<(), ErrorV> {
    match r {
        Ok(()) => Ok(()),
        Err(e) => Err(e@),
    }
}

/// The message of a failed unification of `a` with `b`.
pub open spec fn unify_message(a: TermV, b: TermV) -> Seq<char> {
    "Cannot unify "@ + term_text(a) + " with "@ + term_text(b)
}

// ---------------------------------------------------------------------------
// Resolution and unification.

/// Follows the bindings of a variable, at most `fuel` times; `None` when the
/// chain is longer.
pub open spec fn resolve_f(s: Map<usize, TermV>, t: TermV, fuel: nat) -> Option<TermV>
    decreases fuel,
{
    match t {
        TermV::Var(v) => if s.contains_key(v) {
            if fuel == 0 {
                None
            } else {
                resolve_f(s, s[v], (fuel - 1) as nat)
            }
        } else {
            Some(t)
        },
        _ => Some(t),
    }
}

/// What a variable stands for in the answer to a query: the end of its
/// chain of bindings, followed for at most one step more than there are
/// bindings, or the variable itself where the chain is longer.
pub open spec fn query_answer(subst: Map<usize, TermV>, id: usize) -> TermV {
    match resolve_f(subst, TermV::Var(id), (subst.len() + 1) as nat) {
        Some(x) => x,
        None => TermV::Var(id),
    }
}

/// Whether the variable `v` occurs in `t` (outside lambdas that bind it).
pub open spec fn occurs(v: usize, t: TermV) -> bool
    decreases t,
{
    match t {
        TermV::Var(x) => x == v,
        TermV::Const(_) => false,
        TermV::Str(_) => false,
        TermV::Compound(_, args) => exists|i: int| 0 <= i < args.len() && occurs(v, #[trigger] args[i]),
        TermV::Constraint(_, args) => exists|i: int| 0 <= i < args.len() && occurs(v, #[trigger] args[i]),
        TermV::Lambda(p, b) => p != v && occurs(v, *b),
        TermV::App(a, b) => occurs(v, *a) || occurs(v, *b),
        TermV::Prob(b) => occurs(v, *b),
        TermV::Modal(_, b) => occurs(v, *b),
        TermV::Temporal(_, b) => occurs(v, *b),
        TermV::HigherOrder(b) => occurs(v, *b),
    }
}

/// Binds `v` to `t`, recording the previous value on the trail, unless `v`
/// occurs in `t`.
pub open spec fn bind_spec(s: MState, v: usize, t: TermV) -> (bool, MState) {
    if occurs(v, t) {
        (false, s)
    } else {
        (true, MState {
            subst: s.subst.insert(v, t),
            trail: s.trail.push(TrailV {
                variable: v,
                previous: if s.subst.contains_key(v) { Some(s.subst[v]) } else { None },
            }),
            ..s
        })
    }
}

/// Unification with a fuel that bounds resolution chains and nesting;
/// `None` when the fuel runs out.
pub open spec fn unify_f(s: MState, a: TermV, b: TermV, fuel: nat) -> Option<(bool, MState)>
    decreases fuel, 0nat,
{
    match (resolve_f(s.subst, a, fuel), resolve_f(s.subst, b, fuel)) {
        (Some(x), Some(y)) => if x == y {
            Some((true, s))
        } else {
            match (x, y) {
                (TermV::Var(v), _) => Some(bind_spec(s, v, y)),
                (_, TermV::Var(v)) => Some(bind_spec(s, v, x)),
                (TermV::Compound(f1, a1), TermV::Compound(f2, a2)) => {
                    if f1 == f2 && a1.len() == a2.len() {
                        if fuel == 0 {
                            None
                        } else {
                            unify_args_f(s, a1, a2, 0, (fuel - 1) as nat)
                        }
                    } else {
                        Some((false, s))
                    }
                },
                _ => Some((false, s)),
            }
        },
        _ => None,
    }
}

/// Unifies the arguments from position `i` on, stopping at the first failure.
pub open spec fn unify_args_f(s: MState, a1: Seq<TermV>, a2: Seq<TermV>, i: int, fuel: nat) -> Option<(bool, MState)>
    decreases fuel, a1.len() - i + 1,
{
    if i < 0 || i >= a1.len() || i >= a2.len() {
        Some((true, s))
    } else {
        match unify_f(s, a1[i], a2[i], fuel) {
            Some((true, s2)) => unify_args_f(s2, a1, a2, i + 1, fuel),
            Some((false, s2)) => Some((false, s2)),
            None => None,
        }
    }
}

/// Unification of `a` with `b` terminates from state `s`.
pub open spec fn unify_ok(s: MState, a: TermV, b: TermV) -> bool {
    exists|n: nat| #[trigger] unify_f(s, a, b, n) is Some
}

/// The outcome of unifying `a` with `b` from state `s`: whether it
/// succeeded, and the state after it (bindings made before a failure stay).
pub open spec fn unify_spec(s: MState, a: TermV, b: TermV) -> (bool, MState) {
    unify_f(s, a, b, choose|n: nat| #[trigger] unify_f(s, a, b, n) is Some)->0
}

// ---------------------------------------------------------------------------
// The instructions, as functions from state to state and outcome.

/// A new choice point that saves the state `s`.
pub open spec fn save(s: MState, alternatives: Option<Seq<usize>>) -> ChoiceV {
    ChoiceV {
        saved_pc: s.pc,
        saved_registers: s.registers,
        saved_subst: s.subst,
        saved_trail_len: s.trail.len() as usize,
        alternatives,
        call_level: s.control.len() as usize,
    }
}

/// The alternatives kept when the first of `clauses` is taken.
pub open spec fn rest_of(clauses: Seq<usize>) -> Option<Seq<usize>> {
    if clauses.len() <= 1 {
        None
    } else {
        Some(clauses.drop_first())
    }
}

/// Jumps to the first of `clauses`, keeping the others in a new choice point.
pub open spec fn jump(s: MState, clauses: Seq<usize>) -> MState {
    MState { choices: s.choices.push(save(s, rest_of(clauses))), pc: clauses[0], ..s }
}

/// The state with register `r` set.
pub open spec fn set_reg(s: MState, r: usize, v: Option<TermV>) -> MState {
    MState { registers: s.registers.update(r as int, v), ..s }
}

pub open spec fn op_put_const(s: MState, register: usize, value: i32) -> (MState, Result<(), ErrorV>) {
    if register < s.registers.len() {
        (set_reg(s, register, Some(TermV::Const(value))), Ok(()))
    } else {
        (s, Err(ErrorV::RegisterOutOfBounds(register)))
    }
}

pub open spec fn op_put_str(s: MState, register: usize, value: Seq<char>) -> (MState, Result<(), ErrorV>) {
    if register < s.registers.len() {
        (set_reg(s, register, Some(TermV::Str(value))), Ok(()))
    } else {
        (s, Err(ErrorV::RegisterOutOfBounds(register)))
    }
}

pub open spec fn op_put_var(s: MState, register: usize, var_id: usize, name: Seq<char>) -> (MState, Result<(), ErrorV>) {
    if register < s.registers.len() {
        (MState { names: s.names.insert(var_id, name), ..set_reg(s, register, Some(TermV::Var(var_id))) }, Ok(()))
    } else {
        (s, Err(ErrorV::RegisterOutOfBounds(register)))
    }
}

/// Unifies `a` with `b`; on failure the error names them.
pub open spec fn unify_step(s: MState, a: TermV, b: TermV) -> (MState, Result<(), ErrorV>) {
    let (ok, s2) = unify_spec(s, a, b);
    if ok {
        (s2, Ok(()))
    } else {
        (s2, Err(ErrorV::UnificationFailed(unify_message(a, b))))
    }
}

/// Unifies the term of a register with `b` (the register's term first).
pub open spec fn op_get_with(s: MState, register: usize, b: TermV) -> (MState, Result<(), ErrorV>) {
    if register >= s.registers.len() {
        (s, Err(ErrorV::RegisterOutOfBounds(register)))
    } else {
        match s.registers[register as int] {
            Some(t) => unify_step(s, t, b),
            None => (s, Err(ErrorV::UninitializedRegister(register))),
        }
    }
}

pub open spec fn op_get_with_ok(s: MState, register: usize, b: TermV) -> bool {
    register < s.registers.len() && s.registers[register as int] is Some
        ==> unify_ok(s, s.registers[register as int]->0, b)
}

pub open spec fn op_get_var(s: MState, register: usize, var_id: usize, name: Seq<char>) -> (MState, Result<(), ErrorV>) {
    if register >= s.registers.len() {
        (s, Err(ErrorV::RegisterOutOfBounds(register)))
    } else {
        let s1 = if s.names.contains_key(var_id) { s } else { MState { names: s.names.insert(var_id, name), ..s } };
        match s1.registers[register as int] {
            Some(t) => unify_step(s1, TermV::Var(var_id), t),
            None => (set_reg(s1, register, Some(TermV::Var(var_id))), Ok(())),
        }
    }
}

pub open spec fn op_get_var_ok(s: MState, register: usize, var_id: usize, name: Seq<char>) -> bool {
    let s1 = if s.names.contains_key(var_id) { s } else { MState { names: s.names.insert(var_id, name), ..s } };
    register < s.registers.len() && s.registers[register as int] is Some
        ==> unify_ok(s1, TermV::Var(var_id), s.registers[register as int]->0)
}

/// The predicates that the machine answers itself, printing to its output.
pub open spec fn is_builtin(p: Seq<char>) -> bool {
    p == "print"@ || p == "print_subst"@ || p == "write"@ || p == "nl"@
}

/// What a built-in predicate prints: `write` the display text of the term in
/// register 0 (nothing where there is none), `nl` a newline, `print` the
/// registers, `print_subst` the substitution.
pub open spec fn builtin_text(s: MState, p: Seq<char>) -> Seq<char> {
    if p == "write"@ {
        if s.registers.len() > 0 && s.registers[0] is Some { term_display(s.registers[0]->0) } else { Seq::empty() }
    } else if p == "nl"@ {
        "\n"@
    } else if p == "print"@ {
        registers_text(s.registers, s.names)
    } else {
        subst_text(s.subst, s.names)
    }
}

/// The state after a built-in predicate has printed.
pub open spec fn run_builtin(s: MState, p: Seq<char>) -> MState {
    MState { output: s.output + builtin_text(s, p), ..s }
}

pub open spec fn op_call(s: MState, predicate: Seq<char>) -> (MState, Result<(), ErrorV>) {
    if is_builtin(predicate) {
        (run_builtin(s, predicate), Ok(()))
    } else if !s.preds.contains_key(predicate) {
        (s, Err(ErrorV::PredicateNotFound(predicate)))
    } else if s.preds[predicate].len() == 0 {
        (s, Err(ErrorV::PredicateClauseNotFound(predicate)))
    } else {
        (jump(MState { control: s.control.push(s.pc), ..s }, s.preds[predicate]), Ok(()))
    }
}

pub open spec fn op_tail_call(s: MState, predicate: Seq<char>) -> (MState, Result<(), ErrorV>) {
    let s1 = MState { envs: if s.envs.len() > 0 { s.envs.drop_last() } else { s.envs }, ..s };
    if is_builtin(predicate) {
        (run_builtin(s1, predicate), Ok(()))
    } else if !s1.preds.contains_key(predicate) {
        (s1, Err(ErrorV::PredicateNotFound(predicate)))
    } else if s1.preds[predicate].len() == 0 {
        (s1, Err(ErrorV::PredicateClauseNotFound(predicate)))
    } else {
        (jump(s1, s1.preds[predicate]), Ok(()))
    }
}

pub open spec fn op_proceed(s: MState) -> (MState, Result<(), ErrorV>) {
    if s.control.len() > 0 {
        (MState { pc: s.control.last(), control: s.control.drop_last(), ..s }, Ok(()))
    } else {
        (s, Ok(()))
    }
}

pub open spec fn op_choice(s: MState) -> (MState, Result<(), ErrorV>) {
    (MState { choices: s.choices.push(save(s, None)), ..s }, Ok(()))
}

pub open spec fn op_allocate(s: MState, n: usize) -> (MState, Result<(), ErrorV>) {
    (MState { envs: s.envs.push(Seq::new(n as nat, |i: int| None)), ..s }, Ok(()))
}

pub open spec fn op_deallocate(s: MState) -> (MState, Result<(), ErrorV>) {
    if s.envs.len() > 0 {
        (MState { envs: s.envs.drop_last(), ..s }, Ok(()))
    } else {
        (s, Err(ErrorV::EnvironmentMissing))
    }
}

pub open spec fn op_arithmetic_is(s: MState, target: usize, expression: Expr) -> (MState, Result<(), ErrorV>) {
    if target < s.registers.len() {
        (set_reg(s, target, Some(TermV::Const(eval(expression)->0 as i32))), Ok(()))
    } else {
        (s, Err(ErrorV::RegisterOutOfBounds(target)))
    }
}

pub open spec fn op_set_local(s: MState, index: usize, value: TermV) -> (MState, Result<(), ErrorV>) {
    if s.envs.len() == 0 {
        (s, Err(ErrorV::EnvironmentMissing))
    } else if index >= s.envs.last().len() {
        (s, Err(ErrorV::RegisterOutOfBounds(index)))
    } else {
        (MState { envs: s.envs.update(s.envs.len() - 1, s.envs.last().update(index as int, Some(value))), ..s }, Ok(()))
    }
}

pub open spec fn op_get_local(s: MState, index: usize, register: usize) -> (MState, Result<(), ErrorV>) {
    if s.envs.len() == 0 {
        (s, Err(ErrorV::EnvironmentMissing))
    } else if index >= s.envs.last().len() {
        (s, Err(ErrorV::RegisterOutOfBounds(index)))
    } else {
        match s.envs.last()[index as int] {
            None => (s, Err(ErrorV::UninitializedRegister(index))),
            Some(t) => if register >= s.registers.len() {
                (s, Err(ErrorV::RegisterOutOfBounds(register)))
            } else {
                match s.registers[register as int] {
                    Some(rt) => unify_step(s, rt, t),
                    None => (set_reg(s, register, Some(t)), Ok(())),
                }
            },
        }
    }
}

pub open spec fn op_get_local_ok(s: MState, index: usize, register: usize) -> bool {
    s.envs.len() > 0 && index < s.envs.last().len() && s.envs.last()[index as int] is Some
        && register < s.registers.len() && s.registers[register as int] is Some
        ==> unify_ok(s, s.registers[register as int]->0, s.envs.last()[index as int]->0)
}

pub open spec fn op_fail(s: MState) -> (MState, Result<(), ErrorV>) {
    if s.choices.len() == 0 {
        (s, Err(ErrorV::NoChoicePoint))
    } else {
        let cp = s.choices.last();
        (MState {
            trail: if s.trail.len() > cp.saved_trail_len { s.trail.subrange(0, cp.saved_trail_len as int) } else { s.trail },
            registers: cp.saved_registers,
            subst: cp.saved_subst,
            pc: (cp.saved_pc + 2) as usize,
            choices: s.choices.drop_last(),
            ..s
        }, Ok(()))
    }
}

pub open spec fn op_fail_ok(s: MState) -> bool {
    s.choices.len() > 0 ==> s.choices.last().saved_pc + 2 <= usize::MAX
}

pub open spec fn op_get_structure(s: MState, register: usize, functor: Seq<char>, arity: usize) -> (MState, Result<(), ErrorV>) {
    if register >= s.registers.len() {
        (s, Err(ErrorV::RegisterOutOfBounds(register)))
    } else {
        match s.registers[register as int] {
            Some(TermV::Compound(f, args)) => if f == functor && args.len() == arity {
                (s, Ok(()))
            } else {
                (s, Err(ErrorV::StructureMismatch {
                    expected_functor: functor,
                    expected_arity: arity,
                    found_functor: f,
                    found_arity: args.len() as usize,
                }))
            },
            Some(_) => (s, Err(ErrorV::NotACompoundTerm(register))),
            None => (s, Err(ErrorV::UninitializedRegister(register))),
        }
    }
}

/// The terms of the listed registers, in order, or the error of the first
/// register that is out of bounds or empty.
pub open spec fn collect_terms(regs: Seq<Option<TermV>>, list: Seq<usize>) -> Result<Seq<TermV>, ErrorV>
    decreases list.len(),
{
    if list.len() == 0 {
        Ok(seq![])
    } else {
        let r = list[0];
        if r >= regs.len() {
            Err(ErrorV::RegisterOutOfBounds(r))
        } else {
            match regs[r as int] {
                None => Err(ErrorV::UninitializedRegister(r)),
                Some(t) => match collect_terms(regs, list.drop_first()) {
                    Ok(rest) => Ok(seq![t] + rest),
                    Err(e) => Err(e),
                },
            }
        }
    }
}

/// Jumps to the clauses indexed under `key` for a predicate.
pub open spec fn index_jump(s: MState, predicate: Seq<char>, key: Seq<TermV>) -> (MState, Result<(), ErrorV>) {
    if !s.index.contains_key(predicate) {
        (s, Err(ErrorV::PredicateNotInIndex(predicate)))
    } else if !s.index[predicate].contains_key(key) {
        (s, Err(ErrorV::NoIndexEntry(predicate, key[0])))
    } else if s.index[predicate][key].len() == 0 {
        (s, Err(ErrorV::NoIndexedClause(predicate, key[0])))
    } else {
        (jump(s, s.index[predicate][key]), Ok(()))
    }
}

/// The key names a term wherever an error must report it.
pub open spec fn index_jump_ok(s: MState, predicate: Seq<char>, key: Seq<TermV>) -> bool {
    key.len() > 0 || (s.index.contains_key(predicate) && s.index[predicate].contains_key(key)
        && s.index[predicate][key].len() > 0)
}

pub open spec fn op_indexed_call(s: MState, predicate: Seq<char>, index_register: usize) -> (MState, Result<(), ErrorV>) {
    if index_register >= s.registers.len() {
        (s, Err(ErrorV::RegisterOutOfBounds(index_register)))
    } else {
        match s.registers[index_register as int] {
            None => (s, Err(ErrorV::UninitializedRegister(index_register))),
            Some(k) => index_jump(s, predicate, seq![k]),
        }
    }
}

pub open spec fn op_multi_indexed_call(s: MState, predicate: Seq<char>, index_registers: Seq<usize>) -> (MState, Result<(), ErrorV>) {
    match collect_terms(s.registers, index_registers) {
        Err(e) => (s, Err(e)),
        Ok(key) => index_jump(s, predicate, key),
    }
}

pub open spec fn op_multi_indexed_call_ok(s: MState, predicate: Seq<char>, index_registers: Seq<usize>) -> bool {
    collect_terms(s.registers, index_registers) matches Ok(key) ==> index_jump_ok(s, predicate, key)
}

pub open spec fn op_assert_clause(s: MState, predicate: Seq<char>, address: usize) -> (MState, Result<(), ErrorV>) {
    (MState {
        preds: s.preds.insert(
            predicate,
            if s.preds.contains_key(predicate) { s.preds[predicate] } else { Seq::empty() }.push(address),
        ),
        ..s
    }, Ok(()))
}

pub open spec fn op_retract_clause(s: MState, predicate: Seq<char>, address: usize) -> (MState, Result<(), ErrorV>) {
    if !s.preds.contains_key(predicate) {
        (s, Err(ErrorV::PredicateNotFound(predicate)))
    } else if first_index(s.preds[predicate], address) is None {
        (s, Err(ErrorV::PredicateClauseNotFound(predicate)))
    } else {
        (MState {
            preds: s.preds.insert(predicate, remove_first(s.preds[predicate], address)),
            index: if s.index.contains_key(predicate) {
                s.index.insert(predicate, s.index[predicate].map_values(|l: Seq<usize>| remove_first(l, address)))
            } else {
                s.index
            },
            ..s
        }, Ok(()))
    }
}

/// The choice points made below call depth `level`, in their order.
pub open spec fn keep_below(cs: Seq<ChoiceV>, level: nat) -> Seq<ChoiceV>
    decreases cs.len(),
{
    if cs.len() == 0 {
        Seq::empty()
    } else {
        let rest = keep_below(cs.drop_last(), level);
        if cs.last().call_level < level { rest.push(cs.last()) } else { rest }
    }
}

/// A cut removes the choice points of the current predicate call: those
/// made at the current depth of the control stack or deeper.
pub open spec fn op_cut(s: MState) -> (MState, Result<(), ErrorV>) {
    (MState { choices: keep_below(s.choices, s.control.len()), ..s }, Ok(()))
}

pub open spec fn op_build_compound(s: MState, target: usize, functor: Seq<char>, arg_registers: Seq<usize>) -> (MState, Result<(), ErrorV>) {
    match collect_terms(s.registers, arg_registers) {
        Err(e) => (s, Err(e)),
        Ok(args) => if target < s.registers.len() {
            (set_reg(s, target, Some(TermV::Compound(functor, args))), Ok(()))
        } else {
            (s, Err(ErrorV::RegisterOutOfBounds(target)))
        },
    }
}

pub open spec fn op_move(s: MState, src: usize, dst: usize) -> (MState, Result<(), ErrorV>) {
    if src >= s.registers.len() {
        (s, Err(ErrorV::RegisterOutOfBounds(src)))
    } else if dst >= s.registers.len() {
        (s, Err(ErrorV::RegisterOutOfBounds(dst)))
    } else if s.registers[src as int] is None {
        (s, Err(ErrorV::UninitializedRegister(src)))
    } else {
        (set_reg(s, dst, s.registers[src as int]), Ok(()))
    }
}

/// The effect of an instruction on a state whose program counter has already
/// moved past it.
pub open spec fn exec_spec(s: MState, instr: Instruction) -> (MState, Result<(), ErrorV>) {
    match instr {
        Instruction::PutConst { register, value } => op_put_const(s, register, value),
        Instruction::PutVar { register, var_id, name } => op_put_var(s, register, var_id, name@),
        Instruction::GetConst { register, value } => op_get_with(s, register, TermV::Const(value)),
        Instruction::GetVar { register, var_id, name } => op_get_var(s, register, var_id, name@),
        Instruction::Call { predicate } => op_call(s, predicate@),
        Instruction::Proceed => op_proceed(s),
        Instruction::Choice => op_choice(s),
        Instruction::Fail => op_fail(s),
        Instruction::BuildCompound { target, functor, arg_registers } => op_build_compound(s, target, functor@, arg_registers@),
        Instruction::GetStructure { register, functor, arity } => op_get_structure(s, register, functor@, arity),
        Instruction::Allocate { n } => op_allocate(s, n),
        Instruction::Deallocate => op_deallocate(s),
        Instruction::SetLocal { index, value } => op_set_local(s, index, value@),
        Instruction::GetLocal { index, register } => op_get_local(s, index, register),
        Instruction::TailCall { predicate } => op_tail_call(s, predicate@),
        Instruction::IndexedCall { predicate, index_register } => op_indexed_call(s, predicate@, index_register),
        Instruction::ArithmeticIs { target, expression } => op_arithmetic_is(s, target, expression),
        Instruction::AssertClause { predicate, address } => op_assert_clause(s, predicate@, address),
        Instruction::RetractClause { predicate, address } => op_retract_clause(s, predicate@, address),
        Instruction::Cut => op_cut(s),
        Instruction::PutStr { register, value } => op_put_str(s, register, value@),
        Instruction::GetStr { register, value } => op_get_with(s, register, TermV::Str(value@)),
        Instruction::MultiIndexedCall { predicate, index_registers } => op_multi_indexed_call(s, predicate@, index_registers@),
        Instruction::Move { src, dst } => op_move(s, src, dst),
        Instruction::Halt => (s, Ok(())),
    }
}

/// The instruction can run from state `s` without stopping the process:
/// its unifications terminate, its arithmetic has a value, and the errors it
/// may report are well defined.
pub open spec fn exec_ok(s: MState, instr: Instruction) -> bool {
    match instr {
        Instruction::GetConst { register, value } => op_get_with_ok(s, register, TermV::Const(value)),
        Instruction::GetStr { register, value } => op_get_with_ok(s, register, TermV::Str(value@)),
        Instruction::GetVar { register, var_id, name } => op_get_var_ok(s, register, var_id, name@),
        Instruction::GetLocal { index, register } => op_get_local_ok(s, index, register),
        Instruction::ArithmeticIs { target, expression } => eval(expression) is Some,
        Instruction::Fail => op_fail_ok(s),
        Instruction::MultiIndexedCall { predicate, index_registers } => op_multi_indexed_call_ok(s, predicate@, index_registers@),
        _ => true,
    }
}

/// One step: the instruction at the program counter runs, with the program
/// counter moved past it first.
pub open spec fn step_spec(s: MState) -> (MState, Result<(), ErrorV>) {
    if s.pc >= s.code.len() {
        (s, Err(ErrorV::NoMoreInstructions))
    } else {
        exec_spec(MState { pc: (s.pc + 1) as usize, ..s }, s.code[s.pc as int])
    }
}

/// The step at state `s` can run.
pub open spec fn step_ok(s: MState) -> bool {
    s.pc < s.code.len() ==> exec_ok(MState { pc: (s.pc + 1) as usize, ..s }, s.code[s.pc as int])
}

/// Running the machine for at most `fuel` steps: it stops at the end of the
/// program, at a `Halt`, or at the first error; `None` when the fuel runs out
/// or a step cannot run.
pub open spec fn run_f(s: MState, fuel: nat) -> Option<(MState, Result<(), ErrorV>)>
    decreases fuel,
{
    if s.pc >= s.code.len() {
        Some((s, Ok(())))
    } else if s.code[s.pc as int] is Halt {
        Some((s, Ok(())))
    } else if fuel == 0 || !step_ok(s) {
        None
    } else {
        let (s2, r) = step_spec(s);
        if r is Err {
            Some((s2, r))
        } else {
            run_f(s2, (fuel - 1) as nat)
        }
    }
}

/// The machine stops from state `s`.
pub open spec fn halts(s: MState) -> bool {
    exists|n: nat| #[trigger] run_f(s, n) is Some
}

/// The state and outcome where the machine stops.
pub open spec fn run_spec(s: MState) -> (MState, Result<(), ErrorV>) {
    run_f(s, choose|n: nat| #[trigger] run_f(s, n) is Some)->0
}

/// `exec_ok` with every unification the instruction makes bounded by
/// `fuel`: those unifications end within `fuel`.
pub open spec fn exec_ok_within(s: MState, instr: Instruction, fuel: nat) -> bool {
    match instr {
        Instruction::GetConst { register, value } =>
            register < s.registers.len() && s.registers[register as int] is Some
                ==> unify_f(s, s.registers[register as int]->0, TermV::Const(value), fuel) is Some,
        Instruction::GetStr { register, value } =>
            register < s.registers.len() && s.registers[register as int] is Some
                ==> unify_f(s, s.registers[register as int]->0, TermV::Str(value@), fuel) is Some,
        Instruction::GetVar { register, var_id, name } =>
            register < s.registers.len() && s.registers[register as int] is Some
                ==> unify_f(s, TermV::Var(var_id), s.registers[register as int]->0, fuel) is Some,
        Instruction::GetLocal { index, register } =>
            s.envs.len() > 0 && index < s.envs.last().len() && s.envs.last()[index as int] is Some
                && register < s.registers.len() && s.registers[register as int] is Some
                ==> unify_f(s, s.registers[register as int]->0, s.envs.last()[index as int]->0, fuel) is Some,
        _ => exec_ok(s, instr),
    }
}

/// `step_ok` with every unification bounded by `fuel`.
pub open spec fn step_ok_within(s: MState, fuel: nat) -> bool {
    s.pc < s.code.len() ==> exec_ok_within(MState { pc: (s.pc + 1) as usize, ..s }, s.code[s.pc as int], fuel)
}

/// `run_f` for at most `steps` steps with every unification bounded by
/// `fuel`; `None` when the steps run out or a step cannot run within them.
pub open spec fn run_within(s: MState, steps: nat, fuel: nat) -> Option<(MState, Result<(), ErrorV>)>
    decreases steps,
{
    if s.pc >= s.code.len() {
        Some((s, Ok(())))
    } else if s.code[s.pc as int] is Halt {
        Some((s, Ok(())))
    } else if steps == 0 || !step_ok_within(s, fuel) {
        None
    } else {
        let (s2, r) = step_spec(s);
        if r is Err {
            Some((s2, r))
        } else {
            run_within(s2, (steps - 1) as nat, fuel)
        }
    }
}

/// Whether unification ends within a fuel depends on the substitution
/// alone, and so does the substitution it leaves.
proof fn lemma_unify_subst_only(s: MState, t: MState, a: TermV, b: TermV, fuel: nat)
    requires
        s.subst == t.subst,
    ensures
        match (unify_f(s, a, b, fuel), unify_f(t, a, b, fuel)) {
            (Some((o1, x1)), Some((o2, x2))) => o1 == o2 && x1.subst == x2.subst,
            (None, None) => true,
            _ => false,
        },
    decreases fuel, 0nat,
{
    if let (Some(x), Some(y)) = (resolve_f(s.subst, a, fuel), resolve_f(s.subst, b, fuel)) {
        if x != y {
            if let (TermV::Compound(f1, a1), TermV::Compound(f2, a2)) = (x, y) {
                if f1 == f2 && a1.len() == a2.len() && fuel > 0 {
                    lemma_unify_args_subst_only(s, t, a1, a2, 0, (fuel - 1) as nat);
                }
            }
        }
    }
}

proof fn lemma_unify_args_subst_only(s: MState, t: MState, a1: Seq<TermV>, a2: Seq<TermV>, i: int, fuel: nat)
    requires
        s.subst == t.subst,
    ensures
        match (unify_args_f(s, a1, a2, i, fuel), unify_args_f(t, a1, a2, i, fuel)) {
            (Some((o1, x1)), Some((o2, x2))) => o1 == o2 && x1.subst == x2.subst,
            (None, None) => true,
            _ => false,
        },
    decreases fuel, a1.len() - i + 1,
{
    if !(i < 0 || i >= a1.len() || i >= a2.len()) {
        lemma_unify_subst_only(s, t, a1[i], a2[i], fuel);
        if let (Some((true, x1)), Some((true, x2))) = (unify_f(s, a1[i], a2[i], fuel), unify_f(t, a1[i], a2[i], fuel)) {
            lemma_unify_args_subst_only(x1, x2, a1, a2, i + 1, fuel);
        }
    }
}

/// A step that can run within a fuel can run.
proof fn lemma_step_ok_within(s: MState, fuel: nat)
    requires
        step_ok_within(s, fuel),
    ensures
        step_ok(s),
{
    if s.pc < s.code.len() {
        let s1 = MState { pc: (s.pc + 1) as usize, ..s };
        match s.code[s.pc as int] {
            Instruction::GetConst { register, value } => {
                if register < s1.registers.len() && s1.registers[register as int] is Some {
                    assert(unify_f(s1, s1.registers[register as int]->0, TermV::Const(value), fuel) is Some);
                }
            },
            Instruction::GetStr { register, value } => {
                if register < s1.registers.len() && s1.registers[register as int] is Some {
                    assert(unify_f(s1, s1.registers[register as int]->0, TermV::Str(value@), fuel) is Some);
                }
            },
            Instruction::GetVar { register, var_id, name } => {
                if register < s1.registers.len() && s1.registers[register as int] is Some {
                    let s2 = if s1.names.contains_key(var_id) { s1 } else { MState { names: s1.names.insert(var_id, name@), ..s1 } };
                    lemma_unify_subst_only(s1, s2, TermV::Var(var_id), s1.registers[register as int]->0, fuel);
                    assert(unify_f(s2, TermV::Var(var_id), s1.registers[register as int]->0, fuel) is Some);
                }
            },
            Instruction::GetLocal { index, register } => {
                if s1.envs.len() > 0 && index < s1.envs.last().len() && s1.envs.last()[index as int] is Some
                    && register < s1.registers.len() && s1.registers[register as int] is Some {
                    assert(unify_f(s1, s1.registers[register as int]->0, s1.envs.last()[index as int]->0, fuel) is Some);
                }
            },
            _ => {},
        }
    }
}

/// A bounded run that ends is a run that ends, with the same outcome.
proof fn lemma_run_within(s: MState, steps: nat, fuel: nat)
    ensures
        run_within(s, steps, fuel) matches Some(x) ==> run_f(s, steps) == Some(x),
    decreases steps,
{
    if s.pc < s.code.len() && !(s.code[s.pc as int] is Halt) && steps > 0 && step_ok_within(s, fuel) {
        lemma_step_ok_within(s, fuel);
        let (s2, r) = step_spec(s);
        if r is Ok {
            lemma_run_within(s2, (steps - 1) as nat, fuel);
        }
    }
}

/// Runs that end agree, whatever their fuel.
proof fn lemma_run_f_unique(s: MState, n: nat, m: nat)
    requires
        run_f(s, n) is Some,
        run_f(s, m) is Some,
    ensures
        run_f(s, n) == run_f(s, m),
    decreases n,
{
    if s.pc < s.code.len() && !(s.code[s.pc as int] is Halt) {
        let (s2, r) = step_spec(s);
        if r is Ok {
            lemma_run_f_unique(s2, (n - 1) as nat, (m - 1) as nat);
        }
    }
}

// ---------------------------------------------------------------------------
// Executable machine.

proof fn lemma_slots_update(v: Seq<Option<Term>>, i: int, x: Option<Term>)
    requires
        0 <= i < v.len(),
    ensures
        slots_view(v.update(i, x)) == slots_view(v).update(i, opt_view(x)),
{
    assert(slots_view(v.update(i, x)) =~= slots_view(v).update(i, opt_view(x)));
}

proof fn lemma_subst_insert(m: Map<usize, Term>, k: usize, t: Term)
    ensures
        subst_view(m.insert(k, t)) == subst_view(m).insert(k, t@),
{
    assert(subst_view(m.insert(k, t)) =~= subst_view(m).insert(k, t@));
}

/// Copies an optional term.
fn copy_opt(o: &Option<Term>) -> (r: Option<Term>)
    ensures
        opt_view(r) == opt_view(*o),
{
    match o {
        Some(t) => Some(copy_term(t)),
        None => None,
    }
}

/// The message of a failed unification.
fn unify_failure(a: &Term, b: &Term) -> (r: String)
    ensures
        r@ == unify_message(a@, b@),
{
    proof {
        reveal_strlit("Cannot unify ");
        reveal_strlit(" with ");
    }
    let mut out: Vec<char> = Vec::new();
    push_str(&mut out, "Cannot unify ");
    push_term_text(&mut out, a);
    push_str(&mut out, " with ");
    push_term_text(&mut out, b);
    proof {
        assert(out@ =~= unify_message(a@, b@));
    }
    chars_to_string(&out)
}

fn occurs_in_args(v: usize, args: &Vec<Term>) -> (r: bool)
    ensures
        r == exists|i: int| 0 <= i < args@.len() && occurs(v, #[trigger] Term::args_view(args@)[i]),
    decreases args, 0nat,
{
    let mut i: usize = 0;
    while i < args.len()
        invariant
            i <= args.len(),
            forall|j: int| 0 <= j < i ==> !occurs(v, #[trigger] Term::args_view(args@)[j]),
        decreases args.len() - i,
    {
        proof {
            assert(decreases_to!(args => args@[i as int]));
        }
        if occurs_check(v, &args[i]) {
            proof {
                assert(occurs(v, Term::args_view(args@)[i as int]));
            }
            return true;
        }
        i += 1;
    }
    false
}

/// Whether `v` occurs in `t` (see `occurs`).
fn occurs_check(v: usize, t: &Term) -> (r: bool)
    ensures
        r == occurs(v, t@),
    decreases t, 1nat,
{
    proof {
        Term::lemma_args_view(*t);
    }
    match t {
        Term::Var(x) => *x == v,
        Term::Const(_) => false,
        Term::Str(_) => false,
        Term::Compound(_, args) => occurs_in_args(v, args),
        Term::Constraint(_, args) => occurs_in_args(v, args),
        Term::Lambda(p, b) => *p != v && occurs_check(v, b),
        Term::App(a, b) => occurs_check(v, a) || occurs_check(v, b),
        Term::Prob(b) => occurs_check(v, b),
        Term::Modal(_, b) => occurs_check(v, b),
        Term::Temporal(_, b) => occurs_check(v, b),
        Term::HigherOrder(b) => occurs_check(v, b),
    }
}

impl Machine {
    /// A machine with `num_registers` empty registers and the given program.
    pub fn new(num_registers: usize, code: Vec<Instruction>) -> (m: Machine)
        ensures
            m@.registers == Seq::new(num_registers as nat, |i: int| None::<TermV>),
            m@.code == code@,
            m@.pc == 0,
            m@.subst == Map::<usize, TermV>::empty(),
            m@.control == Seq::<usize>::empty(),
            m@.preds == Map::<Seq<char>, Seq<usize>>::empty(),
            m@.choices == Seq::<ChoiceV>::empty(),
            m@.trail == Seq::<TrailV>::empty(),
            m@.envs == Seq::<Seq<Option<TermV>>>::empty(),
            m@.index == Map::<Seq<char>, Map<Seq<TermV>, Seq<usize>>>::empty(),
            m@.names == Map::<usize, Seq<char>>::empty(),
            m@.output == Seq::<char>::empty(),
    {
        let mut registers: Vec<Option<Term>> = Vec::new();
        let mut i: usize = 0;
        while i < num_registers
            invariant
                i <= num_registers,
                registers@.len() == i,
                forall|j: int| 0 <= j < i ==> registers@[j] is None,
            decreases num_registers - i,
        {
            registers.push(None);
            i += 1;
        }
        let m = Machine {
            registers,
            code,
            pc: 0,
            substitution: HashMap::new(),
            control_stack: Vec::new(),
            predicate_table: PredicateTable::new(),
            choice_stack: Vec::new(),
            trail: Vec::new(),
            environment_stack: Vec::new(),
            index_table: IndexTable::new(),
            variable_names: HashMap::new(),
            output: Vec::new(),
        };
        proof {
            assert(m@.registers =~= Seq::new(num_registers as nat, |i: int| None::<TermV>));
            assert(m@.subst =~= Map::<usize, TermV>::empty());
            assert(m@.control =~= Seq::<usize>::empty());
            assert(m@.choices =~= Seq::<ChoiceV>::empty());
            assert(m@.trail =~= Seq::<TrailV>::empty());
            assert(m@.envs =~= Seq::<Seq<Option<TermV>>>::empty());
            assert(m@.names =~= Map::<usize, Seq<char>>::empty());
        }
        m
    }

    /// Adds a clause address for a predicate, indexed under one key term.
    pub fn register_indexed_clause(&mut self, predicate: String, key: Term, address: usize)
        ensures
            final(self)@ == (MState {
                index: old(self)@.index.insert(
                    predicate@,
                    key_map_push(
                        if old(self)@.index.contains_key(predicate@) { old(self)@.index[predicate@] } else { Map::empty() },
                        seq![key@],
                        address,
                    ),
                ),
                ..old(self)@
            }),
    {
        let mut keys: Vec<Term> = Vec::new();
        let ghost kv = key@;
        keys.push(key);
        proof {
            assert(Term::args_view(keys@) =~= seq![kv]);
        }
        self.index_table.push(predicate, keys, address);
    }

    /// Adds a clause address for a predicate, indexed under a key of several
    /// terms.
    pub fn register_multi_indexed_clause(&mut self, predicate: String, keys: Vec<Term>, address: usize)
        ensures
            final(self)@ == (MState {
                index: old(self)@.index.insert(
                    predicate@,
                    key_map_push(
                        if old(self)@.index.contains_key(predicate@) { old(self)@.index[predicate@] } else { Map::empty() },
                        Term::args_view(keys@),
                        address,
                    ),
                ),
                ..old(self)@
            }),
    {
        self.index_table.push(predicate, keys, address);
    }

    /// Adds a clause address for a predicate.
    pub fn register_predicate(&mut self, name: String, address: usize)
        ensures
            final(self)@ == op_assert_clause(old(self)@, name@, address).0,
    {
        self.predicate_table.push(name, address);
    }

    /// Follows the bindings of a term (see `resolve_f`).
    fn resolve(&self, t: &Term, Ghost(fuel): Ghost<nat>) -> (r: Term)
        requires
            resolve_f(self@.subst, t@, fuel) is Some,
        ensures
            r@ == resolve_f(self@.subst, t@, fuel)->0,
    {
        let mut cur = copy_term(t);
        let ghost mut f = fuel;
        loop
            invariant
                resolve_f(self@.subst, cur@, f) == resolve_f(self@.subst, t@, fuel),
                resolve_f(self@.subst, t@, fuel) is Some,
            decreases f,
        {
            let next = match &cur {
                Term::Var(v) => match self.substitution.get(v) {
                    Some(b) => Some(copy_term(b)),
                    None => None,
                },
                _ => None,
            };
            match next {
                Some(n) => {
                    proof {
                        f = (f - 1) as nat;
                    }
                    cur = n;
                }
                None => {
                    return cur;
                }
            }
        }
    }

    /// Follows the bindings of a term for at most `limit` steps (see
    /// `resolve_f`): the term it finally stands for, or `None` where the
    /// chain of bindings is longer.
    pub fn resolve_within(&self, t: &Term, limit: usize) -> (r: Option<Term>)
        ensures
            match r {
                Some(x) => resolve_f(self@.subst, t@, limit as nat) == Some(x@),
                None => resolve_f(self@.subst, t@, limit as nat) is None,
            },
    {
        let mut cur = copy_term(t);
        let mut f: usize = limit;
        loop
            invariant
                resolve_f(self@.subst, cur@, f as nat) == resolve_f(self@.subst, t@, limit as nat),
            decreases f,
        {
            let next = match &cur {
                Term::Var(v) => match self.substitution.get(v) {
                    Some(b) => Some(copy_term(b)),
                    None => None,
                },
                _ => None,
            };
            match next {
                Some(n) => {
                    if f == 0 {
                        return None;
                    }
                    f = f - 1;
                    cur = n;
                }
                None => {
                    return Some(cur);
                }
            }
        }
    }

    /// The answer shown after a successful query: each named variable in
    /// increasing order of id, with its name and what it stands for (see
    /// `query_answer`).
    pub fn query_bindings(&self) -> (r: Vec<(String, Term)>)
        requires
            self@.subst.len() < usize::MAX,
        ensures
            r@.len() == sorted_ids(self@.names.dom()).len(),
            forall|i: int| 0 <= i < r@.len() ==> {
                let id = #[trigger] sorted_ids(self@.names.dom())[i];
                &&& r@[i].0@ == self@.names[id]
                &&& r@[i].1@ == query_answer(self@.subst, id)
            },
    {
        let ids = sorted_keys(&self.variable_names);
        let ghost order = sorted_ids(self@.names.dom());
        proof {
            assert(self@.names.dom() =~= self.variable_names@.dom());
            lemma_increasing_unique(ids@, order);
            assert(self@.subst.dom() =~= self.substitution@.dom());
        }
        let limit = self.substitution.len() + 1;
        let mut r: Vec<(String, Term)> = Vec::new();
        let mut k: usize = 0;
        while k < ids.len()
            invariant
                k <= ids@.len(),
                ids@ == order,
                order.to_set() == self.variable_names@.dom(),
                limit == self@.subst.len() + 1,
                r@.len() == k,
                forall|i: int| 0 <= i < k ==> {
                    let id = #[trigger] order[i];
                    &&& r@[i].0@ == self@.names[id]
                    &&& r@[i].1@ == query_answer(self@.subst, id)
                },
            decreases ids.len() - k,
        {
            let id = ids[k];
            proof {
                assert(order.to_set().contains(id));
            }
            let name = self.variable_names.get(&id).unwrap().clone();
            let var = Term::Var(id);
            let t = match self.resolve_within(&var, limit) {
                Some(x) => x,
                None => var,
            };
            r.push((name, t));
            k += 1;
        }
        r
    }

    /// Binds a variable to a term unless the variable occurs in it.
    fn bind_variable(&mut self, var: usize, term: &Term) -> (r: bool)
        ensures
            (r, final(self)@) == bind_spec(old(self)@, var, term@),
    {
        if occurs_check(var, term) {
            return false;
        }
        let prev = match self.substitution.get(&var) {
            Some(t) => Some(copy_term(t)),
            None => None,
        };
        self.trail.push(TrailEntry { variable: var, previous_value: prev });
        let ghost old_subst = self.substitution@;
        let c = copy_term(term);
        self.substitution.insert(var, c);
        proof {
            lemma_subst_insert(old_subst, var, c);
            assert(final(self)@.trail =~= old(self)@.trail.push(TrailV {
                variable: var,
                previous: if old(self)@.subst.contains_key(var) { Some(old(self)@.subst[var]) } else { None },
            }));
        }
        true
    }

    fn unify_fuel(&mut self, t1: &Term, t2: &Term, Ghost(fuel): Ghost<nat>) -> (r: bool)
        requires
            unify_f(old(self)@, t1@, t2@, fuel) is Some,
        ensures
            (r, final(self)@) == unify_f(old(self)@, t1@, t2@, fuel)->0,
        decreases fuel,
    {
        let term1 = self.resolve(t1, Ghost(fuel));
        let term2 = self.resolve(t2, Ghost(fuel));
        if terms_equal(&term1, &term2) {
            return true;
        }
        proof {
            Term::lemma_args_view(term1);
            Term::lemma_args_view(term2);
        }
        match (&term1, &term2) {
            (Term::Var(v), _) => self.bind_variable(*v, &term2),
            (_, Term::Var(v)) => self.bind_variable(*v, &term1),
            (Term::Compound(f1, args1), Term::Compound(f2, args2)) => {
                if strings_equal(f1, f2) && args1.len() == args2.len() {
                    let ghost a1 = Term::args_view(args1@);
                    let ghost a2 = Term::args_view(args2@);
                    let ghost s0 = self@;
                    proof {
                        assert(unify_f(old(self)@, t1@, t2@, fuel) == unify_args_f(s0, a1, a2, 0, (fuel - 1) as nat));
                    }
                    let mut i: usize = 0;
                    while i < args1.len()
                        invariant
                            fuel > 0,
                            i <= args1.len(),
                            args1.len() == args2.len(),
                            a1 == Term::args_view(args1@),
                            a2 == Term::args_view(args2@),
                            unify_args_f(s0, a1, a2, 0, (fuel - 1) as nat) is Some,
                            unify_f(old(self)@, t1@, t2@, fuel) == unify_args_f(s0, a1, a2, 0, (fuel - 1) as nat),
                            unify_args_f(self@, a1, a2, i as int, (fuel - 1) as nat)
                                == unify_args_f(s0, a1, a2, 0, (fuel - 1) as nat),
                        decreases args1.len() - i,
                    {
                        let ghost prev = self@;
                        let ok = self.unify_fuel(&args1[i], &args2[i], Ghost((fuel - 1) as nat));
                        proof {
                            assert(a1[i as int] == args1@[i as int]@);
                            assert(a2[i as int] == args2@[i as int]@);
                        }
                        if !ok {
                            proof {
                                assert(unify_args_f(prev, a1, a2, i as int, (fuel - 1) as nat) == Some((false, self@)));
                            }
                            return false;
                        }
                        i += 1;
                    }
                    true
                } else {
                    false
                }
            }
            _ => false,
        }
    }

    /// Unification bounded by `fuel` (see `unify_f`): `None` when the fuel
    /// runs out, and then the bindings made on the way stay.
    fn unify_within(&mut self, t1: &Term, t2: &Term, fuel: usize) -> (r: Option<bool>)
        ensures
            match r {
                Some(b) => unify_f(old(self)@, t1@, t2@, fuel as nat) == Some((b, final(self)@)),
                None => unify_f(old(self)@, t1@, t2@, fuel as nat) is None,
            },
        decreases fuel,
    {
        let term1 = match self.resolve_within(t1, fuel) {
            Some(x) => x,
            None => return None,
        };
        let term2 = match self.resolve_within(t2, fuel) {
            Some(x) => x,
            None => return None,
        };
        if terms_equal(&term1, &term2) {
            return Some(true);
        }
        proof {
            Term::lemma_args_view(term1);
            Term::lemma_args_view(term2);
        }
        match (&term1, &term2) {
            (Term::Var(v), _) => Some(self.bind_variable(*v, &term2)),
            (_, Term::Var(v)) => Some(self.bind_variable(*v, &term1)),
            (Term::Compound(f1, args1), Term::Compound(f2, args2)) => {
                if strings_equal(f1, f2) && args1.len() == args2.len() {
                    if fuel == 0 {
                        return None;
                    }
                    let ghost a1 = Term::args_view(args1@);
                    let ghost a2 = Term::args_view(args2@);
                    let ghost s0 = self@;
                    proof {
                        assert(unify_f(old(self)@, t1@, t2@, fuel as nat) == unify_args_f(s0, a1, a2, 0, (fuel - 1) as nat));
                    }
                    let mut i: usize = 0;
                    while i < args1.len()
                        invariant
                            fuel > 0,
                            i <= args1.len(),
                            args1.len() == args2.len(),
                            a1 == Term::args_view(args1@),
                            a2 == Term::args_view(args2@),
                            unify_f(old(self)@, t1@, t2@, fuel as nat) == unify_args_f(s0, a1, a2, 0, (fuel - 1) as nat),
                            unify_args_f(self@, a1, a2, i as int, (fuel - 1) as nat)
                                == unify_args_f(s0, a1, a2, 0, (fuel - 1) as nat),
                        decreases args1.len() - i,
                    {
                        let ghost prev = self@;
                        let ok = self.unify_within(&args1[i], &args2[i], fuel - 1);
                        proof {
                            assert(a1[i as int] == args1@[i as int]@);
                            assert(a2[i as int] == args2@[i as int]@);
                        }
                        match ok {
                            None => return None,
                            Some(false) => {
                                proof {
                                    assert(unify_args_f(prev, a1, a2, i as int, (fuel - 1) as nat) == Some((false, self@)));
                                }
                                return Some(false);
                            },
                            Some(true) => {},
                        }
                        i += 1;
                    }
                    Some(true)
                } else {
                    Some(false)
                }
            }
            _ => Some(false),
        }
    }

    /// Whether unifying `t1` with `t2` from this state ends within `fuel`;
    /// the machine itself is left as it is.
    fn unify_ends_within(&self, t1: &Term, t2: &Term, fuel: usize) -> (r: bool)
        ensures
            r == (unify_f(self@, t1@, t2@, fuel as nat) is Some),
    {
        let mut scratch = Machine::new(0, Vec::new());
        scratch.substitution = self.substitution.clone();
        proof {
            lemma_unify_subst_only(self@, scratch@, t1@, t2@, fuel as nat);
        }
        scratch.unify_within(t1, t2, fuel).is_some()
    }

    /// Unifies two terms (see `unify_spec`). Bindings go into the
    /// substitution and onto the trail; those made before a failure stay.
    pub fn unify(&mut self, t1: &Term, t2: &Term) -> (r: bool)
        requires
            unify_ok(old(self)@, t1@, t2@),
        ensures
            (r, final(self)@) == unify_spec(old(self)@, t1@, t2@),
    {
        let ghost n = choose|n: nat| #[trigger] unify_f(self@, t1@, t2@, n) is Some;
        self.unify_fuel(t1, t2, Ghost(n))
    }
}

/// Copies a sequence of slots.
fn copy_slots(v: &Vec<Option<Term>>) -> (r: Vec<Option<Term>>)
    ensures
        slots_view(r@) == slots_view(v@),
{
    let mut out: Vec<Option<Term>> = Vec::new();
    let mut i: usize = 0;
    while i < v.len()
        invariant
            i <= v.len(),
            out@.len() == i,
            forall|j: int| 0 <= j < i ==> opt_view(out@[j]) == opt_view(v@[j]),
        decreases v.len() - i,
    {
        out.push(copy_opt(&v[i]));
        i += 1;
    }
    proof {
        assert(slots_view(out@) =~= slots_view(v@));
    }
    out
}

/// Copies a sequence of addresses.
fn copy_addresses(v: &Vec<usize>) -> (r: Vec<usize>)
    ensures
        r@ == v@,
{
    let mut out: Vec<usize> = Vec::new();
    let mut i: usize = 0;
    while i < v.len()
        invariant
            i <= v.len(),
            out@ == v@.subrange(0, i as int),
        decreases v.len() - i,
    {
        out.push(v[i]);
        i += 1;
        proof {
            assert(out@ =~= v@.subrange(0, i as int));
        }
    }
    proof {
        assert(v@.subrange(0, v@.len() as int) =~= v@);
    }
    out
}

/// Prepends the terms of a prefix to a collection outcome.
pub open spec fn with_prefix(pre: Seq<TermV>, r: Result<Seq<TermV>, ErrorV>) -> Result<Seq<TermV>, ErrorV> {
    match r {
        Ok(rest) => Ok(pre + rest),
        Err(e) => Err(e),
    }
}

proof fn lemma_choices_push(v: Seq<ChoicePoint>, c: ChoicePoint)
    ensures
        v.push(c).map_values(|c: ChoicePoint| c@) == v.map_values(|c: ChoicePoint| c@).push(c@),
{
    assert(v.push(c).map_values(|c: ChoicePoint| c@) =~= v.map_values(|c: ChoicePoint| c@).push(c@));
}

impl Machine {
    /// Sets a register.
    fn set_register(&mut self, r: usize, v: Option<Term>)
        requires
            r < old(self).registers@.len(),
        ensures
            final(self)@ == set_reg(old(self)@, r, opt_view(v)),
    {
        let ghost old_regs = self.registers@;
        self.registers.set(r, v);
        proof {
            lemma_slots_update(old_regs, r as int, v);
        }
    }

    /// The terms of the listed registers (see `collect_terms`).
    fn collect_terms(&self, list: &Vec<usize>) -> (r: Result<Vec<Term>, MachineError>)
        ensures
            match r {
                Ok(v) => collect_terms(self@.registers, list@) == Ok::<Seq<TermV>, ErrorV>(Term::args_view(v@)),
                Err(e) => collect_terms(self@.registers, list@) == Err::<Seq<TermV>, ErrorV>(e@),
            },
    {
        let mut out: Vec<Term> = Vec::new();
        let mut i: usize = 0;
        proof {
            assert(list@.skip(0) =~= list@);
            assert(with_prefix(seq![], collect_terms(self@.registers, list@)) == collect_terms(self@.registers, list@)) by {
                match collect_terms(self@.registers, list@) {
                    Ok(rest) => { assert(Seq::<TermV>::empty() + rest =~= rest); }
                    Err(e) => {}
                }
            }
            assert(Term::args_view(out@) =~= Seq::<TermV>::empty());
        }
        while i < list.len()
            invariant
                i <= list@.len(),
                collect_terms(self@.registers, list@)
                    == with_prefix(Term::args_view(out@), collect_terms(self@.registers, list@.skip(i as int))),
            decreases list@.len() - i,
        {
            let r = list[i];
            proof {
                assert(list@.skip(i as int).drop_first() =~= list@.skip(i + 1));
                assert(list@.skip(i as int)[0] == r);
            }
            if r >= self.registers.len() {
                return Err(MachineError::RegisterOutOfBounds(r));
            }
            match &self.registers[r] {
                None => {
                    return Err(MachineError::UninitializedRegister(r));
                }
                Some(t) => {
                    let ghost pre = Term::args_view(out@);
                    let c = copy_term(t);
                    out.push(c);
                    proof {
                        assert(Term::args_view(out@) =~= pre.push(c@));
                        match collect_terms(self@.registers, list@.skip(i + 1)) {
                            Ok(rest) => {
                                assert(pre + (seq![c@] + rest) =~= pre.push(c@) + rest);
                            }
                            Err(e) => {}
                        }
                    }
                    i += 1;
                }
            }
        }
        proof {
            assert(list@.skip(i as int) =~= Seq::<usize>::empty());
            assert(Term::args_view(out@) + Seq::<TermV>::empty() =~= Term::args_view(out@));
        }
        Ok(out)
    }

    /// A choice point that saves the current state.
    fn save_state(&self, alternatives: Option<Vec<usize>>) -> (c: ChoicePoint)
        ensures
            c@ == save(self@, match alternatives { Some(v) => Some(v@), None => None }),
    {
        ChoicePoint {
            saved_pc: self.pc,
            saved_registers: copy_slots(&self.registers),
            saved_substitution: self.substitution.clone(),
            saved_trail_len: self.trail.len(),
            alternative_clauses: alternatives,
            call_level: self.control_stack.len(),
        }
    }

    /// Jumps to the first of a non-empty list of clauses, keeping the
    /// others in a new choice point.
    fn jump_to_clauses(&mut self, clauses: Vec<usize>)
        requires
            clauses@.len() > 0,
        ensures
            final(self)@ == jump(old(self)@, clauses@),
    {
        let mut alternatives = clauses;
        let ghost all = alternatives@;
        let jump_to = alternatives.remove(0);
        let alternative_clauses = if alternatives.len() == 0 { None } else { Some(alternatives) };
        proof {
            assert(all.drop_first() =~= all.subrange(1, all.len() as int));
        }
        let cp = self.save_state(alternative_clauses);
        let ghost old_choices = self.choice_stack@;
        self.choice_stack.push(cp);
        self.pc = jump_to;
        proof {
            lemma_choices_push(old_choices, cp);
        }
    }

    pub fn execute_put_const(&mut self, register: usize, value: i32) -> (r: Result<(), MachineError>)
        ensures
            (final(self)@, res_view(r)) == op_put_const(old(self)@, register, value),
    {
        if register < self.registers.len() {
            self.set_register(register, Some(Term::Const(value)));
            Ok(())
        } else {
            Err(MachineError::RegisterOutOfBounds(register))
        }
    }

    pub fn execute_put_str(&mut self, register: usize, value: String) -> (r: Result<(), MachineError>)
        ensures
            (final(self)@, res_view(r)) == op_put_str(old(self)@, register, value@),
    {
        if register < self.registers.len() {
            self.set_register(register, Some(Term::Str(value)));
            Ok(())
        } else {
            Err(MachineError::RegisterOutOfBounds(register))
        }
    }

    pub fn execute_put_var(&mut self, register: usize, var_id: usize, name: String) -> (r: Result<(), MachineError>)
        ensures
            (final(self)@, res_view(r)) == op_put_var(old(self)@, register, var_id, name@),
    {
        if register < self.registers.len() {
            self.set_register(register, Some(Term::Var(var_id)));
            let ghost old_names = self.variable_names@;
            let ghost nv = name@;
            self.variable_names.insert(var_id, name);
            proof {
                assert(self.variable_names@.map_values(|s: String| s@) =~= old_names.map_values(|s: String| s@).insert(var_id, nv));
            }
            Ok(())
        } else {
            Err(MachineError::RegisterOutOfBounds(register))
        }
    }

    /// Unifies `a` with `b`, reporting a failure as an error that names them.
    fn unify_or_fail(&mut self, a: &Term, b: &Term) -> (r: Result<(), MachineError>)
        requires
            unify_ok(old(self)@, a@, b@),
        ensures
            (final(self)@, res_view(r)) == unify_step(old(self)@, a@, b@),
    {
        if self.unify(a, b) {
            Ok(())
        } else {
            Err(MachineError::UnificationFailed(unify_failure(a, b)))
        }
    }

    /// Unifies the term of a register with `b`.
    fn get_with(&mut self, register: usize, b: Term) -> (r: Result<(), MachineError>)
        requires
            op_get_with_ok(old(self)@, register, b@),
        ensures
            (final(self)@, res_view(r)) == op_get_with(old(self)@, register, b@),
    {
        if register >= self.registers.len() {
            return Err(MachineError::RegisterOutOfBounds(register));
        }
        match copy_opt(&self.registers[register]) {
            Some(term) => self.unify_or_fail(&term, &b),
            None => Err(MachineError::UninitializedRegister(register)),
        }
    }

    pub fn execute_get_const(&mut self, register: usize, value: i32) -> (r: Result<(), MachineError>)
        requires
            op_get_with_ok(old(self)@, register, TermV::Const(value)),
        ensures
            (final(self)@, res_view(r)) == op_get_with(old(self)@, register, TermV::Const(value)),
    {
        self.get_with(register, Term::Const(value))
    }

    pub fn execute_get_str(&mut self, register: usize, value: String) -> (r: Result<(), MachineError>)
        requires
            op_get_with_ok(old(self)@, register, TermV::Str(value@)),
        ensures
            (final(self)@, res_view(r)) == op_get_with(old(self)@, register, TermV::Str(value@)),
    {
        self.get_with(register, Term::Str(value))
    }

    pub fn execute_get_var(&mut self, register: usize, var_id: usize, name: String) -> (r: Result<(), MachineError>)
        requires
            op_get_var_ok(old(self)@, register, var_id, name@),
        ensures
            (final(self)@, res_view(r)) == op_get_var(old(self)@, register, var_id, name@),
    {
        if register >= self.registers.len() {
            return Err(MachineError::RegisterOutOfBounds(register));
        }
        if !self.variable_names.contains_key(&var_id) {
            let ghost old_names = self.variable_names@;
            let ghost nv = name@;
            self.variable_names.insert(var_id, name);
            proof {
                assert(self.variable_names@.map_values(|s: String| s@) =~= old_names.map_values(|s: String| s@).insert(var_id, nv));
            }
        }
        match copy_opt(&self.registers[register]) {
            Some(term) => {
                let goal = Term::Var(var_id);
                self.unify_or_fail(&goal, &term)
            }
            None => {
                self.set_register(register, Some(Term::Var(var_id)));
                Ok(())
            }
        }
    }

    /// The clause addresses of a predicate, copied.
    fn clauses_of(&self, predicate: &String) -> (r: Option<Vec<usize>>)
        ensures
            match r {
                Some(v) => self@.preds.contains_key(predicate@) && v@ == self@.preds[predicate@],
                None => !self@.preds.contains_key(predicate@),
            },
    {
        match self.predicate_table.get(predicate) {
            Some(v) => Some(copy_addresses(v)),
            None => None,
        }
    }

    /// Whether a predicate is built in (see `is_builtin`).
    fn builtin(predicate: &String) -> (r: bool)
        ensures
            r == is_builtin(predicate@),
    {
        string_is(predicate, "print") || string_is(predicate, "print_subst")
            || string_is(predicate, "write") || string_is(predicate, "nl")
    }

    /// Runs a built-in predicate (see `run_builtin`).
    fn run_builtin(&mut self, predicate: &String)
        requires
            is_builtin(predicate@),
        ensures
            final(self)@ == run_builtin(old(self)@, predicate@),
    {
        proof {
            reveal_strlit("write");
            reveal_strlit("nl");
            reveal_strlit("print");
            reveal_strlit("\n");
        }
        if string_is(predicate, "write") {
            if self.registers.len() > 0 {
                match &self.registers[0] {
                    Some(t) => push_term_display(&mut self.output, t),
                    None => {},
                }
            }
        } else if string_is(predicate, "nl") {
            push_str(&mut self.output, "\n");
        } else if string_is(predicate, "print") {
            push_registers_text(&mut self.output, &self.registers, &self.variable_names);
        } else {
            push_subst_text(&mut self.output, &self.substitution, &self.variable_names);
        }
        proof {
            assert(self@ =~= run_builtin(old(self)@, predicate@));
        }
    }

    pub fn execute_call(&mut self, predicate: String) -> (r: Result<(), MachineError>)
        ensures
            (final(self)@, res_view(r)) == op_call(old(self)@, predicate@),
    {
        if Self::builtin(&predicate) {
            self.run_builtin(&predicate);
            return Ok(());
        }
        match self.clauses_of(&predicate) {
            Some(clauses) => {
                if clauses.len() == 0 {
                    return Err(MachineError::PredicateClauseNotFound(predicate));
                }
                let ghost old_control = self.control_stack@;
                self.control_stack.push(Frame { return_pc: self.pc });
                proof {
                    assert(self.control_stack@.map_values(|f: Frame| f.return_pc)
                        =~= old_control.map_values(|f: Frame| f.return_pc).push(self.pc));
                }
                self.jump_to_clauses(clauses);
                Ok(())
            }
            None => Err(MachineError::PredicateNotFound(predicate)),
        }
    }

    pub fn execute_tail_call(&mut self, predicate: String) -> (r: Result<(), MachineError>)
        ensures
            (final(self)@, res_view(r)) == op_tail_call(old(self)@, predicate@),
    {
        let ghost old_envs = self.environment_stack@;
        let _ = self.environment_stack.pop();
        proof {
            if old_envs.len() > 0 {
                assert(self.environment_stack@.map_values(|e: Vec<Option<Term>>| slots_view(e@))
                    =~= old_envs.map_values(|e: Vec<Option<Term>>| slots_view(e@)).drop_last());
            }
        }
        if Self::builtin(&predicate) {
            self.run_builtin(&predicate);
            return Ok(());
        }
        match self.clauses_of(&predicate) {
            Some(clauses) => {
                if clauses.len() == 0 {
                    return Err(MachineError::PredicateClauseNotFound(predicate));
                }
                self.jump_to_clauses(clauses);
                Ok(())
            }
            None => Err(MachineError::PredicateNotFound(predicate)),
        }
    }

    pub fn execute_proceed(&mut self) -> (r: Result<(), MachineError>)
        ensures
            (final(self)@, res_view(r)) == op_proceed(old(self)@),
    {
        let ghost old_control = self.control_stack@;
        if let Some(frame) = self.control_stack.pop() {
            self.pc = frame.return_pc;
            proof {
                assert(self.control_stack@.map_values(|f: Frame| f.return_pc)
                    =~= old_control.map_values(|f: Frame| f.return_pc).drop_last());
            }
        }
        Ok(())
    }

    pub fn execute_choice(&mut self) -> (r: Result<(), MachineError>)
        ensures
            (final(self)@, res_view(r)) == op_choice(old(self)@),
    {
        let cp = self.save_state(None);
        let ghost old_choices = self.choice_stack@;
        self.choice_stack.push(cp);
        proof {
            lemma_choices_push(old_choices, cp);
        }
        Ok(())
    }

    pub fn execute_allocate(&mut self, n: usize) -> (r: Result<(), MachineError>)
        ensures
            (final(self)@, res_view(r)) == op_allocate(old(self)@, n),
    {
        let mut frame: Vec<Option<Term>> = Vec::new();
        let mut i: usize = 0;
        while i < n
            invariant
                i <= n,
                frame@.len() == i,
                forall|j: int| 0 <= j < i ==> frame@[j] is None,
            decreases n - i,
        {
            frame.push(None);
            i += 1;
        }
        let ghost old_envs = self.environment_stack@;
        proof {
            assert(slots_view(frame@) =~= Seq::new(n as nat, |i: int| None::<TermV>));
        }
        self.environment_stack.push(frame);
        proof {
            assert(self.environment_stack@.map_values(|e: Vec<Option<Term>>| slots_view(e@))
                =~= old_envs.map_values(|e: Vec<Option<Term>>| slots_view(e@)).push(Seq::new(n as nat, |i: int| None::<TermV>)));
        }
        Ok(())
    }

    pub fn execute_deallocate(&mut self) -> (r: Result<(), MachineError>)
        ensures
            (final(self)@, res_view(r)) == op_deallocate(old(self)@),
    {
        let ghost old_envs = self.environment_stack@;
        if self.environment_stack.pop().is_some() {
            proof {
                assert(self.environment_stack@.map_values(|e: Vec<Option<Term>>| slots_view(e@))
                    =~= old_envs.map_values(|e: Vec<Option<Term>>| slots_view(e@)).drop_last());
            }
            Ok(())
        } else {
            Err(MachineError::EnvironmentMissing)
        }
    }

    pub fn execute_arithmetic_is(&mut self, target: usize, expression: Expr) -> (r: Result<(), MachineError>)
        requires
            eval(expression) is Some,
        ensures
            (final(self)@, res_view(r)) == op_arithmetic_is(old(self)@, target, expression),
    {
        let result = evaluate(&expression);
        if target < self.registers.len() {
            self.set_register(target, Some(Term::Const(result)));
            Ok(())
        } else {
            Err(MachineError::RegisterOutOfBounds(target))
        }
    }

    pub fn execute_set_local(&mut self, index: usize, value: Term) -> (r: Result<(), MachineError>)
        ensures
            (final(self)@, res_view(r)) == op_set_local(old(self)@, index, value@),
    {
        let ghost old_envs = self.environment_stack@;
        match self.environment_stack.pop() {
            Some(mut env) => {
                if index < env.len() {
                    let ghost old_env = env@;
                    env.set(index, Some(value));
                    self.environment_stack.push(env);
                    proof {
                        lemma_slots_update(old_env, index as int, Some(value));
                        assert(self.environment_stack@.map_values(|e: Vec<Option<Term>>| slots_view(e@))
                            =~= old_envs.map_values(|e: Vec<Option<Term>>| slots_view(e@)).update(
                                old_envs.len() - 1, slots_view(old_env).update(index as int, Some(value@))));
                    }
                    Ok(())
                } else {
                    self.environment_stack.push(env);
                    proof {
                        assert(self.environment_stack@ =~= old_envs);
                    }
                    Err(MachineError::RegisterOutOfBounds(index))
                }
            }
            None => Err(MachineError::EnvironmentMissing),
        }
    }

    pub fn execute_get_local(&mut self, index: usize, register: usize) -> (r: Result<(), MachineError>)
        requires
            op_get_local_ok(old(self)@, index, register),
        ensures
            (final(self)@, res_view(r)) == op_get_local(old(self)@, index, register),
    {
        let n = self.environment_stack.len();
        if n == 0 {
            return Err(MachineError::EnvironmentMissing);
        }
        let found = {
            let env = &self.environment_stack[n - 1];
            if index < env.len() {
                Some(copy_opt(&env[index]))
            } else {
                None
            }
        };
        match found {
            None => Err(MachineError::RegisterOutOfBounds(index)),
            Some(None) => Err(MachineError::UninitializedRegister(index)),
            Some(Some(term)) => {
                if register >= self.registers.len() {
                    return Err(MachineError::RegisterOutOfBounds(register));
                }
                match copy_opt(&self.registers[register]) {
                    Some(reg_term) => self.unify_or_fail(&reg_term, &term),
                    None => {
                        self.set_register(register, Some(term));
                        Ok(())
                    }
                }
            }
        }
    }

    pub fn execute_fail(&mut self) -> (r: Result<(), MachineError>)
        requires
            op_fail_ok(old(self)@),
        ensures
            (final(self)@, res_view(r)) == op_fail(old(self)@),
    {
        let ghost old_choices = self.choice_stack@;
        match self.choice_stack.pop() {
            Some(cp) => {
                proof {
                    assert(old_choices.map_values(|c: ChoicePoint| c@).last() == cp@);
                    assert(self.choice_stack@.map_values(|c: ChoicePoint| c@)
                        =~= old_choices.map_values(|c: ChoicePoint| c@).drop_last());
                }
                let mut trail: Vec<TrailEntry> = Vec::new();
                std::mem::swap(&mut trail, &mut self.trail);
                let mut subst: HashMap<usize, Term> = HashMap::new();
                std::mem::swap(&mut subst, &mut self.substitution);
                let ghost old_trail = trail@;
                while trail.len() > cp.saved_trail_len
                    invariant
                        trail@ == old_trail.subrange(0, trail@.len() as int),
                        trail@.len() <= old_trail.len(),
                        trail@.len() >= cp.saved_trail_len || trail@.len() == old_trail.len(),
                    decreases trail@.len(),
                {
                    if let Some(entry) = trail.pop() {
                        match entry.previous_value {
                            Some(prev) => {
                                subst.insert(entry.variable, prev);
                            }
                            None => {
                                subst.remove(&entry.variable);
                            }
                        }
                    }
                    proof {
                        assert(trail@ =~= old_trail.subrange(0, trail@.len() as int));
                    }
                }
                proof {
                    if old_trail.len() > cp.saved_trail_len {
                        assert(trail@.len() == cp.saved_trail_len);
                        assert(trail@.map_values(|e: TrailEntry| e@)
                            =~= old_trail.map_values(|e: TrailEntry| e@).subrange(0, cp.saved_trail_len as int));
                    } else {
                        assert(trail@ =~= old_trail);
                    }
                }
                self.trail = trail;
                let ghost tv = self.trail@.map_values(|e: TrailEntry| e@);
                self.registers = cp.saved_registers;
                self.substitution = cp.saved_substitution;
                self.pc = cp.saved_pc + 2;
                proof {
                    let s = old(self)@;
                    let c = s.choices.last();
                    assert(c == cp@);
                    assert(self@.registers == c.saved_registers);
                    assert(self@.subst == c.saved_subst);
                    assert(self@.trail == tv);
                    assert(self@.trail == (if s.trail.len() > c.saved_trail_len { s.trail.subrange(0, c.saved_trail_len as int) } else { s.trail }));
                    assert(self@.choices == s.choices.drop_last());
                    assert(self@.pc == (c.saved_pc + 2) as usize);
                }
                Ok(())
            }
            None => Err(MachineError::NoChoicePoint),
        }
    }

    pub fn execute_get_structure(&mut self, register: usize, functor: String, arity: usize) -> (r: Result<(), MachineError>)
        ensures
            (final(self)@, res_view(r)) == op_get_structure(old(self)@, register, functor@, arity),
    {
        if register >= self.registers.len() {
            return Err(MachineError::RegisterOutOfBounds(register));
        }
        proof {
            if let Some(t) = self.registers@[register as int] {
                Term::lemma_args_view(t);
            }
        }
        match &self.registers[register] {
            Some(Term::Compound(f, args)) => {
                if strings_equal(f, &functor) && args.len() == arity {
                    Ok(())
                } else {
                    Err(MachineError::StructureMismatch {
                        expected_functor: functor,
                        expected_arity: arity,
                        found_functor: f.clone(),
                        found_arity: args.len(),
                    })
                }
            }
            Some(_) => Err(MachineError::NotACompoundTerm(register)),
            None => Err(MachineError::UninitializedRegister(register)),
        }
    }

    /// Jumps to the clauses indexed under a key (see `index_jump`).
    fn jump_indexed(&mut self, predicate: String, key: Vec<Term>) -> (r: Result<(), MachineError>)
        requires
            index_jump_ok(old(self)@, predicate@, Term::args_view(key@)),
        ensures
            (final(self)@, res_view(r)) == index_jump(old(self)@, predicate@, Term::args_view(key@)),
    {
        let found = match self.index_table.lookup(&predicate, &key) {
            None => None,
            Some(None) => Some(None),
            Some(Some(v)) => Some(Some(copy_addresses(v))),
        };
        match found {
            Some(Some(clauses)) => {
                if clauses.len() > 0 {
                    self.jump_to_clauses(clauses);
                    Ok(())
                } else {
                    Err(MachineError::NoIndexedClause(predicate, copy_term(&key[0])))
                }
            }
            Some(None) => Err(MachineError::NoIndexEntry(predicate, copy_term(&key[0]))),
            None => Err(MachineError::PredicateNotInIndex(predicate)),
        }
    }

    pub fn execute_indexed_call(&mut self, predicate: String, index_register: usize) -> (r: Result<(), MachineError>)
        ensures
            (final(self)@, res_view(r)) == op_indexed_call(old(self)@, predicate@, index_register),
    {
        if index_register >= self.registers.len() {
            return Err(MachineError::RegisterOutOfBounds(index_register));
        }
        match copy_opt(&self.registers[index_register]) {
            None => Err(MachineError::UninitializedRegister(index_register)),
            Some(key_term) => {
                let mut key: Vec<Term> = Vec::new();
                let ghost kv = key_term@;
                key.push(key_term);
                proof {
                    assert(Term::args_view(key@) =~= seq![kv]);
                }
                self.jump_indexed(predicate, key)
            }
        }
    }

    pub fn execute_multi_indexed_call(&mut self, predicate: String, index_registers: Vec<usize>) -> (r: Result<(), MachineError>)
        requires
            op_multi_indexed_call_ok(old(self)@, predicate@, index_registers@),
        ensures
            (final(self)@, res_view(r)) == op_multi_indexed_call(old(self)@, predicate@, index_registers@),
    {
        match self.collect_terms(&index_registers) {
            Err(e) => Err(e),
            Ok(key) => self.jump_indexed(predicate, key),
        }
    }

    pub fn execute_assert_clause(&mut self, predicate: String, address: usize) -> (r: Result<(), MachineError>)
        ensures
            (final(self)@, res_view(r)) == op_assert_clause(old(self)@, predicate@, address),
    {
        self.predicate_table.push(predicate, address);
        Ok(())
    }

    /// Removes a clause address from every key of a predicate's index.
    fn update_index_table_on_retract(&mut self, predicate: &String, clause_address: usize)
        ensures
            final(self)@ == (MState {
                index: if old(self)@.index.contains_key(predicate@) {
                    old(self)@.index.insert(predicate@, old(self)@.index[predicate@].map_values(|l: Seq<usize>| remove_first(l, clause_address)))
                } else {
                    old(self)@.index
                },
                ..old(self)@
            }),
    {
        self.index_table.retract(predicate, clause_address);
    }

    pub fn execute_retract_clause(&mut self, predicate: String, address: usize) -> (r: Result<(), MachineError>)
        ensures
            (final(self)@, res_view(r)) == op_retract_clause(old(self)@, predicate@, address),
    {
        match self.predicate_table.remove(&predicate, address) {
            Some(true) => {
                self.update_index_table_on_retract(&predicate, address);
                Ok(())
            }
            Some(false) => {
                proof {
                    assert(self@.preds =~= old(self)@.preds);
                }
                Err(MachineError::PredicateClauseNotFound(predicate))
            }
            None => Err(MachineError::PredicateNotFound(predicate)),
        }
    }

    pub fn execute_cut(&mut self) -> (r: Result<(), MachineError>)
        ensures
            (final(self)@, res_view(r)) == op_cut(old(self)@),
    {
        let ghost all = self@.choices;
        let level = self.control_stack.len();
        let mut taken: Vec<ChoicePoint> = Vec::new();
        std::mem::swap(&mut taken, &mut self.choice_stack);
        let mut rev: Vec<ChoicePoint> = Vec::new();
        proof {
            assert(rev@.map_values(|c: ChoicePoint| c@).reverse() =~= Seq::<ChoiceV>::empty());
            assert(taken@.map_values(|c: ChoicePoint| c@) + Seq::<ChoiceV>::empty() =~= all);
            assert(self.choice_stack@.map_values(|c: ChoicePoint| c@) =~= Seq::<ChoiceV>::empty());
            assert(self@ =~= (MState { choices: Seq::empty(), ..old(self)@ }));
        }
        while taken.len() > 0
            invariant
                taken@.map_values(|c: ChoicePoint| c@) + rev@.map_values(|c: ChoicePoint| c@).reverse() == all,
                all == old(self)@.choices,
                level == old(self)@.control.len(),
                self@ == (MState { choices: Seq::empty(), ..old(self)@ }),
            decreases taken.len(),
        {
            let ghost po = taken@.map_values(|c: ChoicePoint| c@);
            let ghost pr = rev@.map_values(|c: ChoicePoint| c@);
            let x = taken.pop().unwrap();
            rev.push(x);
            proof {
                assert(taken@.map_values(|c: ChoicePoint| c@) =~= po.drop_last());
                assert(rev@.map_values(|c: ChoicePoint| c@) =~= pr.push(x@));
                assert(rev@.map_values(|c: ChoicePoint| c@).reverse() =~= seq![x@] + pr.reverse());
                assert(po =~= po.drop_last().push(x@));
                assert(taken@.map_values(|c: ChoicePoint| c@) + rev@.map_values(|c: ChoicePoint| c@).reverse() =~= po + pr.reverse());
            }
        }
        proof {
            assert(rev@.map_values(|c: ChoicePoint| c@).reverse() =~= all);
            assert(self.choice_stack@.map_values(|c: ChoicePoint| c@) =~= Seq::<ChoiceV>::empty());
            assert(all.take(0) =~= Seq::<ChoiceV>::empty());
        }
        let ghost n = all.len();
        while rev.len() > 0
            invariant
                level == self.control_stack@.len(),
                n == all.len(),
                all == old(self)@.choices,
                self@ == (MState { choices: self@.choices, ..old(self)@ }),
                rev@.len() <= n,
                rev@.map_values(|c: ChoicePoint| c@).reverse() == all.skip(n - rev@.len()),
                self.choice_stack@.map_values(|c: ChoicePoint| c@) == keep_below(all.take(n - rev@.len()), level as nat),
            decreases rev.len(),
        {
            let ghost k = n - rev@.len();
            let ghost pr = rev@.map_values(|c: ChoicePoint| c@);
            let ghost pc = self.choice_stack@.map_values(|c: ChoicePoint| c@);
            let x = rev.pop().unwrap();
            proof {
                assert(pr.reverse()[0] == pr[pr.len() - 1]);
                assert(pr.reverse().len() == n - k);
                assert(all.skip(k)[0] == all[k]);
                assert(x@ == all[k]);
                assert(rev@.map_values(|c: ChoicePoint| c@) =~= pr.drop_last());
                assert(pr.drop_last().reverse() =~= pr.reverse().skip(1));
                assert(all.skip(k).skip(1) =~= all.skip(k + 1));
                assert(rev@.map_values(|c: ChoicePoint| c@).reverse() =~= all.skip(k + 1));
                assert(all.take(k + 1).drop_last() =~= all.take(k));
                assert(all.take(k + 1).last() == all[k]);
            }
            if x.call_level < level {
                self.choice_stack.push(x);
                proof {
                    assert(self.choice_stack@.map_values(|c: ChoicePoint| c@) =~= pc.push(x@));
                }
            }
        }
        proof {
            assert(all.take(n as int) =~= all);
        }
        Ok(())
    }

    pub fn execute_build_compound(&mut self, target: usize, functor: String, arg_registers: Vec<usize>) -> (r: Result<(), MachineError>)
        ensures
            (final(self)@, res_view(r)) == op_build_compound(old(self)@, target, functor@, arg_registers@),
    {
        match self.collect_terms(&arg_registers) {
            Err(e) => Err(e),
            Ok(args) => {
                if target < self.registers.len() {
                    let t = Term::Compound(functor, args);
                    proof {
                        Term::lemma_args_view(t);
                    }
                    self.set_register(target, Some(t));
                    Ok(())
                } else {
                    Err(MachineError::RegisterOutOfBounds(target))
                }
            }
        }
    }

    pub fn execute_move(&mut self, src: usize, dst: usize) -> (r: Result<(), MachineError>)
        ensures
            (final(self)@, res_view(r)) == op_move(old(self)@, src, dst),
    {
        if src >= self.registers.len() {
            return Err(MachineError::RegisterOutOfBounds(src));
        }
        if dst >= self.registers.len() {
            return Err(MachineError::RegisterOutOfBounds(dst));
        }
        let v = copy_opt(&self.registers[src]);
        if v.is_none() {
            return Err(MachineError::UninitializedRegister(src));
        }
        self.set_register(dst, v);
        Ok(())
    }
}

/// Two instructions with the same kind and equal operand values.
pub open spec fn same_instruction(a: Instruction, b: Instruction) -> bool {
    match (a, b) {
        (Instruction::PutConst { register: r1, value: v1 }, Instruction::PutConst { register: r2, value: v2 }) => r1 == r2 && v1 == v2,
        (Instruction::PutVar { register: r1, var_id: i1, name: n1 }, Instruction::PutVar { register: r2, var_id: i2, name: n2 }) => r1 == r2 && i1 == i2 && n1@ == n2@,
        (Instruction::GetConst { register: r1, value: v1 }, Instruction::GetConst { register: r2, value: v2 }) => r1 == r2 && v1 == v2,
        (Instruction::GetVar { register: r1, var_id: i1, name: n1 }, Instruction::GetVar { register: r2, var_id: i2, name: n2 }) => r1 == r2 && i1 == i2 && n1@ == n2@,
        (Instruction::Call { predicate: p1 }, Instruction::Call { predicate: p2 }) => p1@ == p2@,
        (Instruction::Proceed, Instruction::Proceed) => true,
        (Instruction::Choice, Instruction::Choice) => true,
        (Instruction::Fail, Instruction::Fail) => true,
        (Instruction::BuildCompound { target: t1, functor: f1, arg_registers: a1 }, Instruction::BuildCompound { target: t2, functor: f2, arg_registers: a2 }) => t1 == t2 && f1@ == f2@ && a1@ == a2@,
        (Instruction::GetStructure { register: r1, functor: f1, arity: a1 }, Instruction::GetStructure { register: r2, functor: f2, arity: a2 }) => r1 == r2 && f1@ == f2@ && a1 == a2,
        (Instruction::Allocate { n: n1 }, Instruction::Allocate { n: n2 }) => n1 == n2,
        (Instruction::Deallocate, Instruction::Deallocate) => true,
        (Instruction::SetLocal { index: i1, value: v1 }, Instruction::SetLocal { index: i2, value: v2 }) => i1 == i2 && v1@ == v2@,
        (Instruction::GetLocal { index: i1, register: r1 }, Instruction::GetLocal { index: i2, register: r2 }) => i1 == i2 && r1 == r2,
        (Instruction::TailCall { predicate: p1 }, Instruction::TailCall { predicate: p2 }) => p1@ == p2@,
        (Instruction::IndexedCall { predicate: p1, index_register: r1 }, Instruction::IndexedCall { predicate: p2, index_register: r2 }) => p1@ == p2@ && r1 == r2,
        (Instruction::ArithmeticIs { target: t1, expression: e1 }, Instruction::ArithmeticIs { target: t2, expression: e2 }) => t1 == t2 && e1 == e2,
        (Instruction::AssertClause { predicate: p1, address: a1 }, Instruction::AssertClause { predicate: p2, address: a2 }) => p1@ == p2@ && a1 == a2,
        (Instruction::RetractClause { predicate: p1, address: a1 }, Instruction::RetractClause { predicate: p2, address: a2 }) => p1@ == p2@ && a1 == a2,
        (Instruction::Cut, Instruction::Cut) => true,
        (Instruction::PutStr { register: r1, value: v1 }, Instruction::PutStr { register: r2, value: v2 }) => r1 == r2 && v1@ == v2@,
        (Instruction::GetStr { register: r1, value: v1 }, Instruction::GetStr { register: r2, value: v2 }) => r1 == r2 && v1@ == v2@,
        (Instruction::MultiIndexedCall { predicate: p1, index_registers: a1 }, Instruction::MultiIndexedCall { predicate: p2, index_registers: a2 }) => p1@ == p2@ && a1@ == a2@,
        (Instruction::Move { src: s1, dst: d1 }, Instruction::Move { src: s2, dst: d2 }) => s1 == s2 && d1 == d2,
        (Instruction::Halt, Instruction::Halt) => true,
        _ => false,
    }
}

/// The value of an instruction: strings as character sequences, vectors as
/// sequences, terms by their values.
pub enum InstrV {
    PutConst { register: usize, value: i32 },
    PutVar { register: usize, var_id: usize, name: Seq<char> },
    GetConst { register: usize, value: i32 },
    GetVar { register: usize, var_id: usize, name: Seq<char> },
    Call { predicate: Seq<char> },
    Proceed,
    Choice,
    Fail,
    BuildCompound { target: usize, functor: Seq<char>, arg_registers: Seq<usize> },
    GetStructure { register: usize, functor: Seq<char>, arity: usize },
    Allocate { n: usize },
    Deallocate,
    SetLocal { index: usize, value: TermV },
    GetLocal { index: usize, register: usize },
    TailCall { predicate: Seq<char> },
    IndexedCall { predicate: Seq<char>, index_register: usize },
    ArithmeticIs { target: usize, expression: Expr },
    AssertClause { predicate: Seq<char>, address: usize },
    RetractClause { predicate: Seq<char>, address: usize },
    Cut,
    PutStr { register: usize, value: Seq<char> },
    GetStr { register: usize, value: Seq<char> },
    MultiIndexedCall { predicate: Seq<char>, index_registers: Seq<usize> },
    Move { src: usize, dst: usize },
    Halt,
}

impl View for Instruction {
    type V = InstrV;

    open spec fn view(&self) -> InstrV {
        match self {
            Instruction::PutConst { register, value } => InstrV::PutConst { register: *register, value: *value },
            Instruction::PutVar { register, var_id, name } => InstrV::PutVar { register: *register, var_id: *var_id, name: name@ },
            Instruction::GetConst { register, value } => InstrV::GetConst { register: *register, value: *value },
            Instruction::GetVar { register, var_id, name } => InstrV::GetVar { register: *register, var_id: *var_id, name: name@ },
            Instruction::Call { predicate } => InstrV::Call { predicate: predicate@ },
            Instruction::Proceed => InstrV::Proceed,
            Instruction::Choice => InstrV::Choice,
            Instruction::Fail => InstrV::Fail,
            Instruction::BuildCompound { target, functor, arg_registers } =>
                InstrV::BuildCompound { target: *target, functor: functor@, arg_registers: arg_registers@ },
            Instruction::GetStructure { register, functor, arity } =>
                InstrV::GetStructure { register: *register, functor: functor@, arity: *arity },
            Instruction::Allocate { n } => InstrV::Allocate { n: *n },
            Instruction::Deallocate => InstrV::Deallocate,
            Instruction::SetLocal { index, value } => InstrV::SetLocal { index: *index, value: value@ },
            Instruction::GetLocal { index, register } => InstrV::GetLocal { index: *index, register: *register },
            Instruction::TailCall { predicate } => InstrV::TailCall { predicate: predicate@ },
            Instruction::IndexedCall { predicate, index_register } =>
                InstrV::IndexedCall { predicate: predicate@, index_register: *index_register },
            Instruction::ArithmeticIs { target, expression } => InstrV::ArithmeticIs { target: *target, expression: *expression },
            Instruction::AssertClause { predicate, address } => InstrV::AssertClause { predicate: predicate@, address: *address },
            Instruction::RetractClause { predicate, address } => InstrV::RetractClause { predicate: predicate@, address: *address },
            Instruction::Cut => InstrV::Cut,
            Instruction::PutStr { register, value } => InstrV::PutStr { register: *register, value: value@ },
            Instruction::GetStr { register, value } => InstrV::GetStr { register: *register, value: value@ },
            Instruction::MultiIndexedCall { predicate, index_registers } =>
                InstrV::MultiIndexedCall { predicate: predicate@, index_registers: index_registers@ },
            Instruction::Move { src, dst } => InstrV::Move { src: *src, dst: *dst },
            Instruction::Halt => InstrV::Halt,
        }
    }
}

/// The values of a sequence of instructions.
pub open spec fn program_view(code: Seq<Instruction>) -> Seq<InstrV> {
    Seq::new(code.len(), |i: int| code[i]@)
}

/// Instructions with the same kind and operand values have the same value.
pub proof fn lemma_same_view(a: Instruction, b: Instruction)
    requires
        same_instruction(a, b),
    ensures
        a@ == b@,
{
}

/// Instructions with the same kind and operand values act the same.
pub proof fn lemma_same_instruction(a: Instruction, b: Instruction, s: MState)
    requires
        same_instruction(a, b),
    ensures
        exec_spec(s, a) == exec_spec(s, b),
        exec_ok(s, a) == exec_ok(s, b),
{
}

impl Instruction {
    /// Copies an instruction.
    pub fn copy(&self) -> (r: Instruction)
        ensures
            same_instruction(r, *self),
    {
        match self {
            Instruction::PutConst { register, value } => Instruction::PutConst { register: *register, value: *value },
            Instruction::PutVar { register, var_id, name } => Instruction::PutVar { register: *register, var_id: *var_id, name: name.clone() },
            Instruction::GetConst { register, value } => Instruction::GetConst { register: *register, value: *value },
            Instruction::GetVar { register, var_id, name } => Instruction::GetVar { register: *register, var_id: *var_id, name: name.clone() },
            Instruction::Call { predicate } => Instruction::Call { predicate: predicate.clone() },
            Instruction::Proceed => Instruction::Proceed,
            Instruction::Choice => Instruction::Choice,
            Instruction::Fail => Instruction::Fail,
            Instruction::BuildCompound { target, functor, arg_registers } => Instruction::BuildCompound {
                target: *target,
                functor: functor.clone(),
                arg_registers: copy_addresses(arg_registers),
            },
            Instruction::GetStructure { register, functor, arity } => Instruction::GetStructure {
                register: *register,
                functor: functor.clone(),
                arity: *arity,
            },
            Instruction::Allocate { n } => Instruction::Allocate { n: *n },
            Instruction::Deallocate => Instruction::Deallocate,
            Instruction::SetLocal { index, value } => Instruction::SetLocal { index: *index, value: copy_term(value) },
            Instruction::GetLocal { index, register } => Instruction::GetLocal { index: *index, register: *register },
            Instruction::TailCall { predicate } => Instruction::TailCall { predicate: predicate.clone() },
            Instruction::IndexedCall { predicate, index_register } => Instruction::IndexedCall {
                predicate: predicate.clone(),
                index_register: *index_register,
            },
            Instruction::ArithmeticIs { target, expression } => Instruction::ArithmeticIs { target: *target, expression: copy_expr(expression) },
            Instruction::AssertClause { predicate, address } => Instruction::AssertClause { predicate: predicate.clone(), address: *address },
            Instruction::RetractClause { predicate, address } => Instruction::RetractClause { predicate: predicate.clone(), address: *address },
            Instruction::Cut => Instruction::Cut,
            Instruction::PutStr { register, value } => Instruction::PutStr { register: *register, value: value.clone() },
            Instruction::GetStr { register, value } => Instruction::GetStr { register: *register, value: value.clone() },
            Instruction::MultiIndexedCall { predicate, index_registers } => Instruction::MultiIndexedCall {
                predicate: predicate.clone(),
                index_registers: copy_addresses(index_registers),
            },
            Instruction::Move { src, dst } => Instruction::Move { src: *src, dst: *dst },
            Instruction::Halt => Instruction::Halt,
        }
    }

    /// Executes this instruction on a machine (see `exec_spec`).
    pub fn execute(&self, machine: &mut Machine) -> (r: Result<(), MachineError>)
        requires
            exec_ok(old(machine)@, *self),
        ensures
            (final(machine)@, res_view(r)) == exec_spec(old(machine)@, *self),
    {
        match self {
            Instruction::PutConst { register, value } => machine.execute_put_const(*register, *value),
            Instruction::PutVar { register, var_id, name } => machine.execute_put_var(*register, *var_id, name.clone()),
            Instruction::GetConst { register, value } => machine.execute_get_const(*register, *value),
            Instruction::GetVar { register, var_id, name } => machine.execute_get_var(*register, *var_id, name.clone()),
            Instruction::Call { predicate } => machine.execute_call(predicate.clone()),
            Instruction::Proceed => machine.execute_proceed(),
            Instruction::Choice => machine.execute_choice(),
            Instruction::Fail => machine.execute_fail(),
            Instruction::BuildCompound { target, functor, arg_registers } => machine.execute_build_compound(
                *target,
                functor.clone(),
                copy_addresses(arg_registers),
            ),
            Instruction::GetStructure { register, functor, arity } => machine.execute_get_structure(*register, functor.clone(), *arity),
            Instruction::Allocate { n } => machine.execute_allocate(*n),
            Instruction::Deallocate => machine.execute_deallocate(),
            Instruction::SetLocal { index, value } => machine.execute_set_local(*index, copy_term(value)),
            Instruction::GetLocal { index, register } => machine.execute_get_local(*index, *register),
            Instruction::TailCall { predicate } => machine.execute_tail_call(predicate.clone()),
            Instruction::IndexedCall { predicate, index_register } => machine.execute_indexed_call(predicate.clone(), *index_register),
            Instruction::ArithmeticIs { target, expression } => machine.execute_arithmetic_is(*target, copy_expr(expression)),
            Instruction::AssertClause { predicate, address } => machine.execute_assert_clause(predicate.clone(), *address),
            Instruction::RetractClause { predicate, address } => machine.execute_retract_clause(predicate.clone(), *address),
            Instruction::Cut => machine.execute_cut(),
            Instruction::PutStr { register, value } => machine.execute_put_str(*register, value.clone()),
            Instruction::GetStr { register, value } => machine.execute_get_str(*register, value.clone()),
            Instruction::MultiIndexedCall { predicate, index_registers } => machine.execute_multi_indexed_call(
                predicate.clone(),
                copy_addresses(index_registers),
            ),
            Instruction::Move { src, dst } => machine.execute_move(*src, *dst),
            Instruction::Halt => Ok(()),
        }
    }
}

impl Clone for Instruction {
    fn clone(&self) -> (r: Self)
        ensures
            same_instruction(r, *self),
    {
        self.copy()
    }
}

impl Machine {
    /// Executes the instruction at the program counter (see `step_spec`).
    pub fn step(&mut self) -> (r: Result<(), MachineError>)
        requires
            step_ok(old(self)@),
        ensures
            (final(self)@, res_view(r)) == step_spec(old(self)@),
    {
        if self.pc >= self.code.len() {
            return Err(MachineError::NoMoreInstructions);
        }
        let instr = self.code[self.pc].copy();
        self.pc = self.pc + 1;
        proof {
            lemma_same_instruction(instr, old(self)@.code[old(self)@.pc as int], self@);
        }
        instr.execute(self)
    }

    /// Runs the machine until the program counter leaves the program, a
    /// `Halt` comes up, or an instruction fails (see `run_spec`).
    pub fn run(&mut self) -> (r: Result<(), MachineError>)
        requires
            halts(old(self)@),
        ensures
            (final(self)@, res_view(r)) == run_spec(old(self)@),
    {
        let ghost n = choose|n: nat| #[trigger] run_f(old(self)@, n) is Some;
        let ghost mut f = n;
        loop
            invariant
                run_f(self@, f) == run_f(old(self)@, n),
                run_f(old(self)@, n) is Some,
                run_spec(old(self)@) == run_f(old(self)@, n)->0,
            decreases f,
        {
            if self.pc >= self.code.len() {
                return Ok(());
            }
            if let Instruction::Halt = &self.code[self.pc] {
                return Ok(());
            }
            let ghost prev = self@;
            let r = self.step();
            if r.is_err() {
                proof {
                    assert(run_f(prev, f) == Some((self@, res_view(r))));
                }
                return r;
            }
            proof {
                f = (f - 1) as nat;
            }
        }
    }
}

impl Machine {
    /// Whether the next step can run with every unification it makes
    /// ending within `fuel` (see `step_ok_within`).
    fn step_ok_within_check(&self, fuel: usize) -> (r: bool)
        ensures
            r == step_ok_within(self@, fuel as nat),
    {
        if self.pc >= self.code.len() {
            return true;
        }
        let ghost s1 = MState { pc: (self@.pc + 1) as usize, ..self@ };
        proof {
            assert(self@.code[self@.pc as int] == self.code@[self.pc as int]);
        }
        match &self.code[self.pc] {
            Instruction::GetConst { register, value } => {
                if *register >= self.registers.len() {
                    return true;
                }
                match &self.registers[*register] {
                    Some(t) => {
                        proof {
                            lemma_unify_subst_only(self@, s1, t@, TermV::Const(*value), fuel as nat);
                        }
                        self.unify_ends_within(t, &Term::Const(*value), fuel)
                    },
                    None => true,
                }
            },
            Instruction::GetStr { register, value } => {
                if *register >= self.registers.len() {
                    return true;
                }
                match &self.registers[*register] {
                    Some(t) => {
                        proof {
                            lemma_unify_subst_only(self@, s1, t@, TermV::Str(value@), fuel as nat);
                        }
                        self.unify_ends_within(t, &Term::Str(value.clone()), fuel)
                    },
                    None => true,
                }
            },
            Instruction::GetVar { register, var_id, .. } => {
                if *register >= self.registers.len() {
                    return true;
                }
                match &self.registers[*register] {
                    Some(t) => {
                        proof {
                            lemma_unify_subst_only(self@, s1, TermV::Var(*var_id), t@, fuel as nat);
                        }
                        self.unify_ends_within(&Term::Var(*var_id), t, fuel)
                    },
                    None => true,
                }
            },
            Instruction::GetLocal { index, register } => {
                let n = self.environment_stack.len();
                if n == 0 {
                    return true;
                }
                proof {
                    assert(self@.envs.last() == slots_view(self.environment_stack@[n - 1]@));
                }
                let env = &self.environment_stack[n - 1];
                if *index >= env.len() || *register >= self.registers.len() {
                    return true;
                }
                match (&env[*index], &self.registers[*register]) {
                    (Some(t), Some(rt)) => {
                        proof {
                            lemma_unify_subst_only(self@, s1, rt@, t@, fuel as nat);
                        }
                        self.unify_ends_within(rt, t, fuel)
                    },
                    _ => true,
                }
            },
            Instruction::ArithmeticIs { expression, .. } => try_evaluate(expression).is_some(),
            Instruction::Fail => {
                let n = self.choice_stack.len();
                if n == 0 {
                    return true;
                }
                proof {
                    assert(self@.choices.last() == self.choice_stack@[n - 1]@);
                }
                self.choice_stack[n - 1].saved_pc <= usize::MAX - 2
            },
            Instruction::MultiIndexedCall { predicate, index_registers } => {
                match self.collect_terms(index_registers) {
                    Err(_) => true,
                    Ok(key) => {
                        if key.len() > 0 {
                            return true;
                        }
                        match self.index_table.lookup(predicate, &key) {
                            Some(Some(v)) => v.len() > 0,
                            _ => false,
                        }
                    },
                }
            },
            _ => true,
        }
    }

    /// Runs the machine for at most `limit` steps, each unification
    /// bounded by `limit` (see `run_within`): the outcome where it stops, or
    /// `None` where it does not stop within these bounds or a step cannot
    /// run (the state is then the one reached so far). An outcome is that
    /// of `run`.
    pub fn run_for(&mut self, limit: usize) -> (r: Option<Result<(), MachineError>>)
        ensures
            r is Some <==> run_within(old(self)@, limit as nat, limit as nat) is Some,
            r matches Some(x) ==> {
                &&& (final(self)@, res_view(x)) == run_within(old(self)@, limit as nat, limit as nat)->0
                &&& halts(old(self)@)
                &&& (final(self)@, res_view(x)) == run_spec(old(self)@)
            },
    {
        proof {
            lemma_run_within(old(self)@, limit as nat, limit as nat);
            if run_within(old(self)@, limit as nat, limit as nat) is Some {
                assert(run_f(old(self)@, limit as nat) is Some);
                let c = choose|n: nat| #[trigger] run_f(old(self)@, n) is Some;
                lemma_run_f_unique(old(self)@, limit as nat, c);
            }
        }
        let mut k: usize = limit;
        loop
            invariant
                run_within(self@, k as nat, limit as nat) == run_within(old(self)@, limit as nat, limit as nat),
                run_within(old(self)@, limit as nat, limit as nat) is Some ==> {
                    &&& halts(old(self)@)
                    &&& run_spec(old(self)@) == run_within(old(self)@, limit as nat, limit as nat)->0
                },
            decreases k,
        {
            if self.pc >= self.code.len() {
                return Some(Ok(()));
            }
            if let Instruction::Halt = &self.code[self.pc] {
                return Some(Ok(()));
            }
            if k == 0 || !self.step_ok_within_check(limit) {
                return None;
            }
            proof {
                lemma_step_ok_within(self@, limit as nat);
            }
            let ghost prev = self@;
            let r = self.step();
            if r.is_err() {
                proof {
                    assert(run_within(prev, k as nat, limit as nat) == Some((self@, res_view(r))));
                }
                return Some(r);
            }
            k = k - 1;
        }
    }
}

/// Answers `pong`: a check that the library is linked.
pub fn ping() -> (r: &'static str)
    ensures
        r@ == "pong"@,
{
    "pong"
}

} // verus!
