//! Properties of the machine that span several instructions.

use vstd::prelude::*;
use crate::machine::{
    MState, ErrorV, unify_f, unify_args_f, unify_ok, unify_spec, unify_step, bind_spec, resolve_f,
    op_choice, op_fail, op_cut, op_assert_clause, op_retract_clause, op_call, op_proceed,
    op_allocate, op_deallocate, is_builtin, op_indexed_call, keep_below, ChoiceV, halts, run_spec, run_f,
    step_spec, op_get_structure, exec_spec, Instruction,
};
use crate::tables::{first_index, remove_first, lemma_first_index, key_map_push};
use crate::term::{
    TermV, assign, satisfies, lemma_assign_seq_equal, all_resolve, resolves_fully, full_resolve,
    lemma_resolved_assignment, resolved_assignment,
};
use crate::machine::occurs;
use crate::lambda::{term_size, lemma_args_size};

verus! {

/// `s2` differs from `s` at most by new bindings: only the substitution and
/// the trail changed, and the old trail is a prefix of the new one.
pub open spec fn bindings_only(s: MState, s2: MState) -> bool {
    &&& s2 == MState { subst: s2.subst, trail: s2.trail, ..s }
    &&& s.trail.len() <= s2.trail.len()
    &&& s2.trail.subrange(0, s.trail.len() as int) == s.trail
}

proof fn lemma_bindings_only_trans(s1: MState, s2: MState, s3: MState)
    requires
        bindings_only(s1, s2),
        bindings_only(s2, s3),
    ensures
        bindings_only(s1, s3),
{
    assert(s3.trail.subrange(0, s1.trail.len() as int) =~= s2.trail.subrange(0, s1.trail.len() as int));
}

proof fn lemma_bind_spec(s: MState, v: usize, t: TermV)
    ensures
        bindings_only(s, bind_spec(s, v, t).1),
{
    let s2 = bind_spec(s, v, t).1;
    assert(s2.trail.subrange(0, s.trail.len() as int) =~= s.trail);
}

proof fn lemma_unify_f(s: MState, a: TermV, b: TermV, n: nat)
    ensures
        unify_f(s, a, b, n) matches Some((_, s2)) ==> bindings_only(s, s2),
    decreases n, 0nat,
{
    assert(s.trail.subrange(0, s.trail.len() as int) =~= s.trail);
    match (resolve_f(s.subst, a, n), resolve_f(s.subst, b, n)) {
        (Some(x), Some(y)) => {
            if x != y {
                match (x, y) {
                    (TermV::Var(v), _) => { lemma_bind_spec(s, v, y); },
                    (_, TermV::Var(v)) => { lemma_bind_spec(s, v, x); },
                    (TermV::Compound(f1, a1), TermV::Compound(f2, a2)) => {
                        if f1 == f2 && a1.len() == a2.len() && n > 0 {
                            lemma_unify_args_f(s, a1, a2, 0, (n - 1) as nat);
                        }
                    },
                    _ => {},
                }
            }
        },
        _ => {},
    }
}

proof fn lemma_unify_args_f(s: MState, a1: Seq<TermV>, a2: Seq<TermV>, i: int, n: nat)
    ensures
        unify_args_f(s, a1, a2, i, n) matches Some((_, s2)) ==> bindings_only(s, s2),
    decreases n, a1.len() - i + 1,
{
    assert(s.trail.subrange(0, s.trail.len() as int) =~= s.trail);
    if !(i < 0 || i >= a1.len() || i >= a2.len()) {
        lemma_unify_f(s, a1[i], a2[i], n);
        match unify_f(s, a1[i], a2[i], n) {
            Some((true, s2)) => {
                lemma_unify_args_f(s2, a1, a2, i + 1, n);
                if let Some((_, s3)) = unify_args_f(s2, a1, a2, i + 1, n) {
                    lemma_bindings_only_trans(s, s2, s3);
                }
            },
            _ => {},
        }
    }
}

/// Unification, successful or not, changes nothing but the substitution and
/// the trail, and it only adds to the trail.
pub proof fn law_unify_only_binds(s: MState, a: TermV, b: TermV)
    requires
        unify_ok(s, a, b),
    ensures
        bindings_only(s, unify_spec(s, a, b).1),
{
    let n = choose|n: nat| #[trigger] unify_f(s, a, b, n) is Some;
    lemma_unify_f(s, a, b, n);
}

/// A term unifies with itself, and the state is left unchanged.
pub proof fn law_unify_reflexive(s: MState, a: TermV)
    requires
        unify_ok(s, a, a),
    ensures
        unify_spec(s, a, a) == (true, s),
{
}

/// Resolution ends at a term that is not a bound variable, and under any
/// assignment satisfying the bindings it keeps the value of the term.
proof fn lemma_resolve_f_value(s: Map<usize, TermV>, t: TermV, fuel: nat, sigma: spec_fn(usize) -> TermV)
    ensures
        resolve_f(s, t, fuel) matches Some(r) ==> {
            &&& (r matches TermV::Var(w) ==> !s.contains_key(w))
            &&& (satisfies(s, sigma) ==> assign(sigma, t) == assign(sigma, r))
        },
    decreases fuel,
{
    if let TermV::Var(v) = t {
        if s.contains_key(v) && fuel > 0 {
            lemma_resolve_f_value(s, s[v], (fuel - 1) as nat, sigma);
        }
    }
}

/// Binding a variable that was unbound: an assignment satisfying the new
/// bindings satisfies the old ones and gives the variable the bound value.
proof fn lemma_bind_value(s: MState, v: usize, t: TermV, sigma: spec_fn(usize) -> TermV)
    requires
        !s.subst.contains_key(v),
        bind_spec(s, v, t).0,
        satisfies(bind_spec(s, v, t).1.subst, sigma),
    ensures
        satisfies(s.subst, sigma),
        sigma(v) == assign(sigma, t),
{
    let b2 = bind_spec(s, v, t).1.subst;
    assert(b2.contains_key(v));
    assert forall|k: usize| #[trigger] s.subst.contains_key(k) implies sigma(k) == assign(sigma, s.subst[k]) by {
        assert(b2.contains_key(k));
    }
}

proof fn lemma_unify_f_sound(s: MState, a: TermV, b: TermV, fuel: nat, sigma: spec_fn(usize) -> TermV)
    ensures
        unify_f(s, a, b, fuel) matches Some((ok, s2)) ==> (satisfies(s2.subst, sigma) ==> {
            &&& satisfies(s.subst, sigma)
            &&& (ok ==> assign(sigma, a) == assign(sigma, b))
        }),
    decreases fuel, 0nat,
{
    lemma_resolve_f_value(s.subst, a, fuel, sigma);
    lemma_resolve_f_value(s.subst, b, fuel, sigma);
    if let (Some(x), Some(y)) = (resolve_f(s.subst, a, fuel), resolve_f(s.subst, b, fuel)) {
        if x != y {
            match (x, y) {
                (TermV::Var(v), _) => {
                    if bind_spec(s, v, y).0 && satisfies(bind_spec(s, v, y).1.subst, sigma) {
                        lemma_bind_value(s, v, y, sigma);
                    }
                },
                (_, TermV::Var(v)) => {
                    if bind_spec(s, v, x).0 && satisfies(bind_spec(s, v, x).1.subst, sigma) {
                        lemma_bind_value(s, v, x, sigma);
                    }
                },
                (TermV::Compound(f1, a1), TermV::Compound(f2, a2)) => {
                    if f1 == f2 && a1.len() == a2.len() && fuel > 0 {
                        lemma_unify_args_sound(s, a1, a2, 0, (fuel - 1) as nat, sigma);
                        if let Some((ok, s2)) = unify_args_f(s, a1, a2, 0, (fuel - 1) as nat) {
                            if ok && satisfies(s2.subst, sigma) {
                                lemma_assign_seq_equal(sigma, a1, a2);
                            }
                        }
                    }
                },
                _ => {},
            }
        }
    }
}

proof fn lemma_unify_args_sound(s: MState, a1: Seq<TermV>, a2: Seq<TermV>, i: int, fuel: nat, sigma: spec_fn(usize) -> TermV)
    requires
        0 <= i,
        a1.len() == a2.len(),
    ensures
        unify_args_f(s, a1, a2, i, fuel) matches Some((ok, s2)) ==> (satisfies(s2.subst, sigma) ==> {
            &&& satisfies(s.subst, sigma)
            &&& (ok ==> forall|j: int| i <= j < a1.len() ==> assign(sigma, #[trigger] a1[j]) == assign(sigma, a2[j]))
        }),
    decreases fuel, a1.len() - i + 1,
{
    if i < a1.len() {
        lemma_unify_f_sound(s, a1[i], a2[i], fuel, sigma);
        if let Some((true, s3)) = unify_f(s, a1[i], a2[i], fuel) {
            lemma_unify_args_sound(s3, a1, a2, i + 1, fuel, sigma);
        }
    }
}

/// Unification is sound: when it succeeds, every assignment of terms to the
/// variables that satisfies the bindings it leaves (each bound variable
/// stands for the value of its binding) satisfies the bindings from before
/// and gives the two terms the same value.
pub proof fn law_unify_sound(s: MState, a: TermV, b: TermV, sigma: spec_fn(usize) -> TermV)
    requires
        unify_ok(s, a, b),
        unify_spec(s, a, b).0,
        satisfies(unify_spec(s, a, b).1.subst, sigma),
    ensures
        assign(sigma, a) == assign(sigma, b),
        satisfies(s.subst, sigma),
{
    let n = choose|n: nat| #[trigger] unify_f(s, a, b, n) is Some;
    lemma_unify_f_sound(s, a, b, n, sigma);
}

/// After a successful unification whose bindings have no cycle, the two
/// terms resolve fully to the same term.
pub proof fn law_unify_resolves_equal(s: MState, a: TermV, b: TermV)
    requires
        unify_ok(s, a, b),
        unify_spec(s, a, b).0,
        all_resolve(unify_spec(s, a, b).1.subst),
        resolves_fully(unify_spec(s, a, b).1.subst, a),
        resolves_fully(unify_spec(s, a, b).1.subst, b),
    ensures
        full_resolve(unify_spec(s, a, b).1.subst, a) == full_resolve(unify_spec(s, a, b).1.subst, b),
{
    let bs = unify_spec(s, a, b).1.subst;
    lemma_resolved_assignment(bs);
    law_unify_sound(s, a, b, resolved_assignment(bs));
}

/// Where a run ends: a successful run stops at the end of the program or at
/// a `Halt` (which does not run); a failed one ends with the state and error
/// of a step (`run_f` stops at the first such step).
pub proof fn law_run_stops(s: MState)
    requires
        halts(s),
    ensures
        run_spec(s).1 is Ok ==> run_spec(s).0.pc >= run_spec(s).0.code.len()
            || run_spec(s).0.code[run_spec(s).0.pc as int] is Halt,
        run_spec(s).1 is Err ==> exists|p: MState| #[trigger] step_spec(p) == run_spec(s),
{
    let n = choose|n: nat| #[trigger] run_f(s, n) is Some;
    lemma_run_stops(s, n);
}

proof fn lemma_run_stops(s: MState, n: nat)
    requires
        run_f(s, n) is Some,
    ensures
        run_f(s, n) matches Some((s2, r)) ==> {
            &&& (r is Ok ==> s2.pc >= s2.code.len() || s2.code[s2.pc as int] is Halt)
            &&& (r is Err ==> exists|p: MState| #[trigger] step_spec(p) == (s2, r))
        },
    decreases n,
{
    if s.pc < s.code.len() && !(s.code[s.pc as int] is Halt) {
        let (s2, r) = step_spec(s);
        if r is Ok {
            lemma_run_stops(s2, (n - 1) as nat);
        } else {
            assert(step_spec(s) == (s2, r));
        }
    }
}

/// `GetStructure` checks a register and changes nothing: it succeeds exactly
/// when the register holds a compound term with the given functor and
/// arity, and a compound term with another functor or arity gives a
/// structure mismatch naming both.
pub proof fn law_get_structure(s: MState, register: usize, functor: Seq<char>, arity: usize)
    ensures
        op_get_structure(s, register, functor, arity).0 == s,
        op_get_structure(s, register, functor, arity).1 is Ok <==> (
            register < s.registers.len()
            && s.registers[register as int] == Some(TermV::Compound(functor, s.registers[register as int]->0->Compound_1))
            && s.registers[register as int]->0->Compound_1.len() == arity
        ),
        register < s.registers.len() ==> (s.registers[register as int] matches Some(TermV::Compound(f, args))
            ==> (f != functor || args.len() != arity ==> op_get_structure(s, register, functor, arity).1 == Err::<(), ErrorV>(
                ErrorV::StructureMismatch {
                    expected_functor: functor,
                    expected_arity: arity,
                    found_functor: f,
                    found_arity: args.len() as usize,
                }))),
{
}

/// `PutConst` writes its constant into its register and nowhere else; a
/// register out of range is an error that changes nothing.
pub proof fn law_put_const(s: MState, register: usize, value: i32)
    ensures
        ({
            let (s1, r) = exec_spec(s, Instruction::PutConst { register, value });
            if register < s.registers.len() {
                &&& r is Ok
                &&& s1.registers.len() == s.registers.len()
                &&& s1.registers[register as int] == Some(TermV::Const(value))
                &&& forall|k: int| 0 <= k < s.registers.len() && k != register ==> s1.registers[k] == s.registers[k]
                &&& MState { registers: s.registers, ..s1 } == s
            } else {
                &&& s1 == s
                &&& r == Err::<(), ErrorV>(ErrorV::RegisterOutOfBounds(register))
            }
        }),
{
}

/// `GetConst` on a register holding a term without variables succeeds
/// exactly when the term is that constant, and changes nothing either way.
pub proof fn law_get_const_ground(s: MState, register: usize, value: i32)
    requires
        register < s.registers.len(),
        s.registers[register as int] matches Some(t) && ground(t),
    ensures
        exec_spec(s, Instruction::GetConst { register, value }).0 == s,
        exec_spec(s, Instruction::GetConst { register, value }).1 is Ok
            <==> s.registers[register as int] == Some(TermV::Const(value)),
{
    let t = s.registers[register as int]->0;
    assert(ground(TermV::Const(value)));
    law_unify_ground(s, t, TermV::Const(value));
}

/// A constant put into a register is read back by `GetConst` with the same
/// constant, and only with it.
pub proof fn law_put_then_get_const(s: MState, register: usize, value: i32, other: i32)
    requires
        register < s.registers.len(),
    ensures
        ({
            let s1 = exec_spec(s, Instruction::PutConst { register, value }).0;
            &&& exec_spec(s1, Instruction::GetConst { register, value }) == (s1, Ok::<(), ErrorV>(()))
            &&& (other != value ==> exec_spec(s1, Instruction::GetConst { register, value: other }).1 is Err)
        }),
{
    let s1 = exec_spec(s, Instruction::PutConst { register, value }).0;
    law_put_const(s, register, value);
    assert(ground(TermV::Const(value)));
    law_get_const_ground(s1, register, value);
    law_get_const_ground(s1, register, other);
}

/// `Move` copies the source register into the destination register and
/// leaves the other registers as they were.
pub proof fn law_move(s: MState, src: usize, dst: usize)
    requires
        src < s.registers.len(),
        dst < s.registers.len(),
        s.registers[src as int] is Some,
    ensures
        ({
            let (s1, r) = exec_spec(s, Instruction::Move { src, dst });
            &&& r is Ok
            &&& s1.registers.len() == s.registers.len()
            &&& s1.registers[dst as int] == s.registers[src as int]
            &&& forall|k: int| 0 <= k < s.registers.len() && k != dst ==> s1.registers[k] == s.registers[k]
            &&& MState { registers: s.registers, ..s1 } == s
        }),
{
}

/// No variable occurs in `t`.
pub open spec fn ground(t: TermV) -> bool {
    forall|v: usize| !occurs(v, t)
}

proof fn lemma_unify_ground(s: MState, a: TermV, b: TermV, fuel: nat)
    requires
        ground(a),
        ground(b),
    ensures
        unify_f(s, a, b, fuel) matches Some(p) ==> p == (a == b, s),
        fuel >= term_size(a) ==> unify_f(s, a, b, fuel) is Some,
    decreases fuel, 0nat,
{
    if let TermV::Var(x) = a {
        assert(occurs(x, a));
    }
    if let TermV::Var(x) = b {
        assert(occurs(x, b));
    }
    assert(resolve_f(s.subst, a, fuel) == Some(a));
    assert(resolve_f(s.subst, b, fuel) == Some(b));
    if a != b {
        if let (TermV::Compound(f1, a1), TermV::Compound(f2, a2)) = (a, b) {
            if f1 == f2 && a1.len() == a2.len() && fuel > 0 {
                assert forall|j: int| 0 <= j < a1.len() implies ground(#[trigger] a1[j]) && ground(a2[j]) by {
                    assert forall|v: usize| !occurs(v, a1[j]) && !occurs(v, a2[j]) by {
                        if occurs(v, a1[j]) {
                            assert(occurs(v, a));
                        }
                        if occurs(v, a2[j]) {
                            assert(occurs(v, b));
                        }
                    }
                }
                assert forall|j: int| 0 <= j < a1.len() && fuel >= term_size(a) implies (fuel - 1) as nat >= term_size(#[trigger] a1[j]) by {
                    lemma_args_size(a1, j);
                }
                lemma_unify_args_ground(s, a1, a2, 0, (fuel - 1) as nat);
                assert(a1.skip(0) =~= a1);
                assert(a2.skip(0) =~= a2);
            }
        }
    }
}

proof fn lemma_unify_args_ground(s: MState, a1: Seq<TermV>, a2: Seq<TermV>, i: int, fuel: nat)
    requires
        0 <= i <= a1.len(),
        a1.len() == a2.len(),
        forall|j: int| 0 <= j < a1.len() ==> ground(#[trigger] a1[j]) && ground(a2[j]),
    ensures
        unify_args_f(s, a1, a2, i, fuel) matches Some(p) ==> p == (a1.skip(i) == a2.skip(i), s),
        (forall|j: int| i <= j < a1.len() ==> fuel >= term_size(#[trigger] a1[j]))
            ==> unify_args_f(s, a1, a2, i, fuel) is Some,
    decreases fuel, a1.len() - i + 1,
{
    if i == a1.len() {
        assert(a1.skip(i) =~= a2.skip(i));
    } else {
        lemma_unify_ground(s, a1[i], a2[i], fuel);
        lemma_unify_args_ground(s, a1, a2, i + 1, fuel);
        assert(a1.skip(i)[0] == a1[i]);
        assert(a2.skip(i)[0] == a2[i]);
        if a1.skip(i) == a2.skip(i) {
            assert(a1.skip(i + 1) =~= a1.skip(i).skip(1));
            assert(a2.skip(i + 1) =~= a2.skip(i).skip(1));
        }
        if a1[i] == a2[i] && a1.skip(i + 1) == a2.skip(i + 1) {
            assert forall|k: int| 0 <= k < a1.len() - i implies a1.skip(i)[k] == a2.skip(i)[k] by {
                if k > 0 {
                    assert(a1.skip(i)[k] == a1.skip(i + 1)[k - 1]);
                    assert(a2.skip(i)[k] == a2.skip(i + 1)[k - 1]);
                }
            }
            assert(a1.skip(i) =~= a2.skip(i));
        }
    }
}

/// Terms in which no variable occurs unify exactly when they are equal, and
/// unifying them changes nothing.
pub proof fn law_unify_ground(s: MState, a: TermV, b: TermV)
    requires
        ground(a),
        ground(b),
    ensures
        unify_ok(s, a, b),
        unify_spec(s, a, b) == (a == b, s),
{
    lemma_unify_ground(s, a, b, term_size(a));
    let n = choose|n: nat| #[trigger] unify_f(s, a, b, n) is Some;
    lemma_unify_ground(s, a, b, n);
}

/// A choice point followed by a failure returns to the state saved by the
/// choice point: same registers, substitution, trail and choice points, and
/// the program counter two past the saved one.
pub proof fn law_choice_then_fail(s: MState)
    requires
        s.pc + 2 <= usize::MAX,
        s.trail.len() <= usize::MAX,
    ensures
        ({
            let (s2, r) = op_fail(op_choice(s).0);
            &&& r is Ok
            &&& s2.registers == s.registers
            &&& s2.subst == s.subst
            &&& s2.trail == s.trail
            &&& s2.choices == s.choices
            &&& s2.pc == s.pc + 2
        }),
{
    let s1 = op_choice(s).0;
    assert(s1.choices.drop_last() =~= s.choices);
}

/// Backtracking undoes a unification: after a choice point, a unification
/// (successful or not) and a failure, the registers, substitution, trail and
/// choice points are those from before the choice point.
pub proof fn law_backtrack_undoes_unification(s: MState, a: TermV, b: TermV)
    requires
        s.pc + 2 <= usize::MAX,
        s.trail.len() <= usize::MAX,
        unify_ok(op_choice(s).0, a, b),
    ensures
        ({
            let (s3, r) = op_fail(unify_step(op_choice(s).0, a, b).0);
            &&& r is Ok
            &&& s3.registers == s.registers
            &&& s3.subst == s.subst
            &&& s3.trail == s.trail
            &&& s3.choices == s.choices
            &&& s3.pc == s.pc + 2
        }),
{
    let s1 = op_choice(s).0;
    law_unify_only_binds(s1, a, b);
    let s2 = unify_step(s1, a, b).0;
    assert(s2.choices == s1.choices);
    assert(s1.choices.drop_last() =~= s.choices);
    assert(s2.trail.subrange(0, s.trail.len() as int) == s.trail);
    if s2.trail.len() == s.trail.len() {
        assert(s2.trail =~= s2.trail.subrange(0, s.trail.len() as int));
    }
}

proof fn lemma_keep_below_all(cs: Seq<ChoiceV>, level: nat)
    requires
        forall|i: int| 0 <= i < cs.len() ==> (#[trigger] cs[i]).call_level < level,
    ensures
        keep_below(cs, level) == cs,
    decreases cs.len(),
{
    if cs.len() > 0 {
        assert forall|i: int| 0 <= i < cs.drop_last().len() implies (#[trigger] cs.drop_last()[i]).call_level < level by {
            assert(cs.drop_last()[i] == cs[i]);
        }
        lemma_keep_below_all(cs.drop_last(), level);
        assert(cs[cs.len() - 1] == cs.last());
        assert(cs.drop_last().push(cs.last()) =~= cs);
    }
}

proof fn lemma_keep_below_none(cs: Seq<ChoiceV>)
    ensures
        keep_below(cs, 0) == Seq::<ChoiceV>::empty(),
    decreases cs.len(),
{
    if cs.len() > 0 {
        lemma_keep_below_none(cs.drop_last());
    }
}

/// At the top level, where no predicate call is in progress, a cut leaves
/// no choice point to fail to.
pub proof fn law_cut_then_fail(s: MState)
    requires
        s.control.len() == 0,
    ensures
        op_fail(op_cut(s).0).1 == Err::<(), ErrorV>(ErrorV::NoChoicePoint),
{
    lemma_keep_below_none(s.choices);
}

/// A cut inside a called predicate removes the choice point of the call and
/// keeps the caller's: where every choice point was made at or above the
/// caller's depth, a call followed by a cut leaves exactly them.
pub proof fn law_call_then_cut(s: MState, predicate: Seq<char>)
    requires
        !is_builtin(predicate),
        op_call(s, predicate).1 is Ok,
        s.control.len() < usize::MAX,
        forall|i: int| 0 <= i < s.choices.len() ==> (#[trigger] s.choices[i]).call_level <= s.control.len(),
    ensures
        op_cut(op_call(s, predicate).0).0.choices == s.choices,
{
    let s1 = op_call(s, predicate).0;
    assert(s1.control.len() == s.control.len() + 1);
    let cs = s1.choices;
    assert(cs.drop_last() =~= s.choices);
    assert(cs.last().call_level == s.control.len() + 1);
    assert forall|i: int| 0 <= i < cs.drop_last().len() implies (#[trigger] cs.drop_last()[i]).call_level < s1.control.len() by {
        assert(cs.drop_last()[i] == s.choices[i]);
    }
    lemma_keep_below_all(cs.drop_last(), s1.control.len());
}

/// Retracting a clause address just asserted for a predicate, where the
/// predicate is known and did not hold that address, restores the clause table.
pub proof fn law_assert_then_retract(s: MState, predicate: Seq<char>, address: usize)
    requires
        s.preds.contains_key(predicate),
        first_index(s.preds[predicate], address) is None,
    ensures
        ({
            let (s2, r) = op_retract_clause(op_assert_clause(s, predicate, address).0, predicate, address);
            &&& r is Ok
            &&& s2.preds == s.preds
        }),
{
    let l = s.preds[predicate];
    let s1 = op_assert_clause(s, predicate, address).0;
    lemma_first_index(l.push(address), address);
    lemma_first_index(l, address);
    assert(l.push(address)[l.len() as int] == address);
    assert(first_index(l.push(address), address) is Some);
    assert(remove_first(l.push(address), address) =~= l);
    assert(s1.preds.insert(predicate, l) =~= s.preds);
}

/// A call of a predicate defined by clauses, followed by a return, comes
/// back after the call with the control stack it had.
pub proof fn law_call_then_proceed(s: MState, predicate: Seq<char>)
    requires
        !is_builtin(predicate),
        op_call(s, predicate).1 is Ok,
    ensures
        ({
            let (s2, r) = op_proceed(op_call(s, predicate).0);
            &&& r is Ok
            &&& s2.pc == s.pc
            &&& s2.control == s.control
        }),
{
    let s1 = op_call(s, predicate).0;
    assert(s1.control.drop_last() =~= s.control);
}

/// Allocating an environment frame and deallocating it restores the state.
pub proof fn law_allocate_then_deallocate(s: MState, n: usize)
    ensures
        op_deallocate(op_allocate(s, n).0) == (s, Ok::<(), ErrorV>(())),
{
    let s1 = op_allocate(s, n).0;
    assert(s1.envs.drop_last() =~= s.envs);
}

/// After a clause address is registered for a predicate under the term held
/// by a register, an indexed call on that register succeeds and jumps to
/// the first address registered under that key: the new one where the key
/// had none.
pub proof fn law_index_then_call(s: MState, predicate: Seq<char>, r: usize, address: usize)
    requires
        r < s.registers.len(),
        s.registers[r as int] is Some,
    ensures
        ({
            let key = seq![s.registers[r as int]->0];
            let inner = if s.index.contains_key(predicate) { s.index[predicate] } else { Map::empty() };
            let s1 = MState { index: s.index.insert(predicate, key_map_push(inner, key, address)), ..s };
            let (s2, res) = op_indexed_call(s1, predicate, r);
            &&& res is Ok
            &&& s2.pc == (if inner.contains_key(key) { inner[key] } else { Seq::empty() }).push(address)[0]
        }),
{
}

/// After a clause address is asserted for a predicate that is not built in,
/// a call of the predicate succeeds and jumps to its first clause: the new
/// one where the predicate had none.
pub proof fn law_assert_then_call(s: MState, predicate: Seq<char>, address: usize)
    requires
        !is_builtin(predicate),
    ensures
        ({
            let before = if s.preds.contains_key(predicate) { s.preds[predicate] } else { Seq::empty() };
            let (s2, r) = op_call(op_assert_clause(s, predicate, address).0, predicate);
            &&& r is Ok
            &&& s2.pc == before.push(address)[0]
            &&& s2.control == s.control.push(s.pc)
        }),
{
}

} // verus!
