//! Unification of two terms over a union-find structure.

use vstd::prelude::*;
use crate::machine::{MachineError, ErrorV, res_view};
use crate::lambda::{term_size, lemma_args_size};
use crate::term::{
    Term, TermV, strings_equal, assign, satisfies, lemma_assign_seq_equal, all_resolve, resolves_fully,
    full_resolve, lemma_resolved_assignment, resolved_assignment,
};
use crate::text::{int_text, term_text, push_str, push_i32, push_term_text, chars_to_string};
use crate::union_find::{
    UnionFind, UfV, uf_resolve, bind_spec, undo_spec, undoable, resolves, lemma_resolve_terminal,
    lemma_resolve_settled, lemma_resolve_undoable, lemma_bind_undoable, lemma_undoable_trans,
    lemma_undo_restores, lemma_undoable_refl, lemma_resolve_value,
};

verus! {

broadcast use vstd::std_specs::vec::group_vec_axioms;

/// The message for two different constants.
pub open spec fn const_message(a: i32, b: i32) -> Seq<char> {
    "Constants do not match: "@ + int_text(a as int) + " vs "@ + int_text(b as int)
}

/// The message for compound terms of different functors or arities.
pub open spec fn functor_message(f1: Seq<char>, f2: Seq<char>) -> Seq<char> {
    "Compound term mismatch: "@ + f1 + " vs "@ + f2
}

/// The message for terms of kinds that do not unify.
pub open spec fn mismatch_message(x: TermV, y: TermV) -> Seq<char> {
    "Failed to unify "@ + term_text(x) + " with "@ + term_text(y)
}

/// Unification with a fuel that bounds resolution and nesting; `None` when it
/// runs out. Both terms are resolved first; constants must be equal; a
/// variable is bound to the other term; compound terms of the same functor
/// and arity unify argument by argument, stopping at the first failure; any
/// other pair fails.
pub open spec fn unify_terms_f(st: UfV, t1: TermV, t2: TermV, fuel: nat) -> Option<(UfV, Result<(), ErrorV>)>
    decreases fuel, 0nat,
{
    match uf_resolve(st, t1, fuel) {
        None => None,
        Some((r1, st1)) => match uf_resolve(st1, t2, fuel) {
            None => None,
            Some((r2, st2)) => match (r1, r2) {
                (TermV::Const(a), TermV::Const(b)) => if a == b {
                    Some((st2, Ok(())))
                } else {
                    Some((st2, Err(ErrorV::UnificationFailed(const_message(a, b)))))
                },
                (TermV::Var(v), _) => Some((bind_spec(st2, v, r2), Ok(()))),
                (_, TermV::Var(v)) => Some((bind_spec(st2, v, r1), Ok(()))),
                (TermV::Compound(f1, a1), TermV::Compound(f2, a2)) => if f1 != f2 || a1.len() != a2.len() {
                    Some((st2, Err(ErrorV::UnificationFailed(functor_message(f1, f2)))))
                } else if fuel == 0 {
                    None
                } else {
                    unify_terms_args(st2, a1, a2, 0, (fuel - 1) as nat)
                },
                _ => Some((st2, Err(ErrorV::UnificationFailed(mismatch_message(r1, r2))))),
            },
        },
    }
}

/// Unifies the arguments from position `i` on, stopping at the first error.
pub open spec fn unify_terms_args(st: UfV, a1: Seq<TermV>, a2: Seq<TermV>, i: int, fuel: nat) -> Option<(UfV, Result<(), ErrorV>)>
    decreases fuel, a1.len() - i + 1,
{
    if i < 0 || i >= a1.len() || i >= a2.len() {
        Some((st, Ok(())))
    } else {
        match unify_terms_f(st, a1[i], a2[i], fuel) {
            Some((st2, Ok(()))) => unify_terms_args(st2, a1, a2, i + 1, fuel),
            Some((st2, Err(e))) => Some((st2, Err(e))),
            None => None,
        }
    }
}

/// Unification of `t1` with `t2` terminates from `st`.
pub open spec fn unify_terms_ok(st: UfV, t1: TermV, t2: TermV) -> bool {
    exists|n: nat| #[trigger] unify_terms_f(st, t1, t2, n) is Some
}

/// The state and outcome of unifying `t1` with `t2` from `st`.
pub open spec fn unify_terms_spec(st: UfV, t1: TermV, t2: TermV) -> (UfV, Result<(), ErrorV>) {
    unify_terms_f(st, t1, t2, choose|n: nat| #[trigger] unify_terms_f(st, t1, t2, n) is Some)->0
}

fn failure(msg: Vec<char>) -> (r: MachineError)
    ensures
        r@ == ErrorV::UnificationFailed(msg@),
{
    MachineError::UnificationFailed(chars_to_string(&msg))
}

fn unify_terms_fuel(uf: &mut UnionFind, t1: &Term, t2: &Term, Ghost(fuel): Ghost<nat>) -> (r: Result<(), MachineError>)
    requires
        unify_terms_f(old(uf)@, t1@, t2@, fuel) is Some,
    ensures
        unify_terms_f(old(uf)@, t1@, t2@, fuel) == Some((final(uf)@, res_view(r))),
    decreases fuel,
{
    let ghost st0 = uf@;
    let resolved1 = uf.resolve_fuel(t1, Ghost(fuel));
    let ghost st1 = uf@;
    let resolved2 = uf.resolve_fuel(t2, Ghost(fuel));
    let ghost st2 = uf@;
    proof {
        lemma_resolve_terminal(st0, t1@, fuel);
        lemma_resolve_terminal(st1, t2@, fuel);
        Term::lemma_args_view(resolved1);
        Term::lemma_args_view(resolved2);
    }
    match (&resolved1, &resolved2) {
        (Term::Const(a), Term::Const(b)) => {
            if *a == *b {
                Ok(())
            } else {
                proof {
                    reveal_strlit("Constants do not match: ");
                    reveal_strlit(" vs ");
                }
                let mut msg: Vec<char> = Vec::new();
                push_str(&mut msg, "Constants do not match: ");
                push_i32(&mut msg, *a);
                push_str(&mut msg, " vs ");
                push_i32(&mut msg, *b);
                proof {
                    assert(msg@ =~= const_message(*a, *b));
                }
                Err(failure(msg))
            }
        },
        (Term::Var(v), other) => {
            proof {
                lemma_resolve_settled(st2, resolved2@);
            }
            uf.bind(*v, other)
        },
        (other, Term::Var(v)) => {
            proof {
                lemma_resolve_settled(st2, resolved1@);
            }
            uf.bind(*v, other)
        },
        (Term::Compound(f1, args1), Term::Compound(f2, args2)) => {
            if !strings_equal(f1, f2) || args1.len() != args2.len() {
                proof {
                    reveal_strlit("Compound term mismatch: ");
                    reveal_strlit(" vs ");
                }
                let mut msg: Vec<char> = Vec::new();
                push_str(&mut msg, "Compound term mismatch: ");
                push_str(&mut msg, f1.as_str());
                push_str(&mut msg, " vs ");
                push_str(&mut msg, f2.as_str());
                proof {
                    assert(msg@ =~= functor_message(f1@, f2@));
                }
                return Err(failure(msg));
            }
            let ghost a1 = Term::args_view(args1@);
            let ghost a2 = Term::args_view(args2@);
            proof {
                assert(unify_terms_f(st0, t1@, t2@, fuel) == unify_terms_args(st2, a1, a2, 0, (fuel - 1) as nat));
            }
            let mut i: usize = 0;
            while i < args1.len()
                invariant
                    fuel > 0,
                    st0 == old(uf)@,
                    i <= args1.len(),
                    args1.len() == args2.len(),
                    a1 == Term::args_view(args1@),
                    a2 == Term::args_view(args2@),
                    unify_terms_args(st2, a1, a2, 0, (fuel - 1) as nat) is Some,
                    unify_terms_f(st0, t1@, t2@, fuel) == unify_terms_args(st2, a1, a2, 0, (fuel - 1) as nat),
                    unify_terms_args(uf@, a1, a2, i as int, (fuel - 1) as nat)
                        == unify_terms_args(st2, a1, a2, 0, (fuel - 1) as nat),
                decreases args1.len() - i,
            {
                proof {
                    assert(a1[i as int] == args1@[i as int]@);
                    assert(a2[i as int] == args2@[i as int]@);
                }
                let ghost prev = uf@;
                let r = unify_terms_fuel(uf, &args1[i], &args2[i], Ghost((fuel - 1) as nat));
                if r.is_err() {
                    proof {
                        assert(unify_terms_args(prev, a1, a2, i as int, (fuel - 1) as nat) == Some((uf@, res_view(r))));
                    }
                    return r;
                }
                i += 1;
            }
            Ok(())
        },
        (x, y) => {
            proof {
                reveal_strlit("Failed to unify ");
                reveal_strlit(" with ");
            }
            let mut msg: Vec<char> = Vec::new();
            push_str(&mut msg, "Failed to unify ");
            push_term_text(&mut msg, x);
            push_str(&mut msg, " with ");
            push_term_text(&mut msg, y);
            proof {
                assert(msg@ =~= mismatch_message(x@, y@));
            }
            Err(failure(msg))
        },
    }
}

/// Unifies two terms over `uf` (see `unify_terms_f`). The bindings made
/// before an error stay.
pub fn unify_terms(uf: &mut UnionFind, t1: &Term, t2: &Term) -> (r: Result<(), MachineError>)
    requires
        unify_terms_ok(old(uf)@, t1@, t2@),
    ensures
        (final(uf)@, res_view(r)) == unify_terms_spec(old(uf)@, t1@, t2@),
{
    let ghost n = choose|n: nat| #[trigger] unify_terms_f(uf@, t1@, t2@, n) is Some;
    unify_terms_fuel(uf, t1, t2, Ghost(n))
}

proof fn lemma_unify_terms_undoable(st: UfV, t1: TermV, t2: TermV, fuel: nat)
    ensures
        unify_terms_f(st, t1, t2, fuel) matches Some((st2, _)) ==> undoable(st, st2),
    decreases fuel, 0nat,
{
    lemma_resolve_undoable(st, t1, fuel);
    lemma_resolve_terminal(st, t1, fuel);
    if let Some((r1, st1)) = uf_resolve(st, t1, fuel) {
        lemma_resolve_undoable(st1, t2, fuel);
        lemma_resolve_terminal(st1, t2, fuel);
        if let Some((r2, st2)) = uf_resolve(st1, t2, fuel) {
            lemma_undoable_trans(st, st1, st2);
            match (r1, r2) {
                (TermV::Const(_), TermV::Const(_)) => {},
                (TermV::Var(v), _) => {
                    lemma_resolve_settled(st2, r2);
                    lemma_bind_undoable(st2, v, r2);
                    lemma_undoable_trans(st, st2, bind_spec(st2, v, r2));
                },
                (_, TermV::Var(v)) => {
                    lemma_resolve_settled(st2, r1);
                    lemma_bind_undoable(st2, v, r1);
                    lemma_undoable_trans(st, st2, bind_spec(st2, v, r1));
                },
                (TermV::Compound(f1, a1), TermV::Compound(f2, a2)) => {
                    if !(f1 != f2 || a1.len() != a2.len()) && fuel > 0 {
                        lemma_unify_terms_args_undoable(st2, a1, a2, 0, (fuel - 1) as nat);
                        if let Some((st3, _)) = unify_terms_args(st2, a1, a2, 0, (fuel - 1) as nat) {
                            lemma_undoable_trans(st, st2, st3);
                        }
                    }
                },
                _ => {},
            }
        }
    }
}

proof fn lemma_unify_terms_args_undoable(st: UfV, a1: Seq<TermV>, a2: Seq<TermV>, i: int, fuel: nat)
    ensures
        unify_terms_args(st, a1, a2, i, fuel) matches Some((st2, _)) ==> undoable(st, st2),
    decreases fuel, a1.len() - i + 1,
{
    lemma_undoable_refl(st);
    if !(i < 0 || i >= a1.len() || i >= a2.len()) {
        lemma_unify_terms_undoable(st, a1[i], a2[i], fuel);
        match unify_terms_f(st, a1[i], a2[i], fuel) {
            Some((st2, Ok(()))) => {
                lemma_unify_terms_args_undoable(st2, a1, a2, i + 1, fuel);
                if let Some((st3, _)) = unify_terms_args(st2, a1, a2, i + 1, fuel) {
                    lemma_undoable_trans(st, st2, st3);
                }
            },
            _ => {},
        }
    }
}

/// Unification, successful or not, can be undone: undoing the trail down to
/// its length before gives back the bindings and trail from before.
pub proof fn law_unify_terms_then_undo(st: UfV, t1: TermV, t2: TermV)
    requires
        unify_terms_ok(st, t1, t2),
        st.trail.len() <= usize::MAX,
    ensures
        undo_spec(unify_terms_spec(st, t1, t2).0, st.trail.len() as usize) == st,
{
    let n = choose|n: nat| #[trigger] unify_terms_f(st, t1, t2, n) is Some;
    lemma_unify_terms_undoable(st, t1, t2, n);
    lemma_undo_restores(st, unify_terms_spec(st, t1, t2).0);
}

/// Binding an unbound variable to a settled term: an assignment satisfying
/// the new bindings satisfies the old ones and gives the variable the value
/// of the term.
proof fn lemma_bind_value(st: UfV, v: usize, t: TermV, sigma: spec_fn(usize) -> TermV)
    requires
        !st.bindings.contains_key(v),
        t matches TermV::Var(w) ==> !st.bindings.contains_key(w),
        satisfies(bind_spec(st, v, t).bindings, sigma),
    ensures
        satisfies(st.bindings, sigma),
        sigma(v) == assign(sigma, t),
{
    lemma_resolve_settled(st, t);
    let b2 = bind_spec(st, v, t).bindings;
    if t != TermV::Var(v) {
        assert(b2.contains_key(v));
        assert forall|k: usize| #[trigger] st.bindings.contains_key(k) implies sigma(k) == assign(sigma, st.bindings[k]) by {
            assert(b2.contains_key(k));
        }
    }
}

proof fn lemma_unify_terms_sound(st: UfV, t1: TermV, t2: TermV, fuel: nat, sigma: spec_fn(usize) -> TermV)
    ensures
        unify_terms_f(st, t1, t2, fuel) matches Some((st3, res)) ==> (satisfies(st3.bindings, sigma) ==> {
            &&& satisfies(st.bindings, sigma)
            &&& (res is Ok ==> assign(sigma, t1) == assign(sigma, t2))
        }),
    decreases fuel, 0nat,
{
    lemma_resolve_terminal(st, t1, fuel);
    lemma_resolve_value(st, t1, fuel, sigma);
    if let Some((r1, st1)) = uf_resolve(st, t1, fuel) {
        lemma_resolve_terminal(st1, t2, fuel);
        lemma_resolve_value(st1, t2, fuel, sigma);
        if let Some((r2, st2)) = uf_resolve(st1, t2, fuel) {
            if let Some((st3, res)) = unify_terms_f(st, t1, t2, fuel) {
                if satisfies(st3.bindings, sigma) {
                    match (r1, r2) {
                        (TermV::Const(_), TermV::Const(_)) => {},
                        (TermV::Var(v), _) => {
                            lemma_bind_value(st2, v, r2, sigma);
                        },
                        (_, TermV::Var(v)) => {
                            lemma_bind_value(st2, v, r1, sigma);
                        },
                        (TermV::Compound(f1, a1), TermV::Compound(f2, a2)) => {
                            if !(f1 != f2 || a1.len() != a2.len()) && fuel > 0 {
                                lemma_unify_terms_args_sound(st2, a1, a2, 0, (fuel - 1) as nat, sigma);
                                if res is Ok {
                                    lemma_assign_seq_equal(sigma, a1, a2);
                                }
                            }
                        },
                        _ => {},
                    }
                }
            }
        }
    }
}

proof fn lemma_unify_terms_args_sound(st: UfV, a1: Seq<TermV>, a2: Seq<TermV>, i: int, fuel: nat, sigma: spec_fn(usize) -> TermV)
    requires
        0 <= i,
        a1.len() == a2.len(),
    ensures
        unify_terms_args(st, a1, a2, i, fuel) matches Some((st3, res)) ==> (satisfies(st3.bindings, sigma) ==> {
            &&& satisfies(st.bindings, sigma)
            &&& (res is Ok ==> forall|j: int| i <= j < a1.len() ==> assign(sigma, #[trigger] a1[j]) == assign(sigma, a2[j]))
        }),
    decreases fuel, a1.len() - i + 1,
{
    if i < a1.len() {
        lemma_unify_terms_sound(st, a1[i], a2[i], fuel, sigma);
        if let Some((st2, Ok(()))) = unify_terms_f(st, a1[i], a2[i], fuel) {
            lemma_unify_terms_args_sound(st2, a1, a2, i + 1, fuel, sigma);
        }
    }
}

/// Unification is sound: when it succeeds, every assignment of terms to the
/// variables that satisfies the bindings it leaves (each bound variable
/// stands for the value of its binding) satisfies the bindings from before
/// and gives the two terms the same value.
pub proof fn law_unify_terms_sound(st: UfV, t1: TermV, t2: TermV, sigma: spec_fn(usize) -> TermV)
    requires
        unify_terms_ok(st, t1, t2),
        unify_terms_spec(st, t1, t2).1 is Ok,
        satisfies(unify_terms_spec(st, t1, t2).0.bindings, sigma),
    ensures
        assign(sigma, t1) == assign(sigma, t2),
        satisfies(st.bindings, sigma),
{
    let n = choose|n: nat| #[trigger] unify_terms_f(st, t1, t2, n) is Some;
    lemma_unify_terms_sound(st, t1, t2, n, sigma);
}

/// After a successful unification whose bindings have no cycle, the two
/// terms resolve fully to the same term.
pub proof fn law_unify_terms_resolves_equal(st: UfV, t1: TermV, t2: TermV)
    requires
        unify_terms_ok(st, t1, t2),
        unify_terms_spec(st, t1, t2).1 is Ok,
        all_resolve(unify_terms_spec(st, t1, t2).0.bindings),
        resolves_fully(unify_terms_spec(st, t1, t2).0.bindings, t1),
        resolves_fully(unify_terms_spec(st, t1, t2).0.bindings, t2),
    ensures
        full_resolve(unify_terms_spec(st, t1, t2).0.bindings, t1) == full_resolve(unify_terms_spec(st, t1, t2).0.bindings, t2),
{
    let bs = unify_terms_spec(st, t1, t2).0.bindings;
    lemma_resolved_assignment(bs);
    law_unify_terms_sound(st, t1, t2, resolved_assignment(bs));
}

/// `t` is built from constants and compound terms alone.
pub open spec fn rigid(t: TermV) -> bool
    decreases t,
{
    match t {
        TermV::Const(_) => true,
        TermV::Compound(_, a) => forall|j: int| 0 <= j < a.len() ==> rigid(#[trigger] a[j]),
        _ => false,
    }
}

proof fn lemma_unify_rigid(st: UfV, t1: TermV, t2: TermV, fuel: nat)
    requires
        rigid(t1),
        rigid(t2),
    ensures
        unify_terms_f(st, t1, t2, fuel) matches Some((st2, res)) ==> st2 == st && (res is Ok <==> t1 == t2),
        fuel >= term_size(t1) ==> unify_terms_f(st, t1, t2, fuel) is Some,
    decreases fuel, 0nat,
{
    assert(uf_resolve(st, t1, fuel) == Some((t1, st)));
    assert(uf_resolve(st, t2, fuel) == Some((t2, st)));
    if let (TermV::Compound(f1, a1), TermV::Compound(f2, a2)) = (t1, t2) {
        if f1 == f2 && a1.len() == a2.len() && fuel > 0 {
            assert forall|j: int| 0 <= j < a1.len() && fuel >= term_size(t1) implies (fuel - 1) as nat >= term_size(#[trigger] a1[j]) by {
                lemma_args_size(a1, j);
            }
            lemma_unify_rigid_args(st, a1, a2, 0, (fuel - 1) as nat);
            assert(a1.skip(0) =~= a1);
            assert(a2.skip(0) =~= a2);
        }
    }
}

proof fn lemma_unify_rigid_args(st: UfV, a1: Seq<TermV>, a2: Seq<TermV>, i: int, fuel: nat)
    requires
        0 <= i <= a1.len(),
        a1.len() == a2.len(),
        forall|j: int| 0 <= j < a1.len() ==> rigid(#[trigger] a1[j]) && rigid(a2[j]),
    ensures
        unify_terms_args(st, a1, a2, i, fuel) matches Some((st2, res)) ==> st2 == st && (res is Ok <==> a1.skip(i) == a2.skip(i)),
        (forall|j: int| i <= j < a1.len() ==> fuel >= term_size(#[trigger] a1[j]))
            ==> unify_terms_args(st, a1, a2, i, fuel) is Some,
    decreases fuel, a1.len() - i + 1,
{
    if i == a1.len() {
        assert(a1.skip(i) =~= a2.skip(i));
    } else {
        lemma_unify_rigid(st, a1[i], a2[i], fuel);
        lemma_unify_rigid_args(st, a1, a2, i + 1, fuel);
        assert(a1.skip(i)[0] == a1[i]);
        assert(a2.skip(i)[0] == a2[i]);
        if a1.skip(i) == a2.skip(i) {
            assert(a1.skip(i + 1) =~= a1.skip(i).skip(1));
            assert(a2.skip(i + 1) =~= a2.skip(i).skip(1));
        }
        if a1[i] == a2[i] && a1.skip(i + 1) == a2.skip(i + 1) {
            assert forall|k: int| 0 <= k < a1.len() - i implies a1.skip(i)[k] == a2.skip(i)[k] by {
                if k > 0 {
                    assert(a1.skip(i)[k] == a1.skip(i + 1)[k - 1]);
                    assert(a2.skip(i)[k] == a2.skip(i + 1)[k - 1]);
                }
            }
            assert(a1.skip(i) =~= a2.skip(i));
        }
    }
}

/// Terms built from constants and compound terms alone unify exactly when
/// they are equal, and unifying them leaves the bindings and the trail as
/// they were.
pub proof fn law_unify_terms_rigid(st: UfV, t1: TermV, t2: TermV)
    requires
        rigid(t1),
        rigid(t2),
    ensures
        unify_terms_ok(st, t1, t2),
        unify_terms_spec(st, t1, t2).0 == st,
        unify_terms_spec(st, t1, t2).1 is Ok <==> t1 == t2,
{
    lemma_unify_rigid(st, t1, t2, term_size(t1));
    let n = choose|n: nat| #[trigger] unify_terms_f(st, t1, t2, n) is Some;
    lemma_unify_rigid(st, t1, t2, n);
}

} // verus!
