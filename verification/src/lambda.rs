//! Lambda calculus over terms: free variables, capture-avoiding substitution
//! and beta reduction.

use std::collections::HashSet;
use vstd::prelude::*;
use crate::term::{Term, TermV, copy_term, assign, assign_seq};

verus! {

broadcast use {vstd::std_specs::vec::group_vec_axioms, vstd::std_specs::hash::group_hash_axioms};

/// The number of nodes of a term.
pub open spec fn term_size(t: TermV) -> nat
    decreases t,
{
    match t {
        TermV::Const(_) | TermV::Var(_) | TermV::Str(_) => 1,
        TermV::Compound(_, a) | TermV::Constraint(_, a) => 1 + args_size(a),
        TermV::Lambda(_, b) | TermV::Prob(b) | TermV::Modal(_, b) | TermV::Temporal(_, b)
        | TermV::HigherOrder(b) => 1 + term_size(*b),
        TermV::App(f, a) => 1 + term_size(*f) + term_size(*a),
    }
}

/// The number of nodes of a sequence of terms, one more per element.
pub open spec fn args_size(s: Seq<TermV>) -> nat
    decreases s,
{
    if s.len() == 0 {
        0
    } else {
        args_size(s.subrange(0, s.len() - 1)) + term_size(s[s.len() - 1]) + 1
    }
}

/// The variables that occur free in a term.
pub open spec fn free_set(t: TermV) -> Set<usize>
    decreases t,
{
    match t {
        TermV::Var(v) => set![v],
        TermV::Const(_) | TermV::Str(_) => Set::empty(),
        TermV::Compound(_, a) | TermV::Constraint(_, a) => free_set_seq(a),
        TermV::Lambda(p, b) => free_set(*b).remove(p),
        TermV::App(f, a) => free_set(*f).union(free_set(*a)),
        TermV::Prob(b) | TermV::Modal(_, b) | TermV::Temporal(_, b) | TermV::HigherOrder(b) => free_set(*b),
    }
}

/// The variables that occur free in some term of a sequence.
pub open spec fn free_set_seq(s: Seq<TermV>) -> Set<usize>
    decreases s,
{
    if s.len() == 0 {
        Set::empty()
    } else {
        free_set_seq(s.subrange(0, s.len() - 1)).union(free_set(s[s.len() - 1]))
    }
}

/// `n` is the least number missing from `s`.
pub open spec fn least_missing(s: Set<usize>, n: usize) -> bool {
    &&& !s.contains(n)
    &&& forall|k: usize| k < n ==> s.contains(k)
}

/// The least number missing from a set.
pub open spec fn fresh_var(s: Set<usize>) -> usize {
    choose|n: usize| least_missing(s, n)
}

/// Capture-avoiding substitution of `r` for the free occurrences of `x` in `t`.
/// A binder that would capture a free variable of `r` is first renamed to the
/// least variable that is free neither in `t` nor in `r` and is not `x`.
pub open spec fn subst(t: TermV, x: usize, r: TermV) -> TermV
    decreases term_size(t),
{
    match t {
        TermV::Var(v) => if v == x { r } else { t },
        TermV::Const(_) | TermV::Str(_) => t,
        TermV::Compound(f, a) => TermV::Compound(f, subst_seq(a, x, r)),
        TermV::Constraint(f, a) => TermV::Constraint(f, subst_seq(a, x, r)),
        TermV::Lambda(p, b) => {
            if p == x {
                t
            } else if free_set(r).contains(p) {
                let fresh = fresh_var(free_set(t).union(free_set(r)).insert(x));
                let renamed = subst(*b, p, TermV::Var(fresh));
                if term_size(renamed) == term_size(*b) {
                    TermV::Lambda(fresh, Box::new(subst(renamed, x, r)))
                } else {
                    t
                }
            } else {
                TermV::Lambda(p, Box::new(subst(*b, x, r)))
            }
        },
        TermV::App(f, a) => TermV::App(Box::new(subst(*f, x, r)), Box::new(subst(*a, x, r))),
        TermV::Prob(b) => TermV::Prob(Box::new(subst(*b, x, r))),
        TermV::Modal(o, b) => TermV::Modal(o, Box::new(subst(*b, x, r))),
        TermV::Temporal(o, b) => TermV::Temporal(o, Box::new(subst(*b, x, r))),
        TermV::HigherOrder(b) => TermV::HigherOrder(Box::new(subst(*b, x, r))),
    }
}

/// Substitution applied to each term of a sequence.
pub open spec fn subst_seq(s: Seq<TermV>, x: usize, r: TermV) -> Seq<TermV>
    decreases args_size(s),
{
    if s.len() == 0 {
        Seq::empty()
    } else {
        subst_seq(s.subrange(0, s.len() - 1), x, r).push(subst(s[s.len() - 1], x, r))
    }
}

/// One parallel step of beta reduction: every application of a lambda
/// abstraction is contracted, the other nodes are reduced inside.
pub open spec fn beta(t: TermV) -> TermV
    decreases t,
{
    match t {
        TermV::App(f, a) => match *f {
            TermV::Lambda(p, b) => subst(*b, p, *a),
            _ => TermV::App(Box::new(beta(*f)), Box::new(beta(*a))),
        },
        TermV::Lambda(p, b) => TermV::Lambda(p, Box::new(beta(*b))),
        TermV::Compound(f, a) => TermV::Compound(f, Seq::new(a.len(), |i: int| if 0 <= i < a.len() { beta(a[i]) } else { TermV::Const(0) })),
        TermV::Constraint(f, a) => TermV::Constraint(f, Seq::new(a.len(), |i: int| if 0 <= i < a.len() { beta(a[i]) } else { TermV::Const(0) })),
        TermV::Prob(b) => TermV::Prob(Box::new(beta(*b))),
        TermV::Modal(o, b) => TermV::Modal(o, Box::new(beta(*b))),
        TermV::Temporal(o, b) => TermV::Temporal(o, Box::new(beta(*b))),
        TermV::HigherOrder(b) => TermV::HigherOrder(Box::new(beta(*b))),
        _ => t,
    }
}

/// Each term of a sequence is smaller than the sequence.
pub proof fn lemma_args_size(s: Seq<TermV>, i: int)
    requires
        0 <= i < s.len(),
    ensures
        term_size(s[i]) < args_size(s),
    decreases s.len(),
{
    if i < s.len() - 1 {
        lemma_args_size(s.subrange(0, s.len() - 1), i);
    }
}

/// A finite set holding every number below `n` has at least `n` elements.
proof fn lemma_prefix_card(s: Set<usize>, n: nat)
    requires
        s.finite(),
        forall|k: usize| k < n ==> s.contains(k),
        n <= usize::MAX + 1,
    ensures
        n <= s.len(),
    decreases n,
{
    if n > 0 {
        let top = (n - 1) as usize;
        assert(s.contains(top));
        lemma_prefix_card(s.remove(top), (n - 1) as nat);
    }
}

/// A sequence taken one element further.
proof fn lemma_take_step<A>(s: Seq<A>, i: int)
    requires
        0 <= i < s.len(),
    ensures
        s.take(i + 1).subrange(0, i) == s.take(i),
        s.take(i + 1)[i] == s[i],
        s.take(i + 1).len() == i + 1,
{
    assert(s.take(i + 1).subrange(0, i) =~= s.take(i));
}

/// Whether `x` is among the listed variables.
fn listed(list: &Vec<usize>, x: usize) -> (r: bool)
    ensures
        r == list@.contains(x),
{
    let mut i: usize = 0;
    while i < list.len()
        invariant
            i <= list.len(),
            forall|j: int| 0 <= j < i ==> list@[j] != x,
        decreases list.len() - i,
    {
        if list[i] == x {
            return true;
        }
        i += 1;
    }
    false
}

/// The free variables of `t` that are not listed in `bound`.
pub open spec fn free_outside(t: TermV, bound: Seq<usize>) -> Set<usize> {
    free_set(t).filter(|y: usize| !bound.contains(y))
}

/// Adds to `acc` the free variables of `t` that are not in `bound`.
fn collect_free(t: &Term, bound: &mut Vec<usize>, acc: &mut HashSet<usize>)
    ensures
        final(bound)@ == old(bound)@,
        final(acc)@ == old(acc)@.union(free_outside(t@, old(bound)@)),
        old(acc)@.finite() ==> final(acc)@.finite(),
    decreases t, 1nat,
{
    proof {
        Term::lemma_args_view(*t);
    }
    match t {
        Term::Var(v) => {
            if !listed(bound, *v) {
                acc.insert(*v);
            }
            proof {
                assert(final(acc)@ =~= old(acc)@.union(free_outside(t@, old(bound)@)));
            }
        },
        Term::Const(_) | Term::Str(_) => {
            proof {
                assert(final(acc)@ =~= old(acc)@.union(free_outside(t@, old(bound)@)));
            }
        },
        Term::Compound(_, args) | Term::Constraint(_, args) => {
            collect_free_args(args, bound, acc);
        },
        Term::Lambda(p, body) => {
            let ghost b0 = bound@;
            bound.push(*p);
            collect_free(body, bound, acc);
            bound.pop();
            proof {
                assert(bound@ =~= b0);
                assert(free_outside(body@, b0.push(*p)) =~= free_outside(t@, b0)) by {
                    assert forall|y: usize| b0.push(*p).contains(y) <==> (b0.contains(y) || y == *p) by {
                        if b0.push(*p).contains(y) {
                            let j = choose|j: int| 0 <= j < b0.push(*p).len() && b0.push(*p)[j] == y;
                            if j < b0.len() {
                                assert(b0[j] == y);
                            }
                        }
                        if b0.contains(y) {
                            let j = choose|j: int| 0 <= j < b0.len() && b0[j] == y;
                            assert(b0.push(*p)[j] == y);
                        }
                        if y == *p {
                            assert(b0.push(*p)[b0.len() as int] == y);
                        }
                    }
                }
            }
        },
        Term::App(f, a) => {
            collect_free(f, bound, acc);
            collect_free(a, bound, acc);
            proof {
                assert(final(acc)@ =~= old(acc)@.union(free_outside(t@, old(bound)@)));
            }
        },
        Term::Prob(b) | Term::Modal(_, b) | Term::Temporal(_, b) | Term::HigherOrder(b) => {
            collect_free(b, bound, acc);
        },
    }
}

/// Adds to `acc` the free variables of the arguments that are not in `bound`.
fn collect_free_args(args: &Vec<Term>, bound: &mut Vec<usize>, acc: &mut HashSet<usize>)
    ensures
        final(bound)@ == old(bound)@,
        final(acc)@ == old(acc)@.union(free_set_seq(Term::args_view(args@)).filter(|y: usize| !old(bound)@.contains(y))),
        old(acc)@.finite() ==> final(acc)@.finite(),
    decreases args, 0nat,
{
    let ghost s = Term::args_view(args@);
    let ghost b0 = bound@;
    let ghost a0 = acc@;
    let mut i: usize = 0;
    proof {
        assert(s.take(0).len() == 0);
        assert(acc@ =~= a0.union(free_set_seq(s.take(0)).filter(|y: usize| !b0.contains(y))));
    }
    while i < args.len()
        invariant
            i <= args.len(),
            s == Term::args_view(args@),
            bound@ == b0,
            acc@ == a0.union(free_set_seq(s.take(i as int)).filter(|y: usize| !b0.contains(y))),
            a0.finite() ==> acc@.finite(),
        decreases args.len() - i,
    {
        proof {
            assert(decreases_to!(args => args@[i as int]));
        }
        collect_free(&args[i], bound, acc);
        proof {
            lemma_take_step(s, i as int);
            assert(acc@ =~= a0.union(free_set_seq(s.take(i + 1)).filter(|y: usize| !b0.contains(y))));
        }
        i += 1;
    }
    proof {
        assert(s.take(args.len() as int) =~= s);
    }
}

/// The set of variables free in a term.
pub fn free_vars(t: &Term) -> (r: HashSet<usize>)
    ensures
        r@ == free_set(t@),
        r@.finite(),
{
    let mut acc: HashSet<usize> = HashSet::new();
    let mut bound: Vec<usize> = Vec::new();
    collect_free(t, &mut bound, &mut acc);
    proof {
        assert(acc@ =~= free_set(t@));
    }
    acc
}

/// The least variable that is free neither in `term` nor in `replacement`
/// and is not `var`.
fn generate_fresh_var(term: &Term, replacement: &Term, var: usize) -> (r: usize)
    ensures
        r == fresh_var(free_set(term@).union(free_set(replacement@)).insert(var)),
{
    let mut used: HashSet<usize> = HashSet::new();
    let mut bound: Vec<usize> = Vec::new();
    collect_free(term, &mut bound, &mut used);
    collect_free(replacement, &mut bound, &mut used);
    used.insert(var);
    let ghost u = free_set(term@).union(free_set(replacement@)).insert(var);
    proof {
        assert(used@ =~= u);
    }
    let n = used.len();
    let mut fresh: usize = 0;
    while used.contains(&fresh)
        invariant
            used@ == u,
            u.finite(),
            n == u.len(),
            fresh <= n,
            forall|k: usize| k < fresh ==> u.contains(k),
        decreases n - fresh,
    {
        proof {
            lemma_prefix_card(u, (fresh + 1) as nat);
        }
        fresh += 1;
    }
    proof {
        assert(least_missing(u, fresh));
        let m = fresh_var(u);
        assert(least_missing(u, m));
        if m < fresh {
            assert(u.contains(m));
        }
        if m > fresh {
            assert(u.contains(fresh));
        }
    }
    fresh
}

/// Substitution applied to each argument.
fn substitute_args(args: &Vec<Term>, var: usize, replacement: &Term) -> (out: Vec<Term>)
    ensures
        Term::args_view(out@) == subst_seq(Term::args_view(args@), var, replacement@),
        replacement@ is Var ==> args_size(Term::args_view(out@)) == args_size(Term::args_view(args@)),
    decreases args_size(Term::args_view(args@)),
{
    let ghost s = Term::args_view(args@);
    let mut out: Vec<Term> = Vec::new();
    let mut i: usize = 0;
    proof {
        assert(s.take(0) =~= Seq::<TermV>::empty());
        assert(Term::args_view(out@) =~= Seq::<TermV>::empty());
    }
    while i < args.len()
        invariant
            i <= args.len(),
            out@.len() == i,
            s == Term::args_view(args@),
            Term::args_view(out@) == subst_seq(s.take(i as int), var, replacement@),
            replacement@ is Var ==> args_size(Term::args_view(out@)) == args_size(s.take(i as int)),
        decreases args.len() - i,
    {
        proof {
            lemma_args_size(s, i as int);
        }
        let c = substitute(&args[i], var, replacement);
        let ghost before = Term::args_view(out@);
        out.push(c);
        proof {
            lemma_take_step(s, i as int);
            assert(Term::args_view(out@) =~= before.push(c@));
            assert(Term::args_view(out@).subrange(0, i as int) =~= before);
        }
        i += 1;
    }
    proof {
        assert(s.take(args.len() as int) =~= s);
    }
    out
}

/// Capture-avoiding substitution of `replacement` for the free occurrences of
/// variable `var` in `term`.
pub fn substitute(term: &Term, var: usize, replacement: &Term) -> (r: Term)
    ensures
        r@ == subst(term@, var, replacement@),
        replacement@ is Var ==> term_size(r@) == term_size(term@),
    decreases term_size(term@),
{
    proof {
        Term::lemma_args_view(*term);
    }
    let r = match term {
        Term::Var(v) => {
            if *v == var {
                replacement.clone()
            } else {
                term.clone()
            }
        },
        Term::Const(_) | Term::Str(_) => term.clone(),
        Term::Compound(f, args) => Term::Compound(f.clone(), substitute_args(args, var, replacement)),
        Term::Constraint(f, args) => Term::Constraint(f.clone(), substitute_args(args, var, replacement)),
        Term::Lambda(param, body) => {
            if *param == var {
                term.clone()
            } else {
                let replacement_free = free_vars(replacement);
                if replacement_free.contains(param) {
                    let fresh = generate_fresh_var(term, replacement, var);
                    let renamed_body = substitute(body, *param, &Term::Var(fresh));
                    Term::Lambda(fresh, Box::new(substitute(&renamed_body, var, replacement)))
                } else {
                    Term::Lambda(*param, Box::new(substitute(body, var, replacement)))
                }
            }
        },
        Term::App(fun, arg) => Term::App(
            Box::new(substitute(fun, var, replacement)),
            Box::new(substitute(arg, var, replacement)),
        ),
        Term::Prob(inner) => Term::Prob(Box::new(substitute(inner, var, replacement))),
        Term::Modal(op, inner) => Term::Modal(op.clone(), Box::new(substitute(inner, var, replacement))),
        Term::Temporal(op, inner) => Term::Temporal(op.clone(), Box::new(substitute(inner, var, replacement))),
        Term::HigherOrder(inner) => Term::HigherOrder(Box::new(substitute(inner, var, replacement))),
    };
    proof {
        Term::lemma_args_view(r);
    }
    r
}

/// Beta reduction applied to each argument.
fn beta_reduce_args(args: &Vec<Term>) -> (out: Vec<Term>)
    ensures
        out@.len() == args@.len(),
        forall|j: int| 0 <= j < args@.len() ==> out@[j]@ == beta(args@[j]@),
    decreases args, 0nat,
{
    let mut out: Vec<Term> = Vec::new();
    let mut i: usize = 0;
    while i < args.len()
        invariant
            i <= args.len(),
            out@.len() == i,
            forall|j: int| 0 <= j < i ==> out@[j]@ == beta(args@[j]@),
        decreases args.len() - i,
    {
        proof {
            assert(decreases_to!(args => args@[i as int]));
        }
        let c = beta_reduce(&args[i]);
        out.push(c);
        i += 1;
    }
    out
}

/// One parallel step of beta reduction: each application of a lambda
/// abstraction is replaced by the substituted body; other nodes are reduced
/// inside.
pub fn beta_reduce(term: &Term) -> (r: Term)
    ensures
        r@ == beta(term@),
    decreases term, 1nat,
{
    proof {
        Term::lemma_args_view(*term);
    }
    let r = match term {
        Term::App(fun, arg) => match &**fun {
            Term::Lambda(param, body) => {
                let x = substitute(body, *param, arg);
                assert(x@ == beta(term@));
                x
            }
            _ => {
                let x = Term::App(Box::new(beta_reduce(fun)), Box::new(beta_reduce(arg)));
                assert(!(fun@ is Lambda)) by {
                    reveal_with_fuel(Term::view_rec, 2);
                }
                assert(x@ == beta(term@));
                x
            }
        },
        Term::Lambda(param, body) => Term::Lambda(*param, Box::new(beta_reduce(body))),
        Term::Compound(f, args) => Term::Compound(f.clone(), beta_reduce_args(args)),
        Term::Constraint(f, args) => Term::Constraint(f.clone(), beta_reduce_args(args)),
        Term::Prob(inner) => Term::Prob(Box::new(beta_reduce(inner))),
        Term::Modal(op, inner) => Term::Modal(op.clone(), Box::new(beta_reduce(inner))),
        Term::Temporal(op, inner) => Term::Temporal(op.clone(), Box::new(beta_reduce(inner))),
        Term::HigherOrder(inner) => Term::HigherOrder(Box::new(beta_reduce(inner))),
        _ => {
            let x = term.clone();
            assert(x@ == beta(term@));
            x
        }
    };
    proof {
        Term::lemma_args_view(r);
        match (term, &r) {
            (Term::Compound(_, _), Term::Compound(_, o)) => {
                if let TermV::Compound(_, b) = beta(term@) {
                    assert(Term::args_view(o@) =~= b);
                }
            },
            (Term::Constraint(_, _), Term::Constraint(_, o)) => {
                if let TermV::Constraint(_, b) = beta(term@) {
                    assert(Term::args_view(o@) =~= b);
                }
            },
            _ => {},
        }
    }
    r
}

/// Renaming a variable does not change the size of a term.
proof fn lemma_subst_size(t: TermV, x: usize, y: usize)
    ensures
        term_size(subst(t, x, TermV::Var(y))) == term_size(t),
    decreases term_size(t),
{
    match t {
        TermV::Compound(_, a) | TermV::Constraint(_, a) => { lemma_subst_seq_size(a, x, y); },
        TermV::Lambda(p, b) => {
            lemma_subst_size(*b, x, y);
            if p != x && free_set(TermV::Var(y)).contains(p) {
                let f = fresh_var(free_set(t).union(free_set(TermV::Var(y))).insert(x));
                lemma_subst_size(*b, p, f);
                lemma_subst_size(subst(*b, p, TermV::Var(f)), x, y);
            }
        },
        TermV::App(f, a) => {
            lemma_subst_size(*f, x, y);
            lemma_subst_size(*a, x, y);
        },
        TermV::Prob(b) | TermV::Modal(_, b) | TermV::Temporal(_, b) | TermV::HigherOrder(b) => {
            lemma_subst_size(*b, x, y);
        },
        _ => {},
    }
}

proof fn lemma_subst_seq_size(s: Seq<TermV>, x: usize, y: usize)
    ensures
        args_size(subst_seq(s, x, TermV::Var(y))) == args_size(s),
        subst_seq(s, x, TermV::Var(y)).len() == s.len(),
    decreases args_size(s),
{
    if s.len() > 0 {
        let pre = s.subrange(0, s.len() - 1);
        lemma_subst_seq_size(pre, x, y);
        lemma_subst_size(s[s.len() - 1], x, y);
        let q = subst_seq(s, x, TermV::Var(y));
        assert(q.subrange(0, q.len() - 1) =~= subst_seq(pre, x, TermV::Var(y)));
    }
}

/// Substitution keeps the length of a sequence.
proof fn lemma_subst_seq_len(s: Seq<TermV>, x: usize, r: TermV)
    ensures
        subst_seq(s, x, r).len() == s.len(),
    decreases s.len(),
{
    if s.len() > 0 {
        lemma_subst_seq_len(s.subrange(0, s.len() - 1), x, r);
    }
}

/// The last step of a substituted sequence.
proof fn lemma_subst_seq_split(s: Seq<TermV>, x: usize, r: TermV)
    requires
        s.len() > 0,
    ensures
        ({
            let q = subst_seq(s, x, r);
            &&& q.len() == s.len()
            &&& q.subrange(0, q.len() - 1) == subst_seq(s.subrange(0, s.len() - 1), x, r)
            &&& q[q.len() - 1] == subst(s[s.len() - 1], x, r)
        }),
{
    lemma_subst_seq_len(s, x, r);
    let q = subst_seq(s, x, r);
    lemma_subst_seq_len(s.subrange(0, s.len() - 1), x, r);
    assert(q.subrange(0, q.len() - 1) =~= subst_seq(s.subrange(0, s.len() - 1), x, r));
}

/// The free variables of a term are a finite set no larger than the term.
proof fn lemma_free_finite(t: TermV)
    ensures
        free_set(t).finite(),
        free_set(t).len() <= term_size(t),
    decreases t,
{
    match t {
        TermV::Var(v) => {
            assert(free_set(t) =~= Set::empty().insert(v));
        },
        TermV::Compound(_, a) | TermV::Constraint(_, a) => { lemma_free_finite_seq(a); },
        TermV::Lambda(p, b) => { lemma_free_finite(*b); },
        TermV::App(f, a) => {
            lemma_free_finite(*f);
            lemma_free_finite(*a);
            vstd::set_lib::lemma_len_union(free_set(*f), free_set(*a));
        },
        TermV::Prob(b) | TermV::Modal(_, b) | TermV::Temporal(_, b) | TermV::HigherOrder(b) => {
            lemma_free_finite(*b);
        },
        _ => {},
    }
}

proof fn lemma_free_finite_seq(s: Seq<TermV>)
    ensures
        free_set_seq(s).finite(),
        free_set_seq(s).len() <= args_size(s),
    decreases s,
{
    if s.len() > 0 {
        let pre = s.subrange(0, s.len() - 1);
        lemma_free_finite_seq(pre);
        lemma_free_finite(s[s.len() - 1]);
        vstd::set_lib::lemma_len_union(free_set_seq(pre), free_set(s[s.len() - 1]));
    }
}

/// Below a missing number there is a least missing one.
proof fn lemma_least_below(u: Set<usize>, m: usize)
    requires
        !u.contains(m),
    ensures
        least_missing(u, fresh_var(u)),
    decreases m,
{
    if forall|k: usize| k < m ==> u.contains(k) {
        assert(least_missing(u, m));
    } else {
        let k = choose|k: usize| k < m && !u.contains(k);
        lemma_least_below(u, k);
    }
}

/// A finite set of at most `usize::MAX` numbers misses a least one.
proof fn lemma_fresh_var(u: Set<usize>)
    requires
        u.finite(),
        u.len() <= usize::MAX,
    ensures
        least_missing(u, fresh_var(u)),
{
    if forall|k: usize| k < usize::MAX + 1 ==> u.contains(k) {
        lemma_prefix_card(u, (usize::MAX + 1) as nat);
    } else {
        let m = choose|k: usize| !u.contains(k);
        lemma_least_below(u, m);
    }
}

/// The variable chosen to rename a binder is free neither in the term nor in
/// the replacement, and is not the substituted variable.
proof fn lemma_rename_fresh(t: TermV, x: usize, r: TermV)
    requires
        term_size(t) + term_size(r) < usize::MAX,
    ensures
        !free_set(t).contains(fresh_var(free_set(t).union(free_set(r)).insert(x))),
        !free_set(r).contains(fresh_var(free_set(t).union(free_set(r)).insert(x))),
        fresh_var(free_set(t).union(free_set(r)).insert(x)) != x,
{
    lemma_free_finite(t);
    lemma_free_finite(r);
    vstd::set_lib::lemma_len_union(free_set(t), free_set(r));
    lemma_fresh_var(free_set(t).union(free_set(r)).insert(x));
}

/// Applying the identity abstraction to a term reduces to that term.
pub proof fn law_beta_identity(p: usize, a: TermV)
    ensures
        beta(TermV::App(Box::new(TermV::Lambda(p, Box::new(TermV::Var(p)))), Box::new(a))) == a,
{
    assert(subst(TermV::Var(p), p, a) == a);
}

/// Substitution brings in no free variable but those of the replacement: the
/// free variables of the result are free in the term (other than the
/// substituted one) or in the replacement.
pub proof fn law_subst_free_vars_bounded(t: TermV, x: usize, r: TermV)
    ensures
        free_set(subst(t, x, r)).subset_of(free_set(t).remove(x).union(free_set(r))),
    decreases term_size(t),
{
    match t {
        TermV::Compound(_, a) | TermV::Constraint(_, a) => { lemma_subst_seq_bounded(a, x, r); },
        TermV::Lambda(p, b) => {
            if p != x {
                if free_set(r).contains(p) {
                    let f = fresh_var(free_set(t).union(free_set(r)).insert(x));
                    lemma_subst_size(*b, p, f);
                    let renamed = subst(*b, p, TermV::Var(f));
                    law_subst_free_vars_bounded(*b, p, TermV::Var(f));
                    law_subst_free_vars_bounded(renamed, x, r);
                } else {
                    law_subst_free_vars_bounded(*b, x, r);
                }
            }
        },
        TermV::App(f, a) => {
            law_subst_free_vars_bounded(*f, x, r);
            law_subst_free_vars_bounded(*a, x, r);
        },
        TermV::Prob(b) | TermV::Modal(_, b) | TermV::Temporal(_, b) | TermV::HigherOrder(b) => {
            law_subst_free_vars_bounded(*b, x, r);
        },
        _ => {},
    }
}

proof fn lemma_subst_seq_bounded(s: Seq<TermV>, x: usize, r: TermV)
    ensures
        free_set_seq(subst_seq(s, x, r)).subset_of(free_set_seq(s).remove(x).union(free_set(r))),
    decreases args_size(s),
{
    if s.len() > 0 {
        let pre = s.subrange(0, s.len() - 1);
        lemma_subst_seq_split(s, x, r);
        lemma_subst_seq_bounded(pre, x, r);
        law_subst_free_vars_bounded(s[s.len() - 1], x, r);
    }
}

/// Substitution keeps every other free variable of the term free.
pub proof fn law_subst_keeps_free_vars(t: TermV, x: usize, r: TermV)
    requires
        term_size(t) + term_size(r) < usize::MAX,
    ensures
        free_set(t).remove(x).subset_of(free_set(subst(t, x, r))),
    decreases term_size(t),
{
    match t {
        TermV::Compound(_, a) | TermV::Constraint(_, a) => { lemma_subst_seq_keeps(a, x, r); },
        TermV::Lambda(p, b) => {
            if p != x {
                if free_set(r).contains(p) {
                    let f = fresh_var(free_set(t).union(free_set(r)).insert(x));
                    lemma_rename_fresh(t, x, r);
                    lemma_subst_size(*b, p, f);
                    let renamed = subst(*b, p, TermV::Var(f));
                    law_subst_keeps_free_vars(*b, p, TermV::Var(f));
                    law_subst_keeps_free_vars(renamed, x, r);
                } else {
                    law_subst_keeps_free_vars(*b, x, r);
                }
            }
        },
        TermV::App(f, a) => {
            law_subst_keeps_free_vars(*f, x, r);
            law_subst_keeps_free_vars(*a, x, r);
        },
        TermV::Prob(b) | TermV::Modal(_, b) | TermV::Temporal(_, b) | TermV::HigherOrder(b) => {
            law_subst_keeps_free_vars(*b, x, r);
        },
        _ => {},
    }
}

proof fn lemma_subst_seq_keeps(s: Seq<TermV>, x: usize, r: TermV)
    requires
        args_size(s) + term_size(r) < usize::MAX,
    ensures
        free_set_seq(s).remove(x).subset_of(free_set_seq(subst_seq(s, x, r))),
    decreases args_size(s),
{
    if s.len() > 0 {
        let pre = s.subrange(0, s.len() - 1);
        lemma_subst_seq_split(s, x, r);
        lemma_subst_seq_keeps(pre, x, r);
        law_subst_keeps_free_vars(s[s.len() - 1], x, r);
    }
}

/// Substitution captures no variable: where the substituted variable is free
/// in the term, every free variable of the replacement is free in the result.
pub proof fn law_subst_no_capture(t: TermV, x: usize, r: TermV)
    requires
        term_size(t) + term_size(r) < usize::MAX,
        free_set(t).contains(x),
    ensures
        free_set(r).subset_of(free_set(subst(t, x, r))),
    decreases term_size(t),
{
    match t {
        TermV::Compound(_, a) | TermV::Constraint(_, a) => { lemma_subst_seq_no_capture(a, x, r); },
        TermV::Lambda(p, b) => {
            if free_set(r).contains(p) {
                let f = fresh_var(free_set(t).union(free_set(r)).insert(x));
                lemma_rename_fresh(t, x, r);
                lemma_subst_size(*b, p, f);
                let renamed = subst(*b, p, TermV::Var(f));
                law_subst_keeps_free_vars(*b, p, TermV::Var(f));
                assert(free_set(renamed).contains(x));
                law_subst_no_capture(renamed, x, r);
            } else {
                law_subst_no_capture(*b, x, r);
            }
        },
        TermV::App(f, a) => {
            if free_set(*f).contains(x) {
                law_subst_no_capture(*f, x, r);
            } else {
                law_subst_no_capture(*a, x, r);
            }
        },
        TermV::Prob(b) | TermV::Modal(_, b) | TermV::Temporal(_, b) | TermV::HigherOrder(b) => {
            law_subst_no_capture(*b, x, r);
        },
        _ => {},
    }
}

proof fn lemma_subst_seq_no_capture(s: Seq<TermV>, x: usize, r: TermV)
    requires
        args_size(s) + term_size(r) < usize::MAX,
        free_set_seq(s).contains(x),
    ensures
        free_set(r).subset_of(free_set_seq(subst_seq(s, x, r))),
    decreases args_size(s),
{
    let pre = s.subrange(0, s.len() - 1);
    lemma_subst_seq_split(s, x, r);
    if free_set(s[s.len() - 1]).contains(x) {
        law_subst_no_capture(s[s.len() - 1], x, r);
    } else {
        lemma_subst_seq_no_capture(pre, x, r);
    }
}

/// Substituting for a variable that is not free in a term brings in nothing:
/// every free variable of the result is free in the term.
pub proof fn law_subst_absent(t: TermV, x: usize, r: TermV)
    requires
        term_size(t) + term_size(r) < usize::MAX,
        !free_set(t).contains(x),
    ensures
        free_set(subst(t, x, r)).subset_of(free_set(t)),
    decreases term_size(t),
{
    match t {
        TermV::Compound(_, a) | TermV::Constraint(_, a) => { lemma_subst_seq_absent(a, x, r); },
        TermV::Lambda(p, b) => {
            if p != x {
                if free_set(r).contains(p) {
                    let f = fresh_var(free_set(t).union(free_set(r)).insert(x));
                    lemma_rename_fresh(t, x, r);
                    lemma_subst_size(*b, p, f);
                    let renamed = subst(*b, p, TermV::Var(f));
                    law_subst_free_vars_bounded(*b, p, TermV::Var(f));
                    assert(!free_set(renamed).contains(x));
                    law_subst_absent(renamed, x, r);
                } else {
                    law_subst_absent(*b, x, r);
                }
            }
        },
        TermV::App(f, a) => {
            law_subst_absent(*f, x, r);
            law_subst_absent(*a, x, r);
        },
        TermV::Prob(b) | TermV::Modal(_, b) | TermV::Temporal(_, b) | TermV::HigherOrder(b) => {
            law_subst_absent(*b, x, r);
        },
        _ => {},
    }
}

proof fn lemma_subst_seq_absent(s: Seq<TermV>, x: usize, r: TermV)
    requires
        args_size(s) + term_size(r) < usize::MAX,
        !free_set_seq(s).contains(x),
    ensures
        free_set_seq(subst_seq(s, x, r)).subset_of(free_set_seq(s)),
    decreases args_size(s),
{
    if s.len() > 0 {
        let pre = s.subrange(0, s.len() - 1);
        lemma_subst_seq_split(s, x, r);
        lemma_subst_seq_absent(pre, x, r);
        law_subst_absent(s[s.len() - 1], x, r);
    }
}

/// The free variables of a substitution: where the variable is free in the
/// term, the term's other free variables and the replacement's; where it is
/// not, exactly the term's.
pub proof fn law_subst_free_vars(t: TermV, x: usize, r: TermV)
    requires
        term_size(t) + term_size(r) < usize::MAX,
    ensures
        free_set(subst(t, x, r)) == if free_set(t).contains(x) {
            free_set(t).remove(x).union(free_set(r))
        } else {
            free_set(t)
        },
{
    law_subst_free_vars_bounded(t, x, r);
    law_subst_keeps_free_vars(t, x, r);
    if free_set(t).contains(x) {
        law_subst_no_capture(t, x, r);
        assert(free_set(subst(t, x, r)) =~= free_set(t).remove(x).union(free_set(r)));
    } else {
        law_subst_absent(t, x, r);
        assert(free_set(t).remove(x) =~= free_set(t));
        assert(free_set(subst(t, x, r)) =~= free_set(t));
    }
}

/// The parameters of the lambda abstractions inside a term.
pub open spec fn binders(t: TermV) -> Set<usize>
    decreases t,
{
    match t {
        TermV::Lambda(p, b) => binders(*b).insert(p),
        TermV::Compound(_, a) | TermV::Constraint(_, a) => binders_seq(a),
        TermV::App(f, a) => binders(*f).union(binders(*a)),
        TermV::Prob(b) | TermV::Modal(_, b) | TermV::Temporal(_, b) | TermV::HigherOrder(b) => binders(*b),
        _ => Set::empty(),
    }
}

/// The parameters of the lambda abstractions inside a sequence of terms.
pub open spec fn binders_seq(s: Seq<TermV>) -> Set<usize>
    decreases s,
{
    if s.len() == 0 {
        Set::empty()
    } else {
        binders_seq(s.subrange(0, s.len() - 1)).union(binders(s[s.len() - 1]))
    }
}

/// Substituting a variable for itself leaves every term as it is.
pub proof fn law_subst_self(t: TermV, x: usize)
    ensures
        subst(t, x, TermV::Var(x)) == t,
    decreases term_size(t),
{
    match t {
        TermV::Compound(_, a) | TermV::Constraint(_, a) => { lemma_subst_seq_self(a, x); },
        TermV::Lambda(p, b) => {
            if p != x {
                assert(!free_set(TermV::Var(x)).contains(p));
                law_subst_self(*b, x);
            }
        },
        TermV::App(f, a) => {
            law_subst_self(*f, x);
            law_subst_self(*a, x);
        },
        TermV::Prob(b) | TermV::Modal(_, b) | TermV::Temporal(_, b) | TermV::HigherOrder(b) => {
            law_subst_self(*b, x);
        },
        _ => {},
    }
}

proof fn lemma_subst_seq_self(s: Seq<TermV>, x: usize)
    ensures
        subst_seq(s, x, TermV::Var(x)) == s,
    decreases args_size(s),
{
    if s.len() > 0 {
        let pre = s.subrange(0, s.len() - 1);
        lemma_subst_seq_split(s, x, TermV::Var(x));
        lemma_subst_seq_self(pre, x);
        law_subst_self(s[s.len() - 1], x);
        let q = subst_seq(s, x, TermV::Var(x));
        assert(q =~= s) by {
            assert forall|i: int| 0 <= i < s.len() implies q[i] == s[i] by {
                if i < s.len() - 1 {
                    assert(q[i] == q.subrange(0, q.len() - 1)[i]);
                    assert(s[i] == pre[i]);
                }
            }
        }
    }
}

/// Substituting for a variable that is not free in a term leaves the term
/// as it is, where no binder of the term has to be renamed (none is free in
/// the replacement).
pub proof fn law_subst_not_free(t: TermV, x: usize, r: TermV)
    requires
        !free_set(t).contains(x),
        binders(t).disjoint(free_set(r)),
    ensures
        subst(t, x, r) == t,
    decreases term_size(t),
{
    match t {
        TermV::Compound(_, a) | TermV::Constraint(_, a) => { lemma_subst_seq_not_free(a, x, r); },
        TermV::Lambda(p, b) => {
            if p != x {
                assert(binders(t).contains(p));
                assert(!free_set(*b).contains(x));
                assert(binders(*b).disjoint(free_set(r))) by {
                    assert forall|v: usize| binders(*b).contains(v) implies !free_set(r).contains(v) by {
                        assert(binders(t).contains(v));
                    }
                }
                law_subst_not_free(*b, x, r);
            }
        },
        TermV::App(f, a) => {
            assert(binders(*f).disjoint(free_set(r))) by {
                assert forall|v: usize| binders(*f).contains(v) implies !free_set(r).contains(v) by {
                    assert(binders(t).contains(v));
                }
            }
            assert(binders(*a).disjoint(free_set(r))) by {
                assert forall|v: usize| binders(*a).contains(v) implies !free_set(r).contains(v) by {
                    assert(binders(t).contains(v));
                }
            }
            law_subst_not_free(*f, x, r);
            law_subst_not_free(*a, x, r);
        },
        TermV::Prob(b) | TermV::Modal(_, b) | TermV::Temporal(_, b) | TermV::HigherOrder(b) => {
            law_subst_not_free(*b, x, r);
        },
        _ => {},
    }
}

proof fn lemma_subst_seq_not_free(s: Seq<TermV>, x: usize, r: TermV)
    requires
        !free_set_seq(s).contains(x),
        binders_seq(s).disjoint(free_set(r)),
    ensures
        subst_seq(s, x, r) == s,
    decreases args_size(s),
{
    if s.len() > 0 {
        let pre = s.subrange(0, s.len() - 1);
        let last = s[s.len() - 1];
        lemma_subst_seq_split(s, x, r);
        assert(binders_seq(pre).disjoint(free_set(r))) by {
            assert forall|v: usize| binders_seq(pre).contains(v) implies !free_set(r).contains(v) by {
                assert(binders_seq(s).contains(v));
            }
        }
        assert(binders(last).disjoint(free_set(r))) by {
            assert forall|v: usize| binders(last).contains(v) implies !free_set(r).contains(v) by {
                assert(binders_seq(s).contains(v));
            }
        }
        lemma_subst_seq_not_free(pre, x, r);
        law_subst_not_free(last, x, r);
        let q = subst_seq(s, x, r);
        assert(q =~= s) by {
            assert forall|i: int| 0 <= i < s.len() implies q[i] == s[i] by {
                if i < s.len() - 1 {
                    assert(q[i] == q.subrange(0, q.len() - 1)[i]);
                    assert(s[i] == pre[i]);
                }
            }
        }
    }
}

/// The assignment that gives `x` the value `r` and leaves every other
/// variable standing for itself.
pub open spec fn replacing(x: usize, r: TermV) -> spec_fn(usize) -> TermV {
    |k: usize| if k == x { r } else { TermV::Var(k) }
}

/// Without lambda abstractions, substitution is the assignment that
/// replaces every occurrence of `x` by `r` and keeps the rest of the term.
pub proof fn law_subst_first_order(t: TermV, x: usize, r: TermV)
    requires
        binders(t) == Set::<usize>::empty(),
    ensures
        subst(t, x, r) == assign(replacing(x, r), t),
    decreases term_size(t),
{
    match t {
        TermV::Compound(_, a) | TermV::Constraint(_, a) => { lemma_subst_seq_first_order(a, x, r); },
        TermV::Lambda(p, b) => {
            assert(binders(t).contains(p));
        },
        TermV::App(f, a) => {
            assert(binders(*f) =~= Set::<usize>::empty()) by {
                assert forall|v: usize| !binders(*f).contains(v) by {
                    if binders(*f).contains(v) { assert(binders(t).contains(v)); }
                }
            }
            assert(binders(*a) =~= Set::<usize>::empty()) by {
                assert forall|v: usize| !binders(*a).contains(v) by {
                    if binders(*a).contains(v) { assert(binders(t).contains(v)); }
                }
            }
            law_subst_first_order(*f, x, r);
            law_subst_first_order(*a, x, r);
        },
        TermV::Prob(b) | TermV::Modal(_, b) | TermV::Temporal(_, b) | TermV::HigherOrder(b) => {
            law_subst_first_order(*b, x, r);
        },
        _ => {},
    }
}

proof fn lemma_subst_seq_first_order(s: Seq<TermV>, x: usize, r: TermV)
    requires
        binders_seq(s) == Set::<usize>::empty(),
    ensures
        subst_seq(s, x, r) == assign_seq(replacing(x, r), s),
    decreases args_size(s),
{
    if s.len() > 0 {
        let pre = s.subrange(0, s.len() - 1);
        let last = s[s.len() - 1];
        lemma_subst_seq_split(s, x, r);
        assert(binders_seq(pre) =~= Set::<usize>::empty()) by {
            assert forall|v: usize| !binders_seq(pre).contains(v) by {
                if binders_seq(pre).contains(v) { assert(binders_seq(s).contains(v)); }
            }
        }
        assert(binders(last) =~= Set::<usize>::empty()) by {
            assert forall|v: usize| !binders(last).contains(v) by {
                if binders(last).contains(v) { assert(binders_seq(s).contains(v)); }
            }
        }
        lemma_subst_seq_first_order(pre, x, r);
        law_subst_first_order(last, x, r);
        let q = subst_seq(s, x, r);
        assert(q =~= q.subrange(0, q.len() - 1).push(q[q.len() - 1]));
    }
}

} // verus!
