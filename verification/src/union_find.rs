//! Variable bindings with path compression and a trail for undoing them.

use std::collections::HashMap;
use vstd::prelude::*;
use crate::machine::{MachineError, TrailV, opt_view, subst_view};
use crate::term::{Term, TermV, copy_term, terms_equal, assign, satisfies};

verus! {

broadcast use {vstd::std_specs::vec::group_vec_axioms, vstd::std_specs::hash::group_hash_axioms};

/// A trail entry: a variable and the binding it had before a change.
#[derive(Debug)]
pub struct TrailEntry {
    pub var: usize,
    pub old_binding: Option<Term>,
}

impl View for TrailEntry {
    type V = TrailV;

    open spec fn view(&self) -> TrailV {
        TrailV { variable: self.var, previous: opt_view(self.old_binding) }
    }
}

/// Variable bindings with a trail of the changes made to them.
#[derive(Debug)]
pub struct UnionFind {
    pub bindings: HashMap<usize, Term>,
    pub trail: Vec<TrailEntry>,
}

/// The value of a union-find structure.
pub struct UfV {
    pub bindings: Map<usize, TermV>,
    pub trail: Seq<TrailV>,
}

impl View for UnionFind {
    type V = UfV;

    open spec fn view(&self) -> UfV {
        UfV {
            bindings: subst_view(self.bindings@),
            trail: self.trail@.map_values(|e: TrailEntry| e@),
        }
    }
}

/// Resolution with path compression, following at most `fuel` bindings:
/// the term a variable finally stands for, and the state where each binding
/// passed on the way that was not already that term now is, with its old
/// value on the trail. `None` when the fuel runs out.
pub open spec fn uf_resolve(st: UfV, t: TermV, fuel: nat) -> Option<(TermV, UfV)>
    decreases fuel,
{
    match t {
        TermV::Var(v) => if st.bindings.contains_key(v) {
            if fuel == 0 {
                None
            } else {
                let binding = st.bindings[v];
                match uf_resolve(st, binding, (fuel - 1) as nat) {
                    Some((res, st2)) => if binding != res {
                        Some((res, UfV {
                            bindings: st2.bindings.insert(v, res),
                            trail: st2.trail.push(TrailV { variable: v, previous: Some(binding) }),
                        }))
                    } else {
                        Some((res, st2))
                    },
                    None => None,
                }
            }
        } else {
            Some((t, st))
        },
        _ => Some((t, st)),
    }
}

/// The chain of bindings from `t` ends.
pub open spec fn resolves(st: UfV, t: TermV) -> bool {
    exists|n: nat| #[trigger] uf_resolve(st, t, n) is Some
}

/// The outcome of resolving `t` (see `uf_resolve`).
pub open spec fn resolve_spec(st: UfV, t: TermV) -> (TermV, UfV) {
    uf_resolve(st, t, choose|n: nat| #[trigger] uf_resolve(st, t, n) is Some)->0
}

/// Binding `var` to `t`: `t` is resolved first; nothing more happens when it
/// resolves to `var` itself, else the old binding of `var` goes on the trail
/// and `var` is bound to the resolved term.
pub open spec fn bind_spec(st: UfV, var: usize, t: TermV) -> UfV {
    let (res, st2) = resolve_spec(st, t);
    if res == TermV::Var(var) {
        st2
    } else {
        UfV {
            bindings: st2.bindings.insert(var, res),
            trail: st2.trail.push(TrailV {
                variable: var,
                previous: if st2.bindings.contains_key(var) { Some(st2.bindings[var]) } else { None },
            }),
        }
    }
}

/// The bindings after undoing a trail entry.
pub open spec fn restore(b: Map<usize, TermV>, e: TrailV) -> Map<usize, TermV> {
    match e.previous {
        Some(t) => b.insert(e.variable, t),
        None => b.remove(e.variable),
    }
}

/// The bindings after undoing trail entries, the latest first.
pub open spec fn rollback(b: Map<usize, TermV>, entries: Seq<TrailV>) -> Map<usize, TermV>
    decreases entries.len(),
{
    if entries.len() == 0 {
        b
    } else {
        rollback(restore(b, entries.last()), entries.drop_last())
    }
}

/// The state after undoing the trail down to `target` entries.
pub open spec fn undo_spec(st: UfV, target: usize) -> UfV {
    if st.trail.len() > target {
        UfV { bindings: rollback(st.bindings, st.trail.skip(target as int)), trail: st.trail.take(target as int) }
    } else {
        st
    }
}

impl UnionFind {
    /// An empty structure.
    pub fn new() -> (r: UnionFind)
        ensures
            r@.bindings == Map::<usize, TermV>::empty(),
            r@.trail == Seq::<TrailV>::empty(),
    {
        let r = UnionFind { bindings: HashMap::new(), trail: Vec::new() };
        proof {
            assert(r@.bindings =~= Map::<usize, TermV>::empty());
            assert(r@.trail =~= Seq::<TrailV>::empty());
        }
        r
    }

    pub(crate) fn resolve_fuel(&mut self, term: &Term, Ghost(fuel): Ghost<nat>) -> (r: Term)
        requires
            uf_resolve(old(self)@, term@, fuel) is Some,
        ensures
            uf_resolve(old(self)@, term@, fuel) == Some((r@, final(self)@)),
        decreases fuel,
    {
        match term {
            Term::Var(v) => {
                let found = match self.bindings.get(v) {
                    Some(b) => Some(copy_term(b)),
                    None => None,
                };
                match found {
                    Some(binding) => {
                        let resolved = self.resolve_fuel(&binding, Ghost((fuel - 1) as nat));
                        if !terms_equal(&binding, &resolved) {
                            let ghost mid = self@;
                            self.trail.push(TrailEntry { var: *v, old_binding: Some(binding) });
                            let c = copy_term(&resolved);
                            let ghost before = self.bindings@;
                            self.bindings.insert(*v, c);
                            proof {
                                assert(subst_view(self.bindings@) =~= subst_view(before).insert(*v, c@));
                                assert(self@.trail =~= mid.trail.push(TrailV { variable: *v, previous: Some(binding@) }));
                            }
                        }
                        resolved
                    },
                    None => copy_term(term),
                }
            },
            _ => copy_term(term),
        }
    }

    /// Resolves a term to what it finally stands for, compressing the chain of
    /// bindings on the way (see `uf_resolve`).
    pub fn resolve(&mut self, term: &Term) -> (r: Term)
        requires
            resolves(old(self)@, term@),
        ensures
            (r@, final(self)@) == resolve_spec(old(self)@, term@),
    {
        let ghost n = choose|n: nat| #[trigger] uf_resolve(self@, term@, n) is Some;
        self.resolve_fuel(term, Ghost(n))
    }

    /// Binds a variable to a term (see `bind_spec`); it always succeeds.
    pub fn bind(&mut self, var: usize, term: &Term) -> (r: Result<(), MachineError>)
        requires
            resolves(old(self)@, term@),
        ensures
            r is Ok,
            final(self)@ == bind_spec(old(self)@, var, term@),
    {
        let resolved_term = self.resolve(term);
        if let Term::Var(v) = &resolved_term {
            if *v == var {
                return Ok(());
            }
        }
        let old_binding = match self.bindings.get(&var) {
            Some(b) => Some(copy_term(b)),
            None => None,
        };
        let ghost mid = self@;
        self.trail.push(TrailEntry { var, old_binding });
        let ghost before = self.bindings@;
        let c = copy_term(&resolved_term);
        self.bindings.insert(var, c);
        proof {
            assert(subst_view(self.bindings@) =~= subst_view(before).insert(var, c@));
            assert(self@.trail =~= mid.trail.push(TrailV {
                variable: var,
                previous: if mid.bindings.contains_key(var) { Some(mid.bindings[var]) } else { None },
            }));
        }
        Ok(())
    }

    /// Undoes the trail, the latest entry first, until it has `target_len`
    /// entries (see `undo_spec`).
    pub fn undo_trail(&mut self, target_len: usize)
        ensures
            final(self)@ == undo_spec(old(self)@, target_len),
    {
        let ghost st0 = self@;
        while self.trail.len() > target_len
            invariant
                target_len <= self@.trail.len() <= st0.trail.len() || self@ == st0,
                self@.trail == st0.trail.take(self@.trail.len() as int) || self@ == st0,
                undo_spec(self@, target_len) == undo_spec(st0, target_len),
            decreases self.trail.len(),
        {
            let ghost cur = self@;
            let entry = self.trail.pop().unwrap();
            let ghost before = self.bindings@;
            match entry.old_binding {
                Some(old) => {
                    self.bindings.insert(entry.var, old);
                    proof {
                        assert(subst_view(self.bindings@) =~= subst_view(before).insert(entry.var, old@));
                    }
                },
                None => {
                    self.bindings.remove(&entry.var);
                    proof {
                        assert(subst_view(self.bindings@) =~= subst_view(before).remove(entry.var));
                    }
                },
            }
            proof {
                assert(self@.trail =~= cur.trail.drop_last());
                assert(cur.trail.last() == entry@);
                assert(self@.bindings == restore(cur.bindings, cur.trail.last()));
                let sk = cur.trail.skip(target_len as int);
                assert(sk.last() == cur.trail.last());
                assert(sk.drop_last() =~= self@.trail.skip(target_len as int));
                assert(self@.trail.take(target_len as int) =~= cur.trail.take(target_len as int));
                if self@.trail.len() == target_len {
                    assert(self@.trail.skip(target_len as int) =~= Seq::<TrailV>::empty());
                    assert(self@.trail =~= cur.trail.take(target_len as int));
                }
            }
        }
    }
}

/// `st2` comes from `st` by changes recorded on the trail: the old trail is a
/// prefix of the new one, and undoing the new entries gives back the old
/// bindings.
pub open spec fn undoable(st: UfV, st2: UfV) -> bool {
    &&& st.trail.len() <= st2.trail.len()
    &&& st2.trail.take(st.trail.len() as int) == st.trail
    &&& rollback(st2.bindings, st2.trail.skip(st.trail.len() as int)) == st.bindings
}

/// Undoing `x + y` undoes `y` first, then `x`.
proof fn lemma_rollback_concat(b: Map<usize, TermV>, x: Seq<TrailV>, y: Seq<TrailV>)
    ensures
        rollback(b, x + y) == rollback(rollback(b, y), x),
    decreases y.len(),
{
    if y.len() == 0 {
        assert(x + y =~= x);
    } else {
        assert((x + y).last() == y.last());
        assert((x + y).drop_last() =~= x + y.drop_last());
        lemma_rollback_concat(restore(b, y.last()), x, y.drop_last());
    }
}

/// A binding changed before undoing is overridden by the earliest entry of
/// its variable, if there is one.
proof fn lemma_rollback_insert(m: Map<usize, TermV>, e: Seq<TrailV>, k: usize, val: TermV)
    ensures
        (exists|i: int| 0 <= i < e.len() && e[i].variable == k) ==> rollback(m.insert(k, val), e) == rollback(m, e),
        !(exists|i: int| 0 <= i < e.len() && e[i].variable == k) ==> rollback(m.insert(k, val), e) == rollback(m, e).insert(k, val),
    decreases e.len(),
{
    if e.len() > 0 {
        let last = e.last();
        let rest = e.drop_last();
        if last.variable == k {
            assert(restore(m.insert(k, val), last) =~= restore(m, last));
            assert(exists|i: int| 0 <= i < e.len() && e[i].variable == k) by {
                assert(e[e.len() - 1].variable == k);
            }
        } else {
            assert(restore(m.insert(k, val), last) =~= restore(m, last).insert(k, val));
            lemma_rollback_insert(restore(m, last), rest, k, val);
            if exists|i: int| 0 <= i < e.len() && e[i].variable == k {
                let i = choose|i: int| 0 <= i < e.len() && e[i].variable == k;
                assert(i < e.len() - 1);
                assert(rest[i].variable == k);
            } else {
                assert(!(exists|i: int| 0 <= i < rest.len() && rest[i].variable == k)) by {
                    if exists|i: int| 0 <= i < rest.len() && rest[i].variable == k {
                        let i = choose|i: int| 0 <= i < rest.len() && rest[i].variable == k;
                        assert(e[i].variable == k);
                    }
                }
            }
        }
    }
}

pub proof fn lemma_undoable_refl(st: UfV)
    ensures
        undoable(st, st),
{
    assert(st.trail.take(st.trail.len() as int) =~= st.trail);
    assert(st.trail.skip(st.trail.len() as int) =~= Seq::<TrailV>::empty());
}

/// Resolution records every change it makes on the trail.
pub proof fn lemma_resolve_undoable(st: UfV, t: TermV, fuel: nat)
    ensures
        uf_resolve(st, t, fuel) matches Some((_, st2)) ==> undoable(st, st2),
    decreases fuel,
{
    lemma_undoable_refl(st);
    if let TermV::Var(v) = t {
        if st.bindings.contains_key(v) && fuel > 0 {
            let binding = st.bindings[v];
            lemma_resolve_undoable(st, binding, (fuel - 1) as nat);
            if let Some((res, st1)) = uf_resolve(st, binding, (fuel - 1) as nat) {
                if binding != res {
                    let l = st.trail.len() as int;
                    let e = TrailV { variable: v, previous: Some(binding) };
                    let st2 = UfV { bindings: st1.bindings.insert(v, res), trail: st1.trail.push(e) };
                    let sk1 = st1.trail.skip(l);
                    assert(st2.trail.skip(l) =~= sk1.push(e));
                    assert(st2.trail.take(l) =~= st1.trail.take(l));
                    assert(sk1.push(e).drop_last() =~= sk1);
                    assert(restore(st1.bindings.insert(v, res), e) =~= st1.bindings.insert(v, binding));
                    lemma_rollback_insert(st1.bindings, sk1, v, binding);
                    if !(exists|i: int| 0 <= i < sk1.len() && sk1[i].variable == v) {
                        assert(rollback(st1.bindings, sk1).insert(v, binding) =~= st.bindings);
                    }
                }
            }
        }
    }
}

/// Binding records every change it makes on the trail.
pub proof fn lemma_bind_undoable(st: UfV, var: usize, t: TermV)
    requires
        resolves(st, t),
    ensures
        undoable(st, bind_spec(st, var, t)),
{
    let n = choose|n: nat| #[trigger] uf_resolve(st, t, n) is Some;
    lemma_resolve_undoable(st, t, n);
    let (res, st1) = resolve_spec(st, t);
    if res != TermV::Var(var) {
        let prev = if st1.bindings.contains_key(var) { Some(st1.bindings[var]) } else { None };
        let l = st.trail.len() as int;
        let e = TrailV { variable: var, previous: prev };
        let st2 = bind_spec(st, var, t);
        let sk1 = st1.trail.skip(l);
        assert(st2.trail.skip(l) =~= sk1.push(e));
        assert(st2.trail.take(l) =~= st1.trail.take(l));
        assert(sk1.push(e).drop_last() =~= sk1);
        assert(restore(st1.bindings.insert(var, res), e) =~= st1.bindings);
    }
}

/// Undoing the trail down to an earlier length restores the earlier state,
/// for any state reached by recorded changes.
pub proof fn lemma_undo_restores(st: UfV, st2: UfV)
    requires
        undoable(st, st2),
        st.trail.len() <= usize::MAX,
    ensures
        undo_spec(st2, st.trail.len() as usize) == st,
{
    if st2.trail.len() == st.trail.len() {
        assert(st2.trail.skip(st.trail.len() as int) =~= Seq::<TrailV>::empty());
        assert(st2.trail =~= st2.trail.take(st.trail.len() as int));
    }
}

/// Binding a variable and then undoing the trail down to its length before
/// gives back the bindings and the trail as they were.
pub proof fn law_bind_then_undo(st: UfV, var: usize, t: TermV)
    requires
        resolves(st, t),
        st.trail.len() <= usize::MAX,
    ensures
        undo_spec(bind_spec(st, var, t), st.trail.len() as usize) == st,
{
    lemma_bind_undoable(st, var, t);
    lemma_undo_restores(st, bind_spec(st, var, t));
}

/// Resolution ends at a term that is not a bound variable, and it only adds
/// bindings.
pub proof fn lemma_resolve_terminal(st: UfV, t: TermV, fuel: nat)
    ensures
        uf_resolve(st, t, fuel) matches Some((r, st2)) ==> {
            &&& st.bindings.dom() == st2.bindings.dom()
            &&& (r matches TermV::Var(w) ==> !st2.bindings.contains_key(w))
        },
    decreases fuel,
{
    if let TermV::Var(v) = t {
        if st.bindings.contains_key(v) && fuel > 0 {
            lemma_resolve_terminal(st, st.bindings[v], (fuel - 1) as nat);
            if let Some((res, st1)) = uf_resolve(st, st.bindings[v], (fuel - 1) as nat) {
                assert(st1.bindings.insert(v, res).dom() =~= st1.bindings.dom());
            }
        }
    }
}

/// Recorded changes compose.
pub proof fn lemma_undoable_trans(a: UfV, b: UfV, c: UfV)
    requires
        undoable(a, b),
        undoable(b, c),
    ensures
        undoable(a, c),
{
    let la = a.trail.len() as int;
    let lb = b.trail.len() as int;
    assert(c.trail.take(la) =~= c.trail.take(lb).take(la));
    assert(c.trail.skip(la) =~= b.trail.skip(la) + c.trail.skip(lb));
    lemma_rollback_concat(c.bindings, b.trail.skip(la), c.trail.skip(lb));
}

/// A term that is not a bound variable resolves to itself, changing nothing.
pub proof fn lemma_resolve_settled(st: UfV, t: TermV)
    requires
        t matches TermV::Var(w) ==> !st.bindings.contains_key(w),
    ensures
        uf_resolve(st, t, 0) == Some((t, st)),
        resolves(st, t),
        resolve_spec(st, t) == (t, st),
{
    assert(uf_resolve(st, t, 0) is Some);
}

/// The variables whose bindings resolution follows, with at most `fuel`
/// steps.
pub open spec fn resolve_chain(st: UfV, t: TermV, fuel: nat) -> Set<usize>
    decreases fuel,
{
    match t {
        TermV::Var(v) => if st.bindings.contains_key(v) && fuel > 0 {
            resolve_chain(st, st.bindings[v], (fuel - 1) as nat).insert(v)
        } else {
            Set::empty()
        },
        _ => Set::empty(),
    }
}

/// Path compression binds each variable of the chain to the end of the
/// chain and leaves the other bindings as they were.
proof fn lemma_resolve_compress(st: UfV, t: TermV, fuel: nat)
    ensures
        uf_resolve(st, t, fuel) matches Some((r, st1)) ==> {
            &&& st1.bindings.dom() == st.bindings.dom()
            &&& resolve_chain(st, t, fuel).subset_of(st.bindings.dom())
            &&& forall|k: usize| #[trigger] st.bindings.contains_key(k) ==> st1.bindings[k] == if resolve_chain(st, t, fuel).contains(k) {
                r
            } else {
                st.bindings[k]
            }
        },
    decreases fuel,
{
    if let TermV::Var(v) = t {
        if st.bindings.contains_key(v) && fuel > 0 {
            lemma_resolve_compress(st, st.bindings[v], (fuel - 1) as nat);
            if let Some((res, st2)) = uf_resolve(st, st.bindings[v], (fuel - 1) as nat) {
                assert(st2.bindings.insert(v, res).dom() =~= st2.bindings.dom());
            }
        }
    }
}

/// Under an assignment that gives each variable of the chain the value of
/// the end of the chain, the chain's bindings are satisfied and the term has
/// the value of the end of the chain.
proof fn lemma_resolve_chain_value(st: UfV, t: TermV, fuel: nat, sigma: spec_fn(usize) -> TermV)
    ensures
        uf_resolve(st, t, fuel) matches Some((r, _)) ==> (
            (forall|k: usize| #[trigger] resolve_chain(st, t, fuel).contains(k) ==> sigma(k) == assign(sigma, r)) ==> {
                &&& assign(sigma, t) == assign(sigma, r)
                &&& forall|k: usize| #[trigger] resolve_chain(st, t, fuel).contains(k) ==> sigma(k) == assign(sigma, st.bindings[k])
            }),
    decreases fuel,
{
    if let TermV::Var(v) = t {
        if st.bindings.contains_key(v) && fuel > 0 {
            let next = st.bindings[v];
            lemma_resolve_chain_value(st, next, (fuel - 1) as nat, sigma);
            if let Some((r, _)) = uf_resolve(st, next, (fuel - 1) as nat) {
                let chain = resolve_chain(st, t, fuel);
                let inner = resolve_chain(st, next, (fuel - 1) as nat);
                assert(chain == inner.insert(v));
                assert(uf_resolve(st, t, fuel) matches Some((r2, _)) && r2 == r);
                if forall|k: usize| #[trigger] chain.contains(k) ==> sigma(k) == assign(sigma, r) {
                    assert(chain.contains(v));
                    assert forall|k: usize| #[trigger] inner.contains(k) implies sigma(k) == assign(sigma, r) by {
                        assert(chain.contains(k));
                    }
                    assert(sigma(v) == assign(sigma, next));
                    assert forall|k: usize| #[trigger] chain.contains(k) implies sigma(k) == assign(sigma, st.bindings[k]) by {
                        if k != v {
                            assert(inner.contains(k));
                        }
                    }
                }
            }
        }
    }
}

/// An assignment satisfying the bindings after a resolution satisfies those
/// from before, and gives the term the value of what it resolved to.
pub proof fn lemma_resolve_value(st: UfV, t: TermV, fuel: nat, sigma: spec_fn(usize) -> TermV)
    ensures
        uf_resolve(st, t, fuel) matches Some((r, st1)) ==> (satisfies(st1.bindings, sigma) ==> {
            &&& satisfies(st.bindings, sigma)
            &&& assign(sigma, t) == assign(sigma, r)
        }),
{
    lemma_resolve_compress(st, t, fuel);
    lemma_resolve_chain_value(st, t, fuel, sigma);
    if let Some((r, st1)) = uf_resolve(st, t, fuel) {
        if satisfies(st1.bindings, sigma) {
            let chain = resolve_chain(st, t, fuel);
            assert forall|k: usize| #[trigger] chain.contains(k) implies sigma(k) == assign(sigma, r) by {
                assert(st.bindings.contains_key(k));
                assert(st1.bindings.contains_key(k));
            }
            assert forall|k: usize| #[trigger] st.bindings.contains_key(k) implies sigma(k) == assign(sigma, st.bindings[k]) by {
                assert(st1.bindings.contains_key(k));
            }
        }
    }
}

/// The term that resolution with `fuel` steps ends at (`t` itself when the
/// fuel runs out).
pub open spec fn resolve_target(st: UfV, t: TermV, fuel: nat) -> TermV {
    match uf_resolve(st, t, fuel) {
        Some((r, _)) => r,
        None => t,
    }
}

/// Where resolution ends does not depend on the fuel, once it suffices.
proof fn lemma_resolve_unique(st: UfV, t: TermV, n: nat, m: nat)
    requires
        uf_resolve(st, t, n) is Some,
        uf_resolve(st, t, m) is Some,
    ensures
        resolve_target(st, t, n) == resolve_target(st, t, m),
    decreases n,
{
    if let TermV::Var(v) = t {
        if st.bindings.contains_key(v) {
            lemma_resolve_unique(st, st.bindings[v], (n - 1) as nat, (m - 1) as nat);
        }
    }
}

/// Each variable of the chain resolves to the end of the chain.
proof fn lemma_chain_target(st: UfV, t: TermV, fuel: nat, k: usize) -> (f: nat)
    requires
        uf_resolve(st, t, fuel) is Some,
        resolve_chain(st, t, fuel).contains(k),
    ensures
        uf_resolve(st, TermV::Var(k), f) is Some,
        resolve_target(st, TermV::Var(k), f) == resolve_target(st, t, fuel),
    decreases fuel,
{
    match t {
        TermV::Var(v) => if k == v {
            fuel
        } else {
            lemma_chain_target(st, st.bindings[v], (fuel - 1) as nat, k)
        },
        _ => 0,
    }
}

/// After a resolution, every term that resolved before resolves to the same
/// term.
proof fn lemma_compress_keeps(st: UfV, t: TermV, fuel: nat, x: TermV, n: nat) -> (m: nat)
    requires
        uf_resolve(st, t, fuel) is Some,
        uf_resolve(st, x, n) is Some,
    ensures
        uf_resolve(st, t, fuel) matches Some((_, st1)) ==> {
            &&& uf_resolve(st1, x, m) is Some
            &&& resolve_target(st1, x, m) == resolve_target(st, x, n)
        },
    decreases n,
{
    lemma_resolve_compress(st, t, fuel);
    lemma_resolve_terminal(st, t, fuel);
    let (r, st1) = uf_resolve(st, t, fuel)->0;
    match x {
        TermV::Var(y) => if !st.bindings.contains_key(y) {
            assert(!st1.bindings.contains_key(y));
            0
        } else if resolve_chain(st, t, fuel).contains(y) {
            assert(st1.bindings[y] == r);
            assert(uf_resolve(st1, r, 0) == Some((r, st1)));
            let f = lemma_chain_target(st, t, fuel, y);
            lemma_resolve_unique(st, x, n, f);
            1
        } else {
            assert(st1.bindings[y] == st.bindings[y]);
            let m1 = lemma_compress_keeps(st, t, fuel, st.bindings[y], (n - 1) as nat);
            m1 + 1
        },
        _ => 0,
    }
}

/// Path compression keeps what each term stands for: after resolving `t`,
/// every term that resolved before still resolves, and to the same term.
pub proof fn law_resolve_keeps_targets(st: UfV, t: TermV, x: TermV)
    requires
        resolves(st, t),
        resolves(st, x),
    ensures
        resolves(resolve_spec(st, t).1, x),
        resolve_spec(resolve_spec(st, t).1, x).0 == resolve_spec(st, x).0,
{
    let nt = choose|n: nat| #[trigger] uf_resolve(st, t, n) is Some;
    let nx = choose|n: nat| #[trigger] uf_resolve(st, x, n) is Some;
    let st1 = resolve_spec(st, t).1;
    let m = lemma_compress_keeps(st, t, nt, x, nx);
    assert(uf_resolve(st1, x, m) is Some);
    let c = choose|n: nat| #[trigger] uf_resolve(st1, x, n) is Some;
    lemma_resolve_unique(st1, x, m, c);
}

/// A step on a union-find structure: binding a variable to a term, or
/// resolving a term.
pub enum UfStep {
    Bind(usize, TermV),
    Resolve(TermV),
}

/// The state after a sequence of steps, the first one first; `None` when a
/// resolution along the way does not end.
pub open spec fn run_steps(st: UfV, steps: Seq<UfStep>) -> Option<UfV>
    decreases steps.len(),
{
    if steps.len() == 0 {
        Some(st)
    } else {
        match run_steps(st, steps.drop_last()) {
            Some(s1) => match steps.last() {
                UfStep::Bind(v, t) => if resolves(s1, t) { Some(bind_spec(s1, v, t)) } else { None },
                UfStep::Resolve(t) => if resolves(s1, t) { Some(resolve_spec(s1, t).1) } else { None },
            },
            None => None,
        }
    }
}

proof fn lemma_steps_undoable(st: UfV, steps: Seq<UfStep>)
    ensures
        run_steps(st, steps) matches Some(st2) ==> undoable(st, st2),
    decreases steps.len(),
{
    lemma_undoable_refl(st);
    if steps.len() > 0 {
        lemma_steps_undoable(st, steps.drop_last());
        if let Some(s1) = run_steps(st, steps.drop_last()) {
            match steps.last() {
                UfStep::Bind(v, t) => if resolves(s1, t) {
                    lemma_bind_undoable(s1, v, t);
                    lemma_undoable_trans(st, s1, bind_spec(s1, v, t));
                },
                UfStep::Resolve(t) => if resolves(s1, t) {
                    let n = choose|n: nat| #[trigger] uf_resolve(s1, t, n) is Some;
                    lemma_resolve_undoable(s1, t, n);
                    lemma_undoable_trans(st, s1, resolve_spec(s1, t).1);
                },
            }
        }
    }
}

/// After any sequence of bindings and resolutions, undoing the trail down
/// to its length before gives back the bindings and the trail as they were.
pub proof fn law_steps_then_undo(st: UfV, steps: Seq<UfStep>)
    requires
        run_steps(st, steps) is Some,
        st.trail.len() <= usize::MAX,
    ensures
        undo_spec(run_steps(st, steps)->0, st.trail.len() as usize) == st,
{
    lemma_steps_undoable(st, steps);
    lemma_undo_restores(st, run_steps(st, steps)->0);
}

/// Resolution, as a whole: it ends at a term that is not a bound variable,
/// every term that resolved before resolves to the same term after it (path
/// compression keeps meaning), the old trail is a prefix of the new one, and
/// undoing the trail down to its old length gives back the old bindings.
pub proof fn law_resolve(st: UfV, t: TermV, x: TermV)
    requires
        resolves(st, t),
        resolves(st, x),
        st.trail.len() <= usize::MAX,
    ensures
        resolve_spec(st, t).0 matches TermV::Var(w) ==> !resolve_spec(st, t).1.bindings.contains_key(w),
        resolves(resolve_spec(st, t).1, x),
        resolve_spec(resolve_spec(st, t).1, x).0 == resolve_spec(st, x).0,
        resolve_spec(st, t).1.trail.take(st.trail.len() as int) == st.trail,
        undo_spec(resolve_spec(st, t).1, st.trail.len() as usize) == st,
{
    let n = choose|n: nat| #[trigger] uf_resolve(st, t, n) is Some;
    lemma_resolve_terminal(st, t, n);
    lemma_resolve_undoable(st, t, n);
    lemma_undo_restores(st, resolve_spec(st, t).1);
    law_resolve_keeps_targets(st, t, x);
}

} // verus!
