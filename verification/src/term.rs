//! Terms of the machine and their mathematical model.

use vstd::prelude::*;

verus! {

broadcast use vstd::std_specs::vec::group_vec_axioms;

/// A term of the logic language.
#[derive(Debug, PartialEq, Eq, Hash)]
pub enum Term {
    Const(i32),
    Var(usize),
    Compound(String, Vec<Term>),
    Lambda(usize, Box<Term>),
    App(Box<Term>, Box<Term>),
    Prob(Box<Term>),
    Constraint(String, Vec<Term>),
    Modal(String, Box<Term>),
    Temporal(String, Box<Term>),
    HigherOrder(Box<Term>),
    Str(String),
}

/// The mathematical value of a term: strings become character sequences and
/// argument vectors become sequences.
pub enum TermV {
    Const(i32),
    Var(usize),
    Compound(Seq<char>, Seq<TermV>),
    Lambda(usize, Box<TermV>),
    App(Box<TermV>, Box<TermV>),
    Prob(Box<TermV>),
    Constraint(Seq<char>, Seq<TermV>),
    Modal(Seq<char>, Box<TermV>),
    Temporal(Seq<char>, Box<TermV>),
    HigherOrder(Box<TermV>),
    Str(Seq<char>),
}

impl Term {
    /// The values of a sequence of terms.
    pub open spec fn args_view(args: Seq<Term>) -> Seq<TermV> {
        Seq::new(args.len(), |i: int| args[i]@)
    }

    pub open spec fn view_rec(&self) -> TermV
        decreases self,
    {
        match self {
            Term::Const(n) => TermV::Const(*n),
            Term::Var(v) => TermV::Var(*v),
            Term::Compound(f, args) => TermV::Compound(f@, Seq::new(args@.len(), |i: int| if 0 <= i < args@.len() { args@[i].view_rec() } else { TermV::Const(0) })),
            Term::Lambda(p, b) => TermV::Lambda(*p, Box::new(b.view_rec())),
            Term::App(a, b) => TermV::App(Box::new(a.view_rec()), Box::new(b.view_rec())),
            Term::Prob(b) => TermV::Prob(Box::new(b.view_rec())),
            Term::Constraint(f, args) => TermV::Constraint(f@, Seq::new(args@.len(), |i: int| if 0 <= i < args@.len() { args@[i].view_rec() } else { TermV::Const(0) })),
            Term::Modal(f, b) => TermV::Modal(f@, Box::new(b.view_rec())),
            Term::Temporal(f, b) => TermV::Temporal(f@, Box::new(b.view_rec())),
            Term::HigherOrder(b) => TermV::HigherOrder(Box::new(b.view_rec())),
            Term::Str(s) => TermV::Str(s@),
        }
    }
}

impl Term {
    /// The value of a term with an argument vector is built from the values of its arguments.
    pub broadcast proof fn lemma_args_view(t: Term)
        ensures
            (#[trigger] t.view_rec()) matches TermV::Compound(f, a) ==> t matches Term::Compound(g, args) && a == Term::args_view(args@) && f == g@,
            t.view_rec() matches TermV::Constraint(f, a) ==> t matches Term::Constraint(g, args) && a == Term::args_view(args@) && f == g@,
    {
        match t {
            Term::Compound(g, args) => {
                assert(Seq::new(args@.len(), |i: int| if 0 <= i < args@.len() { args@[i].view_rec() } else { TermV::Const(0) }) =~= Term::args_view(args@));
            }
            Term::Constraint(g, args) => {
                assert(Seq::new(args@.len(), |i: int| if 0 <= i < args@.len() { args@[i].view_rec() } else { TermV::Const(0) }) =~= Term::args_view(args@));
            }
            _ => {}
        }
    }
}

impl View for Term {
    type V = TermV;

    open spec fn view(&self) -> TermV {
        self.view_rec()
    }
}

/// Copies an argument vector, keeping the value of every argument.
fn copy_args(args: &Vec<Term>) -> (r: Vec<Term>)
    ensures
        r@.len() == args@.len(),
        forall|j: int| 0 <= j < args@.len() ==> r@[j]@ == args@[j]@,
    decreases args, 0nat,
{
    let mut out: Vec<Term> = Vec::new();
    let mut i: usize = 0;
    while i < args.len()
        invariant
            i <= args.len(),
            out@.len() == i,
            forall|j: int| 0 <= j < i ==> out@[j]@ == args@[j]@,
        decreases args.len() - i,
    {
        proof {
            assert(decreases_to!(args => args@[i as int]));
        }
        let c = copy_term(&args[i]);
        out.push(c);
        i += 1;
    }
    out
}

/// Copies a term, keeping its value.
pub fn copy_term(t: &Term) -> (r: Term)
    ensures
        r@ == t@,
    decreases t, 1nat,
{
    let r = match t {
        Term::Const(n) => Term::Const(*n),
        Term::Var(v) => Term::Var(*v),
        Term::Compound(f, args) => Term::Compound(f.clone(), copy_args(args)),
        Term::Lambda(p, b) => Term::Lambda(*p, Box::new(copy_term(b))),
        Term::App(a, b) => Term::App(Box::new(copy_term(a)), Box::new(copy_term(b))),
        Term::Prob(b) => Term::Prob(Box::new(copy_term(b))),
        Term::Constraint(f, args) => Term::Constraint(f.clone(), copy_args(args)),
        Term::Modal(f, b) => Term::Modal(f.clone(), Box::new(copy_term(b))),
        Term::Temporal(f, b) => Term::Temporal(f.clone(), Box::new(copy_term(b))),
        Term::HigherOrder(b) => Term::HigherOrder(Box::new(copy_term(b))),
        Term::Str(s) => Term::Str(s.clone()),
    };
    proof {
        match t {
            Term::Compound(_, args) => {
                if let Term::Compound(_, out) = &r {
                    Term::lemma_args_view(r);
                    Term::lemma_args_view(*t);
                    assert(Term::args_view(out@) =~= Term::args_view(args@));
                }
            }
            Term::Constraint(_, args) => {
                if let Term::Constraint(_, out) = &r {
                    Term::lemma_args_view(r);
                    Term::lemma_args_view(*t);
                    assert(Term::args_view(out@) =~= Term::args_view(args@));
                }
            }
            _ => {}
        }
    }
    r
}


/// Compares two strings by value.
pub fn strings_equal(a: &String, b: &String) -> (r: bool)
    ensures
        r == (a@ == b@),
{
    a.eq(b)
}

/// Compares two term vectors element by element.
pub fn args_equal(a: &Vec<Term>, b: &Vec<Term>) -> (r: bool)
    ensures
        r == (Term::args_view(a@) == Term::args_view(b@)),
    decreases a, 0nat,
{
    if a.len() != b.len() {
        proof {
            assert(Term::args_view(a@).len() != Term::args_view(b@).len());
        }
        return false;
    }
    let mut i: usize = 0;
    while i < a.len()
        invariant
            i <= a.len(),
            a.len() == b.len(),
            forall|j: int| 0 <= j < i ==> a@[j]@ == b@[j]@,
        decreases a.len() - i,
    {
        proof {
            assert(decreases_to!(a => a@[i as int]));
        }
        if !terms_equal(&a[i], &b[i]) {
            proof {
                assert(Term::args_view(a@)[i as int] != Term::args_view(b@)[i as int]);
            }
            return false;
        }
        i += 1;
    }
    proof {
        assert(Term::args_view(a@) =~= Term::args_view(b@));
    }
    true
}

/// Compares two terms by value.
pub fn terms_equal(a: &Term, b: &Term) -> (r: bool)
    ensures
        r == (a@ == b@),
    decreases a, 1nat,
{
    proof {
        Term::lemma_args_view(*a);
        Term::lemma_args_view(*b);
    }
    match (a, b) {
        (Term::Const(x), Term::Const(y)) => *x == *y,
        (Term::Var(x), Term::Var(y)) => *x == *y,
        (Term::Compound(f, xs), Term::Compound(g, ys)) => strings_equal(f, g) && args_equal(xs, ys),
        (Term::Lambda(p, x), Term::Lambda(q, y)) => *p == *q && terms_equal(x, y),
        (Term::App(f, x), Term::App(g, y)) => terms_equal(f, g) && terms_equal(x, y),
        (Term::Prob(x), Term::Prob(y)) => terms_equal(x, y),
        (Term::Constraint(f, xs), Term::Constraint(g, ys)) => strings_equal(f, g) && args_equal(xs, ys),
        (Term::Modal(f, x), Term::Modal(g, y)) => strings_equal(f, g) && terms_equal(x, y),
        (Term::Temporal(f, x), Term::Temporal(g, y)) => strings_equal(f, g) && terms_equal(x, y),
        (Term::HigherOrder(x), Term::HigherOrder(y)) => terms_equal(x, y),
        (Term::Str(x), Term::Str(y)) => strings_equal(x, y),
        _ => false,
    }
}

impl Clone for Term {
    fn clone(&self) -> (r: Self)
        ensures
            r@ == self@,
    {
        copy_term(self)
    }
}

/// The value of `t` when each variable `k` stands for `sigma(k)`: every
/// variable occurrence is replaced and the rest of the term is kept.
pub open spec fn assign(sigma: spec_fn(usize) -> TermV, t: TermV) -> TermV
    decreases t,
{
    match t {
        TermV::Var(v) => sigma(v),
        TermV::Const(_) | TermV::Str(_) => t,
        TermV::Compound(f, a) => TermV::Compound(f, assign_seq(sigma, a)),
        TermV::Constraint(f, a) => TermV::Constraint(f, assign_seq(sigma, a)),
        TermV::Lambda(p, b) => TermV::Lambda(p, Box::new(assign(sigma, *b))),
        TermV::App(f, a) => TermV::App(Box::new(assign(sigma, *f)), Box::new(assign(sigma, *a))),
        TermV::Prob(b) => TermV::Prob(Box::new(assign(sigma, *b))),
        TermV::Modal(m, b) => TermV::Modal(m, Box::new(assign(sigma, *b))),
        TermV::Temporal(m, b) => TermV::Temporal(m, Box::new(assign(sigma, *b))),
        TermV::HigherOrder(b) => TermV::HigherOrder(Box::new(assign(sigma, *b))),
    }
}

/// `assign` applied to each term of a sequence.
pub open spec fn assign_seq(sigma: spec_fn(usize) -> TermV, s: Seq<TermV>) -> Seq<TermV>
    decreases s,
{
    if s.len() == 0 {
        Seq::empty()
    } else {
        assign_seq(sigma, s.subrange(0, s.len() - 1)).push(assign(sigma, s[s.len() - 1]))
    }
}

/// `sigma` satisfies the bindings `b`: each bound variable stands for the
/// value of what it is bound to.
pub open spec fn satisfies(b: Map<usize, TermV>, sigma: spec_fn(usize) -> TermV) -> bool {
    forall|k: usize| #[trigger] b.contains_key(k) ==> sigma(k) == assign(sigma, b[k])
}

/// `assign_seq` keeps the length and works element by element.
pub proof fn lemma_assign_seq(sigma: spec_fn(usize) -> TermV, s: Seq<TermV>)
    ensures
        assign_seq(sigma, s).len() == s.len(),
        forall|j: int| 0 <= j < s.len() ==> #[trigger] assign_seq(sigma, s)[j] == assign(sigma, s[j]),
    decreases s.len(),
{
    if s.len() > 0 {
        let init = s.subrange(0, s.len() - 1);
        lemma_assign_seq(sigma, init);
        assert forall|j: int| 0 <= j < s.len() implies #[trigger] assign_seq(sigma, s)[j] == assign(sigma, s[j]) by {
            if j < s.len() - 1 {
                assert(init[j] == s[j]);
            }
        }
    }
}

/// Sequences whose terms have pairwise equal values have equal values.
pub proof fn lemma_assign_seq_equal(sigma: spec_fn(usize) -> TermV, a1: Seq<TermV>, a2: Seq<TermV>)
    requires
        a1.len() == a2.len(),
        forall|j: int| 0 <= j < a1.len() ==> assign(sigma, #[trigger] a1[j]) == assign(sigma, a2[j]),
    ensures
        assign_seq(sigma, a1) == assign_seq(sigma, a2),
{
    lemma_assign_seq(sigma, a1);
    lemma_assign_seq(sigma, a2);
    assert(assign_seq(sigma, a1) =~= assign_seq(sigma, a2));
}

/// Full resolution under the bindings `b`, with a fuel that bounds the
/// bindings followed and the nesting: every bound variable is replaced by
/// the full resolution of its binding, everywhere in the term. `None` when
/// the fuel runs out.
pub open spec fn deep_resolve(b: Map<usize, TermV>, t: TermV, fuel: nat) -> Option<TermV>
    decreases fuel, 0nat, 0nat,
{
    if fuel == 0 {
        match t {
            TermV::Var(v) => if b.contains_key(v) { None } else { Some(t) },
            TermV::Const(_) | TermV::Str(_) => Some(t),
            _ => None,
        }
    } else {
        let f = (fuel - 1) as nat;
        match t {
            TermV::Var(v) => if b.contains_key(v) { deep_resolve(b, b[v], f) } else { Some(t) },
            TermV::Const(_) | TermV::Str(_) => Some(t),
            TermV::Compound(n, a) => match deep_resolve_seq(b, a, f) {
                Some(a2) => Some(TermV::Compound(n, a2)),
                None => None,
            },
            TermV::Constraint(n, a) => match deep_resolve_seq(b, a, f) {
                Some(a2) => Some(TermV::Constraint(n, a2)),
                None => None,
            },
            TermV::Lambda(p, x) => match deep_resolve(b, *x, f) {
                Some(y) => Some(TermV::Lambda(p, Box::new(y))),
                None => None,
            },
            TermV::App(x, y) => match (deep_resolve(b, *x, f), deep_resolve(b, *y, f)) {
                (Some(x2), Some(y2)) => Some(TermV::App(Box::new(x2), Box::new(y2))),
                _ => None,
            },
            TermV::Prob(x) => match deep_resolve(b, *x, f) {
                Some(y) => Some(TermV::Prob(Box::new(y))),
                None => None,
            },
            TermV::Modal(m, x) => match deep_resolve(b, *x, f) {
                Some(y) => Some(TermV::Modal(m, Box::new(y))),
                None => None,
            },
            TermV::Temporal(m, x) => match deep_resolve(b, *x, f) {
                Some(y) => Some(TermV::Temporal(m, Box::new(y))),
                None => None,
            },
            TermV::HigherOrder(x) => match deep_resolve(b, *x, f) {
                Some(y) => Some(TermV::HigherOrder(Box::new(y))),
                None => None,
            },
        }
    }
}

/// `deep_resolve` applied to each term of a sequence; `None` when it is
/// `None` for one of them.
pub open spec fn deep_resolve_seq(b: Map<usize, TermV>, s: Seq<TermV>, fuel: nat) -> Option<Seq<TermV>>
    decreases fuel, 1nat, s.len(),
{
    if s.len() == 0 {
        Some(Seq::empty())
    } else {
        match (deep_resolve_seq(b, s.subrange(0, s.len() - 1), fuel), deep_resolve(b, s[s.len() - 1], fuel)) {
            (Some(init), Some(last)) => Some(init.push(last)),
            _ => None,
        }
    }
}

/// `t` resolves fully under `b`.
pub open spec fn resolves_fully(b: Map<usize, TermV>, t: TermV) -> bool {
    exists|n: nat| #[trigger] deep_resolve(b, t, n) is Some
}

/// The full resolution of `t` under `b` (see `deep_resolve`).
pub open spec fn full_resolve(b: Map<usize, TermV>, t: TermV) -> TermV {
    deep_resolve(b, t, choose|n: nat| #[trigger] deep_resolve(b, t, n) is Some)->0
}

/// Every bound variable of `b` resolves fully: the bindings have no cycle.
pub open spec fn all_resolve(b: Map<usize, TermV>) -> bool {
    forall|k: usize| #[trigger] b.contains_key(k) ==> resolves_fully(b, TermV::Var(k))
}

/// The assignment giving each variable its full resolution (itself when it
/// has none).
pub open spec fn resolved_assignment(b: Map<usize, TermV>) -> spec_fn(usize) -> TermV {
    |k: usize| if resolves_fully(b, TermV::Var(k)) { full_resolve(b, TermV::Var(k)) } else { TermV::Var(k) }
}

proof fn lemma_deep_mono(b: Map<usize, TermV>, t: TermV, n: nat, m: nat)
    requires
        n <= m,
        deep_resolve(b, t, n) is Some,
    ensures
        deep_resolve(b, t, m) == deep_resolve(b, t, n),
    decreases n, 0nat, 0nat,
{
    if n > 0 {
        let f = (n - 1) as nat;
        let g = (m - 1) as nat;
        match t {
            TermV::Var(v) => if b.contains_key(v) { lemma_deep_mono(b, b[v], f, g); },
            TermV::Compound(_, a) | TermV::Constraint(_, a) => { lemma_deep_seq_mono(b, a, f, g); },
            TermV::Lambda(_, x) | TermV::Prob(x) | TermV::Modal(_, x) | TermV::Temporal(_, x)
            | TermV::HigherOrder(x) => { lemma_deep_mono(b, *x, f, g); },
            TermV::App(x, y) => {
                lemma_deep_mono(b, *x, f, g);
                lemma_deep_mono(b, *y, f, g);
            },
            _ => {},
        }
    }
}

proof fn lemma_deep_seq_mono(b: Map<usize, TermV>, s: Seq<TermV>, n: nat, m: nat)
    requires
        n <= m,
        deep_resolve_seq(b, s, n) is Some,
    ensures
        deep_resolve_seq(b, s, m) == deep_resolve_seq(b, s, n),
    decreases n, 1nat, s.len(),
{
    if s.len() > 0 {
        lemma_deep_seq_mono(b, s.subrange(0, s.len() - 1), n, m);
        lemma_deep_mono(b, s[s.len() - 1], n, m);
    }
}

/// Full resolution does not depend on the fuel, once it suffices.
proof fn lemma_deep_unique(b: Map<usize, TermV>, t: TermV, n: nat, m: nat)
    requires
        deep_resolve(b, t, n) is Some,
        deep_resolve(b, t, m) is Some,
    ensures
        deep_resolve(b, t, n) == deep_resolve(b, t, m),
{
    if n <= m {
        lemma_deep_mono(b, t, n, m);
    } else {
        lemma_deep_mono(b, t, m, n);
    }
}

proof fn lemma_deep_assign(b: Map<usize, TermV>, t: TermV, n: nat)
    requires
        deep_resolve(b, t, n) is Some,
    ensures
        assign(resolved_assignment(b), t) == deep_resolve(b, t, n)->0,
    decreases n, 0nat, 0nat,
{
    let sigma = resolved_assignment(b);
    match t {
        TermV::Var(v) => {
            assert(resolves_fully(b, t));
            let c = choose|k: nat| #[trigger] deep_resolve(b, t, k) is Some;
            lemma_deep_unique(b, t, n, c);
        },
        TermV::Const(_) | TermV::Str(_) => {},
        TermV::Compound(_, a) | TermV::Constraint(_, a) => { lemma_deep_seq_assign(b, a, (n - 1) as nat); },
        TermV::Lambda(_, x) | TermV::Prob(x) | TermV::Modal(_, x) | TermV::Temporal(_, x)
        | TermV::HigherOrder(x) => { lemma_deep_assign(b, *x, (n - 1) as nat); },
        TermV::App(x, y) => {
            lemma_deep_assign(b, *x, (n - 1) as nat);
            lemma_deep_assign(b, *y, (n - 1) as nat);
        },
    }
}

proof fn lemma_deep_seq_assign(b: Map<usize, TermV>, s: Seq<TermV>, n: nat)
    requires
        deep_resolve_seq(b, s, n) is Some,
    ensures
        assign_seq(resolved_assignment(b), s) == deep_resolve_seq(b, s, n)->0,
    decreases n, 1nat, s.len(),
{
    if s.len() > 0 {
        lemma_deep_seq_assign(b, s.subrange(0, s.len() - 1), n);
        lemma_deep_assign(b, s[s.len() - 1], n);
    }
}

/// When the bindings have no cycle, giving each variable its full
/// resolution satisfies them, and the value of a term under that assignment
/// is its full resolution.
pub proof fn lemma_resolved_assignment(b: Map<usize, TermV>)
    requires
        all_resolve(b),
    ensures
        satisfies(b, resolved_assignment(b)),
        forall|t: TermV| #[trigger] resolves_fully(b, t) ==> assign(resolved_assignment(b), t) == full_resolve(b, t),
{
    let sigma = resolved_assignment(b);
    assert forall|t: TermV| #[trigger] resolves_fully(b, t) implies assign(sigma, t) == full_resolve(b, t) by {
        let c = choose|k: nat| #[trigger] deep_resolve(b, t, k) is Some;
        lemma_deep_assign(b, t, c);
    }
    assert forall|k: usize| #[trigger] b.contains_key(k) implies sigma(k) == assign(sigma, b[k]) by {
        let x = TermV::Var(k);
        assert(resolves_fully(b, x));
        let c = choose|n: nat| #[trigger] deep_resolve(b, x, n) is Some;
        assert(c > 0);
        assert(deep_resolve(b, b[k], (c - 1) as nat) is Some);
        lemma_deep_assign(b, b[k], (c - 1) as nat);
    }
}

} // verus!
