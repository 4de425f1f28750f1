//! Syntax trees of Prolog programs.

use vstd::prelude::*;

verus! {

broadcast use vstd::std_specs::vec::group_vec_axioms;

/// A Prolog term.
#[derive(Debug, PartialEq)]
pub enum Term {
    /// A variable, by name.
    Var(String),
    /// An atom.
    Atom(String),
    /// An integer.
    Number(i32),
    /// A functor applied to arguments.
    Compound(String, Vec<Term>),
}

/// A Prolog clause.
#[derive(Debug, PartialEq)]
pub enum Clause {
    /// A fact: a head alone.
    Fact { head: Term },
    /// A rule: a head and the goals of its body.
    Rule { head: Term, body: Vec<Term> },
}

/// A Prolog query: a sequence of goals.
#[derive(Debug, PartialEq)]
pub struct Query {
    pub goals: Vec<Term>,
}

/// The value of a Prolog term.
pub enum PTermV {
    Var(Seq<char>),
    Atom(Seq<char>),
    Number(i32),
    Compound(Seq<char>, Seq<PTermV>),
}

/// The value of a clause.
pub enum ClauseV {
    Fact { head: PTermV },
    Rule { head: PTermV, body: Seq<PTermV> },
}

impl Term {
    pub open spec fn view_rec(&self) -> PTermV
        decreases self,
    {
        match self {
            Term::Var(s) => PTermV::Var(s@),
            Term::Atom(s) => PTermV::Atom(s@),
            Term::Number(n) => PTermV::Number(*n),
            Term::Compound(f, args) => PTermV::Compound(f@, Seq::new(args@.len(), |i: int| if 0 <= i < args@.len() { args@[i].view_rec() } else { PTermV::Number(0) })),
        }
    }

    /// The values of a sequence of terms.
    pub open spec fn terms_view(ts: Seq<Term>) -> Seq<PTermV> {
        Seq::new(ts.len(), |i: int| ts[i]@)
    }

    /// The value of a compound term is built from the values of its arguments.
    pub broadcast proof fn lemma_view(t: Term)
        ensures
            (#[trigger] t.view_rec()) matches PTermV::Compound(f, a) ==> t matches Term::Compound(g, args) && a == Term::terms_view(args@) && f == g@,
    {
        if let Term::Compound(g, args) = t {
            assert(Seq::new(args@.len(), |i: int| if 0 <= i < args@.len() { args@[i].view_rec() } else { PTermV::Number(0) }) =~= Term::terms_view(args@));
        }
    }
}

impl View for Term {
    type V = PTermV;

    open spec fn view(&self) -> PTermV {
        self.view_rec()
    }
}

impl View for Clause {
    type V = ClauseV;

    open spec fn view(&self) -> ClauseV {
        match self {
            Clause::Fact { head } => ClauseV::Fact { head: head@ },
            Clause::Rule { head, body } => ClauseV::Rule { head: head@, body: Term::terms_view(body@) },
        }
    }
}

/// The values of a sequence of clauses.
pub open spec fn clauses_view(cs: Seq<Clause>) -> Seq<ClauseV> {
    Seq::new(cs.len(), |i: int| cs[i]@)
}

} // verus!
