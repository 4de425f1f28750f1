//! Syntax of the Prolog-like language: flat terms, goals and clauses.

use vstd::prelude::*;

verus! {

broadcast use vstd::std_specs::vec::group_vec_axioms;

/// A term: a number, a string, a variable or an atom.
#[derive(Debug, PartialEq, Eq)]
pub enum PrologTerm {
    Const(i32),
    Str(String),
    Var(String),
    Atom(String),
}

/// A goal: a predicate name and its arguments.
#[derive(Debug, PartialEq, Eq)]
pub struct PrologGoal {
    pub predicate: String,
    pub args: Vec<PrologTerm>,
}

/// A clause: a head, and for a rule the goals of its body.
#[derive(Debug, PartialEq, Eq)]
pub struct PrologClause {
    pub head: PrologGoal,
    pub body: Option<Vec<PrologGoal>>,
}

/// The value of a term.
pub enum PrologTermV {
    Const(i32),
    Str(Seq<char>),
    Var(Seq<char>),
    Atom(Seq<char>),
}

impl View for PrologTerm {
    type V = PrologTermV;

    open spec fn view(&self) -> PrologTermV {
        match self {
            PrologTerm::Const(n) => PrologTermV::Const(*n),
            PrologTerm::Str(s) => PrologTermV::Str(s@),
            PrologTerm::Var(s) => PrologTermV::Var(s@),
            PrologTerm::Atom(s) => PrologTermV::Atom(s@),
        }
    }
}

/// The values of a sequence of terms.
pub open spec fn prolog_terms_view(ts: Seq<PrologTerm>) -> Seq<PrologTermV> {
    Seq::new(ts.len(), |i: int| ts[i]@)
}

/// The value of a goal.
pub struct GoalV {
    pub predicate: Seq<char>,
    pub args: Seq<PrologTermV>,
}

impl View for PrologGoal {
    type V = GoalV;

    open spec fn view(&self) -> GoalV {
        GoalV { predicate: self.predicate@, args: prolog_terms_view(self.args@) }
    }
}

/// The values of a sequence of goals.
pub open spec fn goals_view(gs: Seq<PrologGoal>) -> Seq<GoalV> {
    Seq::new(gs.len(), |i: int| gs[i]@)
}

/// The value of a clause.
pub struct PrologClauseV {
    pub head: GoalV,
    pub body: Option<Seq<GoalV>>,
}

impl View for PrologClause {
    type V = PrologClauseV;

    open spec fn view(&self) -> PrologClauseV {
        PrologClauseV {
            head: self.head@,
            body: match self.body {
                Some(v) => Some(goals_view(v@)),
                None => None,
            },
        }
    }
}

} // verus!
