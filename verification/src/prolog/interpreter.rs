//! A lighter Prolog compiler: a fact is a bare `Proceed`, and each goal of a
//! rule is a call of its predicate, a literal `write` argument being put in
//! register 0 first; a `Halt` ends the code block of a rule.

use vstd::prelude::*;
use crate::machine::{Instruction, InstrV, program_view};
use crate::prolog::ast::{Term, Clause, PTermV, ClauseV, clauses_view};
use crate::prolog::compiler::{parse_error_text, string_is, text, with_call, append_block, with_proceed, parse_error_message};
use crate::prolog::parser::{ParseErrorV, parse_program, parse_program_spec};
use crate::tables::PredicateTable;
use crate::prolog::layout::{Placed, layout, blocks_nonempty, lists_blocks, lemma_layout, lemma_layout_len};

verus! {

broadcast use {vstd::std_specs::vec::group_vec_axioms, crate::prolog::ast::Term::lemma_view};

/// The predicate name of a clause head.
pub open spec fn head_name(h: PTermV) -> Option<Seq<char>> {
    match h {
        PTermV::Atom(s) => Some(s),
        PTermV::Compound(f, _) => Some(f),
        _ => None,
    }
}

/// The instructions of a goal: a call, after a put of a literal `write`
/// argument.
pub open spec fn call_goal_spec(g: PTermV) -> Result<Seq<InstrV>, Seq<char>> {
    match g {
        PTermV::Compound(f, args) => if f == "write"@ && args.len() == 1 && args[0] is Atom {
            Ok(seq![InstrV::PutStr { register: 0, value: args[0]->Atom_0 }, InstrV::Call { predicate: f }])
        } else {
            Ok(seq![InstrV::Call { predicate: f }])
        },
        PTermV::Atom(s) => Ok(seq![InstrV::Call { predicate: s }]),
        _ => Err("Unsupported goal type in rule"@),
    }
}

pub open spec fn call_goals_spec(gs: Seq<PTermV>) -> Result<Seq<InstrV>, Seq<char>>
    decreases gs.len(),
{
    if gs.len() == 0 {
        Ok(Seq::empty())
    } else {
        match call_goals_spec(gs.drop_last()) {
            Err(e) => Err(e),
            Ok(v) => match call_goal_spec(gs.last()) {
                Err(e) => Err(e),
                Ok(w) => Ok(v + w),
            },
        }
    }
}

/// The predicate name and code block of a clause.
pub open spec fn call_clause_spec(c: ClauseV) -> Result<(Seq<char>, Seq<InstrV>), Seq<char>> {
    match c {
        ClauseV::Fact { head } => match head_name(head) {
            None => Err("Unsupported fact head type"@),
            Some(n) => Ok((n, seq![InstrV::Proceed])),
        },
        ClauseV::Rule { head, body } => match head_name(head) {
            None => Err("Unsupported rule head type"@),
            Some(n) => match call_goals_spec(body) {
                Err(e) => Err(e),
                Ok(v) => Ok((n, v.push(InstrV::Halt))),
            },
        },
    }
}

pub open spec fn call_clauses_spec(cs: Seq<ClauseV>) -> Result<(Seq<InstrV>, Map<Seq<char>, Seq<usize>>), Seq<char>>
    decreases cs.len(),
{
    if cs.len() == 0 {
        Ok((Seq::empty(), Map::empty()))
    } else {
        match call_clauses_spec(cs.drop_last()) {
            Err(e) => Err(e),
            Ok((code, table)) => match call_clause_spec(cs.last()) {
                Err(e) => Err(e),
                Ok((name, block)) => Ok((
                    code + block,
                    table.insert(name, if table.contains_key(name) { table[name] } else { Seq::empty() }.push(code.len() as usize)),
                )),
            },
        }
    }
}

/// The compiled program and predicate table of a Prolog text.
pub open spec fn compile_calls_spec(program: Seq<char>) -> Result<(Seq<InstrV>, Map<Seq<char>, Seq<usize>>), Seq<char>> {
    match parse_program_spec(program) {
        Err(e) => Err("Parse error: "@ + parse_error_text(e)),
        Ok(cs) => call_clauses_spec(cs),
    }
}

fn call_goal(g: &Term) -> (r: Result<Vec<Instruction>, String>)
    ensures
        match r {
            Ok(v) => call_goal_spec(g@) == Ok::<Seq<InstrV>, Seq<char>>(program_view(v@)),
            Err(e) => call_goal_spec(g@) == Err::<Seq<InstrV>, Seq<char>>(e@),
        },
{
    match g {
        Term::Compound(f, args) => {
            proof {
                assert(args@.len() > 0 ==> Term::terms_view(args@)[0] == args@[0]@);
            }
            if string_is(f, "write") && args.len() == 1 {
                if let Term::Atom(lit) = &args[0] {
                    let mut v: Vec<Instruction> = Vec::new();
                    v.push(Instruction::PutStr { register: 0, value: lit.clone() });
                    let v = with_call(v, f.clone());
                    proof {
                        assert(program_view(v@) =~= seq![InstrV::PutStr { register: 0, value: lit@ }, InstrV::Call { predicate: f@ }]);
                    }
                    return Ok(v);
                }
            }
            let v = with_call(Vec::new(), f.clone());
            proof {
                assert(program_view(v@) =~= seq![InstrV::Call { predicate: f@ }]);
            }
            Ok(v)
        },
        Term::Atom(s) => {
            let v = with_call(Vec::new(), s.clone());
            proof {
                assert(program_view(v@) =~= seq![InstrV::Call { predicate: s@ }]);
            }
            Ok(v)
        },
        _ => Err(text("Unsupported goal type in rule")),
    }
}

fn call_goals(gs: &Vec<Term>) -> (r: Result<Vec<Instruction>, String>)
    ensures
        match r {
            Ok(v) => call_goals_spec(Term::terms_view(gs@)) == Ok::<Seq<InstrV>, Seq<char>>(program_view(v@)),
            Err(e) => call_goals_spec(Term::terms_view(gs@)) == Err::<Seq<InstrV>, Seq<char>>(e@),
        },
{
    let ghost q = Term::terms_view(gs@);
    let mut out: Vec<Instruction> = Vec::new();
    let mut i: usize = 0;
    proof {
        assert(q.take(0) =~= Seq::<PTermV>::empty());
        assert(program_view(out@) =~= Seq::<InstrV>::empty());
    }
    while i < gs.len()
        invariant
            i <= gs@.len(),
            q == Term::terms_view(gs@),
            call_goals_spec(q.take(i as int)) == Ok::<Seq<InstrV>, Seq<char>>(program_view(out@)),
        decreases gs.len() - i,
    {
        let ghost next = q.take(i + 1);
        proof {
            assert(next.drop_last() =~= q.take(i as int));
            assert(next.last() == gs@[i as int]@);
        }
        match call_goal(&gs[i]) {
            Err(e) => {
                proof {
                    lemma_goals_stop(q, i + 1);
                }
                return Err(e);
            },
            Ok(v) => {
                append_block(&mut out, v);
            },
        }
        i += 1;
    }
    proof {
        assert(q.take(gs@.len() as int) =~= q);
    }
    Ok(out)
}

proof fn lemma_goals_stop(q: Seq<PTermV>, k: int)
    requires
        0 <= k <= q.len(),
        call_goals_spec(q.take(k)) is Err,
    ensures
        call_goals_spec(q) == call_goals_spec(q.take(k)),
    decreases q.len() - k,
{
    if k == q.len() {
        assert(q.take(k) =~= q);
    } else {
        assert(q.take(k + 1).drop_last() =~= q.take(k));
        lemma_goals_stop(q, k + 1);
    }
}

fn head_name_exec(h: &Term) -> (r: Option<String>)
    ensures
        match r {
            Some(s) => head_name(h@) == Some(s@),
            None => head_name(h@) is None,
        },
{
    match h {
        Term::Atom(s) => Some(s.clone()),
        Term::Compound(f, _) => Some(f.clone()),
        _ => None,
    }
}

fn call_clause(c: &Clause) -> (r: Result<(String, Vec<Instruction>), String>)
    ensures
        match r {
            Ok((n, v)) => call_clause_spec(c@) == Ok::<(Seq<char>, Seq<InstrV>), Seq<char>>((n@, program_view(v@))),
            Err(e) => call_clause_spec(c@) == Err::<(Seq<char>, Seq<InstrV>), Seq<char>>(e@),
        },
{
    match c {
        Clause::Fact { head } => match head_name_exec(head) {
            None => Err(text("Unsupported fact head type")),
            Some(n) => {
                let v = with_proceed(Vec::new());
                proof {
                    assert(program_view(v@) =~= seq![InstrV::Proceed]);
                }
                Ok((n, v))
            },
        },
        Clause::Rule { head, body } => match head_name_exec(head) {
            None => Err(text("Unsupported rule head type")),
            Some(n) => match call_goals(body) {
                Err(e) => Err(e),
                Ok(v) => {
                    let mut v = v;
                    let ghost before = program_view(v@);
                    v.push(Instruction::Halt);
                    proof {
                        assert(program_view(v@) =~= before.push(InstrV::Halt));
                    }
                    Ok((n, v))
                },
            },
        },
    }
}

/// Compiles a Prolog text into a program of calls and its predicate table
/// (see `compile_calls_spec`).
pub fn compile_prolog(program: &str) -> (r: Result<(Vec<Instruction>, PredicateTable), String>)
    ensures
        match r {
            Ok((code, table)) => compile_calls_spec(program@) == Ok::<(Seq<InstrV>, Map<Seq<char>, Seq<usize>>), Seq<char>>((program_view(code@), table@)),
            Err(e) => compile_calls_spec(program@) == Err::<(Seq<InstrV>, Map<Seq<char>, Seq<usize>>), Seq<char>>(e@),
        },
{
    let clauses = match parse_program(program) {
        Err(e) => return Err(parse_error_message(&e)),
        Ok(c) => c,
    };
    let ghost q = clauses_view(clauses@);
    let mut code: Vec<Instruction> = Vec::new();
    let mut table = PredicateTable::new();
    let mut i: usize = 0;
    proof {
        assert(q.take(0) =~= Seq::<ClauseV>::empty());
        assert(program_view(code@) =~= Seq::<InstrV>::empty());
    }
    while i < clauses.len()
        invariant
            i <= clauses@.len(),
            q == clauses_view(clauses@),
            parse_program_spec(program@) == Ok::<Seq<ClauseV>, ParseErrorV>(q),
            call_clauses_spec(q.take(i as int)) == Ok::<(Seq<InstrV>, Map<Seq<char>, Seq<usize>>), Seq<char>>((program_view(code@), table@)),
        decreases clauses.len() - i,
    {
        let ghost next = q.take(i + 1);
        proof {
            assert(next.drop_last() =~= q.take(i as int));
            assert(next.last() == clauses@[i as int]@);
        }
        let addr = code.len();
        match call_clause(&clauses[i]) {
            Err(e) => {
                proof {
                    lemma_clauses_stop(q, i + 1);
                }
                return Err(e);
            },
            Ok((name, block)) => {
                append_block(&mut code, block);
                table.push(name, addr);
            },
        }
        i += 1;
    }
    proof {
        assert(q.take(clauses@.len() as int) =~= q);
    }
    Ok((code, table))
}

proof fn lemma_clauses_stop(q: Seq<ClauseV>, k: int)
    requires
        0 <= k <= q.len(),
        call_clauses_spec(q.take(k)) is Err,
    ensures
        call_clauses_spec(q) == call_clauses_spec(q.take(k)),
    decreases q.len() - k,
{
    if k == q.len() {
        assert(q.take(k) =~= q);
    } else {
        assert(q.take(k + 1).drop_last() =~= q.take(k));
        lemma_clauses_stop(q, k + 1);
    }
}

/// The predicate name and code block of each clause, where it compiles.
pub open spec fn call_placed(cs: Seq<ClauseV>) -> Seq<Placed> {
    Seq::new(cs.len(), |k: int| match call_clause_spec(cs[k]) {
        Ok(p) => p,
        Err(_) => (Seq::empty(), Seq::empty()),
    })
}

proof fn lemma_call_layout(cs: Seq<ClauseV>)
    requires
        call_clauses_spec(cs) is Ok,
    ensures
        forall|k: int| 0 <= k < cs.len() ==> call_clause_spec(#[trigger] cs[k]) == Ok::<Placed, Seq<char>>(call_placed(cs)[k]),
        call_clauses_spec(cs) == Ok::<(Seq<InstrV>, Map<Seq<char>, Seq<usize>>), Seq<char>>(layout(call_placed(cs))),
        blocks_nonempty(call_placed(cs)),
    decreases cs.len(),
{
    if cs.len() > 0 {
        let pre = cs.drop_last();
        lemma_call_layout(pre);
        assert(call_placed(pre) =~= call_placed(cs).drop_last());
        assert forall|k: int| 0 <= k < cs.len() implies call_clause_spec(#[trigger] cs[k]) == Ok::<Placed, Seq<char>>(call_placed(cs)[k]) by {
            if k < cs.len() - 1 {
                assert(pre[k] == cs[k]);
            }
        }
        assert forall|k: int| 0 <= k < cs.len() implies (#[trigger] call_placed(cs)[k]).1.len() > 0 by {
            if k < cs.len() - 1 {
                assert(pre[k] == cs[k]);
                assert(call_placed(pre)[k] == call_placed(cs)[k]);
            }
        }
    }
}

/// Compiling a program with the lighter compiler gives a predicate table that lists every clause
/// in program order, and code that is the clauses' blocks one after another
/// (see `lists_blocks`), each block being what its clause compiles to.
pub proof fn law_call_table(program: Seq<char>)
    ensures
        compile_calls_spec(program) matches Ok((code, table)) ==> (code.len() <= usize::MAX ==> (
            parse_program_spec(program) matches Ok(cs) && {
                &&& lists_blocks(call_placed(cs), code, table)
                &&& forall|k: int| 0 <= k < cs.len() ==> call_clause_spec(#[trigger] cs[k]) == Ok::<Placed, Seq<char>>(call_placed(cs)[k])
            })),
{
    if let Ok(cs) = parse_program_spec(program) {
        if call_clauses_spec(cs) is Ok {
            lemma_call_layout(cs);
            let ps = call_placed(cs);
            lemma_layout_len(ps);
            if layout(ps).0.len() <= usize::MAX {
                lemma_layout(ps);
            }
        }
    }
}

} // verus!
