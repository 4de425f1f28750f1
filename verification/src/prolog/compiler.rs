//! Compiles Prolog clauses to machine instructions. A fact puts each of its
//! head's arguments in the register of its position; a rule compiles each
//! goal of its body to the puts of its arguments and a call; both end with
//! `Proceed`. The predicate table lists, for each predicate name, the
//! addresses where its clauses start.

use vstd::prelude::*;
use crate::machine::{Instruction, InstrV, program_view};
use crate::prolog::ast::{Term, Clause, PTermV, ClauseV, clauses_view};
use crate::prolog::parser::{ParseError, ParseErrorV, parse_program, parse_program_spec};
use crate::tables::PredicateTable;
use crate::prolog::layout::{Placed, layout, blocks_nonempty, lists_blocks, lemma_layout, lemma_layout_len};
use crate::text::{push_str, push_quoted, quoted, chars_to_string};
use crate::lexer::str_chars;
use crate::instruction_parser::chars_eq;

verus! {

broadcast use {vstd::std_specs::vec::group_vec_axioms, crate::prolog::ast::Term::lemma_view};

/// The debug text of a parse error.
pub open spec fn parse_error_text(e: ParseErrorV) -> Seq<char> {
    match e {
        ParseErrorV::UnexpectedToken(m) => "UnexpectedToken("@ + quoted(m) + ")"@,
        ParseErrorV::IncompleteInput => "IncompleteInput"@,
    }
}

/// The instruction that puts an argument in register `i`, if it is atomic.
pub open spec fn put_arg(i: usize, a: PTermV) -> Option<InstrV> {
    match a {
        PTermV::Atom(s) => Some(InstrV::PutStr { register: i, value: s }),
        PTermV::Number(n) => Some(InstrV::PutConst { register: i, value: n }),
        PTermV::Var(s) => Some(InstrV::PutVar { register: i, var_id: i, name: s }),
        PTermV::Compound(_, _) => None,
    }
}

/// The puts of the arguments in registers 0, 1, ...; `None` at the first
/// compound argument.
pub open spec fn put_args(args: Seq<PTermV>) -> Option<Seq<InstrV>>
    decreases args.len(),
{
    if args.len() == 0 {
        Some(Seq::empty())
    } else {
        match put_args(args.drop_last()) {
            None => None,
            Some(v) => match put_arg((args.len() - 1) as usize, args.last()) {
                None => None,
                Some(i) => Some(v.push(i)),
            },
        }
    }
}

/// The instructions of a goal of a rule body.
pub open spec fn compile_goal_spec(g: PTermV) -> Result<Seq<InstrV>, Seq<char>> {
    match g {
        PTermV::Compound(f, args) => if f == "="@ && args.len() == 2 {
            match put_arg(0, args[0]) {
                None => Err("Unsupported argument type for equality (left)"@),
                Some(l) => match put_arg(1, args[1]) {
                    None => Err("Unsupported argument type for equality (right)"@),
                    Some(r) => Ok(seq![l, r, InstrV::Call { predicate: "="@ }]),
                },
            }
        } else if f == "write"@ && args.len() == 1 && args[0] is Atom {
            Ok(seq![InstrV::PutStr { register: 0, value: args[0]->Atom_0 }, InstrV::Call { predicate: f }])
        } else if f == "write"@ && args.len() == 1 && args[0] is Var {
            Ok(seq![InstrV::Move { src: 1, dst: 0 }, InstrV::Call { predicate: f }])
        } else {
            match put_args(args) {
                None => Err("Unsupported argument type in goal"@),
                Some(v) => Ok(v.push(InstrV::Call { predicate: f })),
            }
        },
        PTermV::Atom(s) => Ok(seq![InstrV::Call { predicate: s }]),
        _ => Err("Unsupported goal type in rule"@),
    }
}

/// The instructions of the goals, one after the other, up to the first error.
pub open spec fn compile_goals_spec(gs: Seq<PTermV>) -> Result<Seq<InstrV>, Seq<char>>
    decreases gs.len(),
{
    if gs.len() == 0 {
        Ok(Seq::empty())
    } else {
        match compile_goals_spec(gs.drop_last()) {
            Err(e) => Err(e),
            Ok(v) => match compile_goal_spec(gs.last()) {
                Err(e) => Err(e),
                Ok(w) => Ok(v + w),
            },
        }
    }
}

/// The predicate name and the code block of a clause.
pub open spec fn compile_clause_spec(c: ClauseV) -> Result<(Seq<char>, Seq<InstrV>), Seq<char>> {
    match c {
        ClauseV::Fact { head } => match head {
            PTermV::Compound(f, args) => match put_args(args) {
                None => Err("Unsupported argument type in fact head"@),
                Some(v) => Ok((f, v.push(InstrV::Proceed))),
            },
            PTermV::Atom(s) => Ok((s, seq![InstrV::Proceed])),
            _ => Err("Unsupported fact head type"@),
        },
        ClauseV::Rule { head, body } => {
            let name = match head {
                PTermV::Atom(s) => Some(s),
                PTermV::Compound(f, _) => Some(f),
                _ => None,
            };
            match name {
                None => Err("Unsupported rule head type"@),
                Some(n) => match compile_goals_spec(body) {
                    Err(e) => Err(e),
                    Ok(v) => Ok((n, v.push(InstrV::Proceed))),
                },
            }
        },
    }
}

/// The program and predicate table of the clauses, each block placed after
/// the previous ones and its address added to its predicate's list.
pub open spec fn compile_clauses_spec(cs: Seq<ClauseV>) -> Result<(Seq<InstrV>, Map<Seq<char>, Seq<usize>>), Seq<char>>
    decreases cs.len(),
{
    if cs.len() == 0 {
        Ok((Seq::empty(), Map::empty()))
    } else {
        match compile_clauses_spec(cs.drop_last()) {
            Err(e) => Err(e),
            Ok((code, table)) => match compile_clause_spec(cs.last()) {
                Err(e) => Err(e),
                Ok((name, block)) => Ok((
                    code + block,
                    table.insert(name, if table.contains_key(name) { table[name] } else { Seq::empty() }.push(code.len() as usize)),
                )),
            },
        }
    }
}

/// The compiled program and predicate table of a Prolog text.
pub open spec fn compile_prolog_spec(program: Seq<char>) -> Result<(Seq<InstrV>, Map<Seq<char>, Seq<usize>>), Seq<char>> {
    match parse_program_spec(program) {
        Err(e) => Err("Parse error: "@ + parse_error_text(e)),
        Ok(cs) => compile_clauses_spec(cs),
    }
}

/// Whether a string is the given text.
pub fn string_is(s: &String, lit: &str) -> (r: bool)
    ensures
        r == (s@ == lit@),
{
    chars_eq(&str_chars(s.as_str()), lit)
}

pub(crate) fn text(lit: &str) -> (r: String)
    ensures
        r@ == lit@,
{
    chars_to_string(&str_chars(lit))
}

fn put_arg_exec(i: usize, a: &Term) -> (r: Option<Instruction>)
    ensures
        match r {
            Some(x) => put_arg(i, a@) == Some(x@),
            None => put_arg(i, a@) is None,
        },
{
    match a {
        Term::Atom(s) => Some(Instruction::PutStr { register: i, value: s.clone() }),
        Term::Number(n) => Some(Instruction::PutConst { register: i, value: *n }),
        Term::Var(s) => Some(Instruction::PutVar { register: i, var_id: i, name: s.clone() }),
        Term::Compound(_, _) => None,
    }
}

fn put_args_exec(args: &Vec<Term>) -> (r: Option<Vec<Instruction>>)
    ensures
        match r {
            Some(v) => put_args(Term::terms_view(args@)) == Some(program_view(v@)),
            None => put_args(Term::terms_view(args@)) is None,
        },
{
    let ghost q = Term::terms_view(args@);
    let mut out: Vec<Instruction> = Vec::new();
    let mut i: usize = 0;
    proof {
        assert(q.take(0) =~= Seq::<PTermV>::empty());
        assert(program_view(out@) =~= Seq::<InstrV>::empty());
    }
    while i < args.len()
        invariant
            i <= args@.len(),
            q == Term::terms_view(args@),
            put_args(q.take(i as int)) == Some(program_view(out@)),
        decreases args.len() - i,
    {
        let ghost next = q.take(i + 1);
        proof {
            assert(next.drop_last() =~= q.take(i as int));
            assert(next.last() == args@[i as int]@);
        }
        match put_arg_exec(i, &args[i]) {
            None => {
                proof {
                    lemma_put_args_none(q, i + 1);
                }
                return None;
            },
            Some(x) => {
                let ghost before = program_view(out@);
                out.push(x);
                proof {
                    assert(program_view(out@) =~= before.push(x@));
                }
            },
        }
        i += 1;
    }
    proof {
        assert(q.take(args@.len() as int) =~= q);
    }
    Some(out)
}

proof fn lemma_put_args_none(q: Seq<PTermV>, k: int)
    requires
        0 <= k <= q.len(),
        put_args(q.take(k)) is None,
    ensures
        put_args(q) is None,
    decreases q.len() - k,
{
    if k == q.len() {
        assert(q.take(k) =~= q);
    } else {
        assert(q.take(k + 1).drop_last() =~= q.take(k));
        lemma_put_args_none(q, k + 1);
    }
}

pub(crate) fn with_call(mut v: Vec<Instruction>, predicate: String) -> (r: Vec<Instruction>)
    ensures
        program_view(r@) == program_view(v@).push(InstrV::Call { predicate: predicate@ }),
{
    let ghost before = program_view(v@);
    v.push(Instruction::Call { predicate });
    proof {
        assert(program_view(v@) =~= before.push(InstrV::Call { predicate: predicate@ }));
    }
    v
}

/// The instructions of a goal (see `compile_goal_spec`).
fn compile_goal(g: &Term) -> (r: Result<Vec<Instruction>, String>)
    ensures
        match r {
            Ok(v) => compile_goal_spec(g@) == Ok::<Seq<InstrV>, Seq<char>>(program_view(v@)),
            Err(e) => compile_goal_spec(g@) == Err::<Seq<InstrV>, Seq<char>>(e@),
        },
{
    match g {
        Term::Compound(f, args) => {
            let ghost a = Term::terms_view(args@);
            proof {
                assert(args@.len() > 0 ==> a[0] == args@[0]@);
                assert(args@.len() > 1 ==> a[1] == args@[1]@);
            }
            if string_is(f, "=") && args.len() == 2 {
                let l = match put_arg_exec(0, &args[0]) {
                    None => return Err(text("Unsupported argument type for equality (left)")),
                    Some(x) => x,
                };
                let r = match put_arg_exec(1, &args[1]) {
                    None => return Err(text("Unsupported argument type for equality (right)")),
                    Some(x) => x,
                };
                let mut v: Vec<Instruction> = Vec::new();
                v.push(l);
                v.push(r);
                let v = with_call(v, text("="));
                proof {
                    assert(program_view(v@) =~= seq![l@, r@, InstrV::Call { predicate: "="@ }]);
                }
                return Ok(v);
            }
            if string_is(f, "write") && args.len() == 1 {
                match &args[0] {
                    Term::Atom(lit) => {
                        let mut v: Vec<Instruction> = Vec::new();
                        v.push(Instruction::PutStr { register: 0, value: lit.clone() });
                        let v = with_call(v, f.clone());
                        proof {
                            assert(program_view(v@) =~= seq![InstrV::PutStr { register: 0, value: lit@ }, InstrV::Call { predicate: f@ }]);
                        }
                        return Ok(v);
                    },
                    Term::Var(_) => {
                        let mut v: Vec<Instruction> = Vec::new();
                        v.push(Instruction::Move { src: 1, dst: 0 });
                        let v = with_call(v, f.clone());
                        proof {
                            assert(program_view(v@) =~= seq![InstrV::Move { src: 1, dst: 0 }, InstrV::Call { predicate: f@ }]);
                        }
                        return Ok(v);
                    },
                    _ => {},
                }
            }
            match put_args_exec(args) {
                None => Err(text("Unsupported argument type in goal")),
                Some(v) => Ok(with_call(v, f.clone())),
            }
        },
        Term::Atom(s) => {
            let v: Vec<Instruction> = Vec::new();
            let v = with_call(v, s.clone());
            proof {
                assert(program_view(v@) =~= seq![InstrV::Call { predicate: s@ }]);
            }
            Ok(v)
        },
        _ => Err(text("Unsupported goal type in rule")),
    }
}

pub(crate) fn append_block(out: &mut Vec<Instruction>, v: Vec<Instruction>)
    ensures
        program_view(final(out)@) == program_view(old(out)@) + program_view(v@),
{
    let mut w = v;
    let ghost vv = program_view(w@);
    let mut rev: Vec<Instruction> = Vec::new();
    while w.len() > 0
        invariant
            program_view(w@) + program_view(rev@).reverse() == vv,
        decreases w.len(),
    {
        let ghost pw = program_view(w@);
        let ghost pr = program_view(rev@);
        let x = w.pop().unwrap();
        rev.push(x);
        proof {
            assert(program_view(w@) =~= pw.drop_last());
            assert(program_view(rev@) =~= pr.push(x@));
            assert(program_view(rev@).reverse() =~= seq![x@] + pr.reverse());
            assert(pw =~= pw.drop_last().push(x@));
            assert(program_view(w@) + program_view(rev@).reverse() =~= pw + pr.reverse());
        }
    }
    let ghost start = program_view(out@);
    while rev.len() > 0
        invariant
            program_view(out@) + program_view(rev@).reverse() == start + vv,
        decreases rev.len(),
    {
        let ghost po = program_view(out@);
        let ghost pr = program_view(rev@);
        let x = rev.pop().unwrap();
        out.push(x);
        proof {
            assert(program_view(rev@) =~= pr.drop_last());
            assert(program_view(out@) =~= po.push(x@));
            assert(pr.reverse() =~= seq![x@] + pr.drop_last().reverse());
            assert(program_view(out@) + program_view(rev@).reverse() =~= po + pr.reverse());
        }
    }
    proof {
        assert(program_view(out@) + program_view(rev@).reverse() =~= program_view(out@));
    }
}

/// The instructions of the goals (see `compile_goals_spec`).
fn compile_goals(gs: &Vec<Term>) -> (r: Result<Vec<Instruction>, String>)
    ensures
        match r {
            Ok(v) => compile_goals_spec(Term::terms_view(gs@)) == Ok::<Seq<InstrV>, Seq<char>>(program_view(v@)),
            Err(e) => compile_goals_spec(Term::terms_view(gs@)) == Err::<Seq<InstrV>, Seq<char>>(e@),
        },
{
    let ghost q = Term::terms_view(gs@);
    let mut out: Vec<Instruction> = Vec::new();
    let mut i: usize = 0;
    proof {
        assert(q.take(0) =~= Seq::<PTermV>::empty());
        assert(program_view(out@) =~= Seq::<InstrV>::empty());
    }
    while i < gs.len()
        invariant
            i <= gs@.len(),
            q == Term::terms_view(gs@),
            compile_goals_spec(q.take(i as int)) == Ok::<Seq<InstrV>, Seq<char>>(program_view(out@)),
        decreases gs.len() - i,
    {
        let ghost next = q.take(i + 1);
        proof {
            assert(next.drop_last() =~= q.take(i as int));
            assert(next.last() == gs@[i as int]@);
        }
        match compile_goal(&gs[i]) {
            Err(e) => {
                proof {
                    lemma_goals_stop(q, i + 1);
                }
                return Err(e);
            },
            Ok(v) => {
                append_block(&mut out, v);
            },
        }
        i += 1;
    }
    proof {
        assert(q.take(gs@.len() as int) =~= q);
    }
    Ok(out)
}

proof fn lemma_goals_stop(q: Seq<PTermV>, k: int)
    requires
        0 <= k <= q.len(),
        compile_goals_spec(q.take(k)) is Err,
    ensures
        compile_goals_spec(q) == compile_goals_spec(q.take(k)),
    decreases q.len() - k,
{
    if k == q.len() {
        assert(q.take(k) =~= q);
    } else {
        assert(q.take(k + 1).drop_last() =~= q.take(k));
        lemma_goals_stop(q, k + 1);
    }
}

pub(crate) fn with_proceed(mut v: Vec<Instruction>) -> (r: Vec<Instruction>)
    ensures
        program_view(r@) == program_view(v@).push(InstrV::Proceed),
{
    let ghost before = program_view(v@);
    v.push(Instruction::Proceed);
    proof {
        assert(program_view(v@) =~= before.push(InstrV::Proceed));
    }
    v
}

/// The predicate name and code block of a clause (see `compile_clause_spec`).
fn compile_clause(c: &Clause) -> (r: Result<(String, Vec<Instruction>), String>)
    ensures
        match r {
            Ok((n, v)) => compile_clause_spec(c@) == Ok::<(Seq<char>, Seq<InstrV>), Seq<char>>((n@, program_view(v@))),
            Err(e) => compile_clause_spec(c@) == Err::<(Seq<char>, Seq<InstrV>), Seq<char>>(e@),
        },
{
    match c {
        Clause::Fact { head } => match head {
            Term::Compound(f, args) => match put_args_exec(args) {
                None => Err(text("Unsupported argument type in fact head")),
                Some(v) => Ok((f.clone(), with_proceed(v))),
            },
            Term::Atom(s) => {
                let v = with_proceed(Vec::new());
                proof {
                    assert(program_view(v@) =~= seq![InstrV::Proceed]);
                }
                Ok((s.clone(), v))
            },
            _ => Err(text("Unsupported fact head type")),
        },
        Clause::Rule { head, body } => {
            let name = match head {
                Term::Atom(s) => s.clone(),
                Term::Compound(f, _) => f.clone(),
                _ => return Err(text("Unsupported rule head type")),
            };
            match compile_goals(body) {
                Err(e) => Err(e),
                Ok(v) => Ok((name, with_proceed(v))),
            }
        },
    }
}

pub(crate) fn parse_error_message(e: &ParseError) -> (r: String)
    ensures
        r@ == "Parse error: "@ + parse_error_text(e@),
{
    let mut out: Vec<char> = Vec::new();
    push_str(&mut out, "Parse error: ");
    match e {
        ParseError::UnexpectedToken(m) => {
            push_str(&mut out, "UnexpectedToken(");
            push_quoted(&mut out, m);
            push_str(&mut out, ")");
            proof {
                assert(out@ =~= "Parse error: "@ + parse_error_text(e@));
            }
        },
        ParseError::IncompleteInput => {
            push_str(&mut out, "IncompleteInput");
        },
    }
    chars_to_string(&out)
}

/// Compiles a Prolog text into a program and its predicate table (see
/// `compile_prolog_spec`).
pub fn compile_prolog(program: &str) -> (r: Result<(Vec<Instruction>, PredicateTable), String>)
    ensures
        match r {
            Ok((code, table)) => compile_prolog_spec(program@) == Ok::<(Seq<InstrV>, Map<Seq<char>, Seq<usize>>), Seq<char>>((program_view(code@), table@)),
            Err(e) => compile_prolog_spec(program@) == Err::<(Seq<InstrV>, Map<Seq<char>, Seq<usize>>), Seq<char>>(e@),
        },
{
    let clauses = match parse_program(program) {
        Err(e) => return Err(parse_error_message(&e)),
        Ok(c) => c,
    };
    let ghost q = clauses_view(clauses@);
    let mut code: Vec<Instruction> = Vec::new();
    let mut table = PredicateTable::new();
    let mut i: usize = 0;
    proof {
        assert(q.take(0) =~= Seq::<ClauseV>::empty());
        assert(program_view(code@) =~= Seq::<InstrV>::empty());
    }
    while i < clauses.len()
        invariant
            i <= clauses@.len(),
            q == clauses_view(clauses@),
            parse_program_spec(program@) == Ok::<Seq<ClauseV>, crate::prolog::parser::ParseErrorV>(q),
            compile_clauses_spec(q.take(i as int)) == Ok::<(Seq<InstrV>, Map<Seq<char>, Seq<usize>>), Seq<char>>((program_view(code@), table@)),
        decreases clauses.len() - i,
    {
        let ghost next = q.take(i + 1);
        proof {
            assert(next.drop_last() =~= q.take(i as int));
            assert(next.last() == clauses@[i as int]@);
        }
        let addr = code.len();
        match compile_clause(&clauses[i]) {
            Err(e) => {
                proof {
                    lemma_clauses_stop(q, i + 1);
                }
                return Err(e);
            },
            Ok((name, block)) => {
                append_block(&mut code, block);
                table.push(name, addr);
            },
        }
        i += 1;
    }
    proof {
        assert(q.take(clauses@.len() as int) =~= q);
    }
    Ok((code, table))
}

proof fn lemma_clauses_stop(q: Seq<ClauseV>, k: int)
    requires
        0 <= k <= q.len(),
        compile_clauses_spec(q.take(k)) is Err,
    ensures
        compile_clauses_spec(q) == compile_clauses_spec(q.take(k)),
    decreases q.len() - k,
{
    if k == q.len() {
        assert(q.take(k) =~= q);
    } else {
        assert(q.take(k + 1).drop_last() =~= q.take(k));
        lemma_clauses_stop(q, k + 1);
    }
}

/// The predicate name and code block of each clause, where it compiles.
pub open spec fn compile_placed(cs: Seq<ClauseV>) -> Seq<Placed> {
    Seq::new(cs.len(), |k: int| match compile_clause_spec(cs[k]) {
        Ok(p) => p,
        Err(_) => (Seq::empty(), Seq::empty()),
    })
}

proof fn lemma_compile_layout(cs: Seq<ClauseV>)
    requires
        compile_clauses_spec(cs) is Ok,
    ensures
        forall|k: int| 0 <= k < cs.len() ==> compile_clause_spec(#[trigger] cs[k]) == Ok::<Placed, Seq<char>>(compile_placed(cs)[k]),
        compile_clauses_spec(cs) == Ok::<(Seq<InstrV>, Map<Seq<char>, Seq<usize>>), Seq<char>>(layout(compile_placed(cs))),
        blocks_nonempty(compile_placed(cs)),
    decreases cs.len(),
{
    if cs.len() > 0 {
        let pre = cs.drop_last();
        lemma_compile_layout(pre);
        assert(compile_placed(pre) =~= compile_placed(cs).drop_last());
        assert forall|k: int| 0 <= k < cs.len() implies compile_clause_spec(#[trigger] cs[k]) == Ok::<Placed, Seq<char>>(compile_placed(cs)[k]) by {
            if k < cs.len() - 1 {
                assert(pre[k] == cs[k]);
            }
        }
        assert forall|k: int| 0 <= k < cs.len() implies (#[trigger] compile_placed(cs)[k]).1.len() > 0 by {
            if k < cs.len() - 1 {
                assert(pre[k] == cs[k]);
                assert(compile_placed(pre)[k] == compile_placed(cs)[k]);
            }
        }
    }
}

/// Compiling a program gives a predicate table that lists every clause
/// in program order, and code that is the clauses' blocks one after another
/// (see `lists_blocks`), each block being what its clause compiles to.
pub proof fn law_compile_table(program: Seq<char>)
    ensures
        compile_prolog_spec(program) matches Ok((code, table)) ==> (code.len() <= usize::MAX ==> (
            parse_program_spec(program) matches Ok(cs) && {
                &&& lists_blocks(compile_placed(cs), code, table)
                &&& forall|k: int| 0 <= k < cs.len() ==> compile_clause_spec(#[trigger] cs[k]) == Ok::<Placed, Seq<char>>(compile_placed(cs)[k])
            })),
{
    if let Ok(cs) = parse_program_spec(program) {
        if compile_clauses_spec(cs) is Ok {
            lemma_compile_layout(cs);
            let ps = compile_placed(cs);
            lemma_layout_len(ps);
            if layout(ps).0.len() <= usize::MAX {
                lemma_layout(ps);
            }
        }
    }
}

} // verus!
