//! Compilation of parsed Prolog clauses to machine code: each variable of a
//! clause gets a register, head arguments are matched against registers,
//! and body goals put their arguments in an argument area before the call.

use vstd::prelude::*;
use crate::languages::prolog::ast::{PrologTerm, PrologGoal, PrologClause, PrologTermV, GoalV, PrologClauseV, prolog_terms_view, goals_view};
use crate::languages::prolog::session::table_push;
use crate::machine::{Instruction, InstrV, program_view};
use crate::prolog::compiler::{append_block, string_is, text};
use crate::tables::PredicateTable;
use crate::term::strings_equal;

verus! {

broadcast use vstd::std_specs::vec::group_vec_axioms;

/// The variable names of `ts` added to `names`, each name once, in order of
/// first appearance.
pub open spec fn scan_terms(names: Seq<Seq<char>>, ts: Seq<PrologTermV>) -> Seq<Seq<char>>
    decreases ts.len(),
{
    if ts.len() == 0 {
        names
    } else {
        let before = scan_terms(names, ts.drop_last());
        match ts.last() {
            PrologTermV::Var(n) => if before.contains(n) { before } else { before.push(n) },
            _ => before,
        }
    }
}

/// The variable names of the arguments of goals added to `names`.
pub open spec fn scan_goals(names: Seq<Seq<char>>, gs: Seq<GoalV>) -> Seq<Seq<char>>
    decreases gs.len(),
{
    if gs.len() == 0 {
        names
    } else {
        scan_terms(scan_goals(names, gs.drop_last()), gs.last().args)
    }
}

/// The variables of a clause, head first, in order of first appearance.
pub open spec fn clause_vars(c: PrologClauseV) -> Seq<Seq<char>> {
    let h = scan_terms(Seq::empty(), c.head.args);
    match c.body {
        Some(b) => scan_goals(h, b),
        None => h,
    }
}

/// Names with their positions: the register of each variable.
pub open spec fn numbered(names: Seq<Seq<char>>) -> Seq<(Seq<char>, usize)> {
    Seq::new(names.len(), |i: int| (names[i], i as usize))
}

/// The value of a register assignment.
pub open spec fn map_view(m: Seq<(String, usize)>) -> Seq<(Seq<char>, usize)> {
    Seq::new(m.len(), |i: int| (m[i].0@, m[i].1))
}

/// The register of the first entry for a name.
pub open spec fn reg_of(m: Seq<(Seq<char>, usize)>, name: Seq<char>) -> Option<usize>
    decreases m.len(),
{
    if m.len() == 0 {
        None
    } else if m[0].0 == name {
        Some(m[0].1)
    } else {
        reg_of(m.drop_first(), name)
    }
}

/// A term whose variable, if it is one, has a register.
pub open spec fn allocated(m: Seq<(Seq<char>, usize)>, t: PrologTermV) -> bool {
    match t {
        PrologTermV::Var(n) => reg_of(m, n) is Some,
        _ => true,
    }
}

pub open spec fn all_allocated(m: Seq<(Seq<char>, usize)>, ts: Seq<PrologTermV>) -> bool {
    forall|i: int| 0 <= i < ts.len() ==> allocated(m, #[trigger] ts[i])
}

proof fn lemma_scan_terms(names: Seq<Seq<char>>, ts: Seq<PrologTermV>)
    ensures
        forall|x: Seq<char>| names.contains(x) ==> scan_terms(names, ts).contains(x),
        forall|i: int| 0 <= i < ts.len() ==> (#[trigger] ts[i] matches PrologTermV::Var(n) ==> scan_terms(names, ts).contains(n)),
        names.is_prefix_of(scan_terms(names, ts)),
    decreases ts.len(),
{
    if ts.len() > 0 {
        lemma_scan_terms(names, ts.drop_last());
        let before = scan_terms(names, ts.drop_last());
        assert forall|i: int| 0 <= i < ts.len() implies (#[trigger] ts[i] matches PrologTermV::Var(n) ==> scan_terms(names, ts).contains(n)) by {
            if i < ts.len() - 1 {
                assert(ts.drop_last()[i] == ts[i]);
                if let PrologTermV::Var(n) = ts[i] {
                    let j = choose|j: int| 0 <= j < before.len() && before[j] == n;
                    if let PrologTermV::Var(m) = ts.last() {
                        if !before.contains(m) {
                            assert(before.push(m)[j] == n);
                        }
                    }
                }
            } else {
                if let PrologTermV::Var(n) = ts[i] {
                    if !before.contains(n) {
                        assert(before.push(n)[before.len() as int] == n);
                    }
                }
            }
        }
        assert forall|x: Seq<char>| names.contains(x) implies scan_terms(names, ts).contains(x) by {
            let j = choose|j: int| 0 <= j < before.len() && before[j] == x;
            if let PrologTermV::Var(m) = ts.last() {
                if !before.contains(m) {
                    assert(before.push(m)[j] == x);
                }
            }
        }
        if let PrologTermV::Var(m) = ts.last() {
            if !before.contains(m) {
                assert(before.is_prefix_of(before.push(m)));
            }
        }
    }
}

proof fn lemma_scan_goals(names: Seq<Seq<char>>, gs: Seq<GoalV>)
    ensures
        forall|x: Seq<char>| names.contains(x) ==> scan_goals(names, gs).contains(x),
        forall|k: int, i: int| 0 <= k < gs.len() && 0 <= i < gs[k].args.len() ==>
            (#[trigger] gs[k].args[i] matches PrologTermV::Var(n) ==> scan_goals(names, gs).contains(n)),
    decreases gs.len(),
{
    if gs.len() > 0 {
        lemma_scan_goals(names, gs.drop_last());
        let before = scan_goals(names, gs.drop_last());
        lemma_scan_terms(before, gs.last().args);
        assert forall|k: int, i: int| 0 <= k < gs.len() && 0 <= i < gs[k].args.len() implies
            (#[trigger] gs[k].args[i] matches PrologTermV::Var(n) ==> scan_goals(names, gs).contains(n)) by {
            if k < gs.len() - 1 {
                assert(gs.drop_last()[k] == gs[k]);
            }
        }
    }
}

proof fn lemma_reg_of_some(m: Seq<(Seq<char>, usize)>, j: int, name: Seq<char>)
    requires
        0 <= j < m.len(),
        m[j].0 == name,
    ensures
        reg_of(m, name) is Some,
    decreases m.len(),
{
    if m[0].0 != name {
        assert(m.drop_first()[j - 1] == m[j]);
        lemma_reg_of_some(m.drop_first(), j - 1, name);
    }
}

proof fn lemma_numbered_allocated(names: Seq<Seq<char>>, ts: Seq<PrologTermV>)
    requires
        forall|i: int| 0 <= i < ts.len() ==> (#[trigger] ts[i] matches PrologTermV::Var(n) ==> names.contains(n)),
    ensures
        all_allocated(numbered(names), ts),
{
    assert forall|i: int| 0 <= i < ts.len() implies allocated(numbered(names), #[trigger] ts[i]) by {
        if let PrologTermV::Var(n) = ts[i] {
            let j = choose|j: int| 0 <= j < names.len() && names[j] == n;
            lemma_reg_of_some(numbered(names), j, n);
        }
    }
}

fn contains_name(m: &Vec<(String, usize)>, name: &String) -> (r: bool)
    ensures
        r == (exists|j: int| 0 <= j < m@.len() && m@[j].0@ == name@),
{
    let mut i: usize = 0;
    while i < m.len()
        invariant
            i <= m@.len(),
            forall|j: int| 0 <= j < i ==> m@[j].0@ != name@,
        decreases m.len() - i,
    {
        if strings_equal(&m[i].0, name) {
            return true;
        }
        i += 1;
    }
    false
}

fn scan_terms_exec(mapping: &mut Vec<(String, usize)>, ts: &Vec<PrologTerm>, Ghost(names): Ghost<Seq<Seq<char>>>)
    requires
        map_view(old(mapping)@) == numbered(names),
    ensures
        map_view(final(mapping)@) == numbered(scan_terms(names, prolog_terms_view(ts@))),
{
    let ghost tv = prolog_terms_view(ts@);
    let mut i: usize = 0;
    proof {
        assert(tv.subrange(0, 0) =~= Seq::<PrologTermV>::empty());
    }
    while i < ts.len()
        invariant
            i <= ts@.len(),
            tv == prolog_terms_view(ts@),
            map_view(mapping@) == numbered(scan_terms(names, tv.subrange(0, i as int))),
        decreases ts.len() - i,
    {
        let ghost cur = scan_terms(names, tv.subrange(0, i as int));
        proof {
            assert(tv.subrange(0, i + 1).drop_last() =~= tv.subrange(0, i as int));
            assert(tv.subrange(0, i + 1).last() == ts@[i as int]@);
        }
        if let PrologTerm::Var(name) = &ts[i] {
            let present = contains_name(mapping, name);
            proof {
                assert(map_view(mapping@).len() == mapping@.len());
                assert(numbered(cur).len() == cur.len());
                if present {
                    let j = choose|j: int| 0 <= j < mapping@.len() && mapping@[j].0@ == name@;
                    assert(map_view(mapping@)[j].0 == mapping@[j].0@);
                    assert(numbered(cur)[j].0 == cur[j]);
                    assert(cur.contains(name@));
                } else {
                    assert forall|j: int| 0 <= j < cur.len() implies cur[j] != name@ by {
                        assert(map_view(mapping@)[j].0 == mapping@[j].0@);
                        assert(numbered(cur)[j].0 == cur[j]);
                    }
                }
            }
            if !present {
                let k = mapping.len();
                let ghost before = map_view(mapping@);
                mapping.push((name.clone(), k));
                proof {
                    assert(map_view(mapping@) =~= before.push((name@, k)));
                    assert(numbered(cur.push(name@)) =~= numbered(cur).push((name@, cur.len() as usize)));
                }
            }
        }
        i += 1;
    }
    proof {
        assert(tv.subrange(0, ts@.len() as int) =~= tv);
    }
}

/// Gives each variable of a clause a register, in order of first appearance
/// in the head and then in the goals of the body (see `clause_vars`).
pub fn allocate_clause_vars(clause: &PrologClause) -> (r: Vec<(String, usize)>)
    ensures
        map_view(r@) == numbered(clause_vars(clause@)),
{
    let mut mapping: Vec<(String, usize)> = Vec::new();
    proof {
        assert(map_view(mapping@) =~= numbered(Seq::empty()));
    }
    scan_terms_exec(&mut mapping, &clause.head.args, Ghost(Seq::empty()));
    let ghost h = scan_terms(Seq::empty(), clause@.head.args);
    if let Some(goals) = &clause.body {
        let ghost gv = goals_view(goals@);
        let mut k: usize = 0;
        while k < goals.len()
            invariant
                k <= goals@.len(),
                gv == goals_view(goals@),
                map_view(mapping@) == numbered(scan_goals(h, gv.subrange(0, k as int))),
            decreases goals.len() - k,
        {
            proof {
                assert(gv.subrange(0, k + 1).drop_last() =~= gv.subrange(0, k as int));
            }
            scan_terms_exec(&mut mapping, &goals[k].args, Ghost(scan_goals(h, gv.subrange(0, k as int))));
            k += 1;
        }
        proof {
            assert(gv.subrange(0, goals@.len() as int) =~= gv);
        }
    }
    mapping
}

fn reg_lookup(m: &Vec<(String, usize)>, name: &String) -> (r: Option<usize>)
    ensures
        r == reg_of(map_view(m@), name@),
{
    let ghost mv = map_view(m@);
    let mut i: usize = 0;
    proof {
        assert(mv.skip(0) =~= mv);
    }
    while i < m.len()
        invariant
            i <= m@.len(),
            mv == map_view(m@),
            reg_of(mv.skip(i as int), name@) == reg_of(mv, name@),
        decreases m.len() - i,
    {
        proof {
            assert(mv.skip(i as int)[0] == mv[i as int]);
            assert(mv.skip(i as int).drop_first() =~= mv.skip(i + 1));
        }
        if strings_equal(&m[i].0, name) {
            return Some(m[i].1);
        }
        i += 1;
    }
    None
}

/// The code that puts a term in register `target`: constants, strings and
/// atoms are put there; a variable is taken from its register by a `Move`,
/// or read with `GetVar` where that register is the target.
pub open spec fn term_to_reg(t: PrologTermV, m: Seq<(Seq<char>, usize)>, target: usize) -> Seq<InstrV> {
    match t {
        PrologTermV::Const(n) => seq![InstrV::PutConst { register: target, value: n }],
        PrologTermV::Str(s) => seq![InstrV::PutStr { register: target, value: s }],
        PrologTermV::Atom(a) => seq![InstrV::PutStr { register: target, value: a }],
        PrologTermV::Var(name) => match reg_of(m, name) {
            Some(r) => if r == target {
                seq![InstrV::GetVar { register: target, var_id: target, name }]
            } else {
                seq![InstrV::Move { src: r, dst: target }]
            },
            None => Seq::empty(),
        },
    }
}

/// The code matching one head argument: constants, strings and atoms
/// against register 0, a variable against its own register.
pub open spec fn head_arg(t: PrologTermV, m: Seq<(Seq<char>, usize)>) -> Seq<InstrV> {
    match t {
        PrologTermV::Const(n) => seq![InstrV::GetConst { register: 0, value: n }],
        PrologTermV::Str(s) => seq![InstrV::GetStr { register: 0, value: s }],
        PrologTermV::Atom(a) => seq![InstrV::GetStr { register: 0, value: a }],
        PrologTermV::Var(name) => match reg_of(m, name) {
            Some(r) => seq![InstrV::GetVar { register: r, var_id: r, name }],
            None => Seq::empty(),
        },
    }
}

/// The code of the first `k` head arguments.
pub open spec fn head_code(args: Seq<PrologTermV>, m: Seq<(Seq<char>, usize)>, k: int) -> Seq<InstrV>
    decreases k,
{
    if k <= 0 { Seq::empty() } else { head_code(args, m, k - 1) + head_arg(args[k - 1], m) }
}

/// The code putting the first `k` arguments in the registers from `base` on.
pub open spec fn args_to_regs(args: Seq<PrologTermV>, m: Seq<(Seq<char>, usize)>, base: usize, k: int) -> Seq<InstrV>
    decreases k,
{
    if k <= 0 { Seq::empty() } else { args_to_regs(args, m, base, k - 1) + term_to_reg(args[k - 1], m, (base + k - 1) as usize) }
}

/// The moves after a call: each of the first `k` arguments that is a variable
/// is copied from the argument area back to its register, where they differ.
pub open spec fn moves_back(args: Seq<PrologTermV>, m: Seq<(Seq<char>, usize)>, base: usize, k: int) -> Seq<InstrV>
    decreases k,
{
    if k <= 0 {
        Seq::empty()
    } else {
        let slot = (base + k - 1) as usize;
        moves_back(args, m, base, k - 1) + match args[k - 1] {
            PrologTermV::Var(name) => match reg_of(m, name) {
                Some(r) => if r != slot { seq![InstrV::Move { src: slot, dst: r }] } else { Seq::empty() },
                None => Seq::empty(),
            },
            _ => Seq::empty(),
        }
    }
}

/// The code of a body goal with its argument area at `base`: `nl`, `halt`
/// and `fail` are called as they are; `write` puts its one argument in the
/// variable's own register (or in `base`) and calls `write`; any other goal
/// puts its arguments in the argument area, calls the predicate, and copies
/// variables back.
pub open spec fn goal_code(g: GoalV, m: Seq<(Seq<char>, usize)>, base: usize) -> Seq<InstrV> {
    if g.predicate == "nl"@ || g.predicate == "halt"@ || g.predicate == "fail"@ {
        seq![InstrV::Call { predicate: g.predicate }]
    } else if g.predicate == "write"@ {
        let target = match g.args[0] {
            PrologTermV::Var(name) => match reg_of(m, name) { Some(r) => r, None => base },
            _ => base,
        };
        term_to_reg(g.args[0], m, target) + seq![InstrV::Call { predicate: "write"@ }]
    } else {
        args_to_regs(g.args, m, base, g.args.len() as int)
            + seq![InstrV::Call { predicate: g.predicate }]
            + moves_back(g.args, m, base, g.args.len() as int)
    }
}

/// A goal that compiles: `write` has exactly one argument, every variable
/// has a register, and the argument area fits the registers.
pub open spec fn goal_ok(g: GoalV, m: Seq<(Seq<char>, usize)>, base: usize) -> bool {
    &&& g.predicate == "write"@ ==> g.args.len() == 1
    &&& all_allocated(m, g.args)
    &&& base + g.args.len() <= usize::MAX
}

/// The code of the first `k` body goals.
pub open spec fn body_code(gs: Seq<GoalV>, m: Seq<(Seq<char>, usize)>, base: usize, k: int) -> Seq<InstrV>
    decreases k,
{
    if k <= 0 { Seq::empty() } else { body_code(gs, m, base, k - 1) + goal_code(gs[k - 1], m, base) }
}

/// The argument area of a clause: register 10 where the clause has
/// variables, else register 0.
pub open spec fn env_size(c: PrologClauseV) -> usize {
    if clause_vars(c).len() == 0 { 0 } else { 10 }
}

/// The code of a clause: its head, its body goals, and `Proceed`.
pub open spec fn clause_code(c: PrologClauseV) -> Seq<InstrV> {
    let m = numbered(clause_vars(c));
    let body = match c.body {
        Some(gs) => body_code(gs, m, env_size(c), gs.len() as int),
        None => Seq::empty(),
    };
    head_code(c.head.args, m, c.head.args.len() as int) + body + seq![InstrV::Proceed]
}

/// A clause that compiles: every `write` goal of its body has exactly one
/// argument, and no goal has more arguments than the registers can take.
pub open spec fn clause_ok(c: PrologClauseV) -> bool {
    match c.body {
        Some(gs) => forall|k: int| 0 <= k < gs.len() ==> {
            &&& (#[trigger] gs[k]).predicate == "write"@ ==> gs[k].args.len() == 1
            &&& gs[k].args.len() <= usize::MAX - 10
        },
        None => true,
    }
}

/// Compiles a term into register `target` (see `term_to_reg`); a variable
/// must have a register.
pub fn compile_term_to_reg(term: &PrologTerm, mapping: &Vec<(String, usize)>, target: usize) -> (r: Vec<Instruction>)
    requires
        allocated(map_view(mapping@), term@),
    ensures
        program_view(r@) == term_to_reg(term@, map_view(mapping@), target),
{
    let r = match term {
        PrologTerm::Const(n) => vec![Instruction::PutConst { register: target, value: *n }],
        PrologTerm::Str(s) => vec![Instruction::PutStr { register: target, value: s.clone() }],
        PrologTerm::Atom(a) => vec![Instruction::PutStr { register: target, value: a.clone() }],
        PrologTerm::Var(name) => {
            let allocated = reg_lookup(mapping, name).unwrap();
            if allocated == target {
                vec![Instruction::GetVar { register: target, var_id: target, name: name.clone() }]
            } else {
                vec![Instruction::Move { src: allocated, dst: target }]
            }
        },
    };
    proof {
        assert(program_view(r@) =~= term_to_reg(term@, map_view(mapping@), target));
    }
    r
}

/// Compiles the head of a clause (see `head_code`); every variable must have
/// a register.
pub fn compile_head(goal: &PrologGoal, mapping: &Vec<(String, usize)>) -> (r: Vec<Instruction>)
    requires
        all_allocated(map_view(mapping@), goal@.args),
    ensures
        program_view(r@) == head_code(goal@.args, map_view(mapping@), goal@.args.len() as int),
{
    let ghost m = map_view(mapping@);
    let ghost args = goal@.args;
    let mut instructions: Vec<Instruction> = Vec::new();
    let mut i: usize = 0;
    while i < goal.args.len()
        invariant
            i <= goal.args@.len(),
            m == map_view(mapping@),
            args == goal@.args,
            all_allocated(m, args),
            program_view(instructions@) == head_code(args, m, i as int),
        decreases goal.args.len() - i,
    {
        let ghost before = program_view(instructions@);
        let ghost a = args[i as int];
        assert(allocated(m, a));
        let x = match &goal.args[i] {
            PrologTerm::Const(n) => Instruction::GetConst { register: 0, value: *n },
            PrologTerm::Str(s) => Instruction::GetStr { register: 0, value: s.clone() },
            PrologTerm::Atom(a) => Instruction::GetStr { register: 0, value: a.clone() },
            PrologTerm::Var(name) => {
                let reg = reg_lookup(mapping, name).unwrap();
                Instruction::GetVar { register: reg, var_id: reg, name: name.clone() }
            },
        };
        instructions.push(x);
        i += 1;
        proof {
            assert(head_arg(a, m) =~= seq![x@]);
            assert(program_view(instructions@) =~= before.push(x@));
        }
    }
    instructions
}

fn put_args(goal: &PrologGoal, mapping: &Vec<(String, usize)>, base: usize, out: &mut Vec<Instruction>)
    requires
        all_allocated(map_view(mapping@), goal@.args),
        base + goal@.args.len() <= usize::MAX,
    ensures
        program_view(final(out)@) == program_view(old(out)@) + args_to_regs(goal@.args, map_view(mapping@), base, goal@.args.len() as int),
{
    let ghost m = map_view(mapping@);
    let ghost args = goal@.args;
    let ghost start = program_view(out@);
    let mut i: usize = 0;
    while i < goal.args.len()
        invariant
            i <= goal.args@.len(),
            m == map_view(mapping@),
            args == goal@.args,
            all_allocated(m, args),
            base + args.len() <= usize::MAX,
            program_view(out@) == start + args_to_regs(args, m, base, i as int),
        decreases goal.args.len() - i,
    {
        assert(allocated(m, args[i as int]));
        let code = compile_term_to_reg(&goal.args[i], mapping, base + i);
        append_block(out, code);
        i += 1;
        proof {
            assert(program_view(out@) =~= start + args_to_regs(args, m, base, i as int));
        }
    }
}

fn move_back(goal: &PrologGoal, mapping: &Vec<(String, usize)>, base: usize, out: &mut Vec<Instruction>)
    requires
        all_allocated(map_view(mapping@), goal@.args),
        base + goal@.args.len() <= usize::MAX,
    ensures
        program_view(final(out)@) == program_view(old(out)@) + moves_back(goal@.args, map_view(mapping@), base, goal@.args.len() as int),
{
    let ghost m = map_view(mapping@);
    let ghost args = goal@.args;
    let ghost start = program_view(out@);
    let mut i: usize = 0;
    while i < goal.args.len()
        invariant
            i <= goal.args@.len(),
            m == map_view(mapping@),
            args == goal@.args,
            all_allocated(m, args),
            base + args.len() <= usize::MAX,
            program_view(out@) == start + moves_back(args, m, base, i as int),
        decreases goal.args.len() - i,
    {
        assert(allocated(m, args[i as int]));
        assert(args[i as int] == goal.args@[i as int]@);
        let ghost before = program_view(out@);
        let ghost slot = (base + i) as usize;
        let ghost extra: Seq<InstrV> = match args[i as int] {
            PrologTermV::Var(name) => match reg_of(m, name) {
                Some(r) => if r != slot { seq![InstrV::Move { src: slot, dst: r }] } else { Seq::empty() },
                None => Seq::empty(),
            },
            _ => Seq::empty(),
        };
        if let PrologTerm::Var(name) = &goal.args[i] {
            let env_reg = reg_lookup(mapping, name).unwrap();
            if env_reg != base + i {
                out.push(Instruction::Move { src: base + i, dst: env_reg });
            }
        }
        proof {
            assert(program_view(out@) =~= before + extra);
            assert(moves_back(args, m, base, i + 1) == moves_back(args, m, base, i as int) + extra);
        }
        i += 1;
        proof {
            assert(program_view(out@) =~= start + moves_back(args, m, base, i as int));
        }
    }
}

/// Compiles a body goal with its argument area at `base` (see `goal_code`).
pub fn compile_goal(goal: &PrologGoal, mapping: &Vec<(String, usize)>, base: usize) -> (r: Vec<Instruction>)
    requires
        goal_ok(goal@, map_view(mapping@), base),
    ensures
        program_view(r@) == goal_code(goal@, map_view(mapping@), base),
{
    proof {
        reveal_strlit("nl");
        reveal_strlit("halt");
        reveal_strlit("fail");
        reveal_strlit("write");
    }
    let ghost m = map_view(mapping@);
    let mut instructions: Vec<Instruction> = Vec::new();
    if string_is(&goal.predicate, "nl") || string_is(&goal.predicate, "halt") || string_is(&goal.predicate, "fail") {
        instructions.push(Instruction::Call { predicate: goal.predicate.clone() });
        proof {
            assert(program_view(instructions@) =~= goal_code(goal@, m, base));
        }
    } else if string_is(&goal.predicate, "write") {
        assert(allocated(m, goal@.args[0]));
        let code = match &goal.args[0] {
            PrologTerm::Var(name) => {
                let env_reg = reg_lookup(mapping, name).unwrap();
                compile_term_to_reg(&goal.args[0], mapping, env_reg)
            },
            _ => compile_term_to_reg(&goal.args[0], mapping, base),
        };
        append_block(&mut instructions, code);
        instructions.push(Instruction::Call { predicate: text("write") });
        proof {
            assert(program_view(instructions@) =~= goal_code(goal@, m, base));
        }
    } else {
        put_args(goal, mapping, base, &mut instructions);
        let ghost mid = program_view(instructions@);
        instructions.push(Instruction::Call { predicate: goal.predicate.clone() });
        proof {
            assert(program_view(instructions@) =~= mid.push(InstrV::Call { predicate: goal@.predicate }));
        }
        move_back(goal, mapping, base, &mut instructions);
        proof {
            assert(program_view(instructions@) =~= goal_code(goal@, m, base));
        }
    }
    instructions
}

/// Compiles a clause (see `clause_code`): its variables get registers, the
/// head is matched, each body goal is compiled with the argument area at
/// `env_size`, and `Proceed` ends the code.
pub fn compile_clause(clause: &PrologClause, _dummy: usize) -> (r: Vec<Instruction>)
    requires
        clause_ok(clause@),
    ensures
        program_view(r@) == clause_code(clause@),
{
    let mapping = allocate_clause_vars(clause);
    let ghost m = map_view(mapping@);
    let ghost vars = clause_vars(clause@);
    let ghost h = scan_terms(Seq::empty(), clause@.head.args);
    proof {
        lemma_scan_terms(Seq::empty(), clause@.head.args);
        if let Some(gs) = clause@.body {
            lemma_scan_goals(h, gs);
        }
        assert forall|i: int| 0 <= i < clause@.head.args.len() implies
            (#[trigger] clause@.head.args[i] matches PrologTermV::Var(n) ==> vars.contains(n)) by {
            if let PrologTermV::Var(n) = clause@.head.args[i] {
                assert(h.contains(n));
            }
        }
        lemma_numbered_allocated(vars, clause@.head.args);
        assert(m.len() == mapping@.len());
    }
    let area: usize = if mapping.len() == 0 { 0 } else { 10 };
    let mut instructions = compile_head(&clause.head, &mapping);
    let ghost head = program_view(instructions@);
    if let Some(body) = &clause.body {
        let ghost gs = goals_view(body@);
        let mut k: usize = 0;
        while k < body.len()
            invariant
                k <= body@.len(),
                gs == goals_view(body@),
                clause@.body == Some(gs),
                m == map_view(mapping@),
                m == numbered(vars),
                vars == clause_vars(clause@),
                vars == scan_goals(h, gs),
                area == env_size(clause@),
                clause_ok(clause@),
                forall|j: int, i: int| 0 <= j < gs.len() && 0 <= i < gs[j].args.len() ==>
                    (#[trigger] gs[j].args[i] matches PrologTermV::Var(n) ==> vars.contains(n)),
                program_view(instructions@) == head + body_code(gs, m, area, k as int),
            decreases body.len() - k,
        {
            proof {
                assert(gs[k as int] == body@[k as int]@);
                let g = gs[k as int];
                assert forall|i: int| 0 <= i < g.args.len() implies
                    (#[trigger] g.args[i] matches PrologTermV::Var(n) ==> vars.contains(n)) by {
                    assert(gs[k as int].args[i] == g.args[i]);
                }
                lemma_numbered_allocated(vars, g.args);
                assert(g.predicate == "write"@ ==> g.args.len() == 1);
                assert(g.args.len() <= usize::MAX - 10);
            }
            let code = compile_goal(&body[k], &mapping, area);
            append_block(&mut instructions, code);
            k += 1;
        }
    }
    let ghost before = program_view(instructions@);
    instructions.push(Instruction::Proceed);
    proof {
        assert(program_view(instructions@) =~= before.push(InstrV::Proceed));
        assert(program_view(instructions@) =~= clause_code(clause@));
    }
    instructions
}

/// The values of clauses.
pub open spec fn clauses_seq(cs: Seq<PrologClause>) -> Seq<PrologClauseV> {
    Seq::new(cs.len(), |i: int| cs[i]@)
}

/// The code of a program: the clauses of predicates, laid out one after the
/// other with their addresses in the table, and apart from them the code of
/// the clauses whose head is `directive`.
pub open spec fn program_code(cs: Seq<PrologClauseV>) -> (Seq<InstrV>, Map<Seq<char>, Seq<usize>>, Seq<InstrV>)
    decreases cs.len(),
{
    if cs.len() == 0 {
        (Seq::empty(), Map::empty(), Seq::empty())
    } else {
        let (p, t, d) = program_code(cs.drop_last());
        let c = cs.last();
        if c.head.predicate == "directive"@ {
            (p, t, d + clause_code(c))
        } else {
            (p + clause_code(c), table_push(t, c.head.predicate, p.len() as usize), d)
        }
    }
}

/// Compiles a program (see `program_code`): the predicate code, its table,
/// and the directive code.
pub fn compile_program(clauses: Vec<PrologClause>) -> (r: (Vec<Instruction>, PredicateTable, Vec<Instruction>))
    requires
        forall|k: int| 0 <= k < clauses@.len() ==> clause_ok(#[trigger] clauses@[k]@),
    ensures
        program_code(clauses_seq(clauses@)) == (program_view(r.0@), r.1@, program_view(r.2@)),
{
    proof {
        reveal_strlit("directive");
    }
    let ghost cs = clauses_seq(clauses@);
    let mut pred_code: Vec<Instruction> = Vec::new();
    let mut pred_table = PredicateTable::new();
    let mut directive_code: Vec<Instruction> = Vec::new();
    let mut k: usize = 0;
    proof {
        assert(program_view(pred_code@) =~= Seq::<InstrV>::empty());
        assert(program_view(directive_code@) =~= Seq::<InstrV>::empty());
        assert(cs.subrange(0, 0) =~= Seq::<PrologClauseV>::empty());
    }
    while k < clauses.len()
        invariant
            k <= clauses@.len(),
            cs == clauses_seq(clauses@),
            forall|j: int| 0 <= j < clauses@.len() ==> clause_ok(#[trigger] clauses@[j]@),
            program_code(cs.subrange(0, k as int)) == (program_view(pred_code@), pred_table@, program_view(directive_code@)),
        decreases clauses.len() - k,
    {
        let clause = &clauses[k];
        proof {
            assert(cs.subrange(0, k + 1).drop_last() =~= cs.subrange(0, k as int));
            assert(cs.subrange(0, k + 1).last() == clause@);
            assert(clause_ok(clauses@[k as int]@));
        }
        let insts = compile_clause(clause, 0);
        if string_is(&clause.head.predicate, "directive") {
            append_block(&mut directive_code, insts);
        } else {
            let addr = pred_code.len();
            pred_table.push(clause.head.predicate.clone(), addr);
            append_block(&mut pred_code, insts);
        }
        k += 1;
    }
    proof {
        assert(cs.subrange(0, clauses@.len() as int) =~= cs);
    }
    (pred_code, pred_table, directive_code)
}

} // verus!
