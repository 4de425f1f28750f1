//! The sectioned assembly format: predicate definitions under `.predicates`,
//! each introduced by `pred <name>:`, and the main program under `.query`.

use vstd::prelude::*;
use crate::arithmetic::{Expr, parse_expression_spec, parse_expression};
use crate::instruction_parser::{line_prefix, chars_eq, line_prefix_chars, push_chars, line_error};
use crate::languages::lam::{usize_tok, i32_tok, unq, usizes_tok};
use crate::lexer::{
    trim, split, words, join_space, pieces_view, str_chars, trim_chars, split_chars, words_chars,
    trim_char_chars, join_space_from, parse_usize, parse_i32, copy_range,
};
use crate::machine::{Instruction, InstrV, program_view};
use crate::term::{Term, TermV};
use crate::text::{push_str, chars_to_string};

verus! {

broadcast use vstd::std_specs::vec::group_vec_axioms;

/// An error of the assembler.
#[derive(Debug)]
pub enum AssemblerError {
    Message(String),
}

impl View for AssemblerError {
    type V = Seq<char>;

    open spec fn view(&self) -> Seq<char> {
        match self {
            AssemblerError::Message(m) => m@,
        }
    }
}

/// The instruction of a line of the assembly format, given its
/// whitespace-separated tokens.
pub open spec fn logical_spec(t: Seq<Seq<char>>) -> Result<InstrV, Seq<char>> {
    let k = t.len();
    if k == 0 {
        Err("Empty line"@)
    } else {
        let op = t[0];
        if op == "PutConst"@ {
            if k != 3 {
                Err("PutConst expects 2 arguments"@)
            } else {
                match usize_tok(t[1]) {
                    None => Err("Invalid register"@),
                    Some(r) => match i32_tok(t[2]) {
                        None => Err("Invalid value"@),
                        Some(v) => Ok(InstrV::PutConst { register: r, value: v }),
                    },
                }
            }
        } else if op == "PutVar"@ {
            if k != 4 {
                Err("PutVar expects 3 arguments"@)
            } else {
                match usize_tok(t[1]) {
                    None => Err("Invalid register"@),
                    Some(r) => match usize_tok(t[2]) {
                        None => Err("Invalid var_id"@),
                        Some(id) => Ok(InstrV::PutVar { register: r, var_id: id, name: unq(t[3]) }),
                    },
                }
            }
        } else if op == "Call"@ {
            if k != 2 { Err("Call expects 1 argument"@) } else { Ok(InstrV::Call { predicate: t[1] }) }
        } else if op == "Proceed"@ {
            Ok(InstrV::Proceed)
        } else if op == "AssertClause"@ {
            if k != 3 {
                Err("AssertClause expects 2 arguments"@)
            } else {
                match usize_tok(t[2]) {
                    None => Err("Invalid address"@),
                    Some(a) => Ok(InstrV::AssertClause { predicate: t[1], address: a }),
                }
            }
        } else if op == "Fail"@ {
            Ok(InstrV::Fail)
        } else if op == "ArithmeticIs"@ {
            if k < 3 {
                Err("ArithmeticIs expects at least 2 arguments"@)
            } else {
                match usize_tok(t[1]) {
                    None => Err("Invalid target"@),
                    Some(r) => match parse_expression_spec(join_space(t.skip(2))) {
                        Err(e) => Err("ArithmeticIs error: "@ + e),
                        Ok(x) => Ok(InstrV::ArithmeticIs { target: r, expression: x }),
                    },
                }
            }
        } else if op == "BuildCompound"@ {
            if k < 3 {
                Err("BuildCompound expects at least 2 arguments"@)
            } else {
                match usize_tok(t[1]) {
                    None => Err("Invalid target"@),
                    Some(r) => match usizes_tok(t.skip(3)) {
                        None => Err("Invalid register"@),
                        Some(rs) => Ok(InstrV::BuildCompound { target: r, functor: t[2], arg_registers: rs }),
                    },
                }
            }
        } else if op == "Choice"@ {
            if k != 2 {
                Err("Choice expects 1 argument"@)
            } else {
                match usize_tok(t[1]) {
                    None => Err("Invalid alternative"@),
                    Some(_) => Ok(InstrV::Choice),
                }
            }
        } else if op == "Deallocate"@ {
            Ok(InstrV::Deallocate)
        } else if op == "Allocate"@ {
            if k != 2 {
                Err("Allocate expects 1 argument"@)
            } else {
                match usize_tok(t[1]) {
                    None => Err("Invalid size"@),
                    Some(s) => Ok(InstrV::Allocate { n: s }),
                }
            }
        } else if op == "SetLocal"@ {
            if k != 3 {
                Err("SetLocal expects 2 arguments"@)
            } else {
                match usize_tok(t[1]) {
                    None => Err("Invalid index"@),
                    Some(i) => match i32_tok(t[2]) {
                        None => Err("Invalid value"@),
                        Some(v) => Ok(InstrV::SetLocal { index: i, value: TermV::Const(v) }),
                    },
                }
            }
        } else if op == "GetLocal"@ {
            if k != 3 {
                Err("GetLocal expects 2 arguments"@)
            } else {
                match usize_tok(t[1]) {
                    None => Err("Invalid index"@),
                    Some(i) => match usize_tok(t[2]) {
                        None => Err("Invalid register"@),
                        Some(r) => Ok(InstrV::GetLocal { index: i, register: r }),
                    },
                }
            }
        } else {
            Err("Unknown instruction '"@ + op + "'"@)
        }
    }
}

/// The state of the assembler between lines: the current section, the
/// predicate being defined and its instructions so far, the predicates
/// finished, and the query.
pub struct AsmState {
    pub section: Seq<char>,
    pub name: Option<Seq<char>>,
    pub body: Seq<InstrV>,
    pub preds: Seq<(Seq<char>, Seq<InstrV>)>,
    pub query: Seq<InstrV>,
}

/// Finishes the predicate being defined, if any.
pub open spec fn close_pred(st: AsmState) -> AsmState {
    match st.name {
        Some(nm) => AsmState { name: None, body: Seq::empty(), preds: st.preds.push((nm, st.body)), ..st },
        None => st,
    }
}

/// The index of the first occurrence of `c` in `s`.
pub open spec fn find_char(s: Seq<char>, c: char) -> Option<int>
    decreases s.len(),
{
    if s.len() == 0 {
        None
    } else {
        match find_char(s.drop_last(), c) {
            Some(i) => Some(i),
            None => if s.last() == c { Some(s.len() - 1) } else { None },
        }
    }
}

/// A predicate header `pred <name>:` names the text between `pred ` and the
/// first colon, trimmed, up to a slash if there is one.
pub open spec fn header_name(t: Seq<char>, colon: int) -> Seq<char> {
    let raw = trim(t.subrange(5, colon));
    match find_char(raw, '/') {
        Some(s) => raw.take(s),
        None => raw,
    }
}

/// The state after line `n`, or its error.
pub open spec fn asm_step(st: AsmState, line: Seq<char>, n: nat) -> Result<AsmState, Seq<char>> {
    let t = trim(line);
    if t.len() == 0 || t[0] == '#' {
        Ok(st)
    } else if t[0] == '.' {
        let closed = if st.section == ".predicates"@ { close_pred(st) } else { st };
        Ok(AsmState { section: t, ..closed })
    } else if st.section == ".predicates"@ {
        if t.len() >= 5 && t.take(5) == "pred "@ {
            match find_char(t, ':') {
                None => Err(line_prefix(n) + "Missing ':' in predicate header"@),
                Some(c) => Ok(AsmState { name: Some(header_name(t, c)), ..close_pred(st) }),
            }
        } else {
            match logical_spec(words(t)) {
                Err(e) => Err(line_prefix(n) + e),
                Ok(i) => Ok(AsmState { body: st.body.push(i), ..st }),
            }
        }
    } else if st.section == ".query"@ {
        match logical_spec(words(t)) {
            Err(e) => Err(line_prefix(n) + e),
            Ok(i) => Ok(AsmState { query: st.query.push(i), ..st }),
        }
    } else {
        Err(line_prefix(n) + "Unknown section directive"@)
    }
}

pub open spec fn asm_start() -> AsmState {
    AsmState { section: Seq::empty(), name: None, body: Seq::empty(), preds: Seq::empty(), query: Seq::empty() }
}

/// The state after the first `k` lines, or the first error.
pub open spec fn asm_lines(lines: Seq<Seq<char>>, k: int) -> Result<AsmState, Seq<char>>
    decreases k,
{
    if k <= 0 {
        Ok(asm_start())
    } else {
        match asm_lines(lines, k - 1) {
            Err(e) => Err(e),
            Ok(st) => asm_step(st, lines[k - 1], k as nat),
        }
    }
}

/// The instructions of the predicates, one after the other.
pub open spec fn bodies(ps: Seq<(Seq<char>, Seq<InstrV>)>) -> Seq<InstrV>
    decreases ps.len(),
{
    if ps.len() == 0 { Seq::empty() } else { bodies(ps.drop_last()) + ps.last().1 }
}

/// One clause registration per predicate, at the address where its
/// instructions start after the registrations.
pub open spec fn header(ps: Seq<(Seq<char>, Seq<InstrV>)>) -> Seq<InstrV> {
    Seq::new(ps.len(), |i: int| InstrV::AssertClause {
        predicate: ps[i].0,
        address: (ps.len() + bodies(ps.take(i)).len()) as usize,
    })
}

/// The assembled program: the registrations, the predicates, the query.
pub open spec fn assemble_spec(input: Seq<char>) -> Result<Seq<InstrV>, Seq<char>> {
    let lines = split(input, '\n');
    match asm_lines(lines, lines.len() as int) {
        Err(e) => Err(e),
        Ok(st) => {
            let ps = close_pred(st).preds;
            Ok(header(ps) + bodies(ps) + st.query)
        },
    }
}

fn plain_error(text: &str) -> (r: Result<Instruction, String>)
    ensures
        r matches Err(e) && e@ == text@,
{
    Err(chars_to_string(&str_chars(text)))
}

fn usize_of(t: &Vec<char>) -> (r: Option<usize>)
    ensures
        r == usize_tok(t@),
{
    match parse_usize(t) {
        Ok(v) => Some(v),
        Err(_) => None,
    }
}

fn i32_of(t: &Vec<char>) -> (r: Option<i32>)
    ensures
        r == i32_tok(t@),
{
    match parse_i32(t) {
        Ok(v) => Some(v),
        Err(_) => None,
    }
}

fn usizes_of(ts: &Vec<Vec<char>>, from: usize) -> (r: Option<Vec<usize>>)
    requires
        from <= ts@.len(),
    ensures
        match r {
            Some(v) => usizes_tok(pieces_view(ts@).skip(from as int)) == Some(v@),
            None => usizes_tok(pieces_view(ts@).skip(from as int)) is None,
        },
{
    let ghost q = pieces_view(ts@).skip(from as int);
    let mut out: Vec<usize> = Vec::new();
    let mut i: usize = from;
    proof {
        assert(q.take(0) =~= Seq::<Seq<char>>::empty());
    }
    while i < ts.len()
        invariant
            from <= i <= ts@.len(),
            q == pieces_view(ts@).skip(from as int),
            usizes_tok(q.take(i - from)) == Some(out@),
        decreases ts.len() - i,
    {
        let ghost next = q.take(i + 1 - from);
        proof {
            assert(next.drop_last() =~= q.take(i - from));
            assert(next.last() == ts@[i as int]@);
        }
        match usize_of(&ts[i]) {
            Some(r) => {
                out.push(r);
            },
            None => {
                proof {
                    lemma_usizes_none(q, i + 1 - from);
                }
                return None;
            },
        }
        i += 1;
    }
    proof {
        assert(q.take(ts@.len() - from) =~= q);
    }
    Some(out)
}

proof fn lemma_usizes_none(q: Seq<Seq<char>>, k: int)
    requires
        0 <= k <= q.len(),
        usizes_tok(q.take(k)) is None,
    ensures
        usizes_tok(q) is None,
    decreases q.len() - k,
{
    if k == q.len() {
        assert(q.take(k) =~= q);
    } else {
        assert(q.take(k + 1).drop_last() =~= q.take(k));
        lemma_usizes_none(q, k + 1);
    }
}

/// The instruction of a line of the assembly format (see `logical_spec`
/// over the line's whitespace-separated tokens).
pub fn parse_logical_instruction(line: &Vec<char>) -> (r: Result<Instruction, String>)
    ensures
        match r {
            Ok(i) => logical_spec(words(line@)) == Ok::<InstrV, Seq<char>>(i@),
            Err(e) => logical_spec(words(line@)) == Err::<InstrV, Seq<char>>(e@),
        },
{
    let t = words_chars(line);
    let ghost p = pieces_view(t@);
    let k = t.len();
    if k == 0 {
        return plain_error("Empty line");
    }
    let op = &t[0];
    proof {
        assert(p[0] == op@);
        assert(k > 1 ==> p[1] == t@[1]@);
        assert(k > 2 ==> p[2] == t@[2]@);
        assert(k > 3 ==> p[3] == t@[3]@);
    }
    if chars_eq(op, "PutConst") {
        if k != 3 {
            return plain_error("PutConst expects 2 arguments");
        }
        let r = match usize_of(&t[1]) {
            None => return plain_error("Invalid register"),
            Some(r) => r,
        };
        return match i32_of(&t[2]) {
            None => plain_error("Invalid value"),
            Some(v) => Ok(Instruction::PutConst { register: r, value: v }),
        };
    }
    if chars_eq(op, "PutVar") {
        if k != 4 {
            return plain_error("PutVar expects 3 arguments");
        }
        let r = match usize_of(&t[1]) {
            None => return plain_error("Invalid register"),
            Some(r) => r,
        };
        return match usize_of(&t[2]) {
            None => plain_error("Invalid var_id"),
            Some(id) => Ok(Instruction::PutVar { register: r, var_id: id, name: chars_to_string(&trim_char_chars(&t[3], '"')) }),
        };
    }
    if chars_eq(op, "Call") {
        if k != 2 {
            return plain_error("Call expects 1 argument");
        }
        return Ok(Instruction::Call { predicate: chars_to_string(&t[1]) });
    }
    if chars_eq(op, "Proceed") {
        return Ok(Instruction::Proceed);
    }
    if chars_eq(op, "AssertClause") {
        if k != 3 {
            return plain_error("AssertClause expects 2 arguments");
        }
        return match usize_of(&t[2]) {
            None => plain_error("Invalid address"),
            Some(a) => Ok(Instruction::AssertClause { predicate: chars_to_string(&t[1]), address: a }),
        };
    }
    if chars_eq(op, "Fail") {
        return Ok(Instruction::Fail);
    }
    if chars_eq(op, "ArithmeticIs") {
        if k < 3 {
            return plain_error("ArithmeticIs expects at least 2 arguments");
        }
        let r = match usize_of(&t[1]) {
            None => return plain_error("Invalid target"),
            Some(r) => r,
        };
        let text = chars_to_string(&join_space_from(&t, 2));
        return match parse_expression(text.as_str()) {
            Err(e) => {
                let mut out: Vec<char> = Vec::new();
                push_str(&mut out, "ArithmeticIs error: ");
                push_str(&mut out, e.as_str());
                Err(chars_to_string(&out))
            },
            Ok(x) => Ok(Instruction::ArithmeticIs { target: r, expression: x }),
        };
    }
    if chars_eq(op, "BuildCompound") {
        if k < 3 {
            return plain_error("BuildCompound expects at least 2 arguments");
        }
        let r = match usize_of(&t[1]) {
            None => return plain_error("Invalid target"),
            Some(r) => r,
        };
        return match usizes_of(&t, 3) {
            None => plain_error("Invalid register"),
            Some(rs) => Ok(Instruction::BuildCompound { target: r, functor: chars_to_string(&t[2]), arg_registers: rs }),
        };
    }
    if chars_eq(op, "Choice") {
        if k != 2 {
            return plain_error("Choice expects 1 argument");
        }
        return match usize_of(&t[1]) {
            None => plain_error("Invalid alternative"),
            Some(_) => Ok(Instruction::Choice),
        };
    }
    if chars_eq(op, "Deallocate") {
        return Ok(Instruction::Deallocate);
    }
    if chars_eq(op, "Allocate") {
        if k != 2 {
            return plain_error("Allocate expects 1 argument");
        }
        return match usize_of(&t[1]) {
            None => plain_error("Invalid size"),
            Some(s) => Ok(Instruction::Allocate { n: s }),
        };
    }
    if chars_eq(op, "SetLocal") {
        if k != 3 {
            return plain_error("SetLocal expects 2 arguments");
        }
        let i = match usize_of(&t[1]) {
            None => return plain_error("Invalid index"),
            Some(i) => i,
        };
        return match i32_of(&t[2]) {
            None => plain_error("Invalid value"),
            Some(v) => Ok(Instruction::SetLocal { index: i, value: Term::Const(v) }),
        };
    }
    if chars_eq(op, "GetLocal") {
        if k != 3 {
            return plain_error("GetLocal expects 2 arguments");
        }
        let i = match usize_of(&t[1]) {
            None => return plain_error("Invalid index"),
            Some(i) => i,
        };
        return match usize_of(&t[2]) {
            None => plain_error("Invalid register"),
            Some(r) => Ok(Instruction::GetLocal { index: i, register: r }),
        };
    }
    let mut out: Vec<char> = Vec::new();
    push_str(&mut out, "Unknown instruction '");
    push_chars(&mut out, op);
    push_str(&mut out, "'");
    Err(chars_to_string(&out))
}

/// The value of the finished predicates.
pub open spec fn preds_view(v: Seq<(Vec<char>, Vec<Instruction>)>) -> Seq<(Seq<char>, Seq<InstrV>)> {
    Seq::new(v.len(), |i: int| (v[i].0@, program_view(v[i].1@)))
}

pub open spec fn name_view(n: Option<Vec<char>>) -> Option<Seq<char>> {
    match n {
        Some(v) => Some(v@),
        None => None,
    }
}

/// The number of predicates and instructions that a state holds.
pub open spec fn asm_count(st: AsmState) -> nat {
    st.preds.len() + bodies(st.preds).len() + st.body.len() + st.query.len() + (if st.name is Some { 1nat } else { 0nat })
}

proof fn lemma_close_count(st: AsmState)
    ensures
        asm_count(close_pred(st)) == asm_count(st),
        close_pred(st).name is None,
        close_pred(st).section == st.section,
        close_pred(st).query == st.query,
{
    if let Some(nm) = st.name {
        let ps = st.preds.push((nm, st.body));
        assert(ps.drop_last() =~= st.preds);
    }
}

proof fn lemma_step_count(st: AsmState, line: Seq<char>, n: nat)
    ensures
        asm_step(st, line, n) matches Ok(st2) ==> asm_count(st2) <= asm_count(st) + 1,
{
    lemma_close_count(st);
}

proof fn lemma_find_char(s: Seq<char>, c: char)
    ensures
        match find_char(s, c) {
            Some(i) => 0 <= i < s.len() && s[i] == c && forall|j: int| 0 <= j < i ==> s[j] != c,
            None => forall|j: int| 0 <= j < s.len() ==> s[j] != c,
        },
    decreases s.len(),
{
    if s.len() > 0 {
        let p = s.drop_last();
        lemma_find_char(p, c);
        assert forall|j: int| 0 <= j < p.len() implies s[j] == p[j] by {}
    }
}

fn find_exec(v: &Vec<char>, c: char) -> (r: Option<usize>)
    ensures
        match r {
            Some(i) => find_char(v@, c) == Some(i as int),
            None => find_char(v@, c) is None,
        },
{
    let mut i: usize = 0;
    proof {
        assert(v@.take(0) =~= Seq::<char>::empty());
    }
    while i < v.len()
        invariant
            i <= v@.len(),
            find_char(v@.take(i as int), c) is None,
        decreases v.len() - i,
    {
        proof {
            assert(v@.take(i + 1).drop_last() =~= v@.take(i as int));
        }
        if v[i] == c {
            proof {
                lemma_find_char(v@.take(i + 1), c);
                lemma_find_prefix(v@, c, i + 1);
            }
            return Some(i);
        }
        i += 1;
    }
    proof {
        assert(v@.take(v@.len() as int) =~= v@);
    }
    None
}

/// A match in a prefix is the first match.
proof fn lemma_find_prefix(s: Seq<char>, c: char, k: int)
    requires
        0 <= k <= s.len(),
        find_char(s.take(k), c) is Some,
    ensures
        find_char(s, c) == find_char(s.take(k), c),
    decreases s.len() - k,
{
    if k == s.len() {
        assert(s.take(k) =~= s);
    } else {
        assert(s.take(k + 1).drop_last() =~= s.take(k));
        lemma_find_prefix(s, c, k + 1);
    }
}

fn header_exec(t: &Vec<char>, c: usize) -> (r: Vec<char>)
    requires
        5 <= c <= t@.len(),
    ensures
        r@ == header_name(t@, c as int),
{
    let inner = copy_range(t, 5, c);
    let raw = trim_chars(&inner);
    match find_exec(&raw, '/') {
        Some(s) => {
            proof {
                lemma_find_char(raw@, '/');
            }
            let h = copy_range(&raw, 0, s);
            proof {
                assert(h@ =~= raw@.take(s as int));
            }
            h
        },
        None => raw,
    }
}

fn append_program(out: &mut Vec<Instruction>, v: &Vec<Instruction>)
    ensures
        program_view(final(out)@) == program_view(old(out)@) + program_view(v@),
{
    let mut j: usize = 0;
    while j < v.len()
        invariant
            j <= v@.len(),
            program_view(out@) == program_view(old(out)@) + program_view(v@).take(j as int),
        decreases v.len() - j,
    {
        let c = v[j].copy();
        proof {
            crate::machine::lemma_same_view(c, v@[j as int]);
        }
        let ghost prev = program_view(out@);
        out.push(c);
        proof {
            assert(program_view(out@) =~= prev.push(c@));
            assert(program_view(out@) =~= program_view(old(out)@) + program_view(v@).take(j + 1));
        }
        j += 1;
    }
    proof {
        assert(program_view(v@).take(v@.len() as int) =~= program_view(v@));
    }
}

/// Finishes the predicate being defined, if any (see `close_pred`).
fn close_exec(name: &mut Option<Vec<char>>, body: &mut Vec<Instruction>, preds: &mut Vec<(Vec<char>, Vec<Instruction>)>)
    ensures
        ({
            let st = AsmState { section: Seq::empty(), name: name_view(*old(name)), body: program_view(old(body)@), preds: preds_view(old(preds)@), query: Seq::empty() };
            let st2 = close_pred(st);
            &&& name_view(*final(name)) == st2.name
            &&& program_view(final(body)@) == st2.body
            &&& preds_view(final(preds)@) == st2.preds
        }),
{
    let taken = name.take();
    match taken {
        Some(nm) => {
            let mut done: Vec<Instruction> = Vec::new();
            std::mem::swap(&mut done, body);
            let ghost before = preds_view(preds@);
            preds.push((nm, done));
            proof {
                assert(program_view(body@) =~= Seq::<InstrV>::empty());
                assert(preds_view(preds@) =~= before.push((nm@, program_view(done@))));
            }
        },
        None => {},
    }
}

proof fn lemma_bodies_take(ps: Seq<(Seq<char>, Seq<InstrV>)>, j: int)
    requires
        0 <= j < ps.len(),
    ensures
        bodies(ps.take(j + 1)) == bodies(ps.take(j)) + ps[j].1,
        bodies(ps.take(j + 1)).len() <= bodies(ps).len(),
    decreases ps.len() - j,
{
    assert(ps.take(j + 1).drop_last() =~= ps.take(j));
    if j + 1 < ps.len() {
        lemma_bodies_take(ps, j + 1);
    } else {
        assert(ps.take(j + 1) =~= ps);
    }
}

proof fn lemma_asm_stop(lines: Seq<Seq<char>>, k: int, m: int)
    requires
        0 <= k <= m,
        asm_lines(lines, k) is Err,
    ensures
        asm_lines(lines, m) == asm_lines(lines, k),
    decreases m - k,
{
    if m > k {
        lemma_asm_stop(lines, k, m - 1);
    }
}

fn asm_error(n: usize, e: &str) -> (r: AssemblerError)
    ensures
        r@ == line_prefix(n as nat) + e@,
{
    let mut out = line_prefix_chars(n);
    push_str(&mut out, e);
    AssemblerError::Message(chars_to_string(&out))
}

/// Assembles a program in the sectioned format (see `assemble_spec`):
/// clause registrations for the predicates, then the predicates' instructions,
/// then the query.
pub fn assemble_program(input: &str) -> (r: Result<Vec<Instruction>, AssemblerError>)
    requires
        input@.len() < usize::MAX,
    ensures
        match r {
            Ok(v) => assemble_spec(input@) == Ok::<Seq<InstrV>, Seq<char>>(program_view(v@)),
            Err(e) => assemble_spec(input@) == Err::<Seq<InstrV>, Seq<char>>(e@),
        },
{
    let chars = str_chars(input);
    let lines = split_chars(&chars, '\n');
    let ghost ls = split(input@, '\n');
    proof {
        crate::lexer::lemma_split_len_bound(input@, '\n');
        reveal_strlit("pred ");
    }
    let mut section: Vec<char> = Vec::new();
    let mut name: Option<Vec<char>> = None;
    let mut body: Vec<Instruction> = Vec::new();
    let mut preds: Vec<(Vec<char>, Vec<Instruction>)> = Vec::new();
    let mut query: Vec<Instruction> = Vec::new();
    let mut i: usize = 0;
    proof {
        assert(program_view(body@) =~= Seq::<InstrV>::empty());
        assert(program_view(query@) =~= Seq::<InstrV>::empty());
        assert(preds_view(preds@) =~= Seq::<(Seq<char>, Seq<InstrV>)>::empty());
        assert(section@ =~= Seq::<char>::empty());
    }
    while i < lines.len()
        invariant
            i <= lines@.len(),
            lines@.len() <= input@.len() + 1,
            input@.len() < usize::MAX,
            pieces_view(lines@) == ls,
            ls == split(input@, '\n'),
            asm_lines(ls, i as int) == Ok::<AsmState, Seq<char>>(AsmState {
                section: section@,
                name: name_view(name),
                body: program_view(body@),
                preds: preds_view(preds@),
                query: program_view(query@),
            }),
            asm_count(AsmState {
                section: section@,
                name: name_view(name),
                body: program_view(body@),
                preds: preds_view(preds@),
                query: program_view(query@),
            }) <= i,
        decreases lines.len() - i,
    {
        let ghost st = AsmState {
            section: section@,
            name: name_view(name),
            body: program_view(body@),
            preds: preds_view(preds@),
            query: program_view(query@),
        };
        proof {
            assert(ls[i as int] == lines@[i as int]@);
            lemma_step_count(st, ls[i as int], (i + 1) as nat);
            lemma_close_count(st);
        }
        let n = i + 1;
        let t = trim_chars(&lines[i]);
        if t.len() == 0 || t[0] == '#' {
        } else if t[0] == '.' {
            if chars_eq(&section, ".predicates") {
                close_exec(&mut name, &mut body, &mut preds);
            }
            section = t;
        } else if chars_eq(&section, ".predicates") {
            let is_header = t.len() >= 5 && t[0] == 'p' && t[1] == 'r' && t[2] == 'e' && t[3] == 'd' && t[4] == ' ';
            proof {
                reveal_strlit("pred ");
                if t@.len() >= 5 {
                    if is_header {
                        assert(t@.take(5) =~= "pred "@);
                    } else {
                        assert(t@.take(5) != "pred "@) by {
                            if t@.take(5) == "pred "@ {
                                assert(t@.take(5)[0] == 'p');
                                assert(t@.take(5)[1] == 'r');
                                assert(t@.take(5)[2] == 'e');
                                assert(t@.take(5)[3] == 'd');
                                assert(t@.take(5)[4] == ' ');
                            }
                        }
                    }
                }
            }
            if is_header {
                match find_exec(&t, ':') {
                    None => {
                        proof {
                            lemma_asm_stop(ls, i + 1, ls.len() as int);
                        }
                        return Err(asm_error(n, "Missing ':' in predicate header"));
                    },
                    Some(c) => {
                        proof {
                            lemma_find_char(t@, ':');
                        }
                        let h = header_exec(&t, c);
                        close_exec(&mut name, &mut body, &mut preds);
                        name = Some(h);
                    },
                }
            } else {
                match parse_logical_instruction(&t) {
                    Err(e) => {
                        proof {
                            lemma_asm_stop(ls, i + 1, ls.len() as int);
                        }
                        return Err(asm_error(n, e.as_str()));
                    },
                    Ok(ins) => {
                        let ghost prev = program_view(body@);
                        body.push(ins);
                        proof {
                            assert(program_view(body@) =~= prev.push(ins@));
                        }
                    },
                }
            }
        } else if chars_eq(&section, ".query") {
            match parse_logical_instruction(&t) {
                Err(e) => {
                    proof {
                        lemma_asm_stop(ls, i + 1, ls.len() as int);
                    }
                    return Err(asm_error(n, e.as_str()));
                },
                Ok(ins) => {
                    let ghost prev = program_view(query@);
                    query.push(ins);
                    proof {
                        assert(program_view(query@) =~= prev.push(ins@));
                    }
                },
            }
        } else {
            proof {
                lemma_asm_stop(ls, i + 1, ls.len() as int);
            }
            return Err(asm_error(n, "Unknown section directive"));
        }
        i += 1;
    }
    let ghost st_end = AsmState {
        section: section@,
        name: name_view(name),
        body: program_view(body@),
        preds: preds_view(preds@),
        query: program_view(query@),
    };
    proof {
        lemma_close_count(st_end);
    }
    close_exec(&mut name, &mut body, &mut preds);
    let ghost ps = preds_view(preds@);
    let header_len = preds.len();
    let mut result: Vec<Instruction> = Vec::new();
    let mut running: usize = 0;
    let mut j: usize = 0;
    proof {
        assert(program_view(result@) =~= header(ps).take(0));
        assert(ps.take(0) =~= Seq::<(Seq<char>, Seq<InstrV>)>::empty());
    }
    while j < preds.len()
        invariant
            j <= preds@.len(),
            header_len == preds@.len(),
            ps == preds_view(preds@),
            ps.len() + bodies(ps).len() <= usize::MAX,
            running == bodies(ps.take(j as int)).len(),
            program_view(result@) == header(ps).take(j as int),
        decreases preds.len() - j,
    {
        proof {
            lemma_bodies_take(ps, j as int);
        }
        let addr = header_len + running;
        let ghost prev = program_view(result@);
        let ins = Instruction::AssertClause { predicate: chars_to_string(&preds[j].0), address: addr };
        proof {
            assert(ps[j as int] == (preds@[j as int].0@, program_view(preds@[j as int].1@)));
            assert(ins@ == header(ps)[j as int]);
        }
        result.push(ins);
        running = running + preds[j].1.len();
        proof {
            assert(program_view(result@) =~= prev.push(ins@));
            assert(header(ps).take(j + 1) =~= header(ps).take(j as int).push(header(ps)[j as int]));
        }
        j += 1;
    }
    proof {
        assert(header(ps).take(ps.len() as int) =~= header(ps));
    }
    let mut k: usize = 0;
    while k < preds.len()
        invariant
            k <= preds@.len(),
            ps == preds_view(preds@),
            program_view(result@) == header(ps) + bodies(ps.take(k as int)),
        decreases preds.len() - k,
    {
        proof {
            lemma_bodies_take(ps, k as int);
        }
        let ghost prev = program_view(result@);
        append_program(&mut result, &preds[k].1);
        k += 1;
        proof {
            assert(program_view(result@) =~= header(ps) + bodies(ps.take(k as int)));
        }
    }
    proof {
        assert(ps.take(ps.len() as int) =~= ps);
    }
    append_program(&mut result, &query);
    Ok(result)
}

} // verus!
