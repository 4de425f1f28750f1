//! The decisions of the interactive session: what each line entered at the
//! `?-` prompt does to the clauses entered so far, and what to do next.

use vstd::prelude::*;
use crate::languages::prolog::{
    compile_fact_spec, compile_query_spec, extract_inner_spec, retract_spec, starts_with, strip_prefixes,
    strip_prefixes_exec, extract_inner, has_prefix, try_compile_fact, try_compile_query, retract_clause,
    lemma_extract_len, lemma_strip_prefixes_len,
};
use crate::lexer::{trim, str_chars, trim_chars};
use crate::machine::{Instruction, InstrV, program_view, lemma_same_view};
use crate::prolog::compiler::append_block;
use crate::tables::PredicateTable;
use crate::text::chars_to_string;

verus! {

broadcast use vstd::std_specs::vec::group_vec_axioms;

/// The clauses entered in a session: their code and the predicate table.
pub struct Session {
    pub code: Vec<Instruction>,
    pub table: PredicateTable,
}

pub struct SessionV {
    pub code: Seq<InstrV>,
    pub table: Map<Seq<char>, Seq<usize>>,
}

impl View for Session {
    type V = SessionV;

    open spec fn view(&self) -> SessionV {
        SessionV { code: program_view(self.code@), table: self.table@ }
    }
}

/// What the session does after a line.
pub enum ReplAction {
    /// Leave the session.
    Quit,
    /// Print a reply, such as `true.`
    Reply(String),
    /// Run `code` from address `start` with the session's predicates, then
    /// print the outcome; the query's bindings are shown where
    /// `show_bindings` is set.
    Run { code: Vec<Instruction>, start: usize, show_bindings: bool },
}

pub enum ActionV {
    Quit,
    Reply(Seq<char>),
    Run { code: Seq<InstrV>, start: usize, show_bindings: bool },
}

impl View for ReplAction {
    type V = ActionV;

    open spec fn view(&self) -> ActionV {
        match self {
            ReplAction::Quit => ActionV::Quit,
            ReplAction::Reply(s) => ActionV::Reply(s@),
            ReplAction::Run { code, start, show_bindings } =>
                ActionV::Run { code: program_view(code@), start: *start, show_bindings: *show_bindings },
        }
    }
}

/// An ASCII letter in lower case; other characters as they are.
pub open spec fn ascii_lower(c: char) -> char {
    if 'A' <= c <= 'Z' { ((c as int) + 32) as char } else { c }
}

/// Equality of two texts up to the case of ASCII letters.
pub open spec fn eq_ignore_ascii_case(a: Seq<char>, b: Seq<char>) -> bool {
    a.len() == b.len() && forall|i: int| 0 <= i < a.len() ==> ascii_lower(#[trigger] a[i]) == ascii_lower(b[i])
}

/// The table with `address` added at the end of the list of `pred`.
pub open spec fn table_push(table: Map<Seq<char>, Seq<usize>>, pred: Seq<char>, address: usize) -> Map<Seq<char>, Seq<usize>> {
    table.insert(pred, if table.contains_key(pred) { table[pred] } else { Seq::empty() }.push(address))
}

/// A program made of the session's clauses and a query after them, run from
/// the query.
pub open spec fn run_query(st: SessionV, q: Seq<InstrV>, show_bindings: bool) -> ActionV {
    ActionV::Run { code: st.code + q, start: st.code.len() as usize, show_bindings }
}

/// What a line does: `halt.` or `quit.` (in any case) ends the session;
/// leading `?-` are dropped; `assert(fact).` adds a clause and answers
/// `true.`; `retract(fact).` removes the first clause of the fact's
/// predicate and answers `true.` or `false.`; `:- dynamic(...)` answers
/// `true.`; `:- initialization(goal).` runs the goal; any other line is a
/// query, run with its bindings shown. `None` where compiling the line
/// fails, which ends the session.
pub open spec fn repl_spec(st: SessionV, line: Seq<char>) -> Option<(SessionV, ActionV)> {
    let t = trim(line);
    if eq_ignore_ascii_case(t, "halt."@) || eq_ignore_ascii_case(t, "quit."@) {
        Some((st, ActionV::Quit))
    } else {
        let c = if starts_with(t, "?-"@) { trim(strip_prefixes(t, "?-"@)) } else { t };
        if starts_with(c, "assert("@) {
            match compile_fact_spec(extract_inner_spec(c, "assert("@)) {
                None => None,
                Some((code, pred, _)) => Some((
                    SessionV { code: st.code + code, table: table_push(st.table, pred, st.code.len() as usize) },
                    ActionV::Reply("true."@),
                )),
            }
        } else if starts_with(c, "retract("@) {
            match compile_fact_spec(extract_inner_spec(c, "retract("@)) {
                None => None,
                Some((_, pred, _)) => {
                    let (table, ok) = retract_spec(st.table, pred);
                    Some((SessionV { table, ..st }, ActionV::Reply(if ok { "true."@ } else { "false."@ })))
                },
            }
        } else if starts_with(c, ":- dynamic("@) {
            Some((st, ActionV::Reply("true."@)))
        } else if starts_with(c, ":- initialization("@) {
            match compile_query_spec(extract_inner_spec(c, ":- initialization("@)) {
                None => None,
                Some(q) => Some((st, run_query(st, q, false))),
            }
        } else {
            match compile_query_spec(c) {
                None => None,
                Some(q) => Some((st, run_query(st, q, true))),
            }
        }
    }
}

fn lower_char(c: char) -> (r: char)
    ensures
        r == ascii_lower(c),
{
    if c >= 'A' && c <= 'Z' {
        let b: u8 = c as u8;
        ((b + 32) as u8) as char
    } else {
        c
    }
}

fn eq_ignore_case_exec(a: &Vec<char>, lit: &str) -> (r: bool)
    ensures
        r == eq_ignore_ascii_case(a@, lit@),
{
    let b = str_chars(lit);
    if a.len() != b.len() {
        return false;
    }
    let mut i: usize = 0;
    while i < a.len()
        invariant
            a@.len() == b@.len(),
            b@ == lit@,
            i <= a@.len(),
            forall|j: int| 0 <= j < i ==> ascii_lower(#[trigger] a@[j]) == ascii_lower(b@[j]),
        decreases a.len() - i,
    {
        if lower_char(a[i]) != lower_char(b[i]) {
            return false;
        }
        i += 1;
    }
    true
}

fn copy_program(code: &Vec<Instruction>) -> (r: Vec<Instruction>)
    ensures
        program_view(r@) == program_view(code@),
{
    let mut out: Vec<Instruction> = Vec::new();
    let mut i: usize = 0;
    while i < code.len()
        invariant
            i <= code.len(),
            program_view(out@) == program_view(code@).subrange(0, i as int),
        decreases code.len() - i,
    {
        let x = code[i].copy();
        proof {
            lemma_same_view(x, code@[i as int]);
        }
        let ghost before = program_view(out@);
        out.push(x);
        i += 1;
        proof {
            assert(program_view(out@) =~= before.push(x@));
            assert(program_view(code@).subrange(0, i as int) =~= program_view(code@).subrange(0, i - 1).push(code@[i - 1]@));
        }
    }
    proof {
        assert(program_view(code@).subrange(0, code@.len() as int) =~= program_view(code@));
    }
    out
}

fn text(lit: &str) -> (r: String)
    ensures
        r@ == lit@,
{
    chars_to_string(&str_chars(lit))
}

fn query_run(session: &Session, q: Vec<Instruction>, show_bindings: bool) -> (r: ReplAction)
    ensures
        r@ == run_query(session@, program_view(q@), show_bindings),
{
    let mut code = copy_program(&session.code);
    let start = code.len();
    append_block(&mut code, q);
    ReplAction::Run { code, start, show_bindings }
}

impl Session {
    /// A session with no clauses.
    pub fn new() -> (r: Session)
        ensures
            r@.code == Seq::<InstrV>::empty(),
            r@.table == Map::<Seq<char>, Seq<usize>>::empty(),
    {
        let r = Session { code: Vec::new(), table: PredicateTable::new() };
        proof {
            assert(r@.code =~= Seq::<InstrV>::empty());
        }
        r
    }

    /// Takes one line entered at the prompt (see `repl_spec`): updates the
    /// session and answers what to do next, or `None`, with the session
    /// unchanged, where the line cannot be compiled.
    pub fn step(&mut self, line: &str) -> (r: Option<ReplAction>)
        requires
            line@.len() <= usize::MAX / 2,
        ensures
            match r {
                Some(a) => repl_spec(old(self)@, line@) == Some((final(self)@, a@)),
                None => repl_spec(old(self)@, line@) is None && final(self)@ == old(self)@,
            },
    {
        proof {
            reveal_strlit("halt.");
            reveal_strlit("quit.");
            reveal_strlit("?-");
            reveal_strlit("true.");
            reveal_strlit("false.");
        }
        let t = trim_chars(&str_chars(line));
        proof {
            crate::lexer::lemma_trim_len(line@);
        }
        if eq_ignore_case_exec(&t, "halt.") || eq_ignore_case_exec(&t, "quit.") {
            return Some(ReplAction::Quit);
        }
        let c = if has_prefix(&t, "?-") {
            let s = strip_prefixes_exec(&t, &str_chars("?-"));
            proof {
                lemma_strip_prefixes_len(t@, "?-"@);
                crate::lexer::lemma_trim_len(s@);
            }
            trim_chars(&s)
        } else {
            t
        };
        let text_c = chars_to_string(&c);
        if has_prefix(&c, "assert(") {
            let inner = extract_inner(text_c.as_str(), "assert(");
            proof {
                lemma_extract_len(c@, "assert("@);
            }
            match try_compile_fact(inner.as_str()) {
                None => None,
                Some((code, pred, _)) => {
                    let addr = self.code.len();
                    append_block(&mut self.code, code);
                    self.table.push(pred, addr);
                    Some(ReplAction::Reply(text("true.")))
                },
            }
        } else if has_prefix(&c, "retract(") {
            let inner = extract_inner(text_c.as_str(), "retract(");
            proof {
                lemma_extract_len(c@, "retract("@);
            }
            match try_compile_fact(inner.as_str()) {
                None => None,
                Some(_) => {
                    let ok = retract_clause(&mut self.code, &mut self.table, inner.as_str());
                    if ok {
                        Some(ReplAction::Reply(text("true.")))
                    } else {
                        Some(ReplAction::Reply(text("false.")))
                    }
                },
            }
        } else if has_prefix(&c, ":- dynamic(") {
            Some(ReplAction::Reply(text("true.")))
        } else if has_prefix(&c, ":- initialization(") {
            let inner = extract_inner(text_c.as_str(), ":- initialization(");
            proof {
                lemma_extract_len(c@, ":- initialization("@);
            }
            match try_compile_query(inner.as_str()) {
                None => None,
                Some(q) => Some(query_run(self, q, false)),
            }
        } else {
            match try_compile_query(text_c.as_str()) {
                None => None,
                Some(q) => Some(query_run(self, q, true)),
            }
        }
    }
}

} // verus!
