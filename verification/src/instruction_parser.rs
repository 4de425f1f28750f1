//! Reading machine programs written one instruction per line.

use vstd::prelude::*;
use crate::arithmetic::{Expr, parse_expression_spec, parse_expression};
use crate::lexer::{
    trim, split, words, is_digit, parse_i32_spec, parse_usize_spec, int_error_text, IntError,
    str_chars, trim_chars, split_chars, words_chars, pieces_view, parse_i32, parse_usize,
    push_int_error, copy_range,
};
use crate::machine::{Instruction, InstrV, program_view};
use crate::term::{Term, TermV};
use crate::text::{digits, push_str, push_usize, chars_to_string};

verus! {

broadcast use vstd::std_specs::vec::group_vec_axioms;

// ---------------------------------------------------------------------------
// Upper case.

/// The upper-case form of a string, as the standard library computes it
/// from the Unicode case tables.
pub uninterp spec fn uppercase(s: Seq<char>) -> Seq<char>;

/// `str::to_uppercase`: its result is named `uppercase` of the argument.
#[verifier::external_body]
fn to_uppercase(s: &str) -> (r: String)
    ensures
        r@ == uppercase(s@),
{
    s.to_uppercase()
}

// ---------------------------------------------------------------------------
// Operands.

/// The start of every message about a line.
pub open spec fn line_prefix(n: nat) -> Seq<char> {
    "Line "@ + digits(n) + ": "@
}

pub open spec fn is_quoted(t: Seq<char>) -> bool {
    t.len() >= 2 && t[0] == '"' && t.last() == '"'
}

pub open spec fn unquote(t: Seq<char>) -> Seq<char> {
    t.subrange(1, t.len() - 1)
}

/// A register operand: `R` or `r` followed by a number.
pub open spec fn register_spec(tok: Seq<char>) -> Result<usize, Seq<char>> {
    let t = trim(tok);
    if !(t.len() >= 2 && (t[0] == 'R' || t[0] == 'r')) {
        Err("Register token '"@ + t + "' must start with 'R' or 'r'"@)
    } else {
        match parse_usize_spec(t.drop_first()) {
            Ok(v) => Ok(v as usize),
            Err(e) => Err("Failed to parse register number in '"@ + t + "': "@ + int_error_text(e)),
        }
    }
}

/// A string operand: quoted, or bare without spaces.
pub open spec fn string_spec(tok: Seq<char>) -> Result<Seq<char>, Seq<char>> {
    let t = trim(tok);
    if is_quoted(t) {
        Ok(unquote(t))
    } else if t.contains(' ') {
        Err("Expected a quoted string if spaces are present: "@ + t)
    } else {
        Ok(t)
    }
}

/// A name operand: quoted or bare.
pub open spec fn ident_spec(tok: Seq<char>) -> Seq<char> {
    let t = trim(tok);
    if is_quoted(t) { unquote(t) } else { t }
}

/// A term operand: a register (as a variable), a quoted string, an integer,
/// or a bare string without spaces.
pub open spec fn term_literal_spec(tok: Seq<char>) -> Result<TermV, Seq<char>> {
    let t = trim(tok);
    if t.len() > 0 && (t[0] == 'R' || t[0] == 'r') {
        match register_spec(t) {
            Ok(r) => Ok(TermV::Var(r)),
            Err(e) => Err(e),
        }
    } else if is_quoted(t) {
        Ok(TermV::Str(unquote(t)))
    } else if parse_i32_spec(t) is Ok {
        Ok(TermV::Const(parse_i32_spec(t)->Ok_0 as i32))
    } else if t.contains(' ') {
        Err("Expected a quoted string if spaces are present: "@ + t)
    } else {
        Ok(TermV::Str(t))
    }
}

/// Register operands, read left to right up to the first error.
pub open spec fn registers_spec(toks: Seq<Seq<char>>) -> Result<Seq<usize>, Seq<char>>
    decreases toks.len(),
{
    if toks.len() == 0 {
        Ok(Seq::empty())
    } else {
        match registers_spec(toks.drop_last()) {
            Err(e) => Err(e),
            Ok(v) => match register_spec(toks.last()) {
                Err(e) => Err(e),
                Ok(r) => Ok(v.push(r)),
            },
        }
    }
}

/// The message for a wrong number of operands.
pub open spec fn count_msg(n: nat, name: Seq<char>, expect: Seq<char>, got: nat) -> Seq<char> {
    line_prefix(n) + name + " expects "@ + expect + ", got "@ + digits(got)
}

/// The message for an integer operand that could not be read.
pub open spec fn int_msg(n: nat, what: Seq<char>, name: Seq<char>, e: IntError) -> Seq<char> {
    line_prefix(n) + "failed to parse "@ + what + " in "@ + name + ": "@ + int_error_text(e)
}

pub open spec fn usize_operand(t: Seq<char>, n: nat, what: Seq<char>, name: Seq<char>) -> Result<usize, Seq<char>> {
    match parse_usize_spec(t) {
        Ok(v) => Ok(v as usize),
        Err(e) => Err(int_msg(n, what, name, e)),
    }
}

// ---------------------------------------------------------------------------
// Operand lists by instruction shape.

pub open spec fn no_params(p: Seq<Seq<char>>, n: nat, name: Seq<char>) -> Result<(), Seq<char>> {
    if p.len() != 0 { Err(count_msg(n, name, "no parameters"@, p.len())) } else { Ok(()) }
}

pub open spec fn reg_i32_params(p: Seq<Seq<char>>, n: nat, name: Seq<char>) -> Result<(usize, i32), Seq<char>> {
    if p.len() != 2 {
        Err(count_msg(n, name, "2 parameters"@, p.len()))
    } else {
        match register_spec(p[0]) {
            Err(e) => Err(e),
            Ok(r) => match parse_i32_spec(p[1]) {
                Err(e) => Err(int_msg(n, "integer"@, name, e)),
                Ok(v) => Ok((r, v as i32)),
            },
        }
    }
}

pub open spec fn reg_var_params(p: Seq<Seq<char>>, n: nat, name: Seq<char>) -> Result<(usize, usize, Seq<char>), Seq<char>> {
    if p.len() != 3 {
        Err(count_msg(n, name, "3 parameters"@, p.len()))
    } else {
        match register_spec(p[0]) {
            Err(e) => Err(e),
            Ok(r) => match usize_operand(p[1], n, "variable id"@, name) {
                Err(e) => Err(e),
                Ok(id) => match string_spec(p[2]) {
                    Err(e) => Err(e),
                    Ok(s) => Ok((r, id, s)),
                },
            },
        }
    }
}

pub open spec fn ident_params(p: Seq<Seq<char>>, n: nat, name: Seq<char>) -> Result<Seq<char>, Seq<char>> {
    if p.len() != 1 { Err(count_msg(n, name, "1 parameter"@, p.len())) } else { Ok(ident_spec(p[0])) }
}

pub open spec fn usize_params(p: Seq<Seq<char>>, n: nat, what: Seq<char>, name: Seq<char>) -> Result<usize, Seq<char>> {
    if p.len() != 1 { Err(count_msg(n, name, "1 parameter"@, p.len())) } else { usize_operand(p[0], n, what, name) }
}

pub open spec fn arithmetic_params(p: Seq<Seq<char>>, n: nat) -> Result<(usize, Expr), Seq<char>> {
    if p.len() != 2 {
        Err(count_msg(n, "ARITHMETIC_IS"@, "2 parameters"@, p.len()))
    } else {
        match register_spec(p[0]) {
            Err(e) => Err(e),
            Ok(r) => match parse_expression_spec(p[1]) {
                Err(e) => Err(line_prefix(n) + "failed to parse expression in ARITHMETIC_IS: "@ + e),
                Ok(x) => Ok((r, x)),
            },
        }
    }
}

pub open spec fn set_local_params(p: Seq<Seq<char>>, n: nat) -> Result<(usize, TermV), Seq<char>> {
    if p.len() != 2 {
        Err(count_msg(n, "SET_LOCAL"@, "2 parameters"@, p.len()))
    } else {
        match usize_operand(p[0], n, "index"@, "SET_LOCAL"@) {
            Err(e) => Err(e),
            Ok(i) => match term_literal_spec(p[1]) {
                Err(e) => Err(e),
                Ok(t) => Ok((i, t)),
            },
        }
    }
}

pub open spec fn get_local_params(p: Seq<Seq<char>>, n: nat) -> Result<(usize, usize), Seq<char>> {
    if p.len() != 2 {
        Err(count_msg(n, "GET_LOCAL"@, "2 parameters"@, p.len()))
    } else {
        match usize_operand(p[0], n, "index"@, "GET_LOCAL"@) {
            Err(e) => Err(e),
            Ok(i) => match register_spec(p[1]) {
                Err(e) => Err(e),
                Ok(r) => Ok((i, r)),
            },
        }
    }
}

pub open spec fn get_structure_params(p: Seq<Seq<char>>, n: nat) -> Result<(usize, Seq<char>, usize), Seq<char>> {
    if p.len() != 3 {
        Err(count_msg(n, "GET_STRUCTURE"@, "3 parameters"@, p.len()))
    } else {
        match register_spec(p[0]) {
            Err(e) => Err(e),
            Ok(r) => match usize_operand(p[2], n, "arity"@, "GET_STRUCTURE"@) {
                Err(e) => Err(e),
                Ok(a) => Ok((r, ident_spec(p[1]), a)),
            },
        }
    }
}

pub open spec fn indexed_call_params(p: Seq<Seq<char>>, n: nat) -> Result<(Seq<char>, usize), Seq<char>> {
    if p.len() != 2 {
        Err(count_msg(n, "INDEXED_CALL"@, "2 parameters"@, p.len()))
    } else {
        match register_spec(p[1]) {
            Err(e) => Err(e),
            Ok(r) => Ok((ident_spec(p[0]), r)),
        }
    }
}

pub open spec fn multi_indexed_call_params(p: Seq<Seq<char>>, n: nat) -> Result<(Seq<char>, Seq<usize>), Seq<char>> {
    if p.len() < 2 {
        Err(count_msg(n, "MULTI_INDEXED_CALL"@, "at least 2 parameters"@, p.len()))
    } else {
        match registers_spec(p.skip(1)) {
            Err(e) => Err(e),
            Ok(rs) => Ok((ident_spec(p[0]), rs)),
        }
    }
}

pub open spec fn clause_params(p: Seq<Seq<char>>, n: nat, name: Seq<char>) -> Result<(Seq<char>, usize), Seq<char>> {
    if p.len() != 2 {
        Err(count_msg(n, name, "2 parameters"@, p.len()))
    } else {
        match usize_operand(p[1], n, "address"@, name) {
            Err(e) => Err(e),
            Ok(a) => Ok((ident_spec(p[0]), a)),
        }
    }
}

pub open spec fn build_compound_params(p: Seq<Seq<char>>, n: nat) -> Result<(usize, Seq<char>, Seq<usize>), Seq<char>> {
    if p.len() < 3 {
        Err(count_msg(n, "BUILD_COMPOUND"@, "at least 3 parameters"@, p.len()))
    } else {
        match register_spec(p[0]) {
            Err(e) => Err(e),
            Ok(t) => match registers_spec(p.skip(2)) {
                Err(e) => Err(e),
                Ok(rs) => Ok((t, ident_spec(p[1]), rs)),
            },
        }
    }
}

pub open spec fn reg_string_params(p: Seq<Seq<char>>, n: nat, name: Seq<char>) -> Result<(usize, Seq<char>), Seq<char>> {
    if p.len() != 2 {
        Err(count_msg(n, name, "2 parameters"@, p.len()))
    } else {
        match register_spec(p[0]) {
            Err(e) => Err(e),
            Ok(r) => match string_spec(p[1]) {
                Err(e) => Err(e),
                Ok(s) => Ok((r, s)),
            },
        }
    }
}

pub open spec fn move_params(p: Seq<Seq<char>>, n: nat) -> Result<(usize, usize), Seq<char>> {
    if p.len() != 2 {
        Err(count_msg(n, "MOVE"@, "2 parameters"@, p.len()))
    } else {
        match register_spec(p[0]) {
            Err(e) => Err(e),
            Ok(s) => match register_spec(p[1]) {
                Err(e) => Err(e),
                Ok(d) => Ok((s, d)),
            },
        }
    }
}

/// A `CHOICE` line: the bare mnemonic, as the listing writes it, or the
/// mnemonic with one alternative address. This machine's choice points
/// resume two instructions after themselves, so the address is read and
/// checked but not kept.
pub open spec fn choice_params(p: Seq<Seq<char>>, n: nat) -> Result<(), Seq<char>> {
    if p.len() == 0 {
        Ok(())
    } else {
        match usize_params(p, n, "alternative"@, "CHOICE"@) {
            Ok(_) => Ok(()),
            Err(e) => Err(e),
        }
    }
}

/// The instruction named by an upper-case mnemonic with its operands, read
/// on line `n`.
pub open spec fn instr_spec(m: Seq<char>, p: Seq<Seq<char>>, n: nat) -> Result<InstrV, Seq<char>> {
    if m == "PUT_CONST"@ {
        match reg_i32_params(p, n, m) { Ok((r, v)) => Ok(InstrV::PutConst { register: r, value: v }), Err(e) => Err(e) }
    } else if m == "PUT_VAR"@ {
        match reg_var_params(p, n, m) { Ok((r, id, s)) => Ok(InstrV::PutVar { register: r, var_id: id, name: s }), Err(e) => Err(e) }
    } else if m == "GET_CONST"@ {
        match reg_i32_params(p, n, m) { Ok((r, v)) => Ok(InstrV::GetConst { register: r, value: v }), Err(e) => Err(e) }
    } else if m == "GET_VAR"@ {
        match reg_var_params(p, n, m) { Ok((r, id, s)) => Ok(InstrV::GetVar { register: r, var_id: id, name: s }), Err(e) => Err(e) }
    } else if m == "CALL"@ {
        match ident_params(p, n, m) { Ok(f) => Ok(InstrV::Call { predicate: f }), Err(e) => Err(e) }
    } else if m == "PROCEED"@ {
        match no_params(p, n, m) { Ok(_) => Ok(InstrV::Proceed), Err(e) => Err(e) }
    } else if m == "CHOICE"@ {
        match choice_params(p, n) { Ok(_) => Ok(InstrV::Choice), Err(e) => Err(e) }
    } else if m == "ALLOCATE"@ {
        match usize_params(p, n, "integer"@, m) { Ok(k) => Ok(InstrV::Allocate { n: k }), Err(e) => Err(e) }
    } else if m == "DEALLOCATE"@ {
        match no_params(p, n, m) { Ok(_) => Ok(InstrV::Deallocate), Err(e) => Err(e) }
    } else if m == "ARITHMETIC_IS"@ {
        match arithmetic_params(p, n) { Ok((r, x)) => Ok(InstrV::ArithmeticIs { target: r, expression: x }), Err(e) => Err(e) }
    } else if m == "SET_LOCAL"@ {
        match set_local_params(p, n) { Ok((i, t)) => Ok(InstrV::SetLocal { index: i, value: t }), Err(e) => Err(e) }
    } else if m == "GET_LOCAL"@ {
        match get_local_params(p, n) { Ok((i, r)) => Ok(InstrV::GetLocal { index: i, register: r }), Err(e) => Err(e) }
    } else if m == "FAIL"@ {
        match no_params(p, n, m) { Ok(_) => Ok(InstrV::Fail), Err(e) => Err(e) }
    } else if m == "GET_STRUCTURE"@ {
        match get_structure_params(p, n) { Ok((r, f, a)) => Ok(InstrV::GetStructure { register: r, functor: f, arity: a }), Err(e) => Err(e) }
    } else if m == "INDEXED_CALL"@ {
        match indexed_call_params(p, n) { Ok((f, r)) => Ok(InstrV::IndexedCall { predicate: f, index_register: r }), Err(e) => Err(e) }
    } else if m == "MULTI_INDEXED_CALL"@ {
        match multi_indexed_call_params(p, n) { Ok((f, rs)) => Ok(InstrV::MultiIndexedCall { predicate: f, index_registers: rs }), Err(e) => Err(e) }
    } else if m == "TAIL_CALL"@ {
        match ident_params(p, n, m) { Ok(f) => Ok(InstrV::TailCall { predicate: f }), Err(e) => Err(e) }
    } else if m == "ASSERT_CLAUSE"@ {
        match clause_params(p, n, m) { Ok((f, a)) => Ok(InstrV::AssertClause { predicate: f, address: a }), Err(e) => Err(e) }
    } else if m == "RETRACT_CLAUSE"@ {
        match clause_params(p, n, m) { Ok((f, a)) => Ok(InstrV::RetractClause { predicate: f, address: a }), Err(e) => Err(e) }
    } else if m == "CUT"@ {
        match no_params(p, n, m) { Ok(_) => Ok(InstrV::Cut), Err(e) => Err(e) }
    } else if m == "BUILD_COMPOUND"@ {
        match build_compound_params(p, n) { Ok((t, f, rs)) => Ok(InstrV::BuildCompound { target: t, functor: f, arg_registers: rs }), Err(e) => Err(e) }
    } else if m == "PUT_STR"@ {
        match reg_string_params(p, n, m) { Ok((r, v)) => Ok(InstrV::PutStr { register: r, value: v }), Err(e) => Err(e) }
    } else if m == "GET_STR"@ {
        match reg_string_params(p, n, m) { Ok((r, v)) => Ok(InstrV::GetStr { register: r, value: v }), Err(e) => Err(e) }
    } else if m == "MOVE"@ {
        match move_params(p, n) { Ok((a, b)) => Ok(InstrV::Move { src: a, dst: b }), Err(e) => Err(e) }
    } else if m == "HALT"@ {
        match no_params(p, n, m) { Ok(_) => Ok(InstrV::Halt), Err(e) => Err(e) }
    } else {
        Err(line_prefix(n) + "unknown instruction mnemonic '"@ + m + "'"@)
    }
}

/// The tokens of a line: its comma-separated pieces, trimmed.
pub open spec fn line_tokens(t: Seq<char>) -> Seq<Seq<char>> {
    split(t, ',').map_values(|x: Seq<char>| trim(x))
}

/// What line `n` of a program holds: nothing (blank or a comment starting
/// with `;` or `#`), an instruction, or an error.
pub open spec fn line_spec(line: Seq<char>, n: nat) -> Option<Result<InstrV, Seq<char>>> {
    let t = trim(line);
    if t.len() == 0 || t[0] == ';' || t[0] == '#' {
        None
    } else {
        let toks = line_tokens(t);
        if exists|i: int| 0 <= i < toks.len() && toks[i].len() == 0 {
            Some(Err(line_prefix(n) + "Empty token detected: possible trailing comma or missing parameter"@))
        } else {
            let ws = words(toks[0]);
            if ws.len() == 0 {
                Some(Err(line_prefix(n) + "missing mnemonic"@))
            } else {
                Some(instr_spec(uppercase(ws[0]), ws.drop_first() + toks.drop_first(), n))
            }
        }
    }
}

/// The instructions of the first `k` lines, or the error of the first line
/// that has one.
pub open spec fn lines_spec(lines: Seq<Seq<char>>, k: int) -> Result<Seq<InstrV>, Seq<char>>
    decreases k,
{
    if k <= 0 {
        Ok(Seq::empty())
    } else {
        match lines_spec(lines, k - 1) {
            Err(e) => Err(e),
            Ok(v) => match line_spec(lines[k - 1], k as nat) {
                None => Ok(v),
                Some(Ok(i)) => Ok(v.push(i)),
                Some(Err(e)) => Err(e),
            },
        }
    }
}

/// The program held by a text, one instruction per line.
pub open spec fn parse_instructions_spec(input: Seq<char>) -> Result<Seq<InstrV>, Seq<char>> {
    let lines = split(input, '\n');
    lines_spec(lines, lines.len() as int)
}

// ---------------------------------------------------------------------------
// Reading operands.

/// Whether the characters of `v` are those of `s`.
pub fn chars_eq(v: &Vec<char>, s: &str) -> (r: bool)
    ensures
        r == (v@ == s@),
{
    let n = s.unicode_len();
    if v.len() != n {
        return false;
    }
    let mut i: usize = 0;
    while i < n
        invariant
            n == s@.len(),
            n == v@.len(),
            i <= n,
            forall|j: int| 0 <= j < i ==> v@[j] == s@[j],
        decreases n - i,
    {
        if v[i] != s.get_char(i) {
            return false;
        }
        i += 1;
    }
    proof {
        assert(v@ =~= s@);
    }
    true
}

fn contains_char(v: &Vec<char>, c: char) -> (r: bool)
    ensures
        r == v@.contains(c),
{
    let mut i: usize = 0;
    while i < v.len()
        invariant
            i <= v@.len(),
            forall|j: int| 0 <= j < i ==> v@[j] != c,
        decreases v.len() - i,
    {
        if v[i] == c {
            return true;
        }
        i += 1;
    }
    false
}

fn quoted_chars(t: &Vec<char>) -> (r: bool)
    ensures
        r == is_quoted(t@),
{
    t.len() >= 2 && t[0] == '"' && t[t.len() - 1] == '"'
}

fn unquoted(t: &Vec<char>) -> (r: Vec<char>)
    requires
        is_quoted(t@),
    ensures
        r@ == unquote(t@),
{
    copy_range(t, 1, t.len() - 1)
}

pub(crate) fn line_prefix_chars(n: usize) -> (r: Vec<char>)
    ensures
        r@ == line_prefix(n as nat),
{
    proof {
        reveal_strlit("Line ");
        reveal_strlit(": ");
    }
    let mut out: Vec<char> = Vec::new();
    push_str(&mut out, "Line ");
    push_usize(&mut out, n);
    push_str(&mut out, ": ");
    out
}

fn count_error(n: usize, name: &str, expect: &str, got: usize) -> (r: String)
    ensures
        r@ == count_msg(n as nat, name@, expect@, got as nat),
{
    proof {
        reveal_strlit(" expects ");
        reveal_strlit(", got ");
    }
    let mut out = line_prefix_chars(n);
    push_str(&mut out, name);
    push_str(&mut out, " expects ");
    push_str(&mut out, expect);
    push_str(&mut out, ", got ");
    push_usize(&mut out, got);
    proof {
        assert(out@ =~= count_msg(n as nat, name@, expect@, got as nat));
    }
    chars_to_string(&out)
}

fn int_error_message(n: usize, what: &str, name: &str, e: IntError) -> (r: String)
    ensures
        r@ == int_msg(n as nat, what@, name@, e),
{
    proof {
        reveal_strlit("failed to parse ");
        reveal_strlit(" in ");
        reveal_strlit(": ");
    }
    let mut out = line_prefix_chars(n);
    push_str(&mut out, "failed to parse ");
    push_str(&mut out, what);
    push_str(&mut out, " in ");
    push_str(&mut out, name);
    push_str(&mut out, ": ");
    push_int_error(&mut out, e);
    proof {
        assert(out@ =~= int_msg(n as nat, what@, name@, e));
    }
    chars_to_string(&out)
}

pub(crate) fn push_chars(out: &mut Vec<char>, v: &Vec<char>)
    ensures
        final(out)@ == old(out)@ + v@,
{
    let mut i: usize = 0;
    while i < v.len()
        invariant
            i <= v@.len(),
            out@ == old(out)@ + v@.subrange(0, i as int),
        decreases v.len() - i,
    {
        out.push(v[i]);
        i += 1;
        proof {
            assert(out@ =~= old(out)@ + v@.subrange(0, i as int));
        }
    }
    proof {
        assert(v@.subrange(0, v@.len() as int) =~= v@);
    }
}

/// Reads a register operand (see `register_spec`).
fn register_operand(tok: &Vec<char>) -> (r: Result<usize, String>)
    ensures
        match r {
            Ok(v) => register_spec(tok@) == Ok::<usize, Seq<char>>(v),
            Err(e) => register_spec(tok@) == Err::<usize, Seq<char>>(e@),
        },
{
    let t = trim_chars(tok);
    if !(t.len() >= 2 && (t[0] == 'R' || t[0] == 'r')) {
        proof {
            reveal_strlit("Register token '");
            reveal_strlit("' must start with 'R' or 'r'");
        }
        let mut out: Vec<char> = Vec::new();
        push_str(&mut out, "Register token '");
        push_chars(&mut out, &t);
        push_str(&mut out, "' must start with 'R' or 'r'");
        return Err(chars_to_string(&out));
    }
    let digits_part = copy_range(&t, 1, t.len());
    proof {
        assert(digits_part@ =~= t@.drop_first());
    }
    match parse_usize(&digits_part) {
        Ok(v) => Ok(v),
        Err(e) => {
            proof {
                reveal_strlit("Failed to parse register number in '");
                reveal_strlit("': ");
            }
            let mut out: Vec<char> = Vec::new();
            push_str(&mut out, "Failed to parse register number in '");
            push_chars(&mut out, &t);
            push_str(&mut out, "': ");
            push_int_error(&mut out, e);
            proof {
                assert(out@ =~= "Failed to parse register number in '"@ + t@ + "': "@ + int_error_text(e));
            }
            Err(chars_to_string(&out))
        },
    }
}

fn spaces_error(t: &Vec<char>) -> (r: String)
    ensures
        r@ == "Expected a quoted string if spaces are present: "@ + t@,
{
    let mut out: Vec<char> = Vec::new();
    push_str(&mut out, "Expected a quoted string if spaces are present: ");
    push_chars(&mut out, t);
    chars_to_string(&out)
}

/// Reads a string operand (see `string_spec`).
fn string_operand(tok: &Vec<char>) -> (r: Result<String, String>)
    ensures
        match r {
            Ok(v) => string_spec(tok@) == Ok::<Seq<char>, Seq<char>>(v@),
            Err(e) => string_spec(tok@) == Err::<Seq<char>, Seq<char>>(e@),
        },
{
    let t = trim_chars(tok);
    if quoted_chars(&t) {
        Ok(chars_to_string(&unquoted(&t)))
    } else if contains_char(&t, ' ') {
        Err(spaces_error(&t))
    } else {
        Ok(chars_to_string(&t))
    }
}

/// Reads a name operand (see `ident_spec`).
fn ident_operand(tok: &Vec<char>) -> (r: String)
    ensures
        r@ == ident_spec(tok@),
{
    let t = trim_chars(tok);
    if quoted_chars(&t) {
        chars_to_string(&unquoted(&t))
    } else {
        chars_to_string(&t)
    }
}

/// Reads a term operand (see `term_literal_spec`).
fn term_operand(tok: &Vec<char>) -> (r: Result<Term, String>)
    ensures
        match r {
            Ok(v) => term_literal_spec(tok@) == Ok::<TermV, Seq<char>>(v@),
            Err(e) => term_literal_spec(tok@) == Err::<TermV, Seq<char>>(e@),
        },
{
    let t = trim_chars(tok);
    if t.len() > 0 && (t[0] == 'R' || t[0] == 'r') {
        match register_operand(&t) {
            Ok(r) => Ok(Term::Var(r)),
            Err(e) => Err(e),
        }
    } else if quoted_chars(&t) {
        Ok(Term::Str(chars_to_string(&unquoted(&t))))
    } else {
        match parse_i32(&t) {
            Ok(v) => Ok(Term::Const(v)),
            Err(_) => {
                if contains_char(&t, ' ') {
                    Err(spaces_error(&t))
                } else {
                    Ok(Term::Str(chars_to_string(&t)))
                }
            },
        }
    }
}

fn usize_operand_exec(t: &Vec<char>, n: usize, what: &str, name: &str) -> (r: Result<usize, String>)
    ensures
        match r {
            Ok(v) => usize_operand(t@, n as nat, what@, name@) == Ok::<usize, Seq<char>>(v),
            Err(e) => usize_operand(t@, n as nat, what@, name@) == Err::<usize, Seq<char>>(e@),
        },
{
    match parse_usize(t) {
        Ok(v) => Ok(v),
        Err(e) => Err(int_error_message(n, what, name, e)),
    }
}

/// Reads the register operands from position `from` on.
fn registers_from(toks: &Vec<Vec<char>>, from: usize) -> (r: Result<Vec<usize>, String>)
    requires
        from <= toks@.len(),
    ensures
        match r {
            Ok(v) => registers_spec(pieces_view(toks@).skip(from as int)) == Ok::<Seq<usize>, Seq<char>>(v@),
            Err(e) => registers_spec(pieces_view(toks@).skip(from as int)) == Err::<Seq<usize>, Seq<char>>(e@),
        },
{
    let ghost q = pieces_view(toks@).skip(from as int);
    let mut out: Vec<usize> = Vec::new();
    let mut i: usize = from;
    proof {
        assert(q.take(0) =~= Seq::<Seq<char>>::empty());
    }
    while i < toks.len()
        invariant
            from <= i <= toks@.len(),
            q == pieces_view(toks@).skip(from as int),
            registers_spec(q.take(i - from)) == Ok::<Seq<usize>, Seq<char>>(out@),
        decreases toks.len() - i,
    {
        let ghost next = q.take(i + 1 - from);
        proof {
            assert(next.drop_last() =~= q.take(i - from));
            assert(next.last() == toks@[i as int]@);
        }
        match register_operand(&toks[i]) {
            Ok(r) => {
                out.push(r);
            },
            Err(e) => {
                proof {
                    lemma_registers_prefix_err(q, i + 1 - from);
                }
                return Err(e);
            },
        }
        i += 1;
    }
    proof {
        assert(q.take(toks@.len() - from) =~= q);
    }
    Ok(out)
}

/// An error in a prefix of the operands is the error of all of them.
proof fn lemma_registers_prefix_err(q: Seq<Seq<char>>, k: int)
    requires
        0 <= k <= q.len(),
        registers_spec(q.take(k)) is Err,
    ensures
        registers_spec(q) == registers_spec(q.take(k)),
    decreases q.len() - k,
{
    if k == q.len() {
        assert(q.take(k) =~= q);
    } else {
        assert(q.take(k + 1).drop_last() =~= q.take(k));
        lemma_registers_prefix_err(q, k + 1);
    }
}

fn no_params_exec(params: &Vec<Vec<char>>, n: usize, name: &str) -> (r: Result<(), String>)
    ensures
        match r {
            Ok(x) => no_params(pieces_view(params@), n as nat, name@) == Ok::<(), Seq<char>>(x),
            Err(e) => no_params(pieces_view(params@), n as nat, name@) == Err::<(), Seq<char>>(e@),
        },
{
    if params.len() != 0 {
        return Err(count_error(n, name, "no parameters", params.len()));
    }
    Ok(())
}

fn reg_i32_exec(params: &Vec<Vec<char>>, n: usize, name: &str) -> (r: Result<(usize, i32), String>)
    ensures
        match r {
            Ok(x) => reg_i32_params(pieces_view(params@), n as nat, name@) == Ok::<(usize, i32), Seq<char>>(x),
            Err(e) => reg_i32_params(pieces_view(params@), n as nat, name@) == Err::<(usize, i32), Seq<char>>(e@),
        },
{
    if params.len() != 2 {
        return Err(count_error(n, name, "2 parameters", params.len()));
    }
    let r = match register_operand(&params[0]) {
        Ok(r) => r,
        Err(e) => return Err(e),
    };
    match parse_i32(&params[1]) {
        Ok(v) => Ok((r, v)),
        Err(e) => Err(int_error_message(n, "integer", name, e)),
    }
}

fn reg_var_exec(params: &Vec<Vec<char>>, n: usize, name: &str) -> (r: Result<(usize, usize, String), String>)
    ensures
        match r {
            Ok((a, b, c)) => reg_var_params(pieces_view(params@), n as nat, name@) == Ok::<(usize, usize, Seq<char>), Seq<char>>((a, b, c@)),
            Err(e) => reg_var_params(pieces_view(params@), n as nat, name@) == Err::<(usize, usize, Seq<char>), Seq<char>>(e@),
        },
{
    if params.len() != 3 {
        return Err(count_error(n, name, "3 parameters", params.len()));
    }
    let r = match register_operand(&params[0]) {
        Ok(r) => r,
        Err(e) => return Err(e),
    };
    let id = match usize_operand_exec(&params[1], n, "variable id", name) {
        Ok(v) => v,
        Err(e) => return Err(e),
    };
    match string_operand(&params[2]) {
        Ok(s) => Ok((r, id, s)),
        Err(e) => Err(e),
    }
}

fn ident_exec(params: &Vec<Vec<char>>, n: usize, name: &str) -> (r: Result<String, String>)
    ensures
        match r {
            Ok(x) => ident_params(pieces_view(params@), n as nat, name@) == Ok::<Seq<char>, Seq<char>>(x@),
            Err(e) => ident_params(pieces_view(params@), n as nat, name@) == Err::<Seq<char>, Seq<char>>(e@),
        },
{
    if params.len() != 1 {
        return Err(count_error(n, name, "1 parameter", params.len()));
    }
    Ok(ident_operand(&params[0]))
}

fn usize_exec(params: &Vec<Vec<char>>, n: usize, what: &str, name: &str) -> (r: Result<usize, String>)
    ensures
        match r {
            Ok(x) => usize_params(pieces_view(params@), n as nat, what@, name@) == Ok::<usize, Seq<char>>(x),
            Err(e) => usize_params(pieces_view(params@), n as nat, what@, name@) == Err::<usize, Seq<char>>(e@),
        },
{
    if params.len() != 1 {
        return Err(count_error(n, name, "1 parameter", params.len()));
    }
    usize_operand_exec(&params[0], n, what, name)
}

fn arithmetic_exec(params: &Vec<Vec<char>>, n: usize) -> (r: Result<(usize, Expr), String>)
    ensures
        match r {
            Ok(x) => arithmetic_params(pieces_view(params@), n as nat) == Ok::<(usize, Expr), Seq<char>>(x),
            Err(e) => arithmetic_params(pieces_view(params@), n as nat) == Err::<(usize, Expr), Seq<char>>(e@),
        },
{
    if params.len() != 2 {
        return Err(count_error(n, "ARITHMETIC_IS", "2 parameters", params.len()));
    }
    let r = match register_operand(&params[0]) {
        Ok(r) => r,
        Err(e) => return Err(e),
    };
    let text = chars_to_string(&params[1]);
    match parse_expression(text.as_str()) {
        Ok(x) => Ok((r, x)),
        Err(m) => {
            proof {
                reveal_strlit("failed to parse expression in ARITHMETIC_IS: ");
            }
            let mut out = line_prefix_chars(n);
            push_str(&mut out, "failed to parse expression in ARITHMETIC_IS: ");
            push_str(&mut out, m.as_str());
            proof {
                assert(out@ =~= line_prefix(n as nat) + "failed to parse expression in ARITHMETIC_IS: "@ + m@);
            }
            Err(chars_to_string(&out))
        },
    }
}

fn set_local_exec(params: &Vec<Vec<char>>, n: usize) -> (r: Result<(usize, Term), String>)
    ensures
        match r {
            Ok((i, t)) => set_local_params(pieces_view(params@), n as nat) == Ok::<(usize, TermV), Seq<char>>((i, t@)),
            Err(e) => set_local_params(pieces_view(params@), n as nat) == Err::<(usize, TermV), Seq<char>>(e@),
        },
{
    if params.len() != 2 {
        return Err(count_error(n, "SET_LOCAL", "2 parameters", params.len()));
    }
    let i = match usize_operand_exec(&params[0], n, "index", "SET_LOCAL") {
        Ok(v) => v,
        Err(e) => return Err(e),
    };
    match term_operand(&params[1]) {
        Ok(t) => Ok((i, t)),
        Err(e) => Err(e),
    }
}

fn get_local_exec(params: &Vec<Vec<char>>, n: usize) -> (r: Result<(usize, usize), String>)
    ensures
        match r {
            Ok(x) => get_local_params(pieces_view(params@), n as nat) == Ok::<(usize, usize), Seq<char>>(x),
            Err(e) => get_local_params(pieces_view(params@), n as nat) == Err::<(usize, usize), Seq<char>>(e@),
        },
{
    if params.len() != 2 {
        return Err(count_error(n, "GET_LOCAL", "2 parameters", params.len()));
    }
    let i = match usize_operand_exec(&params[0], n, "index", "GET_LOCAL") {
        Ok(v) => v,
        Err(e) => return Err(e),
    };
    match register_operand(&params[1]) {
        Ok(r) => Ok((i, r)),
        Err(e) => Err(e),
    }
}

fn get_structure_exec(params: &Vec<Vec<char>>, n: usize) -> (r: Result<(usize, String, usize), String>)
    ensures
        match r {
            Ok((a, b, c)) => get_structure_params(pieces_view(params@), n as nat) == Ok::<(usize, Seq<char>, usize), Seq<char>>((a, b@, c)),
            Err(e) => get_structure_params(pieces_view(params@), n as nat) == Err::<(usize, Seq<char>, usize), Seq<char>>(e@),
        },
{
    if params.len() != 3 {
        return Err(count_error(n, "GET_STRUCTURE", "3 parameters", params.len()));
    }
    let r = match register_operand(&params[0]) {
        Ok(r) => r,
        Err(e) => return Err(e),
    };
    let f = ident_operand(&params[1]);
    match usize_operand_exec(&params[2], n, "arity", "GET_STRUCTURE") {
        Ok(a) => Ok((r, f, a)),
        Err(e) => Err(e),
    }
}

fn indexed_call_exec(params: &Vec<Vec<char>>, n: usize) -> (r: Result<(String, usize), String>)
    ensures
        match r {
            Ok((a, b)) => indexed_call_params(pieces_view(params@), n as nat) == Ok::<(Seq<char>, usize), Seq<char>>((a@, b)),
            Err(e) => indexed_call_params(pieces_view(params@), n as nat) == Err::<(Seq<char>, usize), Seq<char>>(e@),
        },
{
    if params.len() != 2 {
        return Err(count_error(n, "INDEXED_CALL", "2 parameters", params.len()));
    }
    let f = ident_operand(&params[0]);
    match register_operand(&params[1]) {
        Ok(r) => Ok((f, r)),
        Err(e) => Err(e),
    }
}

fn multi_indexed_call_exec(params: &Vec<Vec<char>>, n: usize) -> (r: Result<(String, Vec<usize>), String>)
    ensures
        match r {
            Ok((a, b)) => multi_indexed_call_params(pieces_view(params@), n as nat) == Ok::<(Seq<char>, Seq<usize>), Seq<char>>((a@, b@)),
            Err(e) => multi_indexed_call_params(pieces_view(params@), n as nat) == Err::<(Seq<char>, Seq<usize>), Seq<char>>(e@),
        },
{
    if params.len() < 2 {
        return Err(count_error(n, "MULTI_INDEXED_CALL", "at least 2 parameters", params.len()));
    }
    let f = ident_operand(&params[0]);
    match registers_from(params, 1) {
        Ok(rs) => Ok((f, rs)),
        Err(e) => Err(e),
    }
}

fn clause_exec(params: &Vec<Vec<char>>, n: usize, name: &str) -> (r: Result<(String, usize), String>)
    ensures
        match r {
            Ok((a, b)) => clause_params(pieces_view(params@), n as nat, name@) == Ok::<(Seq<char>, usize), Seq<char>>((a@, b)),
            Err(e) => clause_params(pieces_view(params@), n as nat, name@) == Err::<(Seq<char>, usize), Seq<char>>(e@),
        },
{
    if params.len() != 2 {
        return Err(count_error(n, name, "2 parameters", params.len()));
    }
    let f = ident_operand(&params[0]);
    match usize_operand_exec(&params[1], n, "address", name) {
        Ok(a) => Ok((f, a)),
        Err(e) => Err(e),
    }
}

fn build_compound_exec(params: &Vec<Vec<char>>, n: usize) -> (r: Result<(usize, String, Vec<usize>), String>)
    ensures
        match r {
            Ok((a, b, c)) => build_compound_params(pieces_view(params@), n as nat) == Ok::<(usize, Seq<char>, Seq<usize>), Seq<char>>((a, b@, c@)),
            Err(e) => build_compound_params(pieces_view(params@), n as nat) == Err::<(usize, Seq<char>, Seq<usize>), Seq<char>>(e@),
        },
{
    if params.len() < 3 {
        return Err(count_error(n, "BUILD_COMPOUND", "at least 3 parameters", params.len()));
    }
    let t = match register_operand(&params[0]) {
        Ok(r) => r,
        Err(e) => return Err(e),
    };
    let f = ident_operand(&params[1]);
    match registers_from(params, 2) {
        Ok(rs) => Ok((t, f, rs)),
        Err(e) => Err(e),
    }
}

fn reg_string_exec(params: &Vec<Vec<char>>, n: usize, name: &str) -> (r: Result<(usize, String), String>)
    ensures
        match r {
            Ok((a, b)) => reg_string_params(pieces_view(params@), n as nat, name@) == Ok::<(usize, Seq<char>), Seq<char>>((a, b@)),
            Err(e) => reg_string_params(pieces_view(params@), n as nat, name@) == Err::<(usize, Seq<char>), Seq<char>>(e@),
        },
{
    if params.len() != 2 {
        return Err(count_error(n, name, "2 parameters", params.len()));
    }
    let r = match register_operand(&params[0]) {
        Ok(r) => r,
        Err(e) => return Err(e),
    };
    match string_operand(&params[1]) {
        Ok(v) => Ok((r, v)),
        Err(e) => Err(e),
    }
}

fn move_exec(params: &Vec<Vec<char>>, n: usize) -> (r: Result<(usize, usize), String>)
    ensures
        match r {
            Ok(x) => move_params(pieces_view(params@), n as nat) == Ok::<(usize, usize), Seq<char>>(x),
            Err(e) => move_params(pieces_view(params@), n as nat) == Err::<(usize, usize), Seq<char>>(e@),
        },
{
    if params.len() != 2 {
        return Err(count_error(n, "MOVE", "2 parameters", params.len()));
    }
    let a = match register_operand(&params[0]) {
        Ok(r) => r,
        Err(e) => return Err(e),
    };
    match register_operand(&params[1]) {
        Ok(b) => Ok((a, b)),
        Err(e) => Err(e),
    }
}

/// The instruction named by an upper-case mnemonic with its operands, read
/// on line `n` (see `instr_spec`).
pub fn parse_instruction(mnemonic: &Vec<char>, params: &Vec<Vec<char>>, n: usize) -> (r: Result<Instruction, String>)
    ensures
        match r {
            Ok(i) => instr_spec(mnemonic@, pieces_view(params@), n as nat) == Ok::<InstrV, Seq<char>>(i@),
            Err(e) => instr_spec(mnemonic@, pieces_view(params@), n as nat) == Err::<InstrV, Seq<char>>(e@),
        },
{
    if chars_eq(mnemonic, "PUT_CONST") {
        return match reg_i32_exec(params, n, "PUT_CONST") { Ok((r, v)) => Ok(Instruction::PutConst { register: r, value: v }), Err(e) => Err(e) };
    }
    if chars_eq(mnemonic, "PUT_VAR") {
        return match reg_var_exec(params, n, "PUT_VAR") { Ok((r, id, s)) => Ok(Instruction::PutVar { register: r, var_id: id, name: s }), Err(e) => Err(e) };
    }
    if chars_eq(mnemonic, "GET_CONST") {
        return match reg_i32_exec(params, n, "GET_CONST") { Ok((r, v)) => Ok(Instruction::GetConst { register: r, value: v }), Err(e) => Err(e) };
    }
    if chars_eq(mnemonic, "GET_VAR") {
        return match reg_var_exec(params, n, "GET_VAR") { Ok((r, id, s)) => Ok(Instruction::GetVar { register: r, var_id: id, name: s }), Err(e) => Err(e) };
    }
    if chars_eq(mnemonic, "CALL") {
        return match ident_exec(params, n, "CALL") { Ok(f) => Ok(Instruction::Call { predicate: f }), Err(e) => Err(e) };
    }
    if chars_eq(mnemonic, "PROCEED") {
        return match no_params_exec(params, n, "PROCEED") { Ok(_) => Ok(Instruction::Proceed), Err(e) => Err(e) };
    }
    if chars_eq(mnemonic, "CHOICE") {
        if params.len() == 0 {
            return Ok(Instruction::Choice);
        }
        return match usize_exec(params, n, "alternative", "CHOICE") { Ok(_) => Ok(Instruction::Choice), Err(e) => Err(e) };
    }
    if chars_eq(mnemonic, "ALLOCATE") {
        return match usize_exec(params, n, "integer", "ALLOCATE") { Ok(k) => Ok(Instruction::Allocate { n: k }), Err(e) => Err(e) };
    }
    if chars_eq(mnemonic, "DEALLOCATE") {
        return match no_params_exec(params, n, "DEALLOCATE") { Ok(_) => Ok(Instruction::Deallocate), Err(e) => Err(e) };
    }
    if chars_eq(mnemonic, "ARITHMETIC_IS") {
        return match arithmetic_exec(params, n) { Ok((r, x)) => Ok(Instruction::ArithmeticIs { target: r, expression: x }), Err(e) => Err(e) };
    }
    if chars_eq(mnemonic, "SET_LOCAL") {
        return match set_local_exec(params, n) { Ok((i, t)) => Ok(Instruction::SetLocal { index: i, value: t }), Err(e) => Err(e) };
    }
    if chars_eq(mnemonic, "GET_LOCAL") {
        return match get_local_exec(params, n) { Ok((i, r)) => Ok(Instruction::GetLocal { index: i, register: r }), Err(e) => Err(e) };
    }
    if chars_eq(mnemonic, "FAIL") {
        return match no_params_exec(params, n, "FAIL") { Ok(_) => Ok(Instruction::Fail), Err(e) => Err(e) };
    }
    if chars_eq(mnemonic, "GET_STRUCTURE") {
        return match get_structure_exec(params, n) { Ok((r, f, a)) => Ok(Instruction::GetStructure { register: r, functor: f, arity: a }), Err(e) => Err(e) };
    }
    if chars_eq(mnemonic, "INDEXED_CALL") {
        return match indexed_call_exec(params, n) { Ok((f, r)) => Ok(Instruction::IndexedCall { predicate: f, index_register: r }), Err(e) => Err(e) };
    }
    if chars_eq(mnemonic, "MULTI_INDEXED_CALL") {
        return match multi_indexed_call_exec(params, n) { Ok((f, rs)) => Ok(Instruction::MultiIndexedCall { predicate: f, index_registers: rs }), Err(e) => Err(e) };
    }
    if chars_eq(mnemonic, "TAIL_CALL") {
        return match ident_exec(params, n, "TAIL_CALL") { Ok(f) => Ok(Instruction::TailCall { predicate: f }), Err(e) => Err(e) };
    }
    if chars_eq(mnemonic, "ASSERT_CLAUSE") {
        return match clause_exec(params, n, "ASSERT_CLAUSE") { Ok((f, a)) => Ok(Instruction::AssertClause { predicate: f, address: a }), Err(e) => Err(e) };
    }
    if chars_eq(mnemonic, "RETRACT_CLAUSE") {
        return match clause_exec(params, n, "RETRACT_CLAUSE") { Ok((f, a)) => Ok(Instruction::RetractClause { predicate: f, address: a }), Err(e) => Err(e) };
    }
    if chars_eq(mnemonic, "CUT") {
        return match no_params_exec(params, n, "CUT") { Ok(_) => Ok(Instruction::Cut), Err(e) => Err(e) };
    }
    if chars_eq(mnemonic, "BUILD_COMPOUND") {
        return match build_compound_exec(params, n) { Ok((t, f, rs)) => Ok(Instruction::BuildCompound { target: t, functor: f, arg_registers: rs }), Err(e) => Err(e) };
    }
    if chars_eq(mnemonic, "PUT_STR") {
        return match reg_string_exec(params, n, "PUT_STR") { Ok((r, v)) => Ok(Instruction::PutStr { register: r, value: v }), Err(e) => Err(e) };
    }
    if chars_eq(mnemonic, "GET_STR") {
        return match reg_string_exec(params, n, "GET_STR") { Ok((r, v)) => Ok(Instruction::GetStr { register: r, value: v }), Err(e) => Err(e) };
    }
    if chars_eq(mnemonic, "MOVE") {
        return match move_exec(params, n) { Ok((a, b)) => Ok(Instruction::Move { src: a, dst: b }), Err(e) => Err(e) };
    }
    if chars_eq(mnemonic, "HALT") {
        return match no_params_exec(params, n, "HALT") { Ok(_) => Ok(Instruction::Halt), Err(e) => Err(e) };
    }
    proof {
        reveal_strlit("unknown instruction mnemonic '");
        reveal_strlit("'");
    }
    let mut out = line_prefix_chars(n);
    push_str(&mut out, "unknown instruction mnemonic '");
    push_chars(&mut out, mnemonic);
    push_str(&mut out, "'");
    proof {
        assert(out@ =~= line_prefix(n as nat) + "unknown instruction mnemonic '"@ + mnemonic@ + "'"@);
    }
    Err(chars_to_string(&out))
}

/// Appends copies of the pieces of `src` from position `from` on.
pub(crate) fn append_pieces(out: &mut Vec<Vec<char>>, src: &Vec<Vec<char>>, from: usize)
    requires
        from <= src@.len(),
    ensures
        pieces_view(final(out)@) == pieces_view(old(out)@) + pieces_view(src@).skip(from as int),
{
    let mut i: usize = from;
    while i < src.len()
        invariant
            from <= i <= src@.len(),
            pieces_view(out@) == pieces_view(old(out)@) + pieces_view(src@).subrange(from as int, i as int),
        decreases src.len() - i,
    {
        let ghost before = pieces_view(out@);
        let c = copy_range(&src[i], 0, src[i].len());
        proof {
            assert(c@ =~= src@[i as int]@);
        }
        out.push(c);
        i += 1;
        proof {
            assert(pieces_view(out@) =~= before.push(c@));
            assert(pieces_view(out@) =~= pieces_view(old(out)@) + pieces_view(src@).subrange(from as int, i as int));
        }
    }
    proof {
        assert(pieces_view(src@).subrange(from as int, src@.len() as int) =~= pieces_view(src@).skip(from as int));
    }
}

pub(crate) fn line_error(n: usize, text: &str) -> (r: String)
    ensures
        r@ == line_prefix(n as nat) + text@,
{
    let mut out = line_prefix_chars(n);
    push_str(&mut out, text);
    chars_to_string(&out)
}

/// What line `n` holds (see `line_spec`).
pub fn parse_line(line: &Vec<char>, n: usize) -> (r: Option<Result<Instruction, String>>)
    ensures
        match r {
            None => line_spec(line@, n as nat) is None,
            Some(Ok(i)) => line_spec(line@, n as nat) == Some(Ok::<InstrV, Seq<char>>(i@)),
            Some(Err(e)) => line_spec(line@, n as nat) == Some(Err::<InstrV, Seq<char>>(e@)),
        },
{
    let t = trim_chars(line);
    if t.len() == 0 || t[0] == ';' || t[0] == '#' {
        return None;
    }
    let pieces = split_chars(&t, ',');
    let ghost toks_spec = line_tokens(t@);
    proof {
        crate::lexer::lemma_split_len(t@, ',');
    }
    let mut toks: Vec<Vec<char>> = Vec::new();
    let mut any_empty = false;
    let mut i: usize = 0;
    proof {
        assert(pieces_view(toks@) =~= toks_spec.take(0));
    }
    while i < pieces.len()
        invariant
            i <= pieces@.len(),
            pieces_view(pieces@) == split(t@, ','),
            toks_spec == line_tokens(t@),
            toks_spec.len() == pieces@.len(),
            pieces_view(toks@) == toks_spec.take(i as int),
            any_empty == exists|j: int| 0 <= j < i && toks_spec[j].len() == 0,
        decreases pieces.len() - i,
    {
        let piece = trim_chars(&pieces[i]);
        proof {
            assert(piece@ == toks_spec[i as int]);
        }
        if piece.len() == 0 {
            any_empty = true;
        }
        let ghost before = pieces_view(toks@);
        toks.push(piece);
        i += 1;
        proof {
            assert(pieces_view(toks@) =~= before.push(piece@));
            assert(pieces_view(toks@) =~= toks_spec.take(i as int));
        }
    }
    proof {
        assert(pieces_view(toks@) =~= toks_spec);
    }
    if any_empty {
        return Some(Err(line_error(n, "Empty token detected: possible trailing comma or missing parameter")));
    }
    let ws = words_chars(&toks[0]);
    if ws.len() == 0 {
        return Some(Err(line_error(n, "missing mnemonic")));
    }
    let first = chars_to_string(&ws[0]);
    let upper = to_uppercase(first.as_str());
    let mnemonic = str_chars(upper.as_str());
    let mut params: Vec<Vec<char>> = Vec::new();
    append_pieces(&mut params, &ws, 1);
    append_pieces(&mut params, &toks, 1);
    proof {
        assert(pieces_view(params@) =~= words(toks_spec[0]).drop_first() + toks_spec.drop_first());
    }
    Some(parse_instruction(&mnemonic, &params, n))
}

/// An error in the first `k` lines is the error of the program.
proof fn lemma_lines_err(lines: Seq<Seq<char>>, k: int, m: int)
    requires
        0 <= k <= m,
        lines_spec(lines, k) is Err,
    ensures
        lines_spec(lines, m) == lines_spec(lines, k),
    decreases m - k,
{
    if m > k {
        lemma_lines_err(lines, k, m - 1);
    }
}

/// Reads a program written one instruction per line (see
/// `parse_instructions_spec`). Blank lines and lines starting with `;` or
/// `#` are skipped; an error names the line where it was found.
pub fn parse_instructions(input: &str) -> (r: Result<Vec<Instruction>, String>)
    ensures
        match r {
            Ok(v) => parse_instructions_spec(input@) == Ok::<Seq<InstrV>, Seq<char>>(program_view(v@)),
            Err(e) => parse_instructions_spec(input@) == Err::<Seq<InstrV>, Seq<char>>(e@),
        },
{
    let chars = str_chars(input);
    let lines = split_chars(&chars, '\n');
    let ghost ls = split(input@, '\n');
    let mut out: Vec<Instruction> = Vec::new();
    let mut i: usize = 0;
    proof {
        assert(program_view(out@) =~= Seq::<InstrV>::empty());
    }
    while i < lines.len()
        invariant
            i <= lines@.len(),
            pieces_view(lines@) == ls,
            ls == split(input@, '\n'),
            lines_spec(ls, i as int) == Ok::<Seq<InstrV>, Seq<char>>(program_view(out@)),
        decreases lines.len() - i,
    {
        proof {
            assert(ls[i as int] == lines@[i as int]@);
        }
        match parse_line(&lines[i], i + 1) {
            None => {},
            Some(Ok(ins)) => {
                let ghost before = program_view(out@);
                out.push(ins);
                proof {
                    assert(program_view(out@) =~= before.push(ins@));
                }
            },
            Some(Err(e)) => {
                proof {
                    lemma_lines_err(ls, i + 1, ls.len() as int);
                }
                return Err(e);
            },
        }
        i += 1;
    }
    Ok(out)
}

} // verus!
