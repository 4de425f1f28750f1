//! A Prolog-like language: a recursive-descent parser, and the compilation of
//! facts, queries and commands of a program file.

pub mod ast;
pub mod parser;
pub mod session;
pub mod interpreter;

use vstd::prelude::*;
use crate::instruction_parser::chars_eq;
use crate::lexer::{
    trim, split, strip_end_char, trim_char, parse_i32_spec, pieces_view, str_chars, trim_chars,
    split_chars, copy_range, parse_i32, trim_char_chars,
};
use crate::machine::{Instruction, InstrV, program_view};
use crate::prolog::parser::{is_upper, index_of, char_is_uppercase};
use crate::tables::{PredicateTable, remove_first, first_index};
use crate::term::{Term, TermV};
use crate::text::chars_to_string;

verus! {

broadcast use vstd::std_specs::vec::group_vec_axioms;

/// `s` without the leading repetitions of `p`.
pub open spec fn strip_prefixes(s: Seq<char>, p: Seq<char>) -> Seq<char>
    decreases s.len(),
{
    if p.len() > 0 && p.len() <= s.len() && s.take(p.len() as int) == p {
        strip_prefixes(s.skip(p.len() as int), p)
    } else {
        s
    }
}

/// The argument text of a command such as `assert(...).`: the text after
/// the prefix, without a closing `).` or `)`, trimmed.
pub open spec fn extract_inner_spec(input: Seq<char>, prefix: Seq<char>) -> Seq<char> {
    let w = trim(strip_prefixes(input, prefix));
    let n = w.len() as int;
    let t = if n >= 2 && w[n - 2] == ')' && w[n - 1] == '.' {
        w.take(n - 2)
    } else if n >= 1 && w[n - 1] == ')' {
        w.take(n - 1)
    } else {
        w
    };
    trim(t)
}

/// The last position of `c` in `s`.
pub open spec fn last_index_of(s: Seq<char>, c: char) -> Option<int>
    decreases s.len(),
{
    if s.len() == 0 {
        None
    } else if s.last() == c {
        Some(s.len() - 1)
    } else {
        last_index_of(s.drop_last(), c)
    }
}

/// Variable names with their ids, in order of first appearance.
pub open spec fn lookup_var(vars: Seq<(Seq<char>, usize)>, name: Seq<char>) -> Option<usize>
    decreases vars.len(),
{
    if vars.len() == 0 {
        None
    } else {
        match lookup_var(vars.drop_last(), name) {
            Some(id) => Some(id),
            None => if vars.last().0 == name { Some(vars.last().1) } else { None },
        }
    }
}

/// A non-empty argument read as a term: an integer, a double-quoted string,
/// a variable (starting with an upper-case letter, numbered from `next` on
/// in order of first appearance), or else a string; with the variables
/// known after it.
pub open spec fn arg_term(s: Seq<char>, vars: Seq<(Seq<char>, usize)>, next: int) -> (TermV, Seq<(Seq<char>, usize)>) {
    if parse_i32_spec(s) is Ok {
        (TermV::Const(parse_i32_spec(s)->Ok_0 as i32), vars)
    } else if s.len() >= 1 && s[0] == '"' && s.last() == '"' {
        (TermV::Str(trim_char(s, '"')), vars)
    } else if is_upper(s[0]) {
        match lookup_var(vars, s) {
            Some(id) => (TermV::Var(id), vars),
            None => (TermV::Var((next + vars.len()) as usize), vars.push((s, (next + vars.len()) as usize))),
        }
    } else {
        (TermV::Str(s), vars)
    }
}

/// The variables known after the first `k` arguments.
pub open spec fn vars_after(args: Seq<Seq<char>>, k: int, base: int) -> Seq<(Seq<char>, usize)>
    decreases k,
{
    if k <= 0 { Seq::empty() } else { arg_term(args[k - 1], vars_after(args, k - 1, base), base).1 }
}

/// The term of argument `k`.
pub open spec fn term_at(args: Seq<Seq<char>>, k: int, base: int) -> TermV {
    arg_term(args[k], vars_after(args, k, base), base).0
}

/// The instruction that matches (`get`) or builds (`put`) argument `i`.
pub open spec fn arg_instr(i: usize, t: TermV, name: Seq<char>, get: bool) -> InstrV {
    match t {
        TermV::Const(n) => if get { InstrV::GetConst { register: i, value: n } } else { InstrV::PutConst { register: i, value: n } },
        TermV::Var(id) => if get { InstrV::GetVar { register: i, var_id: id, name } } else { InstrV::PutVar { register: i, var_id: id, name } },
        TermV::Str(s) => if get { InstrV::GetStr { register: i, value: s } } else { InstrV::PutStr { register: i, value: s } },
        _ => InstrV::Halt,
    }
}

/// The instructions of the first `k` arguments.
pub open spec fn args_code(args: Seq<Seq<char>>, k: int, base: int, get: bool) -> Seq<InstrV>
    decreases k,
{
    if k <= 0 {
        Seq::empty()
    } else {
        args_code(args, k - 1, base, get).push(arg_instr((k - 1) as usize, term_at(args, k - 1, base), args[k - 1], get))
    }
}

/// The registers `0..n`.
pub open spec fn register_list(n: int) -> Seq<usize> {
    Seq::new(n as nat, |i: int| i as usize)
}

/// The parts of a fact or query `p(a1, ..., an).`: the predicate name and the
/// arguments, trimmed; `None` where reading it panics (no parentheses, or
/// an empty argument).
pub open spec fn call_parts(line: Seq<char>) -> Option<(Seq<char>, Seq<Seq<char>>)> {
    let l = trim(strip_end_char(trim(line), '.'));
    match (index_of(l, '('), last_index_of(l, ')')) {
        (Some(o), Some(c)) => if o + 1 <= c {
            let args = split(l.subrange(o + 1, c), ',').map_values(|a: Seq<char>| trim(a));
            if exists|i: int| 0 <= i < args.len() && args[i].len() == 0 {
                None
            } else {
                Some((trim(l.take(o)), args))
            }
        } else {
            None
        },
        _ => None,
    }
}

/// A fact compiled to the matching of its arguments in registers `0..n`,
/// the building of the compound in register `n`, and a return; with its
/// predicate name and arity.
pub open spec fn compile_fact_spec(line: Seq<char>) -> Option<(Seq<InstrV>, Seq<char>, usize)> {
    match call_parts(line) {
        None => None,
        Some((pred, args)) => {
            let n = args.len() as int;
            Some((
                args_code(args, n, 1000, true) + seq![
                    InstrV::BuildCompound { target: n as usize, functor: pred, arg_registers: register_list(n) },
                    InstrV::Proceed,
                ],
                pred,
                n as usize,
            ))
        },
    }
}

/// A query compiled to the building of its arguments in registers `0..n`,
/// the compound in register `n`, a call of its predicate, and a stop.
pub open spec fn compile_query_spec(line: Seq<char>) -> Option<Seq<InstrV>> {
    match call_parts(line) {
        None => None,
        Some((pred, args)) => {
            let n = args.len() as int;
            Some(args_code(args, n, 100, false) + seq![
                InstrV::BuildCompound { target: n as usize, functor: pred, arg_registers: register_list(n) },
                InstrV::Call { predicate: pred },
                InstrV::Proceed,
                InstrV::Halt,
            ])
        },
    }
}

fn starts_with_at(v: &Vec<char>, from: usize, p: &Vec<char>) -> (r: bool)
    requires
        from <= v@.len(),
    ensures
        r == (p@.len() <= v@.len() - from && v@.subrange(from as int, from + p@.len()) == p@),
{
    let n = v.len();
    let m = p.len();
    if m > n - from {
        return false;
    }
    let mut k: usize = 0;
    while k < m
        invariant
            n == v@.len(),
            m == p@.len(),
            m <= n - from,
            k <= m,
            forall|j: int| 0 <= j < k ==> v@[from + j] == p@[j],
        decreases m - k,
    {
        if v[from + k] != p[k] {
            proof {
                assert(v@.subrange(from as int, from + m)[k as int] != p@[k as int]);
            }
            return false;
        }
        k += 1;
    }
    proof {
        assert(v@.subrange(from as int, from + m) =~= p@);
    }
    true
}

/// `s` without the leading repetitions of `p` (see `strip_prefixes`).
pub fn strip_prefixes_exec(s: &Vec<char>, p: &Vec<char>) -> (r: Vec<char>)
    ensures
        r@ == strip_prefixes(s@, p@),
{
    let n = s.len();
    let m = p.len();
    let mut from: usize = 0;
    proof {
        assert(s@.skip(0) =~= s@);
    }
    while m > 0 && starts_with_at(s, from, p)
        invariant
            n == s@.len(),
            m == p@.len(),
            from <= n,
            strip_prefixes(s@.skip(from as int), p@) == strip_prefixes(s@, p@),
        decreases n - from,
    {
        proof {
            assert(s@.skip(from as int).take(m as int) =~= s@.subrange(from as int, from + m));
            assert(s@.skip(from as int).skip(m as int) =~= s@.skip(from + m));
        }
        from = from + m;
    }
    proof {
        if m > 0 && m <= n - from {
            assert(s@.skip(from as int).take(m as int) =~= s@.subrange(from as int, from + m));
        }
        assert(s@.subrange(from as int, n as int) =~= s@.skip(from as int));
    }
    copy_range(s, from, n)
}

/// The argument text of a command (see `extract_inner_spec`).
pub fn extract_inner(input: &str, prefix: &str) -> (r: String)
    ensures
        r@ == extract_inner_spec(input@, prefix@),
{
    let s = str_chars(input);
    let p = str_chars(prefix);
    let w = trim_chars(&strip_prefixes_exec(&s, &p));
    let k = w.len();
    let t = if k >= 2 && w[k - 2] == ')' && w[k - 1] == '.' {
        copy_range(&w, 0, k - 2)
    } else if k >= 1 && w[k - 1] == ')' {
        copy_range(&w, 0, k - 1)
    } else {
        w
    };
    proof {
        assert(w@.subrange(0, k - 2) =~= w@.take(k - 2)) by {
            if k >= 2 {}
        }
    }
    let r = trim_chars(&t);
    proof {
        if k >= 2 && w@[k - 2] == ')' && w@[k - 1] == '.' {
            assert(t@ =~= w@.take(k - 2));
        } else if k >= 1 && w@[k - 1] == ')' {
            assert(t@ =~= w@.take(k - 1));
        }
    }
    chars_to_string(&r)
}

fn last_index_exec(v: &Vec<char>, c: char) -> (r: Option<usize>)
    ensures
        match r {
            Some(i) => last_index_of(v@, c) == Some(i as int) && i < v@.len(),
            None => last_index_of(v@, c) is None,
        },
{
    let mut k: usize = v.len();
    proof {
        assert(v@.take(v@.len() as int) =~= v@);
    }
    while k > 0
        invariant
            k <= v@.len(),
            last_index_of(v@.take(k as int), c) == last_index_of(v@, c),
        decreases k,
    {
        proof {
            assert(v@.take(k as int).drop_last() =~= v@.take(k - 1));
        }
        if v[k - 1] == c {
            return Some(k - 1);
        }
        k -= 1;
    }
    None
}

fn index_exec(v: &Vec<char>, c: char) -> (r: Option<usize>)
    ensures
        match r {
            Some(i) => index_of(v@, c) == Some(i as int) && i < v@.len(),
            None => index_of(v@, c) is None,
        },
{
    let mut i: usize = 0;
    proof {
        assert(v@.take(0) =~= Seq::<char>::empty());
    }
    while i < v.len()
        invariant
            i <= v@.len(),
            index_of(v@.take(i as int), c) is None,
        decreases v.len() - i,
    {
        proof {
            assert(v@.take(i + 1).drop_last() =~= v@.take(i as int));
        }
        if v[i] == c {
            proof {
                lemma_index_prefix(v@, c, i + 1);
            }
            return Some(i);
        }
        i += 1;
    }
    proof {
        assert(v@.take(v@.len() as int) =~= v@);
    }
    None
}

proof fn lemma_index_prefix(s: Seq<char>, c: char, k: int)
    requires
        0 <= k <= s.len(),
        index_of(s.take(k), c) is Some,
    ensures
        index_of(s, c) == index_of(s.take(k), c),
    decreases s.len() - k,
{
    if k == s.len() {
        assert(s.take(k) =~= s);
    } else {
        assert(s.take(k + 1).drop_last() =~= s.take(k));
        lemma_index_prefix(s, c, k + 1);
    }
}

/// The parts of a fact or query (see `call_parts`).
fn call_parts_exec(line: &Vec<char>) -> (r: Option<(Vec<char>, Vec<Vec<char>>)>)
    ensures
        match r {
            Some((p, a)) => call_parts(line@) == Some((p@, pieces_view(a@))) && a@.len() <= line@.len() + 1,
            None => call_parts(line@) is None,
        },
{
    let t1 = trim_chars(line);
    let n1 = t1.len();
    let mut hi: usize = n1;
    proof {
        assert(t1@.subrange(0, n1 as int) =~= t1@);
    }
    while hi > 0 && t1[hi - 1] == '.'
        invariant
            hi <= t1@.len(),
            strip_end_char(t1@.subrange(0, hi as int), '.') == strip_end_char(t1@, '.'),
        decreases hi,
    {
        proof {
            assert(t1@.subrange(0, hi as int).drop_last() =~= t1@.subrange(0, hi - 1));
        }
        hi -= 1;
    }
    let l = trim_chars(&copy_range(&t1, 0, hi));
    proof {
        crate::lexer::lemma_trim_len(line@);
        crate::lexer::lemma_strip_end_len(t1@, '.');
        crate::lexer::lemma_trim_len(strip_end_char(t1@, '.'));
    }
    let o = match index_exec(&l, '(') {
        Some(o) => o,
        None => return None,
    };
    let c = match last_index_exec(&l, ')') {
        Some(c) => c,
        None => return None,
    };
    if o + 1 > c {
        return None;
    }
    let inner = copy_range(&l, o + 1, c);
    let pieces = split_chars(&inner, ',');
    let ghost args_spec = split(inner@, ',').map_values(|a: Seq<char>| trim(a));
    proof {
        crate::lexer::lemma_split_len_bound(inner@, ',');
    }
    let mut args: Vec<Vec<char>> = Vec::new();
    let mut any_empty = false;
    let mut i: usize = 0;
    while i < pieces.len()
        invariant
            i <= pieces@.len(),
            pieces_view(pieces@) == split(inner@, ','),
            args_spec == split(inner@, ',').map_values(|a: Seq<char>| trim(a)),
            args_spec.len() == pieces@.len(),
            pieces_view(args@) == args_spec.take(i as int),
            any_empty == exists|j: int| 0 <= j < i && args_spec[j].len() == 0,
        decreases pieces.len() - i,
    {
        let a = trim_chars(&pieces[i]);
        proof {
            assert(a@ == args_spec[i as int]);
        }
        if a.len() == 0 {
            any_empty = true;
        }
        let ghost before = pieces_view(args@);
        args.push(a);
        i += 1;
        proof {
            assert(pieces_view(args@) =~= before.push(a@));
            assert(pieces_view(args@) =~= args_spec.take(i as int));
        }
    }
    proof {
        assert(pieces_view(args@) =~= args_spec);
    }
    if any_empty {
        return None;
    }
    let pred = trim_chars(&copy_range(&l, 0, o));
    proof {
        assert(l@.subrange(0, o as int) =~= l@.take(o as int));
    }
    Some((pred, args))
}

fn lookup_exec(vars: &Vec<(Vec<char>, usize)>, name: &Vec<char>) -> (r: Option<usize>)
    ensures
        r == lookup_var(Seq::new(vars@.len(), |i: int| (vars@[i].0@, vars@[i].1)), name@),
{
    let ghost vs = Seq::new(vars@.len(), |i: int| (vars@[i].0@, vars@[i].1));
    let mut i: usize = 0;
    proof {
        assert(vs.take(0) =~= Seq::<(Seq<char>, usize)>::empty());
    }
    while i < vars.len()
        invariant
            i <= vars@.len(),
            vs == Seq::new(vars@.len(), |i: int| (vars@[i].0@, vars@[i].1)),
            lookup_var(vs.take(i as int), name@) is None,
        decreases vars.len() - i,
    {
        let ghost next = vs.take(i + 1);
        proof {
            assert(next.drop_last() =~= vs.take(i as int));
        }
        if vars_name_eq(&vars[i].0, name) {
            proof {
                lemma_lookup_prefix(vs, name@, i + 1);
            }
            return Some(vars[i].1);
        }
        i += 1;
    }
    proof {
        assert(vs.take(vars@.len() as int) =~= vs);
    }
    None
}

fn vars_name_eq(a: &Vec<char>, b: &Vec<char>) -> (r: bool)
    ensures
        r == (a@ == b@),
{
    if a.len() != b.len() {
        return false;
    }
    let mut i: usize = 0;
    while i < a.len()
        invariant
            i <= a@.len(),
            a@.len() == b@.len(),
            forall|j: int| 0 <= j < i ==> a@[j] == b@[j],
        decreases a.len() - i,
    {
        if a[i] != b[i] {
            return false;
        }
        i += 1;
    }
    proof {
        assert(a@ =~= b@);
    }
    true
}

proof fn lemma_lookup_prefix(vs: Seq<(Seq<char>, usize)>, name: Seq<char>, k: int)
    requires
        0 <= k <= vs.len(),
        lookup_var(vs.take(k), name) is Some,
    ensures
        lookup_var(vs, name) == lookup_var(vs.take(k), name),
    decreases vs.len() - k,
{
    if k == vs.len() {
        assert(vs.take(k) =~= vs);
    } else {
        assert(vs.take(k + 1).drop_last() =~= vs.take(k));
        lemma_lookup_prefix(vs, name, k + 1);
    }
}

pub open spec fn vars_view(vars: Seq<(Vec<char>, usize)>) -> Seq<(Seq<char>, usize)> {
    Seq::new(vars.len(), |i: int| (vars[i].0@, vars[i].1))
}

/// The instructions of the arguments (see `args_code`).
fn compile_args(args: &Vec<Vec<char>>, base: usize, get: bool) -> (r: Vec<Instruction>)
    requires
        forall|i: int| 0 <= i < args@.len() ==> args@[i]@.len() > 0,
        base + args@.len() <= usize::MAX,
    ensures
        program_view(r@) == args_code(pieces_view(args@), args@.len() as int, base as int, get),
{
    let ghost a = pieces_view(args@);
    let mut vars: Vec<(Vec<char>, usize)> = Vec::new();
    let mut out: Vec<Instruction> = Vec::new();
    let mut i: usize = 0;
    proof {
        assert(vars_view(vars@) =~= Seq::<(Seq<char>, usize)>::empty());
        assert(program_view(out@) =~= Seq::<InstrV>::empty());
    }
    while i < args.len()
        invariant
            i <= args@.len(),
            a == pieces_view(args@),
            forall|j: int| 0 <= j < args@.len() ==> args@[j]@.len() > 0,
            base + args@.len() <= usize::MAX,
            vars@.len() <= i,
            vars_view(vars@) == vars_after(a, i as int, base as int),
            program_view(out@) == args_code(a, i as int, base as int, get),
        decreases args.len() - i,
    {
        let arg = &args[i];
        proof {
            assert(a[i as int] == arg@);
        }
        let ghost vs = vars_view(vars@);
        let t = match parse_i32(arg) {
            Ok(n) => Term::Const(n),
            Err(_) => {
                let k = arg.len();
                if k >= 1 && arg[0] == '"' && arg[k - 1] == '"' {
                    Term::Str(chars_to_string(&trim_char_chars(arg, '"')))
                } else if char_is_uppercase(arg[0]) {
                    match lookup_exec(&vars, arg) {
                        Some(id) => Term::Var(id),
                        None => {
                            let id = base + vars.len();
                            vars.push((copy_range(arg, 0, arg.len()), id));
                            proof {
                                assert(arg@.subrange(0, arg@.len() as int) =~= arg@);
                                assert(vars_view(vars@) =~= vs.push((arg@, id)));
                            }
                            Term::Var(id)
                        },
                    }
                } else {
                    Term::Str(chars_to_string(arg))
                }
            },
        };
        proof {
            assert(t@ == term_at(a, i as int, base as int));
            assert(vars_view(vars@) == vars_after(a, i + 1, base as int));
        }
        let name = chars_to_string(arg);
        let ins = match t {
            Term::Const(n) => if get { Instruction::GetConst { register: i, value: n } } else { Instruction::PutConst { register: i, value: n } },
            Term::Var(id) => if get { Instruction::GetVar { register: i, var_id: id, name } } else { Instruction::PutVar { register: i, var_id: id, name } },
            Term::Str(s) => if get { Instruction::GetStr { register: i, value: s } } else { Instruction::PutStr { register: i, value: s } },
            _ => Instruction::Halt,
        };
        let ghost before = program_view(out@);
        out.push(ins);
        proof {
            assert(program_view(out@) =~= before.push(ins@));
        }
        i += 1;
    }
    out
}

fn register_vec(n: usize) -> (r: Vec<usize>)
    ensures
        r@ == register_list(n as int),
{
    let mut v: Vec<usize> = Vec::new();
    let mut i: usize = 0;
    while i < n
        invariant
            i <= n,
            v@ == register_list(i as int),
        decreases n - i,
    {
        v.push(i);
        i += 1;
        proof {
            assert(v@ =~= register_list(i as int));
        }
    }
    v
}

/// Compiles a fact `p(a1, ..., an).` (see `compile_fact_spec`), or answers
/// `None` where the text has no parentheses or an empty argument.
pub fn try_compile_fact(line: &str) -> (r: Option<(Vec<Instruction>, String, usize)>)
    requires
        line@.len() <= usize::MAX / 2,
    ensures
        match r {
            Some((code, pred, n)) => compile_fact_spec(line@) == Some((program_view(code@), pred@, n)),
            None => compile_fact_spec(line@) is None,
        },
{
    let l = str_chars(line);
    let (pred, args) = match call_parts_exec(&l) {
        Some(x) => x,
        None => return None,
    };
    proof {
        assert forall|i: int| 0 <= i < args@.len() implies args@[i]@.len() > 0 by {
            assert(pieces_view(args@)[i] == args@[i]@);
        }
    }
    let n = args.len();
    let mut code = compile_args(&args, 1000, true);
    let ghost before = program_view(code@);
    let p = chars_to_string(&pred);
    code.push(Instruction::BuildCompound { target: n, functor: chars_to_string(&pred), arg_registers: register_vec(n) });
    code.push(Instruction::Proceed);
    proof {
        assert(program_view(code@) =~= before + seq![
            InstrV::BuildCompound { target: n, functor: pred@, arg_registers: register_list(n as int) },
            InstrV::Proceed,
        ]);
    }
    Some((code, p, n))
}

/// Compiles a fact (see `compile_fact_spec`); the text must have parentheses
/// and no empty argument.
pub fn compile_fact(line: &str) -> (r: (Vec<Instruction>, String, usize))
    requires
        line@.len() <= usize::MAX / 2,
        compile_fact_spec(line@) is Some,
    ensures
        compile_fact_spec(line@) == Some((program_view(r.0@), r.1@, r.2)),
{
    match try_compile_fact(line) {
        Some(r) => r,
        None => (Vec::new(), String::new(), 0),
    }
}

/// Compiles a query `p(a1, ..., an).` (see `compile_query_spec`), or answers
/// `None` where the text has no parentheses or an empty argument.
pub fn try_compile_query(line: &str) -> (r: Option<Vec<Instruction>>)
    requires
        line@.len() <= usize::MAX / 2,
    ensures
        match r {
            Some(code) => compile_query_spec(line@) == Some(program_view(code@)),
            None => compile_query_spec(line@) is None,
        },
{
    let l = str_chars(line);
    let (pred, args) = match call_parts_exec(&l) {
        Some(x) => x,
        None => return None,
    };
    proof {
        assert forall|i: int| 0 <= i < args@.len() implies args@[i]@.len() > 0 by {
            assert(pieces_view(args@)[i] == args@[i]@);
        }
    }
    let n = args.len();
    let mut code = compile_args(&args, 100, false);
    let ghost before = program_view(code@);
    code.push(Instruction::BuildCompound { target: n, functor: chars_to_string(&pred), arg_registers: register_vec(n) });
    code.push(Instruction::Call { predicate: chars_to_string(&pred) });
    code.push(Instruction::Proceed);
    code.push(Instruction::Halt);
    proof {
        assert(program_view(code@) =~= before + seq![
            InstrV::BuildCompound { target: n, functor: pred@, arg_registers: register_list(n as int) },
            InstrV::Call { predicate: pred@ },
            InstrV::Proceed,
            InstrV::Halt,
        ]);
    }
    Some(code)
}

/// Compiles a query (see `compile_query_spec`); the text must have
/// parentheses and no empty argument.
pub fn compile_query(line: &str) -> (r: Vec<Instruction>)
    requires
        line@.len() <= usize::MAX / 2,
        compile_query_spec(line@) is Some,
    ensures
        compile_query_spec(line@) == Some(program_view(r@)),
{
    match try_compile_query(line) {
        Some(r) => r,
        None => Vec::new(),
    }
}

/// Removes the first clause address listed for the predicate of a fact;
/// whether there was one.
pub open spec fn retract_spec(table: Map<Seq<char>, Seq<usize>>, pred: Seq<char>) -> (Map<Seq<char>, Seq<usize>>, bool) {
    if table.contains_key(pred) && table[pred].len() > 0 {
        (table.insert(pred, table[pred].drop_first()), true)
    } else {
        (table, false)
    }
}

/// Retracts the first clause of the predicate named by a fact (see
/// `retract_spec`); the program code is left as it is.
pub fn retract_clause(db_code: &mut Vec<Instruction>, predicate_table: &mut PredicateTable, clause: &str) -> (r: bool)
    requires
        clause@.len() <= usize::MAX / 2,
        compile_fact_spec(clause@) is Some,
    ensures
        final(db_code)@ == old(db_code)@,
        (final(predicate_table)@, r) == retract_spec(old(predicate_table)@, (compile_fact_spec(clause@)->0).1),
{
    let (_code, pred, _arity) = compile_fact(clause);
    let first = match predicate_table.get(&pred) {
        Some(list) => if list.len() > 0 { Some(list[0]) } else { None },
        None => None,
    };
    match first {
        Some(a) => {
            let ghost l = predicate_table@[pred@];
            proof {
                crate::tables::lemma_first_index(l, a);
                assert(first_index(l, a) == Some(0int));
                assert(l.remove(0) =~= l.drop_first());
            }
            predicate_table.remove(&pred, a);
            true
        },
        None => false,
    }
}

pub open spec fn starts_with(s: Seq<char>, p: Seq<char>) -> bool {
    p.len() <= s.len() && s.take(p.len() as int) == p
}

/// What a program file has set up so far: the clause code, the predicate
/// table, the initialization query, and the lines to print.
pub struct LoadV {
    pub code: Seq<InstrV>,
    pub table: Map<Seq<char>, Seq<usize>>,
    pub query: Option<Seq<InstrV>>,
    pub output: Seq<Seq<char>>,
}

/// Adds the clause of a fact at the end of the code.
pub open spec fn add_fact(st: LoadV, fact: Seq<char>) -> Option<LoadV> {
    match compile_fact_spec(fact) {
        None => None,
        Some((code, pred, _)) => Some(LoadV {
            code: st.code + code,
            table: st.table.insert(pred, if st.table.contains_key(pred) { st.table[pred] } else { Seq::empty() }.push(st.code.len() as usize)),
            ..st
        }),
    }
}

/// One line of a program file: blank lines and comments (`%`, `//`) are
/// skipped; `:- initialization(goal).` sets the query; `assert(fact).` adds
/// a clause; `retract(fact).` removes the first clause of the fact's
/// predicate and prints `true.` or `false.`; any other line is a fact.
/// `None` where compiling the line panics.
pub open spec fn load_line(st: LoadV, line: Seq<char>) -> Option<LoadV> {
    let t = trim(line);
    if t.len() == 0 || starts_with(t, "%"@) || starts_with(t, "//"@) {
        Some(st)
    } else if starts_with(t, ":- initialization("@) {
        match compile_query_spec(extract_inner_spec(t, ":- initialization("@)) {
            None => None,
            Some(q) => Some(LoadV { query: Some(q), ..st }),
        }
    } else if starts_with(t, "assert("@) {
        add_fact(st, extract_inner_spec(t, "assert("@))
    } else if starts_with(t, "retract("@) {
        let inner = extract_inner_spec(t, "retract("@);
        match compile_fact_spec(inner) {
            None => None,
            Some((_, pred, _)) => {
                let (table, ok) = retract_spec(st.table, pred);
                Some(LoadV { table, output: st.output.push(if ok { "true."@ } else { "false."@ }), ..st })
            },
        }
    } else {
        add_fact(st, t)
    }
}

pub open spec fn load_lines(lines: Seq<Seq<char>>, k: int) -> Option<LoadV>
    decreases k,
{
    if k <= 0 {
        Some(LoadV { code: Seq::empty(), table: Map::empty(), query: None, output: Seq::empty() })
    } else {
        match load_lines(lines, k - 1) {
            None => None,
            Some(st) => load_line(st, lines[k - 1]),
        }
    }
}

/// What a program file sets up, line by line; `None` where a line panics.
pub open spec fn load_program_spec(source: Seq<char>) -> Option<LoadV> {
    let lines = split(source, '\n');
    load_lines(lines, lines.len() as int)
}

/// What a program file sets up (see `LoadV`).
pub struct LoadedProgram {
    pub code: Vec<Instruction>,
    pub table: PredicateTable,
    pub query: Option<Vec<Instruction>>,
    pub output: Vec<String>,
}

impl View for LoadedProgram {
    type V = LoadV;

    open spec fn view(&self) -> LoadV {
        LoadV {
            code: program_view(self.code@),
            table: self.table@,
            query: match self.query {
                Some(q) => Some(program_view(q@)),
                None => None,
            },
            output: Seq::new(self.output@.len(), |i: int| self.output@[i]@),
        }
    }
}

pub(crate) fn has_prefix(t: &Vec<char>, lit: &str) -> (r: bool)
    ensures
        r == starts_with(t@, lit@),
{
    let p = str_chars(lit);
    let r = starts_with_at(t, 0, &p);
    proof {
        if p@.len() <= t@.len() {
            assert(t@.subrange(0, p@.len() as int) =~= t@.take(p@.len() as int));
        }
    }
    r
}

fn add_fact_exec(st: &mut LoadedProgram, fact: &str) -> (r: bool)
    requires
        fact@.len() <= usize::MAX / 2,
    ensures
        r ==> add_fact(old(st)@, fact@) == Some(final(st)@),
        !r ==> add_fact(old(st)@, fact@) is None,
{
    match try_compile_fact(fact) {
        None => false,
        Some((code, pred, _)) => {
            let addr = st.code.len();
            crate::prolog::compiler::append_block(&mut st.code, code);
            st.table.push(pred, addr);
            true
        },
    }
}

/// Reads a program file line by line (see `load_program_spec`), or answers
/// `None` where a line cannot be compiled (no parentheses, or an empty
/// argument).
pub fn try_load_program(source: &str) -> (r: Option<LoadedProgram>)
    requires
        source@.len() <= usize::MAX / 2,
    ensures
        match r {
            Some(p) => load_program_spec(source@) == Some(p@),
            None => load_program_spec(source@) is None,
        },
{
    let chars = str_chars(source);
    let lines = split_chars(&chars, '\n');
    let ghost ls = split(source@, '\n');
    let mut st = LoadedProgram { code: Vec::new(), table: PredicateTable::new(), query: None, output: Vec::new() };
    proof {
        assert(st@.code =~= Seq::<InstrV>::empty());
        assert(st@.output =~= Seq::<Seq<char>>::empty());
        crate::lexer::lemma_split_pieces_len(source@, '\n');
        assert forall|j: int| 0 <= j < lines@.len() implies lines@[j]@.len() <= source@.len() by {
            assert(pieces_view(lines@)[j] == lines@[j]@);
        }
    }
    let mut i: usize = 0;
    while i < lines.len()
        invariant
            i <= lines@.len(),
            pieces_view(lines@) == ls,
            ls == split(source@, '\n'),
            source@.len() <= usize::MAX / 2,
            forall|j: int| 0 <= j < lines@.len() ==> lines@[j]@.len() <= source@.len(),
            load_lines(ls, i as int) == Some(st@),
        decreases lines.len() - i,
    {
        proof {
            assert(ls[i as int] == lines@[i as int]@);
            crate::lexer::lemma_trim_len(lines@[i as int]@);
        }
        let t = trim_chars(&lines[i]);
        let ghost st0 = st@;
        if t.len() == 0 || has_prefix(&t, "%") || has_prefix(&t, "//") {
        } else {
            let text = chars_to_string(&t);
            if has_prefix(&t, ":- initialization(") {
                let inner = extract_inner(text.as_str(), ":- initialization(");
                proof {
                    lemma_extract_len(t@, ":- initialization("@);
                }
                match try_compile_query(inner.as_str()) {
                    None => {
                        proof {
                            lemma_load_stop(ls, i + 1, ls.len() as int);
                        }
                        return None;
                    },
                    Some(q) => {
                        st.query = Some(q);
                    },
                }
            } else if has_prefix(&t, "assert(") {
                let inner = extract_inner(text.as_str(), "assert(");
                proof {
                    lemma_extract_len(t@, "assert("@);
                }
                if !add_fact_exec(&mut st, inner.as_str()) {
                    proof {
                        lemma_load_stop(ls, i + 1, ls.len() as int);
                    }
                    return None;
                }
            } else if has_prefix(&t, "retract(") {
                let inner = extract_inner(text.as_str(), "retract(");
                proof {
                    lemma_extract_len(t@, "retract("@);
                }
                match try_compile_fact(inner.as_str()) {
                    None => {
                        proof {
                            lemma_load_stop(ls, i + 1, ls.len() as int);
                        }
                        return None;
                    },
                    Some(_) => {
                        let mut unused: Vec<Instruction> = Vec::new();
                        let ok = retract_clause(&mut unused, &mut st.table, inner.as_str());
                        let ghost before = st@.output;
                        if ok {
                            st.output.push(chars_to_string(&str_chars("true.")));
                        } else {
                            st.output.push(chars_to_string(&str_chars("false.")));
                        }
                        proof {
                            assert(st@.output =~= before.push(if ok { "true."@ } else { "false."@ }));
                        }
                    },
                }
            } else {
                if !add_fact_exec(&mut st, text.as_str()) {
                    proof {
                        lemma_load_stop(ls, i + 1, ls.len() as int);
                    }
                    return None;
                }
            }
        }
        i += 1;
    }
    Some(st)
}

pub(crate) proof fn lemma_extract_len(t: Seq<char>, p: Seq<char>)
    ensures
        extract_inner_spec(t, p).len() <= t.len(),
{
    lemma_strip_prefixes_len(t, p);
    let w = trim(strip_prefixes(t, p));
    crate::lexer::lemma_trim_len(strip_prefixes(t, p));
    let n = w.len() as int;
    let u = if n >= 2 && w[n - 2] == ')' && w[n - 1] == '.' {
        w.take(n - 2)
    } else if n >= 1 && w[n - 1] == ')' {
        w.take(n - 1)
    } else {
        w
    };
    crate::lexer::lemma_trim_len(u);
}

pub(crate) proof fn lemma_strip_prefixes_len(s: Seq<char>, p: Seq<char>)
    ensures
        strip_prefixes(s, p).len() <= s.len(),
    decreases s.len(),
{
    if p.len() > 0 && p.len() <= s.len() && s.take(p.len() as int) == p {
        lemma_strip_prefixes_len(s.skip(p.len() as int), p);
    }
}

proof fn lemma_load_stop(lines: Seq<Seq<char>>, k: int, m: int)
    requires
        0 <= k <= m,
        load_lines(lines, k) is None,
    ensures
        load_lines(lines, m) is None,
    decreases m - k,
{
    if m > k {
        lemma_load_stop(lines, k, m - 1);
    }
}

} // verus!
