//! The textual LAM language: one instruction per line, a mnemonic followed by
//! operands separated by whitespace, with double-quoted strings kept whole.

use vstd::prelude::*;
use crate::arithmetic::{Expr, parse_expression_spec, parse_expression};
use crate::instruction_parser::{line_prefix, chars_eq, line_prefix_chars, push_chars, line_error};
use crate::lexer::{
    is_ws, trim, split, trim_char, join_space, parse_usize_spec, parse_i32_spec, pieces_view,
    is_whitespace, str_chars, trim_chars, split_chars, trim_char_chars, join_space_from, parse_usize,
    parse_i32,
};
use crate::machine::{Instruction, InstrV, program_view};
use crate::term::{Term, TermV};
use crate::text::{push_str, chars_to_string, digits, int_text};
use crate::round_trip::{lemma_read_i32, lemma_read_usize, lemma_trim_plain, lemma_split_plain};

verus! {

broadcast use vstd::std_specs::vec::group_vec_axioms;

/// The tokenizer's state after reading `s`: the finished tokens, the token
/// being read, and whether a double quote is open.
pub open spec fn token_state(s: Seq<char>) -> (Seq<Seq<char>>, Seq<char>, bool)
    decreases s.len(),
{
    if s.len() == 0 {
        (Seq::empty(), Seq::empty(), false)
    } else {
        let (toks, cur, quoted) = token_state(s.drop_last());
        let c = s.last();
        if c == '"' {
            (toks, cur.push(c), !quoted)
        } else if is_ws(c) && !quoted {
            if cur.len() > 0 { (toks.push(cur), Seq::empty(), quoted) } else { (toks, cur, quoted) }
        } else {
            (toks, cur.push(c), quoted)
        }
    }
}

/// The tokens of a line: whitespace outside double quotes separates them,
/// and the quotes stay in the tokens.
pub open spec fn tokenize_line_spec(s: Seq<char>) -> Seq<Seq<char>> {
    let (toks, cur, _) = token_state(s);
    if cur.len() > 0 { toks.push(cur) } else { toks }
}

pub open spec fn usize_tok(t: Seq<char>) -> Option<usize> {
    match parse_usize_spec(t) {
        Ok(v) => Some(v as usize),
        Err(_) => None,
    }
}

pub open spec fn i32_tok(t: Seq<char>) -> Option<i32> {
    match parse_i32_spec(t) {
        Ok(v) => Some(v as i32),
        Err(_) => None,
    }
}

/// A token without its surrounding double quotes.
pub open spec fn unq(t: Seq<char>) -> Seq<char> {
    trim_char(t, '"')
}

/// Register numbers, or `None` at the first token that is not one.
pub open spec fn usizes_tok(ts: Seq<Seq<char>>) -> Option<Seq<usize>>
    decreases ts.len(),
{
    if ts.len() == 0 {
        Some(Seq::empty())
    } else {
        match usizes_tok(ts.drop_last()) {
            None => None,
            Some(v) => match usize_tok(ts.last()) {
                None => None,
                Some(r) => Some(v.push(r)),
            },
        }
    }
}

pub open spec fn lerr(n: nat, text: Seq<char>) -> Option<Result<Seq<InstrV>, Seq<char>>> {
    Some(Err(line_prefix(n) + text))
}

pub open spec fn one(i: InstrV) -> Option<Result<Seq<InstrV>, Seq<char>>> {
    Some(Ok(seq![i]))
}

/// The instructions of the tokens of line `n`; `None` where the line is a
/// bare `Call`, which has no operand to read.
pub open spec fn lam_tokens_spec(t: Seq<Seq<char>>, n: nat) -> Option<Result<Seq<InstrV>, Seq<char>>> {
    let k = t.len();
    let op = t[0];
    if op == "PutStr"@ || op == "GetStr"@ {
        if k != 3 {
            lerr(n, op + " expects 2 arguments"@)
        } else {
            match usize_tok(t[1]) {
                None => lerr(n, "invalid register"@),
                Some(r) => if op == "PutStr"@ {
                    one(InstrV::PutStr { register: r, value: unq(t[2]) })
                } else {
                    one(InstrV::GetStr { register: r, value: unq(t[2]) })
                },
            }
        }
    } else if op == "PutConst"@ || op == "GetConst"@ {
        if k != 3 {
            lerr(n, op + " expects 2 arguments"@)
        } else {
            match usize_tok(t[1]) {
                None => lerr(n, "invalid register"@),
                Some(r) => match i32_tok(t[2]) {
                    None => lerr(n, "invalid value"@),
                    Some(v) => if op == "PutConst"@ {
                        one(InstrV::PutConst { register: r, value: v })
                    } else {
                        one(InstrV::GetConst { register: r, value: v })
                    },
                },
            }
        }
    } else if op == "PutVar"@ || op == "GetVar"@ {
        if k != 4 {
            lerr(n, op + " expects 3 arguments"@)
        } else {
            match usize_tok(t[1]) {
                None => lerr(n, "invalid register"@),
                Some(r) => match usize_tok(t[2]) {
                    None => lerr(n, "invalid var_id"@),
                    Some(id) => if op == "PutVar"@ {
                        one(InstrV::PutVar { register: r, var_id: id, name: unq(t[3]) })
                    } else {
                        one(InstrV::GetVar { register: r, var_id: id, name: unq(t[3]) })
                    },
                },
            }
        }
    } else if op == "Call"@ {
        if k < 2 {
            None
        } else if t[1] == "write"@ && k == 3 {
            Some(Ok(seq![InstrV::PutStr { register: 0, value: unq(t[2]) }, InstrV::Call { predicate: "write"@ }]))
        } else if k != 2 {
            lerr(n, "Call expects 1 argument"@)
        } else {
            one(InstrV::Call { predicate: t[1] })
        }
    } else if op == "Proceed"@ {
        one(InstrV::Proceed)
    } else if op == "Choice"@ {
        if k != 2 {
            lerr(n, "Choice expects 1 argument"@)
        } else {
            match usize_tok(t[1]) {
                None => lerr(n, "invalid alternative"@),
                Some(_) => one(InstrV::Choice),
            }
        }
    } else if op == "Allocate"@ {
        if k != 2 {
            lerr(n, "Allocate expects 1 argument"@)
        } else {
            match usize_tok(t[1]) {
                None => lerr(n, "invalid size"@),
                Some(s) => one(InstrV::Allocate { n: s }),
            }
        }
    } else if op == "Deallocate"@ {
        one(InstrV::Deallocate)
    } else if op == "Fail"@ {
        one(InstrV::Fail)
    } else if op == "ArithmeticIs"@ {
        if k < 3 {
            lerr(n, "ArithmeticIs expects at least 2 arguments"@)
        } else {
            match usize_tok(t[1]) {
                None => lerr(n, "invalid target"@),
                Some(r) => match parse_expression_spec(join_space(t.skip(2))) {
                    Err(e) => lerr(n, "ArithmeticIs expression error: "@ + e),
                    Ok(x) => one(InstrV::ArithmeticIs { target: r, expression: x }),
                },
            }
        }
    } else if op == "SetLocal"@ {
        if k != 3 {
            lerr(n, "SetLocal expects 2 arguments"@)
        } else {
            match usize_tok(t[1]) {
                None => lerr(n, "invalid index"@),
                Some(i) => match i32_tok(t[2]) {
                    None => lerr(n, "invalid value"@),
                    Some(v) => one(InstrV::SetLocal { index: i, value: TermV::Const(v) }),
                },
            }
        }
    } else if op == "GetLocal"@ {
        if k != 3 {
            lerr(n, "GetLocal expects 2 arguments"@)
        } else {
            match usize_tok(t[1]) {
                None => lerr(n, "invalid index"@),
                Some(i) => match usize_tok(t[2]) {
                    None => lerr(n, "invalid register"@),
                    Some(r) => one(InstrV::GetLocal { index: i, register: r }),
                },
            }
        }
    } else if op == "GetStructure"@ {
        if k != 4 {
            lerr(n, "GetStructure expects 3 arguments"@)
        } else {
            match usize_tok(t[1]) {
                None => lerr(n, "invalid register"@),
                Some(r) => match usize_tok(t[3]) {
                    None => lerr(n, "invalid arity"@),
                    Some(a) => one(InstrV::GetStructure { register: r, functor: t[2], arity: a }),
                },
            }
        }
    } else if op == "IndexedCall"@ {
        if k != 3 {
            lerr(n, "IndexedCall expects 2 arguments"@)
        } else {
            match usize_tok(t[2]) {
                None => lerr(n, "invalid index register"@),
                Some(r) => one(InstrV::IndexedCall { predicate: t[1], index_register: r }),
            }
        }
    } else if op == "MultiIndexedCall"@ {
        if k < 3 {
            lerr(n, "MultiIndexedCall expects at least 2 arguments"@)
        } else {
            match usizes_tok(t.skip(2)) {
                None => lerr(n, "invalid index register"@),
                Some(rs) => one(InstrV::MultiIndexedCall { predicate: t[1], index_registers: rs }),
            }
        }
    } else if op == "TailCall"@ {
        if k != 2 {
            lerr(n, "TailCall expects 1 argument"@)
        } else {
            one(InstrV::TailCall { predicate: t[1] })
        }
    } else if op == "AssertClause"@ || op == "RetractClause"@ {
        if k != 3 {
            lerr(n, op + " expects 2 arguments"@)
        } else {
            match usize_tok(t[2]) {
                None => lerr(n, "invalid address"@),
                Some(a) => if op == "AssertClause"@ {
                    one(InstrV::AssertClause { predicate: t[1], address: a })
                } else {
                    one(InstrV::RetractClause { predicate: t[1], address: a })
                },
            }
        }
    } else if op == "Cut"@ {
        one(InstrV::Cut)
    } else if op == "BuildCompound"@ {
        if k < 3 {
            lerr(n, "BuildCompound expects at least 2 arguments"@)
        } else {
            match usize_tok(t[1]) {
                None => lerr(n, "invalid target"@),
                Some(r) => match usizes_tok(t.skip(3)) {
                    None => lerr(n, "invalid register"@),
                    Some(rs) => one(InstrV::BuildCompound { target: r, functor: t[2], arg_registers: rs }),
                },
            }
        }
    } else if op == "Halt"@ {
        one(InstrV::Halt)
    } else {
        lerr(n, "Unknown instruction '"@ + op + "'"@)
    }
}

/// What line `n` holds: no instruction (blank, or a comment starting with
/// `#`), its instructions, an error, or `None` where reading it panics.
pub open spec fn lam_line_spec(line: Seq<char>, n: nat) -> Option<Result<Seq<InstrV>, Seq<char>>> {
    let t = trim(line);
    if t.len() == 0 || t[0] == '#' {
        Some(Ok(Seq::empty()))
    } else {
        let toks = tokenize_line_spec(t);
        if toks.len() == 0 { Some(Ok(Seq::empty())) } else { lam_tokens_spec(toks, n) }
    }
}

/// The instructions of the first `k` lines, the first error, or `None`
/// where a line panics before any error.
pub open spec fn lam_lines_spec(lines: Seq<Seq<char>>, k: int) -> Option<Result<Seq<InstrV>, Seq<char>>>
    decreases k,
{
    if k <= 0 {
        Some(Ok(Seq::empty()))
    } else {
        match lam_lines_spec(lines, k - 1) {
            None => None,
            Some(Err(e)) => Some(Err(e)),
            Some(Ok(v)) => match lam_line_spec(lines[k - 1], k as nat) {
                None => None,
                Some(Err(e)) => Some(Err(e)),
                Some(Ok(w)) => Some(Ok(v + w)),
            },
        }
    }
}

/// The program held by a LAM text.
pub open spec fn parse_program_spec(input: Seq<char>) -> Option<Result<Seq<InstrV>, Seq<char>>> {
    let lines = split(input, '\n');
    lam_lines_spec(lines, lines.len() as int)
}

/// Splits a line into tokens (see `tokenize_line_spec`).
pub fn tokenize_line(line: &Vec<char>) -> (r: Vec<Vec<char>>)
    ensures
        pieces_view(r@) == tokenize_line_spec(line@),
{
    let mut tokens: Vec<Vec<char>> = Vec::new();
    let mut current: Vec<char> = Vec::new();
    let mut in_quotes = false;
    let mut i: usize = 0;
    proof {
        assert(line@.subrange(0, 0) =~= Seq::<char>::empty());
        assert(pieces_view(tokens@) =~= Seq::<Seq<char>>::empty());
        assert(current@ =~= Seq::<char>::empty());
    }
    while i < line.len()
        invariant
            i <= line@.len(),
            token_state(line@.subrange(0, i as int)) == (pieces_view(tokens@), current@, in_quotes),
        decreases line.len() - i,
    {
        let c = line[i];
        let ghost next = line@.subrange(0, i + 1);
        proof {
            assert(next.drop_last() =~= line@.subrange(0, i as int));
            assert(next.last() == c);
        }
        if c == '"' {
            in_quotes = !in_quotes;
            current.push(c);
        } else if is_whitespace(c) && !in_quotes {
            if current.len() > 0 {
                let ghost before = pieces_view(tokens@);
                let done = current;
                tokens.push(done);
                current = Vec::new();
                proof {
                    assert(pieces_view(tokens@) =~= before.push(done@));
                    assert(current@ =~= Seq::<char>::empty());
                }
            }
        } else {
            current.push(c);
        }
        i += 1;
    }
    proof {
        assert(line@.subrange(0, line@.len() as int) =~= line@);
    }
    if current.len() > 0 {
        let ghost before = pieces_view(tokens@);
        let done = current;
        tokens.push(done);
        proof {
            assert(pieces_view(tokens@) =~= before.push(done@));
        }
    }
    tokens
}

fn usize_tok_exec(t: &Vec<char>) -> (r: Option<usize>)
    ensures
        r == usize_tok(t@),
{
    match parse_usize(t) {
        Ok(v) => Some(v),
        Err(_) => None,
    }
}

fn i32_tok_exec(t: &Vec<char>) -> (r: Option<i32>)
    ensures
        r == i32_tok(t@),
{
    match parse_i32(t) {
        Ok(v) => Some(v),
        Err(_) => None,
    }
}

fn unq_exec(t: &Vec<char>) -> (r: String)
    ensures
        r@ == unq(t@),
{
    chars_to_string(&trim_char_chars(t, '"'))
}

fn usizes_from(ts: &Vec<Vec<char>>, from: usize) -> (r: Option<Vec<usize>>)
    requires
        from <= ts@.len(),
    ensures
        match r {
            Some(v) => usizes_tok(pieces_view(ts@).skip(from as int)) == Some(v@),
            None => usizes_tok(pieces_view(ts@).skip(from as int)) is None,
        },
{
    let ghost q = pieces_view(ts@).skip(from as int);
    let mut out: Vec<usize> = Vec::new();
    let mut i: usize = from;
    proof {
        assert(q.take(0) =~= Seq::<Seq<char>>::empty());
    }
    while i < ts.len()
        invariant
            from <= i <= ts@.len(),
            q == pieces_view(ts@).skip(from as int),
            usizes_tok(q.take(i - from)) == Some(out@),
        decreases ts.len() - i,
    {
        let ghost next = q.take(i + 1 - from);
        proof {
            assert(next.drop_last() =~= q.take(i - from));
            assert(next.last() == ts@[i as int]@);
        }
        match usize_tok_exec(&ts[i]) {
            Some(r) => {
                out.push(r);
            },
            None => {
                proof {
                    lemma_usizes_prefix(q, i + 1 - from);
                }
                return None;
            },
        }
        i += 1;
    }
    proof {
        assert(q.take(ts@.len() - from) =~= q);
    }
    Some(out)
}

proof fn lemma_usizes_prefix(q: Seq<Seq<char>>, k: int)
    requires
        0 <= k <= q.len(),
        usizes_tok(q.take(k)) is None,
    ensures
        usizes_tok(q) is None,
    decreases q.len() - k,
{
    if k == q.len() {
        assert(q.take(k) =~= q);
    } else {
        assert(q.take(k + 1).drop_last() =~= q.take(k));
        lemma_usizes_prefix(q, k + 1);
    }
}

fn lam_error(n: usize, text: &str) -> (r: Option<Result<Vec<Instruction>, String>>)
    ensures
        match r {
            Some(Err(e)) => e@ == line_prefix(n as nat) + text@,
            _ => false,
        },
{
    Some(Err(line_error(n, text)))
}

fn lam_named_error(n: usize, name: &Vec<char>, text: &str) -> (r: Option<Result<Vec<Instruction>, String>>)
    ensures
        match r {
            Some(Err(e)) => e@ == line_prefix(n as nat) + (name@ + text@),
            _ => false,
        },
{
    let mut out = line_prefix_chars(n);
    push_chars(&mut out, name);
    push_str(&mut out, text);
    proof {
        assert(out@ =~= line_prefix(n as nat) + (name@ + text@));
    }
    Some(Err(chars_to_string(&out)))
}

fn single(i: Instruction) -> (r: Option<Result<Vec<Instruction>, String>>)
    ensures
        match r {
            Some(Ok(v)) => program_view(v@) == seq![i@],
            _ => false,
        },
{
    let mut v: Vec<Instruction> = Vec::new();
    v.push(i);
    proof {
        assert(program_view(v@) =~= seq![i@]);
    }
    Some(Ok(v))
}

/// The instructions of the tokens of line `n` (see `lam_tokens_spec`).
pub fn lam_tokens(t: &Vec<Vec<char>>, n: usize) -> (r: Option<Result<Vec<Instruction>, String>>)
    requires
        t@.len() > 0,
    ensures
        match r {
            None => lam_tokens_spec(pieces_view(t@), n as nat) is None,
            Some(Ok(v)) => lam_tokens_spec(pieces_view(t@), n as nat) == Some(Ok::<Seq<InstrV>, Seq<char>>(program_view(v@))),
            Some(Err(e)) => lam_tokens_spec(pieces_view(t@), n as nat) == Some(Err::<Seq<InstrV>, Seq<char>>(e@)),
        },
{
    let ghost p = pieces_view(t@);
    let k = t.len();
    let op = &t[0];
    proof {
        assert(p[0] == op@);
        assert(k > 1 ==> p[1] == t@[1]@);
        assert(k > 2 ==> p[2] == t@[2]@);
        assert(k > 3 ==> p[3] == t@[3]@);
    }
    if chars_eq(op, "PutStr") || chars_eq(op, "GetStr") {
        if k != 3 {
            return lam_named_error(n, op, " expects 2 arguments");
        }
        return match usize_tok_exec(&t[1]) {
            None => lam_error(n, "invalid register"),
            Some(r) => if chars_eq(op, "PutStr") {
                single(Instruction::PutStr { register: r, value: unq_exec(&t[2]) })
            } else {
                single(Instruction::GetStr { register: r, value: unq_exec(&t[2]) })
            },
        };
    }
    if chars_eq(op, "PutConst") || chars_eq(op, "GetConst") {
        if k != 3 {
            return lam_named_error(n, op, " expects 2 arguments");
        }
        let r = match usize_tok_exec(&t[1]) {
            None => return lam_error(n, "invalid register"),
            Some(r) => r,
        };
        return match i32_tok_exec(&t[2]) {
            None => lam_error(n, "invalid value"),
            Some(v) => if chars_eq(op, "PutConst") {
                single(Instruction::PutConst { register: r, value: v })
            } else {
                single(Instruction::GetConst { register: r, value: v })
            },
        };
    }
    if chars_eq(op, "PutVar") || chars_eq(op, "GetVar") {
        if k != 4 {
            return lam_named_error(n, op, " expects 3 arguments");
        }
        let r = match usize_tok_exec(&t[1]) {
            None => return lam_error(n, "invalid register"),
            Some(r) => r,
        };
        return match usize_tok_exec(&t[2]) {
            None => lam_error(n, "invalid var_id"),
            Some(id) => if chars_eq(op, "PutVar") {
                single(Instruction::PutVar { register: r, var_id: id, name: unq_exec(&t[3]) })
            } else {
                single(Instruction::GetVar { register: r, var_id: id, name: unq_exec(&t[3]) })
            },
        };
    }
    if chars_eq(op, "Call") {
        if k < 2 {
            return None;
        }
        if chars_eq(&t[1], "write") && k == 3 {
            proof {
                reveal_strlit("write");
            }
            let mut v: Vec<Instruction> = Vec::new();
            v.push(Instruction::PutStr { register: 0, value: unq_exec(&t[2]) });
            v.push(Instruction::Call { predicate: chars_to_string(&str_chars("write")) });
            proof {
                assert(program_view(v@) =~= seq![InstrV::PutStr { register: 0, value: unq(p[2]) }, InstrV::Call { predicate: "write"@ }]);
            }
            return Some(Ok(v));
        }
        if k != 2 {
            return lam_error(n, "Call expects 1 argument");
        }
        return single(Instruction::Call { predicate: chars_to_string(&t[1]) });
    }
    if chars_eq(op, "Proceed") {
        return single(Instruction::Proceed);
    }
    if chars_eq(op, "Choice") {
        if k != 2 {
            return lam_error(n, "Choice expects 1 argument");
        }
        return match usize_tok_exec(&t[1]) {
            None => lam_error(n, "invalid alternative"),
            Some(_) => single(Instruction::Choice),
        };
    }
    if chars_eq(op, "Allocate") {
        if k != 2 {
            return lam_error(n, "Allocate expects 1 argument");
        }
        return match usize_tok_exec(&t[1]) {
            None => lam_error(n, "invalid size"),
            Some(s) => single(Instruction::Allocate { n: s }),
        };
    }
    if chars_eq(op, "Deallocate") {
        return single(Instruction::Deallocate);
    }
    if chars_eq(op, "Fail") {
        return single(Instruction::Fail);
    }
    if chars_eq(op, "ArithmeticIs") {
        if k < 3 {
            return lam_error(n, "ArithmeticIs expects at least 2 arguments");
        }
        let r = match usize_tok_exec(&t[1]) {
            None => return lam_error(n, "invalid target"),
            Some(r) => r,
        };
        let text = chars_to_string(&join_space_from(t, 2));
        return match parse_expression(text.as_str()) {
            Err(e) => {
                let mut out = line_prefix_chars(n);
                push_str(&mut out, "ArithmeticIs expression error: ");
                push_str(&mut out, e.as_str());
                proof {
                    assert(out@ =~= line_prefix(n as nat) + ("ArithmeticIs expression error: "@ + e@));
                }
                Some(Err(chars_to_string(&out)))
            },
            Ok(x) => single(Instruction::ArithmeticIs { target: r, expression: x }),
        };
    }
    if chars_eq(op, "SetLocal") {
        if k != 3 {
            return lam_error(n, "SetLocal expects 2 arguments");
        }
        let i = match usize_tok_exec(&t[1]) {
            None => return lam_error(n, "invalid index"),
            Some(i) => i,
        };
        return match i32_tok_exec(&t[2]) {
            None => lam_error(n, "invalid value"),
            Some(v) => single(Instruction::SetLocal { index: i, value: Term::Const(v) }),
        };
    }
    if chars_eq(op, "GetLocal") {
        if k != 3 {
            return lam_error(n, "GetLocal expects 2 arguments");
        }
        let i = match usize_tok_exec(&t[1]) {
            None => return lam_error(n, "invalid index"),
            Some(i) => i,
        };
        return match usize_tok_exec(&t[2]) {
            None => lam_error(n, "invalid register"),
            Some(r) => single(Instruction::GetLocal { index: i, register: r }),
        };
    }
    if chars_eq(op, "GetStructure") {
        if k != 4 {
            return lam_error(n, "GetStructure expects 3 arguments");
        }
        let r = match usize_tok_exec(&t[1]) {
            None => return lam_error(n, "invalid register"),
            Some(r) => r,
        };
        return match usize_tok_exec(&t[3]) {
            None => lam_error(n, "invalid arity"),
            Some(a) => single(Instruction::GetStructure { register: r, functor: chars_to_string(&t[2]), arity: a }),
        };
    }
    if chars_eq(op, "IndexedCall") {
        if k != 3 {
            return lam_error(n, "IndexedCall expects 2 arguments");
        }
        return match usize_tok_exec(&t[2]) {
            None => lam_error(n, "invalid index register"),
            Some(r) => single(Instruction::IndexedCall { predicate: chars_to_string(&t[1]), index_register: r }),
        };
    }
    if chars_eq(op, "MultiIndexedCall") {
        if k < 3 {
            return lam_error(n, "MultiIndexedCall expects at least 2 arguments");
        }
        return match usizes_from(t, 2) {
            None => lam_error(n, "invalid index register"),
            Some(rs) => single(Instruction::MultiIndexedCall { predicate: chars_to_string(&t[1]), index_registers: rs }),
        };
    }
    if chars_eq(op, "TailCall") {
        if k != 2 {
            return lam_error(n, "TailCall expects 1 argument");
        }
        return single(Instruction::TailCall { predicate: chars_to_string(&t[1]) });
    }
    if chars_eq(op, "AssertClause") || chars_eq(op, "RetractClause") {
        if k != 3 {
            return lam_named_error(n, op, " expects 2 arguments");
        }
        return match usize_tok_exec(&t[2]) {
            None => lam_error(n, "invalid address"),
            Some(a) => if chars_eq(op, "AssertClause") {
                single(Instruction::AssertClause { predicate: chars_to_string(&t[1]), address: a })
            } else {
                single(Instruction::RetractClause { predicate: chars_to_string(&t[1]), address: a })
            },
        };
    }
    if chars_eq(op, "Cut") {
        return single(Instruction::Cut);
    }
    if chars_eq(op, "BuildCompound") {
        if k < 3 {
            return lam_error(n, "BuildCompound expects at least 2 arguments");
        }
        let r = match usize_tok_exec(&t[1]) {
            None => return lam_error(n, "invalid target"),
            Some(r) => r,
        };
        return match usizes_from(t, 3) {
            None => lam_error(n, "invalid register"),
            Some(rs) => single(Instruction::BuildCompound { target: r, functor: chars_to_string(&t[2]), arg_registers: rs }),
        };
    }
    if chars_eq(op, "Halt") {
        return single(Instruction::Halt);
    }
    let mut out = line_prefix_chars(n);
    push_str(&mut out, "Unknown instruction '");
    push_chars(&mut out, op);
    push_str(&mut out, "'");
    proof {
        assert(out@ =~= line_prefix(n as nat) + ("Unknown instruction '"@ + op@ + "'"@));
    }
    Some(Err(chars_to_string(&out)))
}

/// What line `n` holds (see `lam_line_spec`).
fn lam_line(line: &Vec<char>, n: usize) -> (r: Option<Result<Vec<Instruction>, String>>)
    ensures
        match r {
            None => lam_line_spec(line@, n as nat) is None,
            Some(Ok(v)) => lam_line_spec(line@, n as nat) == Some(Ok::<Seq<InstrV>, Seq<char>>(program_view(v@))),
            Some(Err(e)) => lam_line_spec(line@, n as nat) == Some(Err::<Seq<InstrV>, Seq<char>>(e@)),
        },
{
    let t = trim_chars(line);
    if t.len() == 0 || t[0] == '#' {
        let v: Vec<Instruction> = Vec::new();
        proof {
            assert(program_view(v@) =~= Seq::<InstrV>::empty());
        }
        return Some(Ok(v));
    }
    let toks = tokenize_line(&t);
    if toks.len() == 0 {
        let v: Vec<Instruction> = Vec::new();
        proof {
            assert(program_view(v@) =~= Seq::<InstrV>::empty());
        }
        return Some(Ok(v));
    }
    lam_tokens(&toks, n)
}

proof fn lemma_lam_lines_stop(lines: Seq<Seq<char>>, k: int, m: int)
    requires
        0 <= k <= m,
        !(lam_lines_spec(lines, k) matches Some(Ok(_))),
    ensures
        lam_lines_spec(lines, m) == lam_lines_spec(lines, k),
    decreases m - k,
{
    if m > k {
        lemma_lam_lines_stop(lines, k, m - 1);
    }
}

/// Reads a LAM program, or answers `None` where reading it would stop at a
/// bare `Call` line before any error (see `parse_program_spec`).
pub fn try_parse_program(input: &str) -> (r: Option<Result<Vec<Instruction>, String>>)
    ensures
        match r {
            None => parse_program_spec(input@) is None,
            Some(Ok(v)) => parse_program_spec(input@) == Some(Ok::<Seq<InstrV>, Seq<char>>(program_view(v@))),
            Some(Err(e)) => parse_program_spec(input@) == Some(Err::<Seq<InstrV>, Seq<char>>(e@)),
        },
{
    let chars = str_chars(input);
    let lines = split_chars(&chars, '\n');
    let ghost ls = split(input@, '\n');
    let mut out: Vec<Instruction> = Vec::new();
    let mut i: usize = 0;
    proof {
        assert(program_view(out@) =~= Seq::<InstrV>::empty());
    }
    while i < lines.len()
        invariant
            i <= lines@.len(),
            pieces_view(lines@) == ls,
            ls == split(input@, '\n'),
            lam_lines_spec(ls, i as int) == Some(Ok::<Seq<InstrV>, Seq<char>>(program_view(out@))),
        decreases lines.len() - i,
    {
        proof {
            assert(ls[i as int] == lines@[i as int]@);
        }
        match lam_line(&lines[i], i + 1) {
            None => {
                proof {
                    lemma_lam_lines_stop(ls, i + 1, ls.len() as int);
                }
                return None;
            },
            Some(Err(e)) => {
                proof {
                    lemma_lam_lines_stop(ls, i + 1, ls.len() as int);
                }
                return Some(Err(e));
            },
            Some(Ok(v)) => {
                let ghost before = program_view(out@);
                let mut j: usize = 0;
                while j < v.len()
                    invariant
                        j <= v@.len(),
                        program_view(out@) == before + program_view(v@).take(j as int),
                    decreases v.len() - j,
                {
                    let c = v[j].copy();
                    proof {
                        crate::machine::lemma_same_view(c, v@[j as int]);
                    }
                    let ghost prev = program_view(out@);
                    out.push(c);
                    proof {
                        assert(program_view(out@) =~= prev.push(c@));
                        assert(program_view(out@) =~= before + program_view(v@).take(j + 1));
                    }
                    j += 1;
                }
                proof {
                    assert(program_view(v@).take(v@.len() as int) =~= program_view(v@));
                }
            },
        }
        i += 1;
    }
    Some(Ok(out))
}

/// Reads a LAM program (see `parse_program_spec`). A line holding only
/// `Call` has no operand to read and must not come before the first error.
pub fn parse_program(input: &str) -> (r: Result<Vec<Instruction>, String>)
    requires
        parse_program_spec(input@) is Some,
    ensures
        match r {
            Ok(v) => parse_program_spec(input@) == Some(Ok::<Seq<InstrV>, Seq<char>>(program_view(v@))),
            Err(e) => parse_program_spec(input@) == Some(Err::<Seq<InstrV>, Seq<char>>(e@)),
        },
{
    match try_parse_program(input) {
        Some(r) => r,
        None => Ok(Vec::new()),
    }
}

/// The LAM words of a list of register numbers.
pub open spec fn register_words(rs: Seq<usize>) -> Seq<Seq<char>> {
    Seq::new(rs.len(), |k: int| digits(rs[k] as nat))
}

/// An instruction written as the words of a LAM line: the mnemonic, then
/// the operands in the documented order (`PutConst register value`,
/// `GetLocal index register`, `GetStructure register functor arity`, ...).
/// `Choice` is written with the address 0. `None` for the instructions
/// without such a line: arithmetic, and a `SetLocal` of a term that is not
/// a constant.
pub open spec fn lam_words(i: InstrV) -> Option<Seq<Seq<char>>> {
    match i {
        InstrV::PutConst { register, value } => Some(seq!["PutConst"@, digits(register as nat), int_text(value as int)]),
        InstrV::GetConst { register, value } => Some(seq!["GetConst"@, digits(register as nat), int_text(value as int)]),
        InstrV::PutVar { register, var_id, name } => Some(seq!["PutVar"@, digits(register as nat), digits(var_id as nat), name]),
        InstrV::GetVar { register, var_id, name } => Some(seq!["GetVar"@, digits(register as nat), digits(var_id as nat), name]),
        InstrV::PutStr { register, value } => Some(seq!["PutStr"@, digits(register as nat), value]),
        InstrV::GetStr { register, value } => Some(seq!["GetStr"@, digits(register as nat), value]),
        InstrV::Call { predicate } => Some(seq!["Call"@, predicate]),
        InstrV::Proceed => Some(seq!["Proceed"@]),
        InstrV::Choice => Some(seq!["Choice"@, digits(0)]),
        InstrV::Allocate { n } => Some(seq!["Allocate"@, digits(n as nat)]),
        InstrV::Deallocate => Some(seq!["Deallocate"@]),
        InstrV::Fail => Some(seq!["Fail"@]),
        InstrV::SetLocal { index, value } => match value {
            TermV::Const(v) => Some(seq!["SetLocal"@, digits(index as nat), int_text(v as int)]),
            _ => None,
        },
        InstrV::GetLocal { index, register } => Some(seq!["GetLocal"@, digits(index as nat), digits(register as nat)]),
        InstrV::GetStructure { register, functor, arity } => Some(seq!["GetStructure"@, digits(register as nat), functor, digits(arity as nat)]),
        InstrV::IndexedCall { predicate, index_register } => Some(seq!["IndexedCall"@, predicate, digits(index_register as nat)]),
        InstrV::MultiIndexedCall { predicate, index_registers } => Some(seq!["MultiIndexedCall"@, predicate] + register_words(index_registers)),
        InstrV::TailCall { predicate } => Some(seq!["TailCall"@, predicate]),
        InstrV::AssertClause { predicate, address } => Some(seq!["AssertClause"@, predicate, digits(address as nat)]),
        InstrV::RetractClause { predicate, address } => Some(seq!["RetractClause"@, predicate, digits(address as nat)]),
        InstrV::Cut => Some(seq!["Cut"@]),
        InstrV::BuildCompound { target, functor, arg_registers } => Some(seq!["BuildCompound"@, digits(target as nat), functor] + register_words(arg_registers)),
        InstrV::Halt => Some(seq!["Halt"@]),
        _ => None,
    }
}

/// The text operands of an instruction read back unchanged: names and
/// strings are not wrapped in double quotes, and a multi-register call has
/// at least one register.
pub open spec fn lam_plain(i: InstrV) -> bool {
    match i {
        InstrV::PutVar { name, .. } | InstrV::GetVar { name, .. } => unq(name) == name,
        InstrV::PutStr { value, .. } | InstrV::GetStr { value, .. } => unq(value) == value,
        InstrV::MultiIndexedCall { index_registers, .. } => index_registers.len() > 0,
        _ => true,
    }
}

proof fn lemma_register_words(rs: Seq<usize>)
    ensures
        usizes_tok(register_words(rs)) == Some(rs),
    decreases rs.len(),
{
    if rs.len() > 0 {
        let pre = rs.drop_last();
        assert(register_words(rs).drop_last() =~= register_words(pre));
        lemma_register_words(pre);
        lemma_read_usize(rs.last());
        assert(register_words(rs).last() == digits(rs.last() as nat));
        assert(pre.push(rs.last()) =~= rs);
    }
}

#[verifier::spinoff_prover]
proof fn lemma_lam_putconst(register: usize, value: i32, n: nat)
    ensures
        lam_words(InstrV::PutConst { register, value }) matches Some(w)
            && lam_tokens_spec(w, n) == Some(Ok::<Seq<InstrV>, Seq<char>>(seq![InstrV::PutConst { register, value }])),
{
    reveal_strlit("PutStr");
    reveal_strlit("GetStr");
    reveal_strlit("PutConst");
    reveal_strlit("GetConst");
    reveal_strlit("PutVar");
    reveal_strlit("GetVar");
    reveal_strlit("Call");
    reveal_strlit("write");
    reveal_strlit("Proceed");
    reveal_strlit("Choice");
    reveal_strlit("Allocate");
    reveal_strlit("Deallocate");
    reveal_strlit("Fail");
    reveal_strlit("ArithmeticIs");
    reveal_strlit("SetLocal");
    reveal_strlit("GetLocal");
    reveal_strlit("GetStructure");
    reveal_strlit("IndexedCall");
    reveal_strlit("MultiIndexedCall");
    reveal_strlit("TailCall");
    reveal_strlit("AssertClause");
    reveal_strlit("RetractClause");
    reveal_strlit("Cut");
    reveal_strlit("BuildCompound");
    reveal_strlit("Halt");
    assert("PutConst"@ != "PutStr"@) by { assert("PutConst"@.len() != "PutStr"@.len()); }
    assert("PutConst"@ != "GetStr"@) by { assert("PutConst"@.len() != "GetStr"@.len()); }
    assert("PutConst"@ != "GetConst"@) by { assert("PutConst"@[0] != "GetConst"@[0]); }
    assert("PutConst"@ != "PutVar"@) by { assert("PutConst"@.len() != "PutVar"@.len()); }
    assert("PutConst"@ != "GetVar"@) by { assert("PutConst"@.len() != "GetVar"@.len()); }
    assert("PutConst"@ != "Call"@) by { assert("PutConst"@.len() != "Call"@.len()); }
    assert("PutConst"@ != "write"@) by { assert("PutConst"@.len() != "write"@.len()); }
    assert("PutConst"@ != "Proceed"@) by { assert("PutConst"@.len() != "Proceed"@.len()); }
    assert("PutConst"@ != "Choice"@) by { assert("PutConst"@.len() != "Choice"@.len()); }
    assert("PutConst"@ != "Allocate"@) by { assert("PutConst"@[0] != "Allocate"@[0]); }
    assert("PutConst"@ != "Deallocate"@) by { assert("PutConst"@.len() != "Deallocate"@.len()); }
    assert("PutConst"@ != "Fail"@) by { assert("PutConst"@.len() != "Fail"@.len()); }
    assert("PutConst"@ != "ArithmeticIs"@) by { assert("PutConst"@.len() != "ArithmeticIs"@.len()); }
    assert("PutConst"@ != "SetLocal"@) by { assert("PutConst"@[0] != "SetLocal"@[0]); }
    assert("PutConst"@ != "GetLocal"@) by { assert("PutConst"@[0] != "GetLocal"@[0]); }
    assert("PutConst"@ != "GetStructure"@) by { assert("PutConst"@.len() != "GetStructure"@.len()); }
    assert("PutConst"@ != "IndexedCall"@) by { assert("PutConst"@.len() != "IndexedCall"@.len()); }
    assert("PutConst"@ != "MultiIndexedCall"@) by { assert("PutConst"@.len() != "MultiIndexedCall"@.len()); }
    assert("PutConst"@ != "TailCall"@) by { assert("PutConst"@[0] != "TailCall"@[0]); }
    assert("PutConst"@ != "AssertClause"@) by { assert("PutConst"@.len() != "AssertClause"@.len()); }
    assert("PutConst"@ != "RetractClause"@) by { assert("PutConst"@.len() != "RetractClause"@.len()); }
    assert("PutConst"@ != "Cut"@) by { assert("PutConst"@.len() != "Cut"@.len()); }
    assert("PutConst"@ != "BuildCompound"@) by { assert("PutConst"@.len() != "BuildCompound"@.len()); }
    assert("PutConst"@ != "Halt"@) by { assert("PutConst"@.len() != "Halt"@.len()); }
    let w = lam_words(InstrV::PutConst { register, value })->0;
    lemma_read_usize(register);
    lemma_read_i32(value);
}

#[verifier::spinoff_prover]
proof fn lemma_lam_getconst(register: usize, value: i32, n: nat)
    ensures
        lam_words(InstrV::GetConst { register, value }) matches Some(w)
            && lam_tokens_spec(w, n) == Some(Ok::<Seq<InstrV>, Seq<char>>(seq![InstrV::GetConst { register, value }])),
{
    reveal_strlit("PutStr");
    reveal_strlit("GetStr");
    reveal_strlit("PutConst");
    reveal_strlit("GetConst");
    reveal_strlit("PutVar");
    reveal_strlit("GetVar");
    reveal_strlit("Call");
    reveal_strlit("write");
    reveal_strlit("Proceed");
    reveal_strlit("Choice");
    reveal_strlit("Allocate");
    reveal_strlit("Deallocate");
    reveal_strlit("Fail");
    reveal_strlit("ArithmeticIs");
    reveal_strlit("SetLocal");
    reveal_strlit("GetLocal");
    reveal_strlit("GetStructure");
    reveal_strlit("IndexedCall");
    reveal_strlit("MultiIndexedCall");
    reveal_strlit("TailCall");
    reveal_strlit("AssertClause");
    reveal_strlit("RetractClause");
    reveal_strlit("Cut");
    reveal_strlit("BuildCompound");
    reveal_strlit("Halt");
    assert("GetConst"@ != "PutStr"@) by { assert("GetConst"@.len() != "PutStr"@.len()); }
    assert("GetConst"@ != "GetStr"@) by { assert("GetConst"@.len() != "GetStr"@.len()); }
    assert("GetConst"@ != "PutConst"@) by { assert("GetConst"@[0] != "PutConst"@[0]); }
    assert("GetConst"@ != "PutVar"@) by { assert("GetConst"@.len() != "PutVar"@.len()); }
    assert("GetConst"@ != "GetVar"@) by { assert("GetConst"@.len() != "GetVar"@.len()); }
    assert("GetConst"@ != "Call"@) by { assert("GetConst"@.len() != "Call"@.len()); }
    assert("GetConst"@ != "write"@) by { assert("GetConst"@.len() != "write"@.len()); }
    assert("GetConst"@ != "Proceed"@) by { assert("GetConst"@.len() != "Proceed"@.len()); }
    assert("GetConst"@ != "Choice"@) by { assert("GetConst"@.len() != "Choice"@.len()); }
    assert("GetConst"@ != "Allocate"@) by { assert("GetConst"@[0] != "Allocate"@[0]); }
    assert("GetConst"@ != "Deallocate"@) by { assert("GetConst"@.len() != "Deallocate"@.len()); }
    assert("GetConst"@ != "Fail"@) by { assert("GetConst"@.len() != "Fail"@.len()); }
    assert("GetConst"@ != "ArithmeticIs"@) by { assert("GetConst"@.len() != "ArithmeticIs"@.len()); }
    assert("GetConst"@ != "SetLocal"@) by { assert("GetConst"@[0] != "SetLocal"@[0]); }
    assert("GetConst"@ != "GetLocal"@) by { assert("GetConst"@[3] != "GetLocal"@[3]); }
    assert("GetConst"@ != "GetStructure"@) by { assert("GetConst"@.len() != "GetStructure"@.len()); }
    assert("GetConst"@ != "IndexedCall"@) by { assert("GetConst"@.len() != "IndexedCall"@.len()); }
    assert("GetConst"@ != "MultiIndexedCall"@) by { assert("GetConst"@.len() != "MultiIndexedCall"@.len()); }
    assert("GetConst"@ != "TailCall"@) by { assert("GetConst"@[0] != "TailCall"@[0]); }
    assert("GetConst"@ != "AssertClause"@) by { assert("GetConst"@.len() != "AssertClause"@.len()); }
    assert("GetConst"@ != "RetractClause"@) by { assert("GetConst"@.len() != "RetractClause"@.len()); }
    assert("GetConst"@ != "Cut"@) by { assert("GetConst"@.len() != "Cut"@.len()); }
    assert("GetConst"@ != "BuildCompound"@) by { assert("GetConst"@.len() != "BuildCompound"@.len()); }
    assert("GetConst"@ != "Halt"@) by { assert("GetConst"@.len() != "Halt"@.len()); }
    let w = lam_words(InstrV::GetConst { register, value })->0;
    lemma_read_usize(register);
    lemma_read_i32(value);
}

#[verifier::spinoff_prover]
proof fn lemma_lam_putvar(register: usize, var_id: usize, name: Seq<char>, n: nat)
    requires
        unq(name) == name,
    ensures
        lam_words(InstrV::PutVar { register, var_id, name }) matches Some(w)
            && lam_tokens_spec(w, n) == Some(Ok::<Seq<InstrV>, Seq<char>>(seq![InstrV::PutVar { register, var_id, name }])),
{
    reveal_strlit("PutStr");
    reveal_strlit("GetStr");
    reveal_strlit("PutConst");
    reveal_strlit("GetConst");
    reveal_strlit("PutVar");
    reveal_strlit("GetVar");
    reveal_strlit("Call");
    reveal_strlit("write");
    reveal_strlit("Proceed");
    reveal_strlit("Choice");
    reveal_strlit("Allocate");
    reveal_strlit("Deallocate");
    reveal_strlit("Fail");
    reveal_strlit("ArithmeticIs");
    reveal_strlit("SetLocal");
    reveal_strlit("GetLocal");
    reveal_strlit("GetStructure");
    reveal_strlit("IndexedCall");
    reveal_strlit("MultiIndexedCall");
    reveal_strlit("TailCall");
    reveal_strlit("AssertClause");
    reveal_strlit("RetractClause");
    reveal_strlit("Cut");
    reveal_strlit("BuildCompound");
    reveal_strlit("Halt");
    assert("PutVar"@ != "PutStr"@) by { assert("PutVar"@[3] != "PutStr"@[3]); }
    assert("PutVar"@ != "GetStr"@) by { assert("PutVar"@[0] != "GetStr"@[0]); }
    assert("PutVar"@ != "PutConst"@) by { assert("PutVar"@.len() != "PutConst"@.len()); }
    assert("PutVar"@ != "GetConst"@) by { assert("PutVar"@.len() != "GetConst"@.len()); }
    assert("PutVar"@ != "GetVar"@) by { assert("PutVar"@[0] != "GetVar"@[0]); }
    assert("PutVar"@ != "Call"@) by { assert("PutVar"@.len() != "Call"@.len()); }
    assert("PutVar"@ != "write"@) by { assert("PutVar"@.len() != "write"@.len()); }
    assert("PutVar"@ != "Proceed"@) by { assert("PutVar"@.len() != "Proceed"@.len()); }
    assert("PutVar"@ != "Choice"@) by { assert("PutVar"@[0] != "Choice"@[0]); }
    assert("PutVar"@ != "Allocate"@) by { assert("PutVar"@.len() != "Allocate"@.len()); }
    assert("PutVar"@ != "Deallocate"@) by { assert("PutVar"@.len() != "Deallocate"@.len()); }
    assert("PutVar"@ != "Fail"@) by { assert("PutVar"@.len() != "Fail"@.len()); }
    assert("PutVar"@ != "ArithmeticIs"@) by { assert("PutVar"@.len() != "ArithmeticIs"@.len()); }
    assert("PutVar"@ != "SetLocal"@) by { assert("PutVar"@.len() != "SetLocal"@.len()); }
    assert("PutVar"@ != "GetLocal"@) by { assert("PutVar"@.len() != "GetLocal"@.len()); }
    assert("PutVar"@ != "GetStructure"@) by { assert("PutVar"@.len() != "GetStructure"@.len()); }
    assert("PutVar"@ != "IndexedCall"@) by { assert("PutVar"@.len() != "IndexedCall"@.len()); }
    assert("PutVar"@ != "MultiIndexedCall"@) by { assert("PutVar"@.len() != "MultiIndexedCall"@.len()); }
    assert("PutVar"@ != "TailCall"@) by { assert("PutVar"@.len() != "TailCall"@.len()); }
    assert("PutVar"@ != "AssertClause"@) by { assert("PutVar"@.len() != "AssertClause"@.len()); }
    assert("PutVar"@ != "RetractClause"@) by { assert("PutVar"@.len() != "RetractClause"@.len()); }
    assert("PutVar"@ != "Cut"@) by { assert("PutVar"@.len() != "Cut"@.len()); }
    assert("PutVar"@ != "BuildCompound"@) by { assert("PutVar"@.len() != "BuildCompound"@.len()); }
    assert("PutVar"@ != "Halt"@) by { assert("PutVar"@.len() != "Halt"@.len()); }
    let w = lam_words(InstrV::PutVar { register, var_id, name })->0;
    lemma_read_usize(register);
    lemma_read_usize(var_id);
}

#[verifier::spinoff_prover]
proof fn lemma_lam_getvar(register: usize, var_id: usize, name: Seq<char>, n: nat)
    requires
        unq(name) == name,
    ensures
        lam_words(InstrV::GetVar { register, var_id, name }) matches Some(w)
            && lam_tokens_spec(w, n) == Some(Ok::<Seq<InstrV>, Seq<char>>(seq![InstrV::GetVar { register, var_id, name }])),
{
    reveal_strlit("PutStr");
    reveal_strlit("GetStr");
    reveal_strlit("PutConst");
    reveal_strlit("GetConst");
    reveal_strlit("PutVar");
    reveal_strlit("GetVar");
    reveal_strlit("Call");
    reveal_strlit("write");
    reveal_strlit("Proceed");
    reveal_strlit("Choice");
    reveal_strlit("Allocate");
    reveal_strlit("Deallocate");
    reveal_strlit("Fail");
    reveal_strlit("ArithmeticIs");
    reveal_strlit("SetLocal");
    reveal_strlit("GetLocal");
    reveal_strlit("GetStructure");
    reveal_strlit("IndexedCall");
    reveal_strlit("MultiIndexedCall");
    reveal_strlit("TailCall");
    reveal_strlit("AssertClause");
    reveal_strlit("RetractClause");
    reveal_strlit("Cut");
    reveal_strlit("BuildCompound");
    reveal_strlit("Halt");
    assert("GetVar"@ != "PutStr"@) by { assert("GetVar"@[0] != "PutStr"@[0]); }
    assert("GetVar"@ != "GetStr"@) by { assert("GetVar"@[3] != "GetStr"@[3]); }
    assert("GetVar"@ != "PutConst"@) by { assert("GetVar"@.len() != "PutConst"@.len()); }
    assert("GetVar"@ != "GetConst"@) by { assert("GetVar"@.len() != "GetConst"@.len()); }
    assert("GetVar"@ != "PutVar"@) by { assert("GetVar"@[0] != "PutVar"@[0]); }
    assert("GetVar"@ != "Call"@) by { assert("GetVar"@.len() != "Call"@.len()); }
    assert("GetVar"@ != "write"@) by { assert("GetVar"@.len() != "write"@.len()); }
    assert("GetVar"@ != "Proceed"@) by { assert("GetVar"@.len() != "Proceed"@.len()); }
    assert("GetVar"@ != "Choice"@) by { assert("GetVar"@[0] != "Choice"@[0]); }
    assert("GetVar"@ != "Allocate"@) by { assert("GetVar"@.len() != "Allocate"@.len()); }
    assert("GetVar"@ != "Deallocate"@) by { assert("GetVar"@.len() != "Deallocate"@.len()); }
    assert("GetVar"@ != "Fail"@) by { assert("GetVar"@.len() != "Fail"@.len()); }
    assert("GetVar"@ != "ArithmeticIs"@) by { assert("GetVar"@.len() != "ArithmeticIs"@.len()); }
    assert("GetVar"@ != "SetLocal"@) by { assert("GetVar"@.len() != "SetLocal"@.len()); }
    assert("GetVar"@ != "GetLocal"@) by { assert("GetVar"@.len() != "GetLocal"@.len()); }
    assert("GetVar"@ != "GetStructure"@) by { assert("GetVar"@.len() != "GetStructure"@.len()); }
    assert("GetVar"@ != "IndexedCall"@) by { assert("GetVar"@.len() != "IndexedCall"@.len()); }
    assert("GetVar"@ != "MultiIndexedCall"@) by { assert("GetVar"@.len() != "MultiIndexedCall"@.len()); }
    assert("GetVar"@ != "TailCall"@) by { assert("GetVar"@.len() != "TailCall"@.len()); }
    assert("GetVar"@ != "AssertClause"@) by { assert("GetVar"@.len() != "AssertClause"@.len()); }
    assert("GetVar"@ != "RetractClause"@) by { assert("GetVar"@.len() != "RetractClause"@.len()); }
    assert("GetVar"@ != "Cut"@) by { assert("GetVar"@.len() != "Cut"@.len()); }
    assert("GetVar"@ != "BuildCompound"@) by { assert("GetVar"@.len() != "BuildCompound"@.len()); }
    assert("GetVar"@ != "Halt"@) by { assert("GetVar"@.len() != "Halt"@.len()); }
    let w = lam_words(InstrV::GetVar { register, var_id, name })->0;
    lemma_read_usize(register);
    lemma_read_usize(var_id);
}

#[verifier::spinoff_prover]
proof fn lemma_lam_putstr(register: usize, value: Seq<char>, n: nat)
    requires
        unq(value) == value,
    ensures
        lam_words(InstrV::PutStr { register, value }) matches Some(w)
            && lam_tokens_spec(w, n) == Some(Ok::<Seq<InstrV>, Seq<char>>(seq![InstrV::PutStr { register, value }])),
{
    reveal_strlit("PutStr");
    reveal_strlit("GetStr");
    reveal_strlit("PutConst");
    reveal_strlit("GetConst");
    reveal_strlit("PutVar");
    reveal_strlit("GetVar");
    reveal_strlit("Call");
    reveal_strlit("write");
    reveal_strlit("Proceed");
    reveal_strlit("Choice");
    reveal_strlit("Allocate");
    reveal_strlit("Deallocate");
    reveal_strlit("Fail");
    reveal_strlit("ArithmeticIs");
    reveal_strlit("SetLocal");
    reveal_strlit("GetLocal");
    reveal_strlit("GetStructure");
    reveal_strlit("IndexedCall");
    reveal_strlit("MultiIndexedCall");
    reveal_strlit("TailCall");
    reveal_strlit("AssertClause");
    reveal_strlit("RetractClause");
    reveal_strlit("Cut");
    reveal_strlit("BuildCompound");
    reveal_strlit("Halt");
    assert("PutStr"@ != "GetStr"@) by { assert("PutStr"@[0] != "GetStr"@[0]); }
    assert("PutStr"@ != "PutConst"@) by { assert("PutStr"@.len() != "PutConst"@.len()); }
    assert("PutStr"@ != "GetConst"@) by { assert("PutStr"@.len() != "GetConst"@.len()); }
    assert("PutStr"@ != "PutVar"@) by { assert("PutStr"@[3] != "PutVar"@[3]); }
    assert("PutStr"@ != "GetVar"@) by { assert("PutStr"@[0] != "GetVar"@[0]); }
    assert("PutStr"@ != "Call"@) by { assert("PutStr"@.len() != "Call"@.len()); }
    assert("PutStr"@ != "write"@) by { assert("PutStr"@.len() != "write"@.len()); }
    assert("PutStr"@ != "Proceed"@) by { assert("PutStr"@.len() != "Proceed"@.len()); }
    assert("PutStr"@ != "Choice"@) by { assert("PutStr"@[0] != "Choice"@[0]); }
    assert("PutStr"@ != "Allocate"@) by { assert("PutStr"@.len() != "Allocate"@.len()); }
    assert("PutStr"@ != "Deallocate"@) by { assert("PutStr"@.len() != "Deallocate"@.len()); }
    assert("PutStr"@ != "Fail"@) by { assert("PutStr"@.len() != "Fail"@.len()); }
    assert("PutStr"@ != "ArithmeticIs"@) by { assert("PutStr"@.len() != "ArithmeticIs"@.len()); }
    assert("PutStr"@ != "SetLocal"@) by { assert("PutStr"@.len() != "SetLocal"@.len()); }
    assert("PutStr"@ != "GetLocal"@) by { assert("PutStr"@.len() != "GetLocal"@.len()); }
    assert("PutStr"@ != "GetStructure"@) by { assert("PutStr"@.len() != "GetStructure"@.len()); }
    assert("PutStr"@ != "IndexedCall"@) by { assert("PutStr"@.len() != "IndexedCall"@.len()); }
    assert("PutStr"@ != "MultiIndexedCall"@) by { assert("PutStr"@.len() != "MultiIndexedCall"@.len()); }
    assert("PutStr"@ != "TailCall"@) by { assert("PutStr"@.len() != "TailCall"@.len()); }
    assert("PutStr"@ != "AssertClause"@) by { assert("PutStr"@.len() != "AssertClause"@.len()); }
    assert("PutStr"@ != "RetractClause"@) by { assert("PutStr"@.len() != "RetractClause"@.len()); }
    assert("PutStr"@ != "Cut"@) by { assert("PutStr"@.len() != "Cut"@.len()); }
    assert("PutStr"@ != "BuildCompound"@) by { assert("PutStr"@.len() != "BuildCompound"@.len()); }
    assert("PutStr"@ != "Halt"@) by { assert("PutStr"@.len() != "Halt"@.len()); }
    let w = lam_words(InstrV::PutStr { register, value })->0;
    lemma_read_usize(register);
}

#[verifier::spinoff_prover]
proof fn lemma_lam_getstr(register: usize, value: Seq<char>, n: nat)
    requires
        unq(value) == value,
    ensures
        lam_words(InstrV::GetStr { register, value }) matches Some(w)
            && lam_tokens_spec(w, n) == Some(Ok::<Seq<InstrV>, Seq<char>>(seq![InstrV::GetStr { register, value }])),
{
    reveal_strlit("PutStr");
    reveal_strlit("GetStr");
    reveal_strlit("PutConst");
    reveal_strlit("GetConst");
    reveal_strlit("PutVar");
    reveal_strlit("GetVar");
    reveal_strlit("Call");
    reveal_strlit("write");
    reveal_strlit("Proceed");
    reveal_strlit("Choice");
    reveal_strlit("Allocate");
    reveal_strlit("Deallocate");
    reveal_strlit("Fail");
    reveal_strlit("ArithmeticIs");
    reveal_strlit("SetLocal");
    reveal_strlit("GetLocal");
    reveal_strlit("GetStructure");
    reveal_strlit("IndexedCall");
    reveal_strlit("MultiIndexedCall");
    reveal_strlit("TailCall");
    reveal_strlit("AssertClause");
    reveal_strlit("RetractClause");
    reveal_strlit("Cut");
    reveal_strlit("BuildCompound");
    reveal_strlit("Halt");
    assert("GetStr"@ != "PutStr"@) by { assert("GetStr"@[0] != "PutStr"@[0]); }
    assert("GetStr"@ != "PutConst"@) by { assert("GetStr"@.len() != "PutConst"@.len()); }
    assert("GetStr"@ != "GetConst"@) by { assert("GetStr"@.len() != "GetConst"@.len()); }
    assert("GetStr"@ != "PutVar"@) by { assert("GetStr"@[0] != "PutVar"@[0]); }
    assert("GetStr"@ != "GetVar"@) by { assert("GetStr"@[3] != "GetVar"@[3]); }
    assert("GetStr"@ != "Call"@) by { assert("GetStr"@.len() != "Call"@.len()); }
    assert("GetStr"@ != "write"@) by { assert("GetStr"@.len() != "write"@.len()); }
    assert("GetStr"@ != "Proceed"@) by { assert("GetStr"@.len() != "Proceed"@.len()); }
    assert("GetStr"@ != "Choice"@) by { assert("GetStr"@[0] != "Choice"@[0]); }
    assert("GetStr"@ != "Allocate"@) by { assert("GetStr"@.len() != "Allocate"@.len()); }
    assert("GetStr"@ != "Deallocate"@) by { assert("GetStr"@.len() != "Deallocate"@.len()); }
    assert("GetStr"@ != "Fail"@) by { assert("GetStr"@.len() != "Fail"@.len()); }
    assert("GetStr"@ != "ArithmeticIs"@) by { assert("GetStr"@.len() != "ArithmeticIs"@.len()); }
    assert("GetStr"@ != "SetLocal"@) by { assert("GetStr"@.len() != "SetLocal"@.len()); }
    assert("GetStr"@ != "GetLocal"@) by { assert("GetStr"@.len() != "GetLocal"@.len()); }
    assert("GetStr"@ != "GetStructure"@) by { assert("GetStr"@.len() != "GetStructure"@.len()); }
    assert("GetStr"@ != "IndexedCall"@) by { assert("GetStr"@.len() != "IndexedCall"@.len()); }
    assert("GetStr"@ != "MultiIndexedCall"@) by { assert("GetStr"@.len() != "MultiIndexedCall"@.len()); }
    assert("GetStr"@ != "TailCall"@) by { assert("GetStr"@.len() != "TailCall"@.len()); }
    assert("GetStr"@ != "AssertClause"@) by { assert("GetStr"@.len() != "AssertClause"@.len()); }
    assert("GetStr"@ != "RetractClause"@) by { assert("GetStr"@.len() != "RetractClause"@.len()); }
    assert("GetStr"@ != "Cut"@) by { assert("GetStr"@.len() != "Cut"@.len()); }
    assert("GetStr"@ != "BuildCompound"@) by { assert("GetStr"@.len() != "BuildCompound"@.len()); }
    assert("GetStr"@ != "Halt"@) by { assert("GetStr"@.len() != "Halt"@.len()); }
    let w = lam_words(InstrV::GetStr { register, value })->0;
    lemma_read_usize(register);
}

#[verifier::spinoff_prover]
proof fn lemma_lam_call(predicate: Seq<char>, n: nat)
    ensures
        lam_words(InstrV::Call { predicate }) matches Some(w)
            && lam_tokens_spec(w, n) == Some(Ok::<Seq<InstrV>, Seq<char>>(seq![InstrV::Call { predicate }])),
{
    reveal_strlit("PutStr");
    reveal_strlit("GetStr");
    reveal_strlit("PutConst");
    reveal_strlit("GetConst");
    reveal_strlit("PutVar");
    reveal_strlit("GetVar");
    reveal_strlit("Call");
    reveal_strlit("write");
    reveal_strlit("Proceed");
    reveal_strlit("Choice");
    reveal_strlit("Allocate");
    reveal_strlit("Deallocate");
    reveal_strlit("Fail");
    reveal_strlit("ArithmeticIs");
    reveal_strlit("SetLocal");
    reveal_strlit("GetLocal");
    reveal_strlit("GetStructure");
    reveal_strlit("IndexedCall");
    reveal_strlit("MultiIndexedCall");
    reveal_strlit("TailCall");
    reveal_strlit("AssertClause");
    reveal_strlit("RetractClause");
    reveal_strlit("Cut");
    reveal_strlit("BuildCompound");
    reveal_strlit("Halt");
    assert("Call"@ != "PutStr"@) by { assert("Call"@.len() != "PutStr"@.len()); }
    assert("Call"@ != "GetStr"@) by { assert("Call"@.len() != "GetStr"@.len()); }
    assert("Call"@ != "PutConst"@) by { assert("Call"@.len() != "PutConst"@.len()); }
    assert("Call"@ != "GetConst"@) by { assert("Call"@.len() != "GetConst"@.len()); }
    assert("Call"@ != "PutVar"@) by { assert("Call"@.len() != "PutVar"@.len()); }
    assert("Call"@ != "GetVar"@) by { assert("Call"@.len() != "GetVar"@.len()); }
    assert("Call"@ != "write"@) by { assert("Call"@.len() != "write"@.len()); }
    assert("Call"@ != "Proceed"@) by { assert("Call"@.len() != "Proceed"@.len()); }
    assert("Call"@ != "Choice"@) by { assert("Call"@.len() != "Choice"@.len()); }
    assert("Call"@ != "Allocate"@) by { assert("Call"@.len() != "Allocate"@.len()); }
    assert("Call"@ != "Deallocate"@) by { assert("Call"@.len() != "Deallocate"@.len()); }
    assert("Call"@ != "Fail"@) by { assert("Call"@[0] != "Fail"@[0]); }
    assert("Call"@ != "ArithmeticIs"@) by { assert("Call"@.len() != "ArithmeticIs"@.len()); }
    assert("Call"@ != "SetLocal"@) by { assert("Call"@.len() != "SetLocal"@.len()); }
    assert("Call"@ != "GetLocal"@) by { assert("Call"@.len() != "GetLocal"@.len()); }
    assert("Call"@ != "GetStructure"@) by { assert("Call"@.len() != "GetStructure"@.len()); }
    assert("Call"@ != "IndexedCall"@) by { assert("Call"@.len() != "IndexedCall"@.len()); }
    assert("Call"@ != "MultiIndexedCall"@) by { assert("Call"@.len() != "MultiIndexedCall"@.len()); }
    assert("Call"@ != "TailCall"@) by { assert("Call"@.len() != "TailCall"@.len()); }
    assert("Call"@ != "AssertClause"@) by { assert("Call"@.len() != "AssertClause"@.len()); }
    assert("Call"@ != "RetractClause"@) by { assert("Call"@.len() != "RetractClause"@.len()); }
    assert("Call"@ != "Cut"@) by { assert("Call"@.len() != "Cut"@.len()); }
    assert("Call"@ != "BuildCompound"@) by { assert("Call"@.len() != "BuildCompound"@.len()); }
    assert("Call"@ != "Halt"@) by { assert("Call"@[0] != "Halt"@[0]); }
    let w = lam_words(InstrV::Call { predicate })->0;
    }

#[verifier::spinoff_prover]
proof fn lemma_lam_proceed(n: nat)
    ensures
        lam_words(InstrV::Proceed) matches Some(w)
            && lam_tokens_spec(w, n) == Some(Ok::<Seq<InstrV>, Seq<char>>(seq![InstrV::Proceed])),
{
    reveal_strlit("PutStr");
    reveal_strlit("GetStr");
    reveal_strlit("PutConst");
    reveal_strlit("GetConst");
    reveal_strlit("PutVar");
    reveal_strlit("GetVar");
    reveal_strlit("Call");
    reveal_strlit("write");
    reveal_strlit("Proceed");
    reveal_strlit("Choice");
    reveal_strlit("Allocate");
    reveal_strlit("Deallocate");
    reveal_strlit("Fail");
    reveal_strlit("ArithmeticIs");
    reveal_strlit("SetLocal");
    reveal_strlit("GetLocal");
    reveal_strlit("GetStructure");
    reveal_strlit("IndexedCall");
    reveal_strlit("MultiIndexedCall");
    reveal_strlit("TailCall");
    reveal_strlit("AssertClause");
    reveal_strlit("RetractClause");
    reveal_strlit("Cut");
    reveal_strlit("BuildCompound");
    reveal_strlit("Halt");
    assert("Proceed"@ != "PutStr"@) by { assert("Proceed"@.len() != "PutStr"@.len()); }
    assert("Proceed"@ != "GetStr"@) by { assert("Proceed"@.len() != "GetStr"@.len()); }
    assert("Proceed"@ != "PutConst"@) by { assert("Proceed"@.len() != "PutConst"@.len()); }
    assert("Proceed"@ != "GetConst"@) by { assert("Proceed"@.len() != "GetConst"@.len()); }
    assert("Proceed"@ != "PutVar"@) by { assert("Proceed"@.len() != "PutVar"@.len()); }
    assert("Proceed"@ != "GetVar"@) by { assert("Proceed"@.len() != "GetVar"@.len()); }
    assert("Proceed"@ != "Call"@) by { assert("Proceed"@.len() != "Call"@.len()); }
    assert("Proceed"@ != "write"@) by { assert("Proceed"@.len() != "write"@.len()); }
    assert("Proceed"@ != "Choice"@) by { assert("Proceed"@.len() != "Choice"@.len()); }
    assert("Proceed"@ != "Allocate"@) by { assert("Proceed"@.len() != "Allocate"@.len()); }
    assert("Proceed"@ != "Deallocate"@) by { assert("Proceed"@.len() != "Deallocate"@.len()); }
    assert("Proceed"@ != "Fail"@) by { assert("Proceed"@.len() != "Fail"@.len()); }
    assert("Proceed"@ != "ArithmeticIs"@) by { assert("Proceed"@.len() != "ArithmeticIs"@.len()); }
    assert("Proceed"@ != "SetLocal"@) by { assert("Proceed"@.len() != "SetLocal"@.len()); }
    assert("Proceed"@ != "GetLocal"@) by { assert("Proceed"@.len() != "GetLocal"@.len()); }
    assert("Proceed"@ != "GetStructure"@) by { assert("Proceed"@.len() != "GetStructure"@.len()); }
    assert("Proceed"@ != "IndexedCall"@) by { assert("Proceed"@.len() != "IndexedCall"@.len()); }
    assert("Proceed"@ != "MultiIndexedCall"@) by { assert("Proceed"@.len() != "MultiIndexedCall"@.len()); }
    assert("Proceed"@ != "TailCall"@) by { assert("Proceed"@.len() != "TailCall"@.len()); }
    assert("Proceed"@ != "AssertClause"@) by { assert("Proceed"@.len() != "AssertClause"@.len()); }
    assert("Proceed"@ != "RetractClause"@) by { assert("Proceed"@.len() != "RetractClause"@.len()); }
    assert("Proceed"@ != "Cut"@) by { assert("Proceed"@.len() != "Cut"@.len()); }
    assert("Proceed"@ != "BuildCompound"@) by { assert("Proceed"@.len() != "BuildCompound"@.len()); }
    assert("Proceed"@ != "Halt"@) by { assert("Proceed"@.len() != "Halt"@.len()); }
    let w = lam_words(InstrV::Proceed)->0;
    }

#[verifier::spinoff_prover]
proof fn lemma_lam_choice(n: nat)
    ensures
        lam_words(InstrV::Choice) matches Some(w)
            && lam_tokens_spec(w, n) == Some(Ok::<Seq<InstrV>, Seq<char>>(seq![InstrV::Choice])),
{
    reveal_strlit("PutStr");
    reveal_strlit("GetStr");
    reveal_strlit("PutConst");
    reveal_strlit("GetConst");
    reveal_strlit("PutVar");
    reveal_strlit("GetVar");
    reveal_strlit("Call");
    reveal_strlit("write");
    reveal_strlit("Proceed");
    reveal_strlit("Choice");
    reveal_strlit("Allocate");
    reveal_strlit("Deallocate");
    reveal_strlit("Fail");
    reveal_strlit("ArithmeticIs");
    reveal_strlit("SetLocal");
    reveal_strlit("GetLocal");
    reveal_strlit("GetStructure");
    reveal_strlit("IndexedCall");
    reveal_strlit("MultiIndexedCall");
    reveal_strlit("TailCall");
    reveal_strlit("AssertClause");
    reveal_strlit("RetractClause");
    reveal_strlit("Cut");
    reveal_strlit("BuildCompound");
    reveal_strlit("Halt");
    assert("Choice"@ != "PutStr"@) by { assert("Choice"@[0] != "PutStr"@[0]); }
    assert("Choice"@ != "GetStr"@) by { assert("Choice"@[0] != "GetStr"@[0]); }
    assert("Choice"@ != "PutConst"@) by { assert("Choice"@.len() != "PutConst"@.len()); }
    assert("Choice"@ != "GetConst"@) by { assert("Choice"@.len() != "GetConst"@.len()); }
    assert("Choice"@ != "PutVar"@) by { assert("Choice"@[0] != "PutVar"@[0]); }
    assert("Choice"@ != "GetVar"@) by { assert("Choice"@[0] != "GetVar"@[0]); }
    assert("Choice"@ != "Call"@) by { assert("Choice"@.len() != "Call"@.len()); }
    assert("Choice"@ != "write"@) by { assert("Choice"@.len() != "write"@.len()); }
    assert("Choice"@ != "Proceed"@) by { assert("Choice"@.len() != "Proceed"@.len()); }
    assert("Choice"@ != "Allocate"@) by { assert("Choice"@.len() != "Allocate"@.len()); }
    assert("Choice"@ != "Deallocate"@) by { assert("Choice"@.len() != "Deallocate"@.len()); }
    assert("Choice"@ != "Fail"@) by { assert("Choice"@.len() != "Fail"@.len()); }
    assert("Choice"@ != "ArithmeticIs"@) by { assert("Choice"@.len() != "ArithmeticIs"@.len()); }
    assert("Choice"@ != "SetLocal"@) by { assert("Choice"@.len() != "SetLocal"@.len()); }
    assert("Choice"@ != "GetLocal"@) by { assert("Choice"@.len() != "GetLocal"@.len()); }
    assert("Choice"@ != "GetStructure"@) by { assert("Choice"@.len() != "GetStructure"@.len()); }
    assert("Choice"@ != "IndexedCall"@) by { assert("Choice"@.len() != "IndexedCall"@.len()); }
    assert("Choice"@ != "MultiIndexedCall"@) by { assert("Choice"@.len() != "MultiIndexedCall"@.len()); }
    assert("Choice"@ != "TailCall"@) by { assert("Choice"@.len() != "TailCall"@.len()); }
    assert("Choice"@ != "AssertClause"@) by { assert("Choice"@.len() != "AssertClause"@.len()); }
    assert("Choice"@ != "RetractClause"@) by { assert("Choice"@.len() != "RetractClause"@.len()); }
    assert("Choice"@ != "Cut"@) by { assert("Choice"@.len() != "Cut"@.len()); }
    assert("Choice"@ != "BuildCompound"@) by { assert("Choice"@.len() != "BuildCompound"@.len()); }
    assert("Choice"@ != "Halt"@) by { assert("Choice"@.len() != "Halt"@.len()); }
    let w = lam_words(InstrV::Choice)->0;
    lemma_read_usize(0);
}

#[verifier::spinoff_prover]
proof fn lemma_lam_allocate(k: usize, n: nat)
    ensures
        lam_words(InstrV::Allocate { n: k }) matches Some(w)
            && lam_tokens_spec(w, n) == Some(Ok::<Seq<InstrV>, Seq<char>>(seq![InstrV::Allocate { n: k }])),
{
    reveal_strlit("PutStr");
    reveal_strlit("GetStr");
    reveal_strlit("PutConst");
    reveal_strlit("GetConst");
    reveal_strlit("PutVar");
    reveal_strlit("GetVar");
    reveal_strlit("Call");
    reveal_strlit("write");
    reveal_strlit("Proceed");
    reveal_strlit("Choice");
    reveal_strlit("Allocate");
    reveal_strlit("Deallocate");
    reveal_strlit("Fail");
    reveal_strlit("ArithmeticIs");
    reveal_strlit("SetLocal");
    reveal_strlit("GetLocal");
    reveal_strlit("GetStructure");
    reveal_strlit("IndexedCall");
    reveal_strlit("MultiIndexedCall");
    reveal_strlit("TailCall");
    reveal_strlit("AssertClause");
    reveal_strlit("RetractClause");
    reveal_strlit("Cut");
    reveal_strlit("BuildCompound");
    reveal_strlit("Halt");
    assert("Allocate"@ != "PutStr"@) by { assert("Allocate"@.len() != "PutStr"@.len()); }
    assert("Allocate"@ != "GetStr"@) by { assert("Allocate"@.len() != "GetStr"@.len()); }
    assert("Allocate"@ != "PutConst"@) by { assert("Allocate"@[0] != "PutConst"@[0]); }
    assert("Allocate"@ != "GetConst"@) by { assert("Allocate"@[0] != "GetConst"@[0]); }
    assert("Allocate"@ != "PutVar"@) by { assert("Allocate"@.len() != "PutVar"@.len()); }
    assert("Allocate"@ != "GetVar"@) by { assert("Allocate"@.len() != "GetVar"@.len()); }
    assert("Allocate"@ != "Call"@) by { assert("Allocate"@.len() != "Call"@.len()); }
    assert("Allocate"@ != "write"@) by { assert("Allocate"@.len() != "write"@.len()); }
    assert("Allocate"@ != "Proceed"@) by { assert("Allocate"@.len() != "Proceed"@.len()); }
    assert("Allocate"@ != "Choice"@) by { assert("Allocate"@.len() != "Choice"@.len()); }
    assert("Allocate"@ != "Deallocate"@) by { assert("Allocate"@.len() != "Deallocate"@.len()); }
    assert("Allocate"@ != "Fail"@) by { assert("Allocate"@.len() != "Fail"@.len()); }
    assert("Allocate"@ != "ArithmeticIs"@) by { assert("Allocate"@.len() != "ArithmeticIs"@.len()); }
    assert("Allocate"@ != "SetLocal"@) by { assert("Allocate"@[0] != "SetLocal"@[0]); }
    assert("Allocate"@ != "GetLocal"@) by { assert("Allocate"@[0] != "GetLocal"@[0]); }
    assert("Allocate"@ != "GetStructure"@) by { assert("Allocate"@.len() != "GetStructure"@.len()); }
    assert("Allocate"@ != "IndexedCall"@) by { assert("Allocate"@.len() != "IndexedCall"@.len()); }
    assert("Allocate"@ != "MultiIndexedCall"@) by { assert("Allocate"@.len() != "MultiIndexedCall"@.len()); }
    assert("Allocate"@ != "TailCall"@) by { assert("Allocate"@[0] != "TailCall"@[0]); }
    assert("Allocate"@ != "AssertClause"@) by { assert("Allocate"@.len() != "AssertClause"@.len()); }
    assert("Allocate"@ != "RetractClause"@) by { assert("Allocate"@.len() != "RetractClause"@.len()); }
    assert("Allocate"@ != "Cut"@) by { assert("Allocate"@.len() != "Cut"@.len()); }
    assert("Allocate"@ != "BuildCompound"@) by { assert("Allocate"@.len() != "BuildCompound"@.len()); }
    assert("Allocate"@ != "Halt"@) by { assert("Allocate"@.len() != "Halt"@.len()); }
    let w = lam_words(InstrV::Allocate { n: k })->0;
    lemma_read_usize(k);
}

#[verifier::spinoff_prover]
proof fn lemma_lam_deallocate(n: nat)
    ensures
        lam_words(InstrV::Deallocate) matches Some(w)
            && lam_tokens_spec(w, n) == Some(Ok::<Seq<InstrV>, Seq<char>>(seq![InstrV::Deallocate])),
{
    reveal_strlit("PutStr");
    reveal_strlit("GetStr");
    reveal_strlit("PutConst");
    reveal_strlit("GetConst");
    reveal_strlit("PutVar");
    reveal_strlit("GetVar");
    reveal_strlit("Call");
    reveal_strlit("write");
    reveal_strlit("Proceed");
    reveal_strlit("Choice");
    reveal_strlit("Allocate");
    reveal_strlit("Deallocate");
    reveal_strlit("Fail");
    reveal_strlit("ArithmeticIs");
    reveal_strlit("SetLocal");
    reveal_strlit("GetLocal");
    reveal_strlit("GetStructure");
    reveal_strlit("IndexedCall");
    reveal_strlit("MultiIndexedCall");
    reveal_strlit("TailCall");
    reveal_strlit("AssertClause");
    reveal_strlit("RetractClause");
    reveal_strlit("Cut");
    reveal_strlit("BuildCompound");
    reveal_strlit("Halt");
    assert("Deallocate"@ != "PutStr"@) by { assert("Deallocate"@.len() != "PutStr"@.len()); }
    assert("Deallocate"@ != "GetStr"@) by { assert("Deallocate"@.len() != "GetStr"@.len()); }
    assert("Deallocate"@ != "PutConst"@) by { assert("Deallocate"@.len() != "PutConst"@.len()); }
    assert("Deallocate"@ != "GetConst"@) by { assert("Deallocate"@.len() != "GetConst"@.len()); }
    assert("Deallocate"@ != "PutVar"@) by { assert("Deallocate"@.len() != "PutVar"@.len()); }
    assert("Deallocate"@ != "GetVar"@) by { assert("Deallocate"@.len() != "GetVar"@.len()); }
    assert("Deallocate"@ != "Call"@) by { assert("Deallocate"@.len() != "Call"@.len()); }
    assert("Deallocate"@ != "write"@) by { assert("Deallocate"@.len() != "write"@.len()); }
    assert("Deallocate"@ != "Proceed"@) by { assert("Deallocate"@.len() != "Proceed"@.len()); }
    assert("Deallocate"@ != "Choice"@) by { assert("Deallocate"@.len() != "Choice"@.len()); }
    assert("Deallocate"@ != "Allocate"@) by { assert("Deallocate"@.len() != "Allocate"@.len()); }
    assert("Deallocate"@ != "Fail"@) by { assert("Deallocate"@.len() != "Fail"@.len()); }
    assert("Deallocate"@ != "ArithmeticIs"@) by { assert("Deallocate"@.len() != "ArithmeticIs"@.len()); }
    assert("Deallocate"@ != "SetLocal"@) by { assert("Deallocate"@.len() != "SetLocal"@.len()); }
    assert("Deallocate"@ != "GetLocal"@) by { assert("Deallocate"@.len() != "GetLocal"@.len()); }
    assert("Deallocate"@ != "GetStructure"@) by { assert("Deallocate"@.len() != "GetStructure"@.len()); }
    assert("Deallocate"@ != "IndexedCall"@) by { assert("Deallocate"@.len() != "IndexedCall"@.len()); }
    assert("Deallocate"@ != "MultiIndexedCall"@) by { assert("Deallocate"@.len() != "MultiIndexedCall"@.len()); }
    assert("Deallocate"@ != "TailCall"@) by { assert("Deallocate"@.len() != "TailCall"@.len()); }
    assert("Deallocate"@ != "AssertClause"@) by { assert("Deallocate"@.len() != "AssertClause"@.len()); }
    assert("Deallocate"@ != "RetractClause"@) by { assert("Deallocate"@.len() != "RetractClause"@.len()); }
    assert("Deallocate"@ != "Cut"@) by { assert("Deallocate"@.len() != "Cut"@.len()); }
    assert("Deallocate"@ != "BuildCompound"@) by { assert("Deallocate"@.len() != "BuildCompound"@.len()); }
    assert("Deallocate"@ != "Halt"@) by { assert("Deallocate"@.len() != "Halt"@.len()); }
    let w = lam_words(InstrV::Deallocate)->0;
    }

#[verifier::spinoff_prover]
proof fn lemma_lam_fail(n: nat)
    ensures
        lam_words(InstrV::Fail) matches Some(w)
            && lam_tokens_spec(w, n) == Some(Ok::<Seq<InstrV>, Seq<char>>(seq![InstrV::Fail])),
{
    reveal_strlit("PutStr");
    reveal_strlit("GetStr");
    reveal_strlit("PutConst");
    reveal_strlit("GetConst");
    reveal_strlit("PutVar");
    reveal_strlit("GetVar");
    reveal_strlit("Call");
    reveal_strlit("write");
    reveal_strlit("Proceed");
    reveal_strlit("Choice");
    reveal_strlit("Allocate");
    reveal_strlit("Deallocate");
    reveal_strlit("Fail");
    reveal_strlit("ArithmeticIs");
    reveal_strlit("SetLocal");
    reveal_strlit("GetLocal");
    reveal_strlit("GetStructure");
    reveal_strlit("IndexedCall");
    reveal_strlit("MultiIndexedCall");
    reveal_strlit("TailCall");
    reveal_strlit("AssertClause");
    reveal_strlit("RetractClause");
    reveal_strlit("Cut");
    reveal_strlit("BuildCompound");
    reveal_strlit("Halt");
    assert("Fail"@ != "PutStr"@) by { assert("Fail"@.len() != "PutStr"@.len()); }
    assert("Fail"@ != "GetStr"@) by { assert("Fail"@.len() != "GetStr"@.len()); }
    assert("Fail"@ != "PutConst"@) by { assert("Fail"@.len() != "PutConst"@.len()); }
    assert("Fail"@ != "GetConst"@) by { assert("Fail"@.len() != "GetConst"@.len()); }
    assert("Fail"@ != "PutVar"@) by { assert("Fail"@.len() != "PutVar"@.len()); }
    assert("Fail"@ != "GetVar"@) by { assert("Fail"@.len() != "GetVar"@.len()); }
    assert("Fail"@ != "Call"@) by { assert("Fail"@[0] != "Call"@[0]); }
    assert("Fail"@ != "write"@) by { assert("Fail"@.len() != "write"@.len()); }
    assert("Fail"@ != "Proceed"@) by { assert("Fail"@.len() != "Proceed"@.len()); }
    assert("Fail"@ != "Choice"@) by { assert("Fail"@.len() != "Choice"@.len()); }
    assert("Fail"@ != "Allocate"@) by { assert("Fail"@.len() != "Allocate"@.len()); }
    assert("Fail"@ != "Deallocate"@) by { assert("Fail"@.len() != "Deallocate"@.len()); }
    assert("Fail"@ != "ArithmeticIs"@) by { assert("Fail"@.len() != "ArithmeticIs"@.len()); }
    assert("Fail"@ != "SetLocal"@) by { assert("Fail"@.len() != "SetLocal"@.len()); }
    assert("Fail"@ != "GetLocal"@) by { assert("Fail"@.len() != "GetLocal"@.len()); }
    assert("Fail"@ != "GetStructure"@) by { assert("Fail"@.len() != "GetStructure"@.len()); }
    assert("Fail"@ != "IndexedCall"@) by { assert("Fail"@.len() != "IndexedCall"@.len()); }
    assert("Fail"@ != "MultiIndexedCall"@) by { assert("Fail"@.len() != "MultiIndexedCall"@.len()); }
    assert("Fail"@ != "TailCall"@) by { assert("Fail"@.len() != "TailCall"@.len()); }
    assert("Fail"@ != "AssertClause"@) by { assert("Fail"@.len() != "AssertClause"@.len()); }
    assert("Fail"@ != "RetractClause"@) by { assert("Fail"@.len() != "RetractClause"@.len()); }
    assert("Fail"@ != "Cut"@) by { assert("Fail"@.len() != "Cut"@.len()); }
    assert("Fail"@ != "BuildCompound"@) by { assert("Fail"@.len() != "BuildCompound"@.len()); }
    assert("Fail"@ != "Halt"@) by { assert("Fail"@[0] != "Halt"@[0]); }
    let w = lam_words(InstrV::Fail)->0;
    }

#[verifier::spinoff_prover]
proof fn lemma_lam_setlocal(index: usize, v: i32, n: nat)
    ensures
        lam_words(InstrV::SetLocal { index, value: TermV::Const(v) }) matches Some(w)
            && lam_tokens_spec(w, n) == Some(Ok::<Seq<InstrV>, Seq<char>>(seq![InstrV::SetLocal { index, value: TermV::Const(v) }])),
{
    reveal_strlit("PutStr");
    reveal_strlit("GetStr");
    reveal_strlit("PutConst");
    reveal_strlit("GetConst");
    reveal_strlit("PutVar");
    reveal_strlit("GetVar");
    reveal_strlit("Call");
    reveal_strlit("write");
    reveal_strlit("Proceed");
    reveal_strlit("Choice");
    reveal_strlit("Allocate");
    reveal_strlit("Deallocate");
    reveal_strlit("Fail");
    reveal_strlit("ArithmeticIs");
    reveal_strlit("SetLocal");
    reveal_strlit("GetLocal");
    reveal_strlit("GetStructure");
    reveal_strlit("IndexedCall");
    reveal_strlit("MultiIndexedCall");
    reveal_strlit("TailCall");
    reveal_strlit("AssertClause");
    reveal_strlit("RetractClause");
    reveal_strlit("Cut");
    reveal_strlit("BuildCompound");
    reveal_strlit("Halt");
    assert("SetLocal"@ != "PutStr"@) by { assert("SetLocal"@.len() != "PutStr"@.len()); }
    assert("SetLocal"@ != "GetStr"@) by { assert("SetLocal"@.len() != "GetStr"@.len()); }
    assert("SetLocal"@ != "PutConst"@) by { assert("SetLocal"@[0] != "PutConst"@[0]); }
    assert("SetLocal"@ != "GetConst"@) by { assert("SetLocal"@[0] != "GetConst"@[0]); }
    assert("SetLocal"@ != "PutVar"@) by { assert("SetLocal"@.len() != "PutVar"@.len()); }
    assert("SetLocal"@ != "GetVar"@) by { assert("SetLocal"@.len() != "GetVar"@.len()); }
    assert("SetLocal"@ != "Call"@) by { assert("SetLocal"@.len() != "Call"@.len()); }
    assert("SetLocal"@ != "write"@) by { assert("SetLocal"@.len() != "write"@.len()); }
    assert("SetLocal"@ != "Proceed"@) by { assert("SetLocal"@.len() != "Proceed"@.len()); }
    assert("SetLocal"@ != "Choice"@) by { assert("SetLocal"@.len() != "Choice"@.len()); }
    assert("SetLocal"@ != "Allocate"@) by { assert("SetLocal"@[0] != "Allocate"@[0]); }
    assert("SetLocal"@ != "Deallocate"@) by { assert("SetLocal"@.len() != "Deallocate"@.len()); }
    assert("SetLocal"@ != "Fail"@) by { assert("SetLocal"@.len() != "Fail"@.len()); }
    assert("SetLocal"@ != "ArithmeticIs"@) by { assert("SetLocal"@.len() != "ArithmeticIs"@.len()); }
    assert("SetLocal"@ != "GetLocal"@) by { assert("SetLocal"@[0] != "GetLocal"@[0]); }
    assert("SetLocal"@ != "GetStructure"@) by { assert("SetLocal"@.len() != "GetStructure"@.len()); }
    assert("SetLocal"@ != "IndexedCall"@) by { assert("SetLocal"@.len() != "IndexedCall"@.len()); }
    assert("SetLocal"@ != "MultiIndexedCall"@) by { assert("SetLocal"@.len() != "MultiIndexedCall"@.len()); }
    assert("SetLocal"@ != "TailCall"@) by { assert("SetLocal"@[0] != "TailCall"@[0]); }
    assert("SetLocal"@ != "AssertClause"@) by { assert("SetLocal"@.len() != "AssertClause"@.len()); }
    assert("SetLocal"@ != "RetractClause"@) by { assert("SetLocal"@.len() != "RetractClause"@.len()); }
    assert("SetLocal"@ != "Cut"@) by { assert("SetLocal"@.len() != "Cut"@.len()); }
    assert("SetLocal"@ != "BuildCompound"@) by { assert("SetLocal"@.len() != "BuildCompound"@.len()); }
    assert("SetLocal"@ != "Halt"@) by { assert("SetLocal"@.len() != "Halt"@.len()); }
    let w = lam_words(InstrV::SetLocal { index, value: TermV::Const(v) })->0;
    lemma_read_usize(index);
    lemma_read_i32(v);
}

#[verifier::spinoff_prover]
proof fn lemma_lam_getlocal(index: usize, register: usize, n: nat)
    ensures
        lam_words(InstrV::GetLocal { index, register }) matches Some(w)
            && lam_tokens_spec(w, n) == Some(Ok::<Seq<InstrV>, Seq<char>>(seq![InstrV::GetLocal { index, register }])),
{
    reveal_strlit("PutStr");
    reveal_strlit("GetStr");
    reveal_strlit("PutConst");
    reveal_strlit("GetConst");
    reveal_strlit("PutVar");
    reveal_strlit("GetVar");
    reveal_strlit("Call");
    reveal_strlit("write");
    reveal_strlit("Proceed");
    reveal_strlit("Choice");
    reveal_strlit("Allocate");
    reveal_strlit("Deallocate");
    reveal_strlit("Fail");
    reveal_strlit("ArithmeticIs");
    reveal_strlit("SetLocal");
    reveal_strlit("GetLocal");
    reveal_strlit("GetStructure");
    reveal_strlit("IndexedCall");
    reveal_strlit("MultiIndexedCall");
    reveal_strlit("TailCall");
    reveal_strlit("AssertClause");
    reveal_strlit("RetractClause");
    reveal_strlit("Cut");
    reveal_strlit("BuildCompound");
    reveal_strlit("Halt");
    assert("GetLocal"@ != "PutStr"@) by { assert("GetLocal"@.len() != "PutStr"@.len()); }
    assert("GetLocal"@ != "GetStr"@) by { assert("GetLocal"@.len() != "GetStr"@.len()); }
    assert("GetLocal"@ != "PutConst"@) by { assert("GetLocal"@[0] != "PutConst"@[0]); }
    assert("GetLocal"@ != "GetConst"@) by { assert("GetLocal"@[3] != "GetConst"@[3]); }
    assert("GetLocal"@ != "PutVar"@) by { assert("GetLocal"@.len() != "PutVar"@.len()); }
    assert("GetLocal"@ != "GetVar"@) by { assert("GetLocal"@.len() != "GetVar"@.len()); }
    assert("GetLocal"@ != "Call"@) by { assert("GetLocal"@.len() != "Call"@.len()); }
    assert("GetLocal"@ != "write"@) by { assert("GetLocal"@.len() != "write"@.len()); }
    assert("GetLocal"@ != "Proceed"@) by { assert("GetLocal"@.len() != "Proceed"@.len()); }
    assert("GetLocal"@ != "Choice"@) by { assert("GetLocal"@.len() != "Choice"@.len()); }
    assert("GetLocal"@ != "Allocate"@) by { assert("GetLocal"@[0] != "Allocate"@[0]); }
    assert("GetLocal"@ != "Deallocate"@) by { assert("GetLocal"@.len() != "Deallocate"@.len()); }
    assert("GetLocal"@ != "Fail"@) by { assert("GetLocal"@.len() != "Fail"@.len()); }
    assert("GetLocal"@ != "ArithmeticIs"@) by { assert("GetLocal"@.len() != "ArithmeticIs"@.len()); }
    assert("GetLocal"@ != "SetLocal"@) by { assert("GetLocal"@[0] != "SetLocal"@[0]); }
    assert("GetLocal"@ != "GetStructure"@) by { assert("GetLocal"@.len() != "GetStructure"@.len()); }
    assert("GetLocal"@ != "IndexedCall"@) by { assert("GetLocal"@.len() != "IndexedCall"@.len()); }
    assert("GetLocal"@ != "MultiIndexedCall"@) by { assert("GetLocal"@.len() != "MultiIndexedCall"@.len()); }
    assert("GetLocal"@ != "TailCall"@) by { assert("GetLocal"@[0] != "TailCall"@[0]); }
    assert("GetLocal"@ != "AssertClause"@) by { assert("GetLocal"@.len() != "AssertClause"@.len()); }
    assert("GetLocal"@ != "RetractClause"@) by { assert("GetLocal"@.len() != "RetractClause"@.len()); }
    assert("GetLocal"@ != "Cut"@) by { assert("GetLocal"@.len() != "Cut"@.len()); }
    assert("GetLocal"@ != "BuildCompound"@) by { assert("GetLocal"@.len() != "BuildCompound"@.len()); }
    assert("GetLocal"@ != "Halt"@) by { assert("GetLocal"@.len() != "Halt"@.len()); }
    let w = lam_words(InstrV::GetLocal { index, register })->0;
    lemma_read_usize(index);
    lemma_read_usize(register);
}

#[verifier::spinoff_prover]
proof fn lemma_lam_getstructure(register: usize, functor: Seq<char>, arity: usize, n: nat)
    ensures
        lam_words(InstrV::GetStructure { register, functor, arity }) matches Some(w)
            && lam_tokens_spec(w, n) == Some(Ok::<Seq<InstrV>, Seq<char>>(seq![InstrV::GetStructure { register, functor, arity }])),
{
    reveal_strlit("PutStr");
    reveal_strlit("GetStr");
    reveal_strlit("PutConst");
    reveal_strlit("GetConst");
    reveal_strlit("PutVar");
    reveal_strlit("GetVar");
    reveal_strlit("Call");
    reveal_strlit("write");
    reveal_strlit("Proceed");
    reveal_strlit("Choice");
    reveal_strlit("Allocate");
    reveal_strlit("Deallocate");
    reveal_strlit("Fail");
    reveal_strlit("ArithmeticIs");
    reveal_strlit("SetLocal");
    reveal_strlit("GetLocal");
    reveal_strlit("GetStructure");
    reveal_strlit("IndexedCall");
    reveal_strlit("MultiIndexedCall");
    reveal_strlit("TailCall");
    reveal_strlit("AssertClause");
    reveal_strlit("RetractClause");
    reveal_strlit("Cut");
    reveal_strlit("BuildCompound");
    reveal_strlit("Halt");
    assert("GetStructure"@ != "PutStr"@) by { assert("GetStructure"@.len() != "PutStr"@.len()); }
    assert("GetStructure"@ != "GetStr"@) by { assert("GetStructure"@.len() != "GetStr"@.len()); }
    assert("GetStructure"@ != "PutConst"@) by { assert("GetStructure"@.len() != "PutConst"@.len()); }
    assert("GetStructure"@ != "GetConst"@) by { assert("GetStructure"@.len() != "GetConst"@.len()); }
    assert("GetStructure"@ != "PutVar"@) by { assert("GetStructure"@.len() != "PutVar"@.len()); }
    assert("GetStructure"@ != "GetVar"@) by { assert("GetStructure"@.len() != "GetVar"@.len()); }
    assert("GetStructure"@ != "Call"@) by { assert("GetStructure"@.len() != "Call"@.len()); }
    assert("GetStructure"@ != "write"@) by { assert("GetStructure"@.len() != "write"@.len()); }
    assert("GetStructure"@ != "Proceed"@) by { assert("GetStructure"@.len() != "Proceed"@.len()); }
    assert("GetStructure"@ != "Choice"@) by { assert("GetStructure"@.len() != "Choice"@.len()); }
    assert("GetStructure"@ != "Allocate"@) by { assert("GetStructure"@.len() != "Allocate"@.len()); }
    assert("GetStructure"@ != "Deallocate"@) by { assert("GetStructure"@.len() != "Deallocate"@.len()); }
    assert("GetStructure"@ != "Fail"@) by { assert("GetStructure"@.len() != "Fail"@.len()); }
    assert("GetStructure"@ != "ArithmeticIs"@) by { assert("GetStructure"@[0] != "ArithmeticIs"@[0]); }
    assert("GetStructure"@ != "SetLocal"@) by { assert("GetStructure"@.len() != "SetLocal"@.len()); }
    assert("GetStructure"@ != "GetLocal"@) by { assert("GetStructure"@.len() != "GetLocal"@.len()); }
    assert("GetStructure"@ != "IndexedCall"@) by { assert("GetStructure"@.len() != "IndexedCall"@.len()); }
    assert("GetStructure"@ != "MultiIndexedCall"@) by { assert("GetStructure"@.len() != "MultiIndexedCall"@.len()); }
    assert("GetStructure"@ != "TailCall"@) by { assert("GetStructure"@.len() != "TailCall"@.len()); }
    assert("GetStructure"@ != "AssertClause"@) by { assert("GetStructure"@[0] != "AssertClause"@[0]); }
    assert("GetStructure"@ != "RetractClause"@) by { assert("GetStructure"@.len() != "RetractClause"@.len()); }
    assert("GetStructure"@ != "Cut"@) by { assert("GetStructure"@.len() != "Cut"@.len()); }
    assert("GetStructure"@ != "BuildCompound"@) by { assert("GetStructure"@.len() != "BuildCompound"@.len()); }
    assert("GetStructure"@ != "Halt"@) by { assert("GetStructure"@.len() != "Halt"@.len()); }
    let w = lam_words(InstrV::GetStructure { register, functor, arity })->0;
    lemma_read_usize(register);
    lemma_read_usize(arity);
}

#[verifier::spinoff_prover]
proof fn lemma_lam_indexedcall(predicate: Seq<char>, index_register: usize, n: nat)
    ensures
        lam_words(InstrV::IndexedCall { predicate, index_register }) matches Some(w)
            && lam_tokens_spec(w, n) == Some(Ok::<Seq<InstrV>, Seq<char>>(seq![InstrV::IndexedCall { predicate, index_register }])),
{
    reveal_strlit("PutStr");
    reveal_strlit("GetStr");
    reveal_strlit("PutConst");
    reveal_strlit("GetConst");
    reveal_strlit("PutVar");
    reveal_strlit("GetVar");
    reveal_strlit("Call");
    reveal_strlit("write");
    reveal_strlit("Proceed");
    reveal_strlit("Choice");
    reveal_strlit("Allocate");
    reveal_strlit("Deallocate");
    reveal_strlit("Fail");
    reveal_strlit("ArithmeticIs");
    reveal_strlit("SetLocal");
    reveal_strlit("GetLocal");
    reveal_strlit("GetStructure");
    reveal_strlit("IndexedCall");
    reveal_strlit("MultiIndexedCall");
    reveal_strlit("TailCall");
    reveal_strlit("AssertClause");
    reveal_strlit("RetractClause");
    reveal_strlit("Cut");
    reveal_strlit("BuildCompound");
    reveal_strlit("Halt");
    assert("IndexedCall"@ != "PutStr"@) by { assert("IndexedCall"@.len() != "PutStr"@.len()); }
    assert("IndexedCall"@ != "GetStr"@) by { assert("IndexedCall"@.len() != "GetStr"@.len()); }
    assert("IndexedCall"@ != "PutConst"@) by { assert("IndexedCall"@.len() != "PutConst"@.len()); }
    assert("IndexedCall"@ != "GetConst"@) by { assert("IndexedCall"@.len() != "GetConst"@.len()); }
    assert("IndexedCall"@ != "PutVar"@) by { assert("IndexedCall"@.len() != "PutVar"@.len()); }
    assert("IndexedCall"@ != "GetVar"@) by { assert("IndexedCall"@.len() != "GetVar"@.len()); }
    assert("IndexedCall"@ != "Call"@) by { assert("IndexedCall"@.len() != "Call"@.len()); }
    assert("IndexedCall"@ != "write"@) by { assert("IndexedCall"@.len() != "write"@.len()); }
    assert("IndexedCall"@ != "Proceed"@) by { assert("IndexedCall"@.len() != "Proceed"@.len()); }
    assert("IndexedCall"@ != "Choice"@) by { assert("IndexedCall"@.len() != "Choice"@.len()); }
    assert("IndexedCall"@ != "Allocate"@) by { assert("IndexedCall"@.len() != "Allocate"@.len()); }
    assert("IndexedCall"@ != "Deallocate"@) by { assert("IndexedCall"@.len() != "Deallocate"@.len()); }
    assert("IndexedCall"@ != "Fail"@) by { assert("IndexedCall"@.len() != "Fail"@.len()); }
    assert("IndexedCall"@ != "ArithmeticIs"@) by { assert("IndexedCall"@.len() != "ArithmeticIs"@.len()); }
    assert("IndexedCall"@ != "SetLocal"@) by { assert("IndexedCall"@.len() != "SetLocal"@.len()); }
    assert("IndexedCall"@ != "GetLocal"@) by { assert("IndexedCall"@.len() != "GetLocal"@.len()); }
    assert("IndexedCall"@ != "GetStructure"@) by { assert("IndexedCall"@.len() != "GetStructure"@.len()); }
    assert("IndexedCall"@ != "MultiIndexedCall"@) by { assert("IndexedCall"@.len() != "MultiIndexedCall"@.len()); }
    assert("IndexedCall"@ != "TailCall"@) by { assert("IndexedCall"@.len() != "TailCall"@.len()); }
    assert("IndexedCall"@ != "AssertClause"@) by { assert("IndexedCall"@.len() != "AssertClause"@.len()); }
    assert("IndexedCall"@ != "RetractClause"@) by { assert("IndexedCall"@.len() != "RetractClause"@.len()); }
    assert("IndexedCall"@ != "Cut"@) by { assert("IndexedCall"@.len() != "Cut"@.len()); }
    assert("IndexedCall"@ != "BuildCompound"@) by { assert("IndexedCall"@.len() != "BuildCompound"@.len()); }
    assert("IndexedCall"@ != "Halt"@) by { assert("IndexedCall"@.len() != "Halt"@.len()); }
    let w = lam_words(InstrV::IndexedCall { predicate, index_register })->0;
    lemma_read_usize(index_register);
}

#[verifier::spinoff_prover]
proof fn lemma_lam_multiindexedcall(predicate: Seq<char>, index_registers: Seq<usize>, n: nat)
    requires
        index_registers.len() > 0,
    ensures
        lam_words(InstrV::MultiIndexedCall { predicate, index_registers }) matches Some(w)
            && lam_tokens_spec(w, n) == Some(Ok::<Seq<InstrV>, Seq<char>>(seq![InstrV::MultiIndexedCall { predicate, index_registers }])),
{
    reveal_strlit("PutStr");
    reveal_strlit("GetStr");
    reveal_strlit("PutConst");
    reveal_strlit("GetConst");
    reveal_strlit("PutVar");
    reveal_strlit("GetVar");
    reveal_strlit("Call");
    reveal_strlit("write");
    reveal_strlit("Proceed");
    reveal_strlit("Choice");
    reveal_strlit("Allocate");
    reveal_strlit("Deallocate");
    reveal_strlit("Fail");
    reveal_strlit("ArithmeticIs");
    reveal_strlit("SetLocal");
    reveal_strlit("GetLocal");
    reveal_strlit("GetStructure");
    reveal_strlit("IndexedCall");
    reveal_strlit("MultiIndexedCall");
    reveal_strlit("TailCall");
    reveal_strlit("AssertClause");
    reveal_strlit("RetractClause");
    reveal_strlit("Cut");
    reveal_strlit("BuildCompound");
    reveal_strlit("Halt");
    assert("MultiIndexedCall"@ != "PutStr"@) by { assert("MultiIndexedCall"@.len() != "PutStr"@.len()); }
    assert("MultiIndexedCall"@ != "GetStr"@) by { assert("MultiIndexedCall"@.len() != "GetStr"@.len()); }
    assert("MultiIndexedCall"@ != "PutConst"@) by { assert("MultiIndexedCall"@.len() != "PutConst"@.len()); }
    assert("MultiIndexedCall"@ != "GetConst"@) by { assert("MultiIndexedCall"@.len() != "GetConst"@.len()); }
    assert("MultiIndexedCall"@ != "PutVar"@) by { assert("MultiIndexedCall"@.len() != "PutVar"@.len()); }
    assert("MultiIndexedCall"@ != "GetVar"@) by { assert("MultiIndexedCall"@.len() != "GetVar"@.len()); }
    assert("MultiIndexedCall"@ != "Call"@) by { assert("MultiIndexedCall"@.len() != "Call"@.len()); }
    assert("MultiIndexedCall"@ != "write"@) by { assert("MultiIndexedCall"@.len() != "write"@.len()); }
    assert("MultiIndexedCall"@ != "Proceed"@) by { assert("MultiIndexedCall"@.len() != "Proceed"@.len()); }
    assert("MultiIndexedCall"@ != "Choice"@) by { assert("MultiIndexedCall"@.len() != "Choice"@.len()); }
    assert("MultiIndexedCall"@ != "Allocate"@) by { assert("MultiIndexedCall"@.len() != "Allocate"@.len()); }
    assert("MultiIndexedCall"@ != "Deallocate"@) by { assert("MultiIndexedCall"@.len() != "Deallocate"@.len()); }
    assert("MultiIndexedCall"@ != "Fail"@) by { assert("MultiIndexedCall"@.len() != "Fail"@.len()); }
    assert("MultiIndexedCall"@ != "ArithmeticIs"@) by { assert("MultiIndexedCall"@.len() != "ArithmeticIs"@.len()); }
    assert("MultiIndexedCall"@ != "SetLocal"@) by { assert("MultiIndexedCall"@.len() != "SetLocal"@.len()); }
    assert("MultiIndexedCall"@ != "GetLocal"@) by { assert("MultiIndexedCall"@.len() != "GetLocal"@.len()); }
    assert("MultiIndexedCall"@ != "GetStructure"@) by { assert("MultiIndexedCall"@.len() != "GetStructure"@.len()); }
    assert("MultiIndexedCall"@ != "IndexedCall"@) by { assert("MultiIndexedCall"@.len() != "IndexedCall"@.len()); }
    assert("MultiIndexedCall"@ != "TailCall"@) by { assert("MultiIndexedCall"@.len() != "TailCall"@.len()); }
    assert("MultiIndexedCall"@ != "AssertClause"@) by { assert("MultiIndexedCall"@.len() != "AssertClause"@.len()); }
    assert("MultiIndexedCall"@ != "RetractClause"@) by { assert("MultiIndexedCall"@.len() != "RetractClause"@.len()); }
    assert("MultiIndexedCall"@ != "Cut"@) by { assert("MultiIndexedCall"@.len() != "Cut"@.len()); }
    assert("MultiIndexedCall"@ != "BuildCompound"@) by { assert("MultiIndexedCall"@.len() != "BuildCompound"@.len()); }
    assert("MultiIndexedCall"@ != "Halt"@) by { assert("MultiIndexedCall"@.len() != "Halt"@.len()); }
    let w = lam_words(InstrV::MultiIndexedCall { predicate, index_registers })->0;
    lemma_register_words(index_registers);
    assert(w.skip(2) =~= register_words(index_registers));
}

#[verifier::spinoff_prover]
proof fn lemma_lam_tailcall(predicate: Seq<char>, n: nat)
    ensures
        lam_words(InstrV::TailCall { predicate }) matches Some(w)
            && lam_tokens_spec(w, n) == Some(Ok::<Seq<InstrV>, Seq<char>>(seq![InstrV::TailCall { predicate }])),
{
    reveal_strlit("PutStr");
    reveal_strlit("GetStr");
    reveal_strlit("PutConst");
    reveal_strlit("GetConst");
    reveal_strlit("PutVar");
    reveal_strlit("GetVar");
    reveal_strlit("Call");
    reveal_strlit("write");
    reveal_strlit("Proceed");
    reveal_strlit("Choice");
    reveal_strlit("Allocate");
    reveal_strlit("Deallocate");
    reveal_strlit("Fail");
    reveal_strlit("ArithmeticIs");
    reveal_strlit("SetLocal");
    reveal_strlit("GetLocal");
    reveal_strlit("GetStructure");
    reveal_strlit("IndexedCall");
    reveal_strlit("MultiIndexedCall");
    reveal_strlit("TailCall");
    reveal_strlit("AssertClause");
    reveal_strlit("RetractClause");
    reveal_strlit("Cut");
    reveal_strlit("BuildCompound");
    reveal_strlit("Halt");
    assert("TailCall"@ != "PutStr"@) by { assert("TailCall"@.len() != "PutStr"@.len()); }
    assert("TailCall"@ != "GetStr"@) by { assert("TailCall"@.len() != "GetStr"@.len()); }
    assert("TailCall"@ != "PutConst"@) by { assert("TailCall"@[0] != "PutConst"@[0]); }
    assert("TailCall"@ != "GetConst"@) by { assert("TailCall"@[0] != "GetConst"@[0]); }
    assert("TailCall"@ != "PutVar"@) by { assert("TailCall"@.len() != "PutVar"@.len()); }
    assert("TailCall"@ != "GetVar"@) by { assert("TailCall"@.len() != "GetVar"@.len()); }
    assert("TailCall"@ != "Call"@) by { assert("TailCall"@.len() != "Call"@.len()); }
    assert("TailCall"@ != "write"@) by { assert("TailCall"@.len() != "write"@.len()); }
    assert("TailCall"@ != "Proceed"@) by { assert("TailCall"@.len() != "Proceed"@.len()); }
    assert("TailCall"@ != "Choice"@) by { assert("TailCall"@.len() != "Choice"@.len()); }
    assert("TailCall"@ != "Allocate"@) by { assert("TailCall"@[0] != "Allocate"@[0]); }
    assert("TailCall"@ != "Deallocate"@) by { assert("TailCall"@.len() != "Deallocate"@.len()); }
    assert("TailCall"@ != "Fail"@) by { assert("TailCall"@.len() != "Fail"@.len()); }
    assert("TailCall"@ != "ArithmeticIs"@) by { assert("TailCall"@.len() != "ArithmeticIs"@.len()); }
    assert("TailCall"@ != "SetLocal"@) by { assert("TailCall"@[0] != "SetLocal"@[0]); }
    assert("TailCall"@ != "GetLocal"@) by { assert("TailCall"@[0] != "GetLocal"@[0]); }
    assert("TailCall"@ != "GetStructure"@) by { assert("TailCall"@.len() != "GetStructure"@.len()); }
    assert("TailCall"@ != "IndexedCall"@) by { assert("TailCall"@.len() != "IndexedCall"@.len()); }
    assert("TailCall"@ != "MultiIndexedCall"@) by { assert("TailCall"@.len() != "MultiIndexedCall"@.len()); }
    assert("TailCall"@ != "AssertClause"@) by { assert("TailCall"@.len() != "AssertClause"@.len()); }
    assert("TailCall"@ != "RetractClause"@) by { assert("TailCall"@.len() != "RetractClause"@.len()); }
    assert("TailCall"@ != "Cut"@) by { assert("TailCall"@.len() != "Cut"@.len()); }
    assert("TailCall"@ != "BuildCompound"@) by { assert("TailCall"@.len() != "BuildCompound"@.len()); }
    assert("TailCall"@ != "Halt"@) by { assert("TailCall"@.len() != "Halt"@.len()); }
    let w = lam_words(InstrV::TailCall { predicate })->0;
    }

#[verifier::spinoff_prover]
proof fn lemma_lam_assertclause(predicate: Seq<char>, address: usize, n: nat)
    ensures
        lam_words(InstrV::AssertClause { predicate, address }) matches Some(w)
            && lam_tokens_spec(w, n) == Some(Ok::<Seq<InstrV>, Seq<char>>(seq![InstrV::AssertClause { predicate, address }])),
{
    reveal_strlit("PutStr");
    reveal_strlit("GetStr");
    reveal_strlit("PutConst");
    reveal_strlit("GetConst");
    reveal_strlit("PutVar");
    reveal_strlit("GetVar");
    reveal_strlit("Call");
    reveal_strlit("write");
    reveal_strlit("Proceed");
    reveal_strlit("Choice");
    reveal_strlit("Allocate");
    reveal_strlit("Deallocate");
    reveal_strlit("Fail");
    reveal_strlit("ArithmeticIs");
    reveal_strlit("SetLocal");
    reveal_strlit("GetLocal");
    reveal_strlit("GetStructure");
    reveal_strlit("IndexedCall");
    reveal_strlit("MultiIndexedCall");
    reveal_strlit("TailCall");
    reveal_strlit("AssertClause");
    reveal_strlit("RetractClause");
    reveal_strlit("Cut");
    reveal_strlit("BuildCompound");
    reveal_strlit("Halt");
    assert("AssertClause"@ != "PutStr"@) by { assert("AssertClause"@.len() != "PutStr"@.len()); }
    assert("AssertClause"@ != "GetStr"@) by { assert("AssertClause"@.len() != "GetStr"@.len()); }
    assert("AssertClause"@ != "PutConst"@) by { assert("AssertClause"@.len() != "PutConst"@.len()); }
    assert("AssertClause"@ != "GetConst"@) by { assert("AssertClause"@.len() != "GetConst"@.len()); }
    assert("AssertClause"@ != "PutVar"@) by { assert("AssertClause"@.len() != "PutVar"@.len()); }
    assert("AssertClause"@ != "GetVar"@) by { assert("AssertClause"@.len() != "GetVar"@.len()); }
    assert("AssertClause"@ != "Call"@) by { assert("AssertClause"@.len() != "Call"@.len()); }
    assert("AssertClause"@ != "write"@) by { assert("AssertClause"@.len() != "write"@.len()); }
    assert("AssertClause"@ != "Proceed"@) by { assert("AssertClause"@.len() != "Proceed"@.len()); }
    assert("AssertClause"@ != "Choice"@) by { assert("AssertClause"@.len() != "Choice"@.len()); }
    assert("AssertClause"@ != "Allocate"@) by { assert("AssertClause"@.len() != "Allocate"@.len()); }
    assert("AssertClause"@ != "Deallocate"@) by { assert("AssertClause"@.len() != "Deallocate"@.len()); }
    assert("AssertClause"@ != "Fail"@) by { assert("AssertClause"@.len() != "Fail"@.len()); }
    assert("AssertClause"@ != "ArithmeticIs"@) by { assert("AssertClause"@[1] != "ArithmeticIs"@[1]); }
    assert("AssertClause"@ != "SetLocal"@) by { assert("AssertClause"@.len() != "SetLocal"@.len()); }
    assert("AssertClause"@ != "GetLocal"@) by { assert("AssertClause"@.len() != "GetLocal"@.len()); }
    assert("AssertClause"@ != "GetStructure"@) by { assert("AssertClause"@[0] != "GetStructure"@[0]); }
    assert("AssertClause"@ != "IndexedCall"@) by { assert("AssertClause"@.len() != "IndexedCall"@.len()); }
    assert("AssertClause"@ != "MultiIndexedCall"@) by { assert("AssertClause"@.len() != "MultiIndexedCall"@.len()); }
    assert("AssertClause"@ != "TailCall"@) by { assert("AssertClause"@.len() != "TailCall"@.len()); }
    assert("AssertClause"@ != "RetractClause"@) by { assert("AssertClause"@.len() != "RetractClause"@.len()); }
    assert("AssertClause"@ != "Cut"@) by { assert("AssertClause"@.len() != "Cut"@.len()); }
    assert("AssertClause"@ != "BuildCompound"@) by { assert("AssertClause"@.len() != "BuildCompound"@.len()); }
    assert("AssertClause"@ != "Halt"@) by { assert("AssertClause"@.len() != "Halt"@.len()); }
    let w = lam_words(InstrV::AssertClause { predicate, address })->0;
    lemma_read_usize(address);
}

#[verifier::spinoff_prover]
proof fn lemma_lam_retractclause(predicate: Seq<char>, address: usize, n: nat)
    ensures
        lam_words(InstrV::RetractClause { predicate, address }) matches Some(w)
            && lam_tokens_spec(w, n) == Some(Ok::<Seq<InstrV>, Seq<char>>(seq![InstrV::RetractClause { predicate, address }])),
{
    reveal_strlit("PutStr");
    reveal_strlit("GetStr");
    reveal_strlit("PutConst");
    reveal_strlit("GetConst");
    reveal_strlit("PutVar");
    reveal_strlit("GetVar");
    reveal_strlit("Call");
    reveal_strlit("write");
    reveal_strlit("Proceed");
    reveal_strlit("Choice");
    reveal_strlit("Allocate");
    reveal_strlit("Deallocate");
    reveal_strlit("Fail");
    reveal_strlit("ArithmeticIs");
    reveal_strlit("SetLocal");
    reveal_strlit("GetLocal");
    reveal_strlit("GetStructure");
    reveal_strlit("IndexedCall");
    reveal_strlit("MultiIndexedCall");
    reveal_strlit("TailCall");
    reveal_strlit("AssertClause");
    reveal_strlit("RetractClause");
    reveal_strlit("Cut");
    reveal_strlit("BuildCompound");
    reveal_strlit("Halt");
    assert("RetractClause"@ != "PutStr"@) by { assert("RetractClause"@.len() != "PutStr"@.len()); }
    assert("RetractClause"@ != "GetStr"@) by { assert("RetractClause"@.len() != "GetStr"@.len()); }
    assert("RetractClause"@ != "PutConst"@) by { assert("RetractClause"@.len() != "PutConst"@.len()); }
    assert("RetractClause"@ != "GetConst"@) by { assert("RetractClause"@.len() != "GetConst"@.len()); }
    assert("RetractClause"@ != "PutVar"@) by { assert("RetractClause"@.len() != "PutVar"@.len()); }
    assert("RetractClause"@ != "GetVar"@) by { assert("RetractClause"@.len() != "GetVar"@.len()); }
    assert("RetractClause"@ != "Call"@) by { assert("RetractClause"@.len() != "Call"@.len()); }
    assert("RetractClause"@ != "write"@) by { assert("RetractClause"@.len() != "write"@.len()); }
    assert("RetractClause"@ != "Proceed"@) by { assert("RetractClause"@.len() != "Proceed"@.len()); }
    assert("RetractClause"@ != "Choice"@) by { assert("RetractClause"@.len() != "Choice"@.len()); }
    assert("RetractClause"@ != "Allocate"@) by { assert("RetractClause"@.len() != "Allocate"@.len()); }
    assert("RetractClause"@ != "Deallocate"@) by { assert("RetractClause"@.len() != "Deallocate"@.len()); }
    assert("RetractClause"@ != "Fail"@) by { assert("RetractClause"@.len() != "Fail"@.len()); }
    assert("RetractClause"@ != "ArithmeticIs"@) by { assert("RetractClause"@.len() != "ArithmeticIs"@.len()); }
    assert("RetractClause"@ != "SetLocal"@) by { assert("RetractClause"@.len() != "SetLocal"@.len()); }
    assert("RetractClause"@ != "GetLocal"@) by { assert("RetractClause"@.len() != "GetLocal"@.len()); }
    assert("RetractClause"@ != "GetStructure"@) by { assert("RetractClause"@.len() != "GetStructure"@.len()); }
    assert("RetractClause"@ != "IndexedCall"@) by { assert("RetractClause"@.len() != "IndexedCall"@.len()); }
    assert("RetractClause"@ != "MultiIndexedCall"@) by { assert("RetractClause"@.len() != "MultiIndexedCall"@.len()); }
    assert("RetractClause"@ != "TailCall"@) by { assert("RetractClause"@.len() != "TailCall"@.len()); }
    assert("RetractClause"@ != "AssertClause"@) by { assert("RetractClause"@.len() != "AssertClause"@.len()); }
    assert("RetractClause"@ != "Cut"@) by { assert("RetractClause"@.len() != "Cut"@.len()); }
    assert("RetractClause"@ != "BuildCompound"@) by { assert("RetractClause"@[0] != "BuildCompound"@[0]); }
    assert("RetractClause"@ != "Halt"@) by { assert("RetractClause"@.len() != "Halt"@.len()); }
    let w = lam_words(InstrV::RetractClause { predicate, address })->0;
    lemma_read_usize(address);
}

#[verifier::spinoff_prover]
proof fn lemma_lam_cut(n: nat)
    ensures
        lam_words(InstrV::Cut) matches Some(w)
            && lam_tokens_spec(w, n) == Some(Ok::<Seq<InstrV>, Seq<char>>(seq![InstrV::Cut])),
{
    reveal_strlit("PutStr");
    reveal_strlit("GetStr");
    reveal_strlit("PutConst");
    reveal_strlit("GetConst");
    reveal_strlit("PutVar");
    reveal_strlit("GetVar");
    reveal_strlit("Call");
    reveal_strlit("write");
    reveal_strlit("Proceed");
    reveal_strlit("Choice");
    reveal_strlit("Allocate");
    reveal_strlit("Deallocate");
    reveal_strlit("Fail");
    reveal_strlit("ArithmeticIs");
    reveal_strlit("SetLocal");
    reveal_strlit("GetLocal");
    reveal_strlit("GetStructure");
    reveal_strlit("IndexedCall");
    reveal_strlit("MultiIndexedCall");
    reveal_strlit("TailCall");
    reveal_strlit("AssertClause");
    reveal_strlit("RetractClause");
    reveal_strlit("Cut");
    reveal_strlit("BuildCompound");
    reveal_strlit("Halt");
    assert("Cut"@ != "PutStr"@) by { assert("Cut"@.len() != "PutStr"@.len()); }
    assert("Cut"@ != "GetStr"@) by { assert("Cut"@.len() != "GetStr"@.len()); }
    assert("Cut"@ != "PutConst"@) by { assert("Cut"@.len() != "PutConst"@.len()); }
    assert("Cut"@ != "GetConst"@) by { assert("Cut"@.len() != "GetConst"@.len()); }
    assert("Cut"@ != "PutVar"@) by { assert("Cut"@.len() != "PutVar"@.len()); }
    assert("Cut"@ != "GetVar"@) by { assert("Cut"@.len() != "GetVar"@.len()); }
    assert("Cut"@ != "Call"@) by { assert("Cut"@.len() != "Call"@.len()); }
    assert("Cut"@ != "write"@) by { assert("Cut"@.len() != "write"@.len()); }
    assert("Cut"@ != "Proceed"@) by { assert("Cut"@.len() != "Proceed"@.len()); }
    assert("Cut"@ != "Choice"@) by { assert("Cut"@.len() != "Choice"@.len()); }
    assert("Cut"@ != "Allocate"@) by { assert("Cut"@.len() != "Allocate"@.len()); }
    assert("Cut"@ != "Deallocate"@) by { assert("Cut"@.len() != "Deallocate"@.len()); }
    assert("Cut"@ != "Fail"@) by { assert("Cut"@.len() != "Fail"@.len()); }
    assert("Cut"@ != "ArithmeticIs"@) by { assert("Cut"@.len() != "ArithmeticIs"@.len()); }
    assert("Cut"@ != "SetLocal"@) by { assert("Cut"@.len() != "SetLocal"@.len()); }
    assert("Cut"@ != "GetLocal"@) by { assert("Cut"@.len() != "GetLocal"@.len()); }
    assert("Cut"@ != "GetStructure"@) by { assert("Cut"@.len() != "GetStructure"@.len()); }
    assert("Cut"@ != "IndexedCall"@) by { assert("Cut"@.len() != "IndexedCall"@.len()); }
    assert("Cut"@ != "MultiIndexedCall"@) by { assert("Cut"@.len() != "MultiIndexedCall"@.len()); }
    assert("Cut"@ != "TailCall"@) by { assert("Cut"@.len() != "TailCall"@.len()); }
    assert("Cut"@ != "AssertClause"@) by { assert("Cut"@.len() != "AssertClause"@.len()); }
    assert("Cut"@ != "RetractClause"@) by { assert("Cut"@.len() != "RetractClause"@.len()); }
    assert("Cut"@ != "BuildCompound"@) by { assert("Cut"@.len() != "BuildCompound"@.len()); }
    assert("Cut"@ != "Halt"@) by { assert("Cut"@.len() != "Halt"@.len()); }
    let w = lam_words(InstrV::Cut)->0;
    }

#[verifier::spinoff_prover]
proof fn lemma_lam_buildcompound(target: usize, functor: Seq<char>, arg_registers: Seq<usize>, n: nat)
    ensures
        lam_words(InstrV::BuildCompound { target, functor, arg_registers }) matches Some(w)
            && lam_tokens_spec(w, n) == Some(Ok::<Seq<InstrV>, Seq<char>>(seq![InstrV::BuildCompound { target, functor, arg_registers }])),
{
    reveal_strlit("PutStr");
    reveal_strlit("GetStr");
    reveal_strlit("PutConst");
    reveal_strlit("GetConst");
    reveal_strlit("PutVar");
    reveal_strlit("GetVar");
    reveal_strlit("Call");
    reveal_strlit("write");
    reveal_strlit("Proceed");
    reveal_strlit("Choice");
    reveal_strlit("Allocate");
    reveal_strlit("Deallocate");
    reveal_strlit("Fail");
    reveal_strlit("ArithmeticIs");
    reveal_strlit("SetLocal");
    reveal_strlit("GetLocal");
    reveal_strlit("GetStructure");
    reveal_strlit("IndexedCall");
    reveal_strlit("MultiIndexedCall");
    reveal_strlit("TailCall");
    reveal_strlit("AssertClause");
    reveal_strlit("RetractClause");
    reveal_strlit("Cut");
    reveal_strlit("BuildCompound");
    reveal_strlit("Halt");
    assert("BuildCompound"@ != "PutStr"@) by { assert("BuildCompound"@.len() != "PutStr"@.len()); }
    assert("BuildCompound"@ != "GetStr"@) by { assert("BuildCompound"@.len() != "GetStr"@.len()); }
    assert("BuildCompound"@ != "PutConst"@) by { assert("BuildCompound"@.len() != "PutConst"@.len()); }
    assert("BuildCompound"@ != "GetConst"@) by { assert("BuildCompound"@.len() != "GetConst"@.len()); }
    assert("BuildCompound"@ != "PutVar"@) by { assert("BuildCompound"@.len() != "PutVar"@.len()); }
    assert("BuildCompound"@ != "GetVar"@) by { assert("BuildCompound"@.len() != "GetVar"@.len()); }
    assert("BuildCompound"@ != "Call"@) by { assert("BuildCompound"@.len() != "Call"@.len()); }
    assert("BuildCompound"@ != "write"@) by { assert("BuildCompound"@.len() != "write"@.len()); }
    assert("BuildCompound"@ != "Proceed"@) by { assert("BuildCompound"@.len() != "Proceed"@.len()); }
    assert("BuildCompound"@ != "Choice"@) by { assert("BuildCompound"@.len() != "Choice"@.len()); }
    assert("BuildCompound"@ != "Allocate"@) by { assert("BuildCompound"@.len() != "Allocate"@.len()); }
    assert("BuildCompound"@ != "Deallocate"@) by { assert("BuildCompound"@.len() != "Deallocate"@.len()); }
    assert("BuildCompound"@ != "Fail"@) by { assert("BuildCompound"@.len() != "Fail"@.len()); }
    assert("BuildCompound"@ != "ArithmeticIs"@) by { assert("BuildCompound"@.len() != "ArithmeticIs"@.len()); }
    assert("BuildCompound"@ != "SetLocal"@) by { assert("BuildCompound"@.len() != "SetLocal"@.len()); }
    assert("BuildCompound"@ != "GetLocal"@) by { assert("BuildCompound"@.len() != "GetLocal"@.len()); }
    assert("BuildCompound"@ != "GetStructure"@) by { assert("BuildCompound"@.len() != "GetStructure"@.len()); }
    assert("BuildCompound"@ != "IndexedCall"@) by { assert("BuildCompound"@.len() != "IndexedCall"@.len()); }
    assert("BuildCompound"@ != "MultiIndexedCall"@) by { assert("BuildCompound"@.len() != "MultiIndexedCall"@.len()); }
    assert("BuildCompound"@ != "TailCall"@) by { assert("BuildCompound"@.len() != "TailCall"@.len()); }
    assert("BuildCompound"@ != "AssertClause"@) by { assert("BuildCompound"@.len() != "AssertClause"@.len()); }
    assert("BuildCompound"@ != "RetractClause"@) by { assert("BuildCompound"@[0] != "RetractClause"@[0]); }
    assert("BuildCompound"@ != "Cut"@) by { assert("BuildCompound"@.len() != "Cut"@.len()); }
    assert("BuildCompound"@ != "Halt"@) by { assert("BuildCompound"@.len() != "Halt"@.len()); }
    let w = lam_words(InstrV::BuildCompound { target, functor, arg_registers })->0;
    lemma_read_usize(target);
    lemma_register_words(arg_registers);
    assert(w.skip(3) =~= register_words(arg_registers));
}

#[verifier::spinoff_prover]
proof fn lemma_lam_halt(n: nat)
    ensures
        lam_words(InstrV::Halt) matches Some(w)
            && lam_tokens_spec(w, n) == Some(Ok::<Seq<InstrV>, Seq<char>>(seq![InstrV::Halt])),
{
    reveal_strlit("PutStr");
    reveal_strlit("GetStr");
    reveal_strlit("PutConst");
    reveal_strlit("GetConst");
    reveal_strlit("PutVar");
    reveal_strlit("GetVar");
    reveal_strlit("Call");
    reveal_strlit("write");
    reveal_strlit("Proceed");
    reveal_strlit("Choice");
    reveal_strlit("Allocate");
    reveal_strlit("Deallocate");
    reveal_strlit("Fail");
    reveal_strlit("ArithmeticIs");
    reveal_strlit("SetLocal");
    reveal_strlit("GetLocal");
    reveal_strlit("GetStructure");
    reveal_strlit("IndexedCall");
    reveal_strlit("MultiIndexedCall");
    reveal_strlit("TailCall");
    reveal_strlit("AssertClause");
    reveal_strlit("RetractClause");
    reveal_strlit("Cut");
    reveal_strlit("BuildCompound");
    reveal_strlit("Halt");
    assert("Halt"@ != "PutStr"@) by { assert("Halt"@.len() != "PutStr"@.len()); }
    assert("Halt"@ != "GetStr"@) by { assert("Halt"@.len() != "GetStr"@.len()); }
    assert("Halt"@ != "PutConst"@) by { assert("Halt"@.len() != "PutConst"@.len()); }
    assert("Halt"@ != "GetConst"@) by { assert("Halt"@.len() != "GetConst"@.len()); }
    assert("Halt"@ != "PutVar"@) by { assert("Halt"@.len() != "PutVar"@.len()); }
    assert("Halt"@ != "GetVar"@) by { assert("Halt"@.len() != "GetVar"@.len()); }
    assert("Halt"@ != "Call"@) by { assert("Halt"@[0] != "Call"@[0]); }
    assert("Halt"@ != "write"@) by { assert("Halt"@.len() != "write"@.len()); }
    assert("Halt"@ != "Proceed"@) by { assert("Halt"@.len() != "Proceed"@.len()); }
    assert("Halt"@ != "Choice"@) by { assert("Halt"@.len() != "Choice"@.len()); }
    assert("Halt"@ != "Allocate"@) by { assert("Halt"@.len() != "Allocate"@.len()); }
    assert("Halt"@ != "Deallocate"@) by { assert("Halt"@.len() != "Deallocate"@.len()); }
    assert("Halt"@ != "Fail"@) by { assert("Halt"@[0] != "Fail"@[0]); }
    assert("Halt"@ != "ArithmeticIs"@) by { assert("Halt"@.len() != "ArithmeticIs"@.len()); }
    assert("Halt"@ != "SetLocal"@) by { assert("Halt"@.len() != "SetLocal"@.len()); }
    assert("Halt"@ != "GetLocal"@) by { assert("Halt"@.len() != "GetLocal"@.len()); }
    assert("Halt"@ != "GetStructure"@) by { assert("Halt"@.len() != "GetStructure"@.len()); }
    assert("Halt"@ != "IndexedCall"@) by { assert("Halt"@.len() != "IndexedCall"@.len()); }
    assert("Halt"@ != "MultiIndexedCall"@) by { assert("Halt"@.len() != "MultiIndexedCall"@.len()); }
    assert("Halt"@ != "TailCall"@) by { assert("Halt"@.len() != "TailCall"@.len()); }
    assert("Halt"@ != "AssertClause"@) by { assert("Halt"@.len() != "AssertClause"@.len()); }
    assert("Halt"@ != "RetractClause"@) by { assert("Halt"@.len() != "RetractClause"@.len()); }
    assert("Halt"@ != "Cut"@) by { assert("Halt"@.len() != "Cut"@.len()); }
    assert("Halt"@ != "BuildCompound"@) by { assert("Halt"@.len() != "BuildCompound"@.len()); }
    let w = lam_words(InstrV::Halt)->0;
    }

/// Reading back the words of an instruction gives the instruction: each
/// operand is read from its documented place.
pub proof fn law_lam_words_read_back(i: InstrV, n: nat)
    requires
        lam_words(i) is Some,
        lam_plain(i),
    ensures
        lam_tokens_spec(lam_words(i)->0, n) == Some(Ok::<Seq<InstrV>, Seq<char>>(seq![i])),
{
    match i {
        InstrV::PutConst { register, value } => { lemma_lam_putconst(register, value, n); },
        InstrV::GetConst { register, value } => { lemma_lam_getconst(register, value, n); },
        InstrV::PutVar { register, var_id, name } => { lemma_lam_putvar(register, var_id, name, n); },
        InstrV::GetVar { register, var_id, name } => { lemma_lam_getvar(register, var_id, name, n); },
        InstrV::PutStr { register, value } => { lemma_lam_putstr(register, value, n); },
        InstrV::GetStr { register, value } => { lemma_lam_getstr(register, value, n); },
        InstrV::Call { predicate } => { lemma_lam_call(predicate, n); },
        InstrV::Proceed => { lemma_lam_proceed(n); },
        InstrV::Choice => { lemma_lam_choice(n); },
        InstrV::Allocate { n: k } => { lemma_lam_allocate(k, n); },
        InstrV::Deallocate => { lemma_lam_deallocate(n); },
        InstrV::Fail => { lemma_lam_fail(n); },
        InstrV::SetLocal { index, value } => {
            if let TermV::Const(v) = value {
                lemma_lam_setlocal(index, v, n);
            }
        },
        InstrV::GetLocal { index, register } => { lemma_lam_getlocal(index, register, n); },
        InstrV::GetStructure { register, functor, arity } => { lemma_lam_getstructure(register, functor, arity, n); },
        InstrV::IndexedCall { predicate, index_register } => { lemma_lam_indexedcall(predicate, index_register, n); },
        InstrV::MultiIndexedCall { predicate, index_registers } => { lemma_lam_multiindexedcall(predicate, index_registers, n); },
        InstrV::TailCall { predicate } => { lemma_lam_tailcall(predicate, n); },
        InstrV::AssertClause { predicate, address } => { lemma_lam_assertclause(predicate, address, n); },
        InstrV::RetractClause { predicate, address } => { lemma_lam_retractclause(predicate, address, n); },
        InstrV::Cut => { lemma_lam_cut(n); },
        InstrV::BuildCompound { target, functor, arg_registers } => { lemma_lam_buildcompound(target, functor, arg_registers, n); },
        InstrV::Halt => { lemma_lam_halt(n); },
        _ => {},
    }
}

/// A word that stays one token of a line: not empty, without whitespace and
/// without double quotes.
pub open spec fn lam_word(w: Seq<char>) -> bool {
    &&& w.len() > 0
    &&& forall|i: int| 0 <= i < w.len() ==> !is_ws(#[trigger] w[i]) && w[i] != '"'
}

proof fn lemma_state_word(s: Seq<char>, w: Seq<char>)
    requires
        forall|i: int| 0 <= i < w.len() ==> !is_ws(#[trigger] w[i]) && w[i] != '"',
    ensures
        token_state(s + w) == (token_state(s).0, token_state(s).1 + w, token_state(s).2),
    decreases w.len(),
{
    if w.len() == 0 {
        assert(s + w =~= s);
        assert(token_state(s).1 + w =~= token_state(s).1);
    } else {
        let wl = w.drop_last();
        assert forall|i: int| 0 <= i < wl.len() implies !is_ws(#[trigger] wl[i]) && wl[i] != '"' by {
            assert(wl[i] == w[i]);
        }
        lemma_state_word(s, wl);
        assert((s + w).drop_last() =~= s + wl);
        assert((s + w).last() == w.last());
        assert(w.last() == w[w.len() - 1]);
        assert((token_state(s).1 + wl).push(w.last()) =~= token_state(s).1 + w);
    }
}

proof fn lemma_join_first(words: Seq<Seq<char>>)
    requires
        words.len() > 0,
        words[0].len() > 0,
    ensures
        join_space(words).len() > 0,
        join_space(words)[0] == words[0][0],
    decreases words.len(),
{
    if words.len() > 1 {
        lemma_join_first(words.drop_last());
    }
}

/// The tokens of words joined by blanks are the words.
proof fn lemma_tokens_of_join(words: Seq<Seq<char>>)
    requires
        words.len() > 0,
        forall|k: int| 0 <= k < words.len() ==> lam_word(#[trigger] words[k]),
    ensures
        token_state(join_space(words)) == (words.drop_last(), words.last(), false),
        tokenize_line_spec(join_space(words)) == words,
    decreases words.len(),
{
    let last = words.last();
    assert(lam_word(words[words.len() - 1]));
    if words.len() == 1 {
        lemma_state_word(Seq::empty(), last);
        assert(Seq::<char>::empty() + last =~= last);
        assert(Seq::<char>::empty() + last =~= last);
        assert(words.drop_last() =~= Seq::<Seq<char>>::empty());
    } else {
        let pre = words.drop_last();
        assert forall|k: int| 0 <= k < pre.len() implies lam_word(#[trigger] pre[k]) by {
            assert(pre[k] == words[k]);
        }
        lemma_tokens_of_join(pre);
        let j = join_space(pre);
        let js = j + seq![' '];
        assert(js.drop_last() =~= j);
        assert(pre.last() == pre[pre.len() - 1]);
        assert(lam_word(pre[pre.len() - 1]));
        assert(token_state(js) == (pre.drop_last().push(pre.last()), Seq::<char>::empty(), false));
        assert(pre.drop_last().push(pre.last()) =~= pre);
        lemma_state_word(js, last);
        assert(Seq::<char>::empty() + last =~= last);
    }
    assert(words.drop_last().push(last) =~= words);
}

/// An instruction written as its LAM words joined by blanks, a program of
/// one line, reads back as that instruction.
pub proof fn law_lam_line_reads_back(i: InstrV)
    requires
        lam_words(i) is Some,
        lam_plain(i),
        forall|k: int| 0 <= k < lam_words(i)->0.len() ==> lam_word(#[trigger] lam_words(i)->0[k]),
        lam_words(i)->0[0][0] != '#',
    ensures
        parse_program_spec(join_space(lam_words(i)->0)) == Some(Ok::<Seq<InstrV>, Seq<char>>(seq![i])),
{
    let w = lam_words(i)->0;
    let line = join_space(w);
    assert(w.len() > 0);
    assert(lam_word(w[0]));
    lemma_tokens_of_join(w);
    lemma_join_first(w);
    let last = w.last();
    assert(lam_word(w[w.len() - 1]));
    assert(line.last() == last.last()) by {
        if w.len() > 1 {
            assert(line == join_space(w.drop_last()) + seq![' '] + last);
        }
    }
    assert(last.last() == last[last.len() - 1]);
    lemma_trim_plain(line);
    assert(!line.contains('\n')) by {
        if line.contains('\n') {
            let k = choose|k: int| 0 <= k < line.len() && line[k] == '\n';
            assert(token_state(line).2 == false);
            lemma_no_newline(w);
        }
    }
    lemma_split_plain(line, '\n');
    law_lam_words_read_back(i, 1);
    assert(trim(line) == line);
    assert(line[0] == w[0][0]);
    assert(tokenize_line_spec(line) == w);
    assert(lam_line_spec(line, 1) == Some(Ok::<Seq<InstrV>, Seq<char>>(seq![i])));
    let lines = split(line, '\n');
    assert(lines == seq![line]);
    assert(lam_lines_spec(lines, 0) == Some(Ok::<Seq<InstrV>, Seq<char>>(Seq::empty())));
    assert(Seq::<InstrV>::empty() + seq![i] =~= seq![i]);
    assert(lam_lines_spec(lines, 1) == Some(Ok::<Seq<InstrV>, Seq<char>>(seq![i])));
}

/// Words without whitespace joined by blanks hold no line break.
proof fn lemma_no_newline(words: Seq<Seq<char>>)
    requires
        forall|k: int| 0 <= k < words.len() ==> lam_word(#[trigger] words[k]),
    ensures
        !join_space(words).contains('\n'),
    decreases words.len(),
{
    if words.len() > 1 {
        let pre = words.drop_last();
        assert forall|k: int| 0 <= k < pre.len() implies lam_word(#[trigger] pre[k]) by {
            assert(pre[k] == words[k]);
        }
        lemma_no_newline(pre);
        let last = words.last();
        assert(lam_word(words[words.len() - 1]));
        let j = join_space(pre);
        let line = j + seq![' '] + last;
        assert(line == join_space(words));
        if line.contains('\n') {
            let k = choose|k: int| 0 <= k < line.len() && line[k] == '\n';
            if k < j.len() {
                assert(line[k] == j[k]);
            } else if k == j.len() {
            } else {
                assert(line[k] == last[k - j.len() - 1]);
            }
        }
    } else if words.len() == 1 {
        assert(lam_word(words[0]));
        if words[0].contains('\n') {
            let k = choose|k: int| 0 <= k < words[0].len() && words[0][k] == '\n';
        }
    }
}

} // verus!
