//! A Prolog parser. Lines starting with `%`, `//` or `?-` are dropped, the
//! rest are joined, the text must end with a period, and it is split into
//! clauses at periods outside quotes and parentheses that are not decimal
//! points. A clause with `:-` is a rule, any other a fact.

use vstd::prelude::*;
use crate::lexer::{
    trim, split, strip_end_char, parse_i32_spec, pieces_view, str_chars, trim_chars, split_chars,
    copy_range, parse_i32, trim_char_chars,
};
use crate::prolog::ast::{Term, Clause, PTermV, ClauseV, clauses_view};
use crate::text::{push_str, chars_to_string, quoted, push_quoted};

verus! {

broadcast use {vstd::std_specs::vec::group_vec_axioms, crate::prolog::ast::Term::lemma_view};

/// Errors of the parser.
#[derive(Debug)]
pub enum ParseError {
    /// A token was missing or out of place.
    UnexpectedToken(String),
    /// There was nothing to read.
    IncompleteInput,
}

/// The value of a parse error.
pub enum ParseErrorV {
    UnexpectedToken(Seq<char>),
    IncompleteInput,
}

impl View for ParseError {
    type V = ParseErrorV;

    open spec fn view(&self) -> ParseErrorV {
        match self {
            ParseError::UnexpectedToken(m) => ParseErrorV::UnexpectedToken(m@),
            ParseError::IncompleteInput => ParseErrorV::IncompleteInput,
        }
    }
}

/// Whether a character is upper case, as the Unicode tables of the standard
/// library say.
pub uninterp spec fn is_upper(c: char) -> bool;

/// `char::is_uppercase`: its result is named `is_upper` of the argument.
#[verifier::external_body]
pub(crate) fn char_is_uppercase(c: char) -> (r: bool)
    ensures
        r == is_upper(c),
{
    c.is_uppercase()
}

pub open spec fn is_ascii_digit(c: char) -> bool {
    '0' <= c <= '9'
}

/// Keeps a piece only when it is not empty.
pub open spec fn push_nonempty(done: Seq<Seq<char>>, piece: Seq<char>) -> Seq<Seq<char>> {
    if piece.len() > 0 { done.push(piece) } else { done }
}

/// Whether position `i` of `s` separates pieces: a comma, or, when reading
/// clauses, a period that is not between two digits.
pub open spec fn is_separator(s: Seq<char>, i: int, period: bool) -> bool {
    if period {
        s[i] == '.' && !(i > 0 && i + 1 < s.len() && is_ascii_digit(s[i - 1]) && is_ascii_digit(s[i + 1]))
    } else {
        s[i] == ','
    }
}

/// The splitter's state after the first `k` characters: the pieces found
/// (trimmed, empty ones dropped), where the current piece starts, the depth
/// of open parentheses, and whether a single quote is open.
pub open spec fn scan(s: Seq<char>, k: int, period: bool) -> (Seq<Seq<char>>, int, nat, bool)
    decreases k,
{
    if k <= 0 {
        (Seq::empty(), 0, 0, false)
    } else {
        let (done, start, depth, quote) = scan(s, k - 1, period);
        let i = k - 1;
        let c = s[i];
        if c == '\'' {
            (done, start, depth, !quote)
        } else if c == '(' && !quote {
            (done, start, depth + 1, quote)
        } else if c == ')' && !quote {
            (done, start, if depth > 0 { (depth - 1) as nat } else { 0 }, quote)
        } else if is_separator(s, i, period) && depth == 0 && !quote {
            (push_nonempty(done, trim(s.subrange(start, i))), i + 1, depth, quote)
        } else {
            (done, start, depth, quote)
        }
    }
}

/// The pieces of `s` between separators outside quotes and parentheses,
/// trimmed, without empty ones.
pub open spec fn split_top(s: Seq<char>, period: bool) -> Seq<Seq<char>> {
    let (done, start, _, _) = scan(s, s.len() as int, period);
    push_nonempty(done, trim(s.subrange(start, s.len() as int)))
}

/// Goals: the pieces between top-level commas.
pub open spec fn split_goals_spec(s: Seq<char>) -> Seq<Seq<char>> {
    split_top(s, false)
}

/// Clauses: the pieces between top-level periods that are not decimal points.
pub open spec fn split_clauses_spec(s: Seq<char>) -> Seq<Seq<char>> {
    split_top(s, true)
}

/// The first position holding `op` outside quotes and parentheses.
pub open spec fn first_top(s: Seq<char>, op: char) -> Option<int> {
    first_top_in(s, op, s.len() as int)
}

pub open spec fn first_top_in(s: Seq<char>, op: char, k: int) -> Option<int>
    decreases k,
{
    if k <= 0 {
        None
    } else {
        match first_top_in(s, op, k - 1) {
            Some(i) => Some(i),
            None => {
                let (_, _, depth, quote) = scan(s, k - 1, false);
                let c = s[k - 1];
                if c == op && c != '\'' && c != '(' && c != ')' && depth == 0 && !quote { Some(k - 1) } else { None }
            },
        }
    }
}

/// The two sides of the first top-level `op`, trimmed.
pub open spec fn split_infix_spec(s: Seq<char>, op: char) -> Option<(Seq<char>, Seq<char>)> {
    match first_top(s, op) {
        Some(i) => Some((trim(s.take(i)), trim(s.skip(i + 1)))),
        None => None,
    }
}

/// The text of a program: its lines trimmed, without comment and query
/// lines, each followed by a space.
pub open spec fn program_text(lines: Seq<Seq<char>>) -> Seq<char>
    decreases lines.len(),
{
    if lines.len() == 0 {
        Seq::empty()
    } else {
        let t = trim(lines.last());
        let rest = program_text(lines.drop_last());
        if is_comment_line(t) { rest } else { rest + t + seq![' '] }
    }
}

pub open spec fn is_comment_line(t: Seq<char>) -> bool {
    (t.len() >= 1 && t[0] == '%') || (t.len() >= 2 && t[0] == '/' && t[1] == '/') || (t.len() >= 2 && t[0] == '?' && t[1] == '-')
}

/// The clauses of a program text (see the module notes).
pub open spec fn split_program_spec(input: Seq<char>) -> Result<Seq<Seq<char>>, ParseErrorV> {
    let p = trim(program_text(split(input, '\n')));
    if p.len() == 0 {
        Err(ParseErrorV::IncompleteInput)
    } else if p.last() != '.' {
        Err(ParseErrorV::UnexpectedToken("Clause must end with a period"@))
    } else {
        Ok(split_clauses_spec(p))
    }
}

/// The first position of `c` in `s`.
pub open spec fn index_of(s: Seq<char>, c: char) -> Option<int>
    decreases s.len(),
{
    if s.len() == 0 {
        None
    } else {
        match index_of(s.drop_last(), c) {
            Some(i) => Some(i),
            None => if s.last() == c { Some(s.len() - 1) } else { None },
        }
    }
}

/// A term. A top-level `=` outside a quoted atom makes a `=` compound of
/// its two sides; otherwise a single-quoted text is an atom, a name
/// starting with an upper-case letter or `_` is a variable, one starting
/// with a digit is a number, `f(args)` is a compound term (its arguments
/// split at top-level commas), and anything else is an atom.
pub open spec fn parse_term_spec(s: Seq<char>) -> Result<PTermV, ParseErrorV>
    decreases s.len(), 1nat, 0nat,
{
    proof {
        crate::lexer::lemma_trim_len(s);
    }
    let t = trim(s);
    if t.len() == 0 {
        Err(ParseErrorV::IncompleteInput)
    } else {
        let infix = if t[0] != '\'' { split_infix_spec(t, '=') } else { None };
        match infix {
            Some((l, r)) => if l.len() < s.len() && r.len() < s.len() {
                match parse_term_spec(l) {
                    Err(e) => Err(e),
                    Ok(lt) => match parse_term_spec(r) {
                        Err(e) => Err(e),
                        Ok(rt) => Ok(PTermV::Compound("="@, seq![lt, rt])),
                    },
                }
            } else {
                Err(ParseErrorV::IncompleteInput)
            },
            None => if t[0] == '\'' && t.last() == '\'' && t.len() >= 2 {
                Ok(PTermV::Atom(t.subrange(1, t.len() - 1)))
            } else if is_upper(t[0]) || t[0] == '_' {
                Ok(PTermV::Var(t))
            } else if is_ascii_digit(t[0]) {
                match parse_i32_spec(t) {
                    Ok(n) => Ok(PTermV::Number(n as i32)),
                    Err(_) => Err(ParseErrorV::UnexpectedToken("Invalid number: "@ + t)),
                }
            } else {
                match index_of(t, '(') {
                    Some(p) => {
                        let functor = trim(t.take(p));
                        let args = trim(strip_end_char(t.skip(p + 1), ')'));
                        if args.len() == 0 {
                            Ok(PTermV::Compound(functor, Seq::empty()))
                        } else {
                            match parse_terms_spec(split_goals_spec(args), t.len()) {
                                Err(e) => Err(e),
                                Ok(v) => Ok(PTermV::Compound(functor, v)),
                            }
                        }
                    },
                    None => Ok(PTermV::Atom(t)),
                }
            },
        }
    }
}

/// The terms of pieces shorter than `bound`, read left to right up to the
/// first error.
pub open spec fn parse_terms_spec(ps: Seq<Seq<char>>, bound: nat) -> Result<Seq<PTermV>, ParseErrorV>
    decreases bound, 0nat, ps.len(),
{
    if ps.len() == 0 {
        Ok(Seq::empty())
    } else {
        match parse_terms_spec(ps.drop_last(), bound) {
            Err(e) => Err(e),
            Ok(v) => if ps.last().len() < bound {
                match parse_term_spec(ps.last()) {
                    Err(e) => Err(e),
                    Ok(t) => Ok(v.push(t)),
                }
            } else {
                Err(ParseErrorV::IncompleteInput)
            },
        }
    }
}

/// The first occurrence of `:-` in `s`.
pub open spec fn neck_index(s: Seq<char>) -> Option<int>
    decreases s.len(),
{
    if s.len() < 2 {
        None
    } else {
        match neck_index(s.drop_last()) {
            Some(i) => Some(i),
            None => if s[s.len() - 2] == ':' && s.last() == '-' { Some(s.len() - 2) } else { None },
        }
    }
}

/// A clause: a rule where it holds exactly one `:-`, a fact where it holds
/// none.
pub open spec fn parse_clause_spec(c: Seq<char>) -> Result<ClauseV, ParseErrorV> {
    match neck_index(c) {
        Some(i) => {
            let rest = c.skip(i + 2);
            if neck_index(rest) is Some {
                Err(ParseErrorV::UnexpectedToken("Invalid clause syntax: "@ + c))
            } else {
                match parse_term_spec(trim(c.take(i))) {
                    Err(e) => Err(e),
                    Ok(head) => match parse_terms_spec(split_goals_spec(trim(rest)), c.len()) {
                        Err(e) => Err(e),
                        Ok(body) => Ok(ClauseV::Rule { head, body }),
                    },
                }
            }
        },
        None => match parse_term_spec(c) {
            Err(e) => Err(e),
            Ok(head) => Ok(ClauseV::Fact { head }),
        },
    }
}

/// The clauses of pieces, read in order up to the first error.
pub open spec fn parse_clauses_spec(cs: Seq<Seq<char>>) -> Result<Seq<ClauseV>, ParseErrorV>
    decreases cs.len(),
{
    if cs.len() == 0 {
        Ok(Seq::empty())
    } else {
        match parse_clauses_spec(cs.drop_last()) {
            Err(e) => Err(e),
            Ok(v) => match parse_clause_spec(cs.last()) {
                Err(e) => Err(e),
                Ok(c) => Ok(v.push(c)),
            },
        }
    }
}

/// The clauses of a program text.
pub open spec fn parse_program_spec(input: Seq<char>) -> Result<Seq<ClauseV>, ParseErrorV> {
    match split_program_spec(input) {
        Err(e) => Err(e),
        Ok(cs) => parse_clauses_spec(cs),
    }
}

/// Splits `s` at top-level separators (see `split_top`).
fn split_top_exec(s: &Vec<char>, period: bool) -> (r: Vec<Vec<char>>)
    ensures
        pieces_view(r@) == split_top(s@, period),
{
    let n = s.len();
    let mut done: Vec<Vec<char>> = Vec::new();
    let mut start: usize = 0;
    let mut depth: usize = 0;
    let mut quote = false;
    let mut i: usize = 0;
    proof {
        assert(pieces_view(done@) =~= Seq::<Seq<char>>::empty());
    }
    while i < n
        invariant
            n == s@.len(),
            i <= n,
            start <= i,
            depth <= i,
            scan(s@, i as int, period) == (pieces_view(done@), start as int, depth as nat, quote),
        decreases n - i,
    {
        let c = s[i];
        if c == '\'' {
            quote = !quote;
        } else if c == '(' && !quote {
            depth = depth + 1;
        } else if c == ')' && !quote {
            if depth > 0 {
                depth = depth - 1;
            }
        } else {
            let sep = if period {
                c == '.' && !(i > 0 && i + 1 < n && '0' <= s[i - 1] && s[i - 1] <= '9' && '0' <= s[i + 1] && s[i + 1] <= '9')
            } else {
                c == ','
            };
            if sep && depth == 0 && !quote {
                let piece = copy_range(s, start, i);
                let t = trim_chars(&piece);
                if t.len() > 0 {
                    let ghost before = pieces_view(done@);
                    done.push(t);
                    proof {
                        assert(pieces_view(done@) =~= before.push(t@));
                    }
                }
                start = i + 1;
            }
        }
        i += 1;
    }
    let piece = copy_range(s, start, n);
    let t = trim_chars(&piece);
    if t.len() > 0 {
        let ghost before = pieces_view(done@);
        done.push(t);
        proof {
            assert(pieces_view(done@) =~= before.push(t@));
        }
    }
    done
}

/// The goals of a text (see `split_goals_spec`).
pub fn split_goals(s: &Vec<char>) -> (r: Vec<Vec<char>>)
    ensures
        pieces_view(r@) == split_goals_spec(s@),
{
    split_top_exec(s, false)
}

/// The clauses of a text (see `split_clauses_spec`).
pub fn split_clauses(s: &Vec<char>) -> (r: Vec<Vec<char>>)
    ensures
        pieces_view(r@) == split_clauses_spec(s@),
{
    split_top_exec(s, true)
}

/// The two sides of the first top-level `op` (see `split_infix_spec`).
pub fn split_infix_operator(s: &Vec<char>, op: char) -> (r: Option<(Vec<char>, Vec<char>)>)
    ensures
        match r {
            Some((a, b)) => split_infix_spec(s@, op) == Some((a@, b@)),
            None => split_infix_spec(s@, op) is None,
        },
{
    let n = s.len();
    let mut depth: usize = 0;
    let mut quote = false;
    let mut i: usize = 0;
    let ghost mut done: Seq<Seq<char>> = Seq::empty();
    let ghost mut start: int = 0;
    while i < n
        invariant
            n == s@.len(),
            i <= n,
            depth <= i,
            scan(s@, i as int, false) == (done, start, depth as nat, quote),
            first_top_in(s@, op, i as int) is None,
        decreases n - i,
    {
        let c = s[i];
        if c == op && c != '\'' && c != '(' && c != ')' && depth == 0 && !quote {
            proof {
                assert(first_top_in(s@, op, i + 1) == Some(i as int));
                lemma_first_top_stop(s@, op, i + 1, n as int);
            }
            let left = trim_chars(&copy_range(s, 0, i));
            let right = trim_chars(&copy_range(s, i + 1, n));
            proof {
                assert(s@.subrange(0, i as int) =~= s@.take(i as int));
                assert(s@.subrange(i + 1, n as int) =~= s@.skip(i + 1));
            }
            return Some((left, right));
        }
        if c == '\'' {
            quote = !quote;
        } else if c == '(' && !quote {
            depth = depth + 1;
        } else if c == ')' && !quote {
            if depth > 0 {
                depth = depth - 1;
            }
        } else if c == ',' && depth == 0 && !quote {
            proof {
                done = push_nonempty(done, trim(s@.subrange(start, i as int)));
                start = i + 1;
            }
        }
        i += 1;
    }
    None
}

proof fn lemma_first_top_stop(s: Seq<char>, op: char, k: int, m: int)
    requires
        0 <= k <= m,
        first_top_in(s, op, k) is Some,
    ensures
        first_top_in(s, op, m) == first_top_in(s, op, k),
    decreases m - k,
{
    if m > k {
        lemma_first_top_stop(s, op, k, m - 1);
    }
}

/// The clauses of a program text (see `split_program_spec`).
pub fn split_program_into_clauses(input: &str) -> (r: Result<Vec<String>, ParseError>)
    ensures
        match r {
            Ok(v) => split_program_spec(input@) matches Ok(cs) && cs == Seq::new(v@.len(), |i: int| v@[i]@),
            Err(e) => split_program_spec(input@) == Err::<Seq<Seq<char>>, ParseErrorV>(e@),
        },
{
    let chars = str_chars(input);
    let lines = split_chars(&chars, '\n');
    let ghost ls = pieces_view(lines@);
    let mut program: Vec<char> = Vec::new();
    let mut i: usize = 0;
    proof {
        assert(ls.take(0) =~= Seq::<Seq<char>>::empty());
    }
    while i < lines.len()
        invariant
            i <= lines@.len(),
            ls == pieces_view(lines@),
            program@ == program_text(ls.take(i as int)),
        decreases lines.len() - i,
    {
        let t = trim_chars(&lines[i]);
        proof {
            assert(ls.take(i + 1).drop_last() =~= ls.take(i as int));
            assert(ls.take(i + 1).last() == lines@[i as int]@);
        }
        let comment = (t.len() >= 1 && t[0] == '%') || (t.len() >= 2 && t[0] == '/' && t[1] == '/')
            || (t.len() >= 2 && t[0] == '?' && t[1] == '-');
        if !comment {
            let ghost before = program@;
            let mut j: usize = 0;
            while j < t.len()
                invariant
                    j <= t@.len(),
                    program@ == before + t@.subrange(0, j as int),
                decreases t.len() - j,
            {
                program.push(t[j]);
                j += 1;
                proof {
                    assert(program@ =~= before + t@.subrange(0, j as int));
                }
            }
            program.push(' ');
            proof {
                assert(t@.subrange(0, t@.len() as int) =~= t@);
                assert(program@ =~= before + t@ + seq![' ']);
            }
        }
        i += 1;
    }
    proof {
        assert(ls.take(lines@.len() as int) =~= ls);
    }
    let p = trim_chars(&program);
    if p.len() == 0 {
        return Err(ParseError::IncompleteInput);
    }
    if p[p.len() - 1] != '.' {
        return Err(ParseError::UnexpectedToken(chars_to_string(&str_chars("Clause must end with a period"))));
    }
    let pieces = split_clauses(&p);
    let mut out: Vec<String> = Vec::new();
    let mut k: usize = 0;
    while k < pieces.len()
        invariant
            k <= pieces@.len(),
            out@.len() == k,
            forall|j: int| 0 <= j < k ==> out@[j]@ == pieces@[j]@,
        decreases pieces.len() - k,
    {
        out.push(chars_to_string(&pieces[k]));
        k += 1;
    }
    proof {
        assert(Seq::new(out@.len(), |i: int| out@[i]@) =~= pieces_view(pieces@));
    }
    Ok(out)
}

fn index_of_exec(v: &Vec<char>, c: char) -> (r: Option<usize>)
    ensures
        match r {
            Some(i) => index_of(v@, c) == Some(i as int) && i < v@.len(),
            None => index_of(v@, c) is None,
        },
{
    let mut i: usize = 0;
    proof {
        assert(v@.take(0) =~= Seq::<char>::empty());
    }
    while i < v.len()
        invariant
            i <= v@.len(),
            index_of(v@.take(i as int), c) is None,
        decreases v.len() - i,
    {
        proof {
            assert(v@.take(i + 1).drop_last() =~= v@.take(i as int));
        }
        if v[i] == c {
            proof {
                lemma_index_prefix(v@, c, i + 1);
            }
            return Some(i);
        }
        i += 1;
    }
    proof {
        assert(v@.take(v@.len() as int) =~= v@);
    }
    None
}

proof fn lemma_index_prefix(s: Seq<char>, c: char, k: int)
    requires
        0 <= k <= s.len(),
        index_of(s.take(k), c) is Some,
    ensures
        index_of(s, c) == index_of(s.take(k), c),
    decreases s.len() - k,
{
    if k == s.len() {
        assert(s.take(k) =~= s);
    } else {
        assert(s.take(k + 1).drop_last() =~= s.take(k));
        lemma_index_prefix(s, c, k + 1);
    }
}

fn strip_end_exec(v: &Vec<char>, c: char) -> (r: Vec<char>)
    ensures
        r@ == strip_end_char(v@, c),
{
    let mut hi: usize = v.len();
    proof {
        assert(v@.subrange(0, v@.len() as int) =~= v@);
    }
    while hi > 0 && v[hi - 1] == c
        invariant
            hi <= v@.len(),
            strip_end_char(v@.subrange(0, hi as int), c) == strip_end_char(v@, c),
        decreases hi,
    {
        proof {
            assert(v@.subrange(0, hi as int).drop_last() =~= v@.subrange(0, hi - 1));
        }
        hi -= 1;
    }
    copy_range(v, 0, hi)
}

fn unexpected(text: &str, t: &Vec<char>) -> (r: ParseError)
    ensures
        r@ == ParseErrorV::UnexpectedToken(text@ + t@),
{
    let mut out: Vec<char> = str_chars(text);
    let mut j: usize = 0;
    let ghost before = out@;
    while j < t.len()
        invariant
            j <= t@.len(),
            out@ == before + t@.subrange(0, j as int),
        decreases t.len() - j,
    {
        out.push(t[j]);
        j += 1;
        proof {
            assert(out@ =~= before + t@.subrange(0, j as int));
        }
    }
    proof {
        assert(t@.subrange(0, t@.len() as int) =~= t@);
    }
    ParseError::UnexpectedToken(chars_to_string(&out))
}

/// Reads a term (see `parse_term_spec`).
fn parse_term_chars(s: &Vec<char>) -> (r: Result<Term, ParseError>)
    ensures
        match r {
            Ok(t) => parse_term_spec(s@) == Ok::<PTermV, ParseErrorV>(t@),
            Err(e) => parse_term_spec(s@) == Err::<PTermV, ParseErrorV>(e@),
        },
    decreases s@.len(), 1nat,
{
    proof {
        crate::lexer::lemma_trim_len(s@);
    }
    let t = trim_chars(s);
    if t.len() == 0 {
        return Err(ParseError::IncompleteInput);
    }
    let infix = if t[0] != '\'' { split_infix_operator(&t, '=') } else { None };
    match infix {
        Some((l, r)) => {
            if !(l.len() < s.len() && r.len() < s.len()) {
                return Err(ParseError::IncompleteInput);
            }
            let lt = match parse_term_chars(&l) {
                Err(e) => return Err(e),
                Ok(x) => x,
            };
            let rt = match parse_term_chars(&r) {
                Err(e) => return Err(e),
                Ok(x) => x,
            };
            let mut args: Vec<Term> = Vec::new();
            args.push(lt);
            args.push(rt);
            let res = Term::Compound(chars_to_string(&str_chars("=")), args);
            proof {
                assert(Term::terms_view(args@) =~= seq![lt@, rt@]);
            }
            Ok(res)
        },
        None => {
            let n = t.len();
            if t[0] == '\'' && t[n - 1] == '\'' && n >= 2 {
                return Ok(Term::Atom(chars_to_string(&copy_range(&t, 1, n - 1))));
            }
            if char_is_uppercase(t[0]) || t[0] == '_' {
                return Ok(Term::Var(chars_to_string(&t)));
            }
            if '0' <= t[0] && t[0] <= '9' {
                return match parse_i32(&t) {
                    Ok(v) => Ok(Term::Number(v)),
                    Err(_) => Err(unexpected("Invalid number: ", &t)),
                };
            }
            match index_of_exec(&t, '(') {
                Some(p) => {
                    let functor = trim_chars(&copy_range(&t, 0, p));
                    let tail = copy_range(&t, p + 1, n);
                    let args_str = trim_chars(&strip_end_exec(&tail, ')'));
                    proof {
                        assert(t@.subrange(0, p as int) =~= t@.take(p as int));
                        assert(t@.subrange(p + 1, n as int) =~= t@.skip(p + 1));
                    }
                    if args_str.len() == 0 {
                        let res = Term::Compound(chars_to_string(&functor), Vec::new());
                        proof {
                            assert(Term::terms_view(Seq::<Term>::empty()) =~= Seq::<PTermV>::empty());
                        }
                        return Ok(res);
                    }
                    let parts = split_goals(&args_str);
                    match parse_terms(&parts, n) {
                        Err(e) => Err(e),
                        Ok(v) => Ok(Term::Compound(chars_to_string(&functor), v)),
                    }
                },
                None => Ok(Term::Atom(chars_to_string(&t))),
            }
        },
    }
}

/// Reads the terms of pieces shorter than `bound` (see `parse_terms_spec`).
fn parse_terms(ps: &Vec<Vec<char>>, bound: usize) -> (r: Result<Vec<Term>, ParseError>)
    ensures
        match r {
            Ok(v) => parse_terms_spec(pieces_view(ps@), bound as nat) == Ok::<Seq<PTermV>, ParseErrorV>(Term::terms_view(v@)),
            Err(e) => parse_terms_spec(pieces_view(ps@), bound as nat) == Err::<Seq<PTermV>, ParseErrorV>(e@),
        },
    decreases bound, 0nat,
{
    let ghost q = pieces_view(ps@);
    let mut out: Vec<Term> = Vec::new();
    let mut i: usize = 0;
    proof {
        assert(q.take(0) =~= Seq::<Seq<char>>::empty());
        assert(Term::terms_view(out@) =~= Seq::<PTermV>::empty());
    }
    while i < ps.len()
        invariant
            i <= ps@.len(),
            q == pieces_view(ps@),
            parse_terms_spec(q.take(i as int), bound as nat) == Ok::<Seq<PTermV>, ParseErrorV>(Term::terms_view(out@)),
        decreases ps.len() - i,
    {
        let ghost next = q.take(i + 1);
        proof {
            assert(next.drop_last() =~= q.take(i as int));
            assert(next.last() == ps@[i as int]@);
        }
        if ps[i].len() >= bound {
            proof {
                lemma_terms_stop(q, bound as nat, i + 1);
            }
            return Err(ParseError::IncompleteInput);
        }
        match parse_term_chars(&ps[i]) {
            Err(e) => {
                proof {
                    lemma_terms_stop(q, bound as nat, i + 1);
                }
                return Err(e);
            },
            Ok(t) => {
                let ghost before = Term::terms_view(out@);
                out.push(t);
                proof {
                    assert(Term::terms_view(out@) =~= before.push(t@));
                }
            },
        }
        i += 1;
    }
    proof {
        assert(q.take(ps@.len() as int) =~= q);
    }
    Ok(out)
}

proof fn lemma_terms_stop(q: Seq<Seq<char>>, bound: nat, k: int)
    requires
        0 <= k <= q.len(),
        parse_terms_spec(q.take(k), bound) is Err,
    ensures
        parse_terms_spec(q, bound) == parse_terms_spec(q.take(k), bound),
    decreases q.len() - k,
{
    if k == q.len() {
        assert(q.take(k) =~= q);
    } else {
        assert(q.take(k + 1).drop_last() =~= q.take(k));
        lemma_terms_stop(q, bound, k + 1);
    }
}

/// Reads a term (see `parse_term_spec`).
pub fn parse_term(input: &str) -> (r: Result<Term, ParseError>)
    ensures
        match r {
            Ok(t) => parse_term_spec(input@) == Ok::<PTermV, ParseErrorV>(t@),
            Err(e) => parse_term_spec(input@) == Err::<PTermV, ParseErrorV>(e@),
        },
{
    parse_term_chars(&str_chars(input))
}

fn neck_exec(v: &Vec<char>) -> (r: Option<usize>)
    ensures
        match r {
            Some(i) => neck_index(v@) == Some(i as int) && i + 2 <= v@.len(),
            None => neck_index(v@) is None,
        },
{
    let n = v.len();
    if n < 2 {
        return None;
    }
    let mut j: usize = 0;
    proof {
        assert(v@.take(1).len() < 2);
        assert(neck_index(v@.take(1)) is None);
    }
    while j + 1 < n
        invariant
            j + 1 <= n,
            n == v@.len(),
            neck_index(v@.take(j + 1)) is None,
        decreases n - j,
    {
        proof {
            assert(v@.take(j + 2).drop_last() =~= v@.take(j + 1));
        }
        if v[j] == ':' && v[j + 1] == '-' {
            proof {
                lemma_neck_prefix(v@, j + 2);
            }
            return Some(j);
        }
        j += 1;
    }
    proof {
        assert(v@.take(n as int) =~= v@);
    }
    None
}

proof fn lemma_neck_prefix(s: Seq<char>, k: int)
    requires
        0 <= k <= s.len(),
        neck_index(s.take(k)) is Some,
    ensures
        neck_index(s) == neck_index(s.take(k)),
    decreases s.len() - k,
{
    if k == s.len() {
        assert(s.take(k) =~= s);
    } else {
        assert(s.take(k + 1).drop_last() =~= s.take(k));
        lemma_neck_prefix(s, k + 1);
    }
}

/// Reads a clause (see `parse_clause_spec`).
fn parse_clause(c: &Vec<char>) -> (r: Result<Clause, ParseError>)
    ensures
        match r {
            Ok(x) => parse_clause_spec(c@) == Ok::<ClauseV, ParseErrorV>(x@),
            Err(e) => parse_clause_spec(c@) == Err::<ClauseV, ParseErrorV>(e@),
        },
{
    match neck_exec(c) {
        Some(i) => {
            let clen = c.len();
            let rest = copy_range(c, i + 2, clen);
            proof {
                assert(rest@ =~= c@.skip(i + 2));
            }
            if neck_exec(&rest).is_some() {
                return Err(unexpected("Invalid clause syntax: ", c));
            }
            let head_str = trim_chars(&copy_range(c, 0, i));
            proof {
                assert(c@.subrange(0, i as int) =~= c@.take(i as int));
            }
            let head = match parse_term_chars(&head_str) {
                Err(e) => return Err(e),
                Ok(h) => h,
            };
            let body_str = trim_chars(&rest);
            let parts = split_goals(&body_str);
            match parse_terms(&parts, c.len()) {
                Err(e) => Err(e),
                Ok(body) => Ok(Clause::Rule { head, body }),
            }
        },
        None => match parse_term_chars(c) {
            Err(e) => Err(e),
            Ok(head) => Ok(Clause::Fact { head }),
        },
    }
}

/// Reads a Prolog program (see `parse_program_spec`).
pub fn parse_program(input: &str) -> (r: Result<Vec<Clause>, ParseError>)
    ensures
        match r {
            Ok(v) => parse_program_spec(input@) == Ok::<Seq<ClauseV>, ParseErrorV>(clauses_view(v@)),
            Err(e) => parse_program_spec(input@) == Err::<Seq<ClauseV>, ParseErrorV>(e@),
        },
{
    let texts = match split_program_into_clauses(input) {
        Err(e) => return Err(e),
        Ok(t) => t,
    };
    let ghost cs = Seq::new(texts@.len(), |i: int| texts@[i]@);
    let mut out: Vec<Clause> = Vec::new();
    let mut i: usize = 0;
    proof {
        assert(cs.take(0) =~= Seq::<Seq<char>>::empty());
        assert(clauses_view(out@) =~= Seq::<ClauseV>::empty());
    }
    while i < texts.len()
        invariant
            i <= texts@.len(),
            cs == Seq::new(texts@.len(), |i: int| texts@[i]@),
            split_program_spec(input@) == Ok::<Seq<Seq<char>>, ParseErrorV>(cs),
            parse_clauses_spec(cs.take(i as int)) == Ok::<Seq<ClauseV>, ParseErrorV>(clauses_view(out@)),
        decreases texts.len() - i,
    {
        let ghost next = cs.take(i + 1);
        proof {
            assert(next.drop_last() =~= cs.take(i as int));
            assert(next.last() == texts@[i as int]@);
        }
        let text = str_chars(texts[i].as_str());
        match parse_clause(&text) {
            Err(e) => {
                proof {
                    lemma_clauses_stop(cs, i + 1);
                }
                return Err(e);
            },
            Ok(c) => {
                let ghost before = clauses_view(out@);
                out.push(c);
                proof {
                    assert(clauses_view(out@) =~= before.push(c@));
                }
            },
        }
        i += 1;
    }
    proof {
        assert(cs.take(texts@.len() as int) =~= cs);
    }
    Ok(out)
}

proof fn lemma_clauses_stop(q: Seq<Seq<char>>, k: int)
    requires
        0 <= k <= q.len(),
        parse_clauses_spec(q.take(k)) is Err,
    ensures
        parse_clauses_spec(q) == parse_clauses_spec(q.take(k)),
    decreases q.len() - k,
{
    if k == q.len() {
        assert(q.take(k) =~= q);
    } else {
        assert(q.take(k + 1).drop_last() =~= q.take(k));
        lemma_clauses_stop(q, k + 1);
    }
}

} // verus!
