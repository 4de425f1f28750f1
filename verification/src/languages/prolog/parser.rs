//! A recursive-descent parser over a text and a position in it.

use vstd::prelude::*;
use crate::languages::prolog::ast::{PrologTerm, PrologGoal, PrologClause, PrologTermV, GoalV, PrologClauseV, prolog_terms_view};
use crate::lexer::{is_ws, is_whitespace, parse_i32_spec, int_error_text, parse_i32, push_int_error, str_chars, copy_range};
use crate::prolog::parser::{is_upper, char_is_uppercase};
use crate::text::{push_str, chars_to_string};

verus! {

broadcast use vstd::std_specs::vec::group_vec_axioms;

/// Whether a character is alphabetic or numeric, as the Unicode tables of
/// the standard library say.
pub uninterp spec fn is_alnum(c: char) -> bool;

/// `char::is_alphanumeric`: its result is named `is_alnum` of the argument.
#[verifier::external_body]
fn char_is_alphanumeric(c: char) -> (r: bool)
    ensures
        r == is_alnum(c),
{
    c.is_alphanumeric()
}

/// The first position from `p` on that does not hold whitespace.
pub open spec fn skip_ws_spec(s: Seq<char>, p: int) -> int
    decreases s.len() - p,
{
    if 0 <= p < s.len() && is_ws(s[p]) { skip_ws_spec(s, p + 1) } else { p }
}

/// The end of the run of identifier characters from `p`.
pub open spec fn ident_end(s: Seq<char>, p: int) -> int
    decreases s.len() - p,
{
    if 0 <= p < s.len() && (is_alnum(s[p]) || s[p] == '_') { ident_end(s, p + 1) } else { p }
}

/// The end of the run of decimal digits from `p`.
pub open spec fn digit_end(s: Seq<char>, p: int) -> int
    decreases s.len() - p,
{
    if 0 <= p < s.len() && '0' <= s[p] <= '9' { digit_end(s, p + 1) } else { p }
}

/// The first position from `p` on holding `q`.
pub open spec fn find_from(s: Seq<char>, p: int, q: char) -> Option<int>
    decreases s.len() - p,
{
    if 0 <= p < s.len() {
        if s[p] == q { Some(p) } else { find_from(s, p + 1, q) }
    } else {
        None
    }
}

/// An identifier after whitespace: the position after it and its text.
pub open spec fn identifier_spec(s: Seq<char>, p: int) -> (int, Result<Seq<char>, Seq<char>>) {
    let q = skip_ws_spec(s, p);
    let e = ident_end(s, q);
    if e == q { (q, Err("Expected identifier"@)) } else { (e, Ok(s.subrange(q, e))) }
}

/// Text between the delimiter at `p` and the next one, both dropped.
pub open spec fn delimited_spec(s: Seq<char>, p: int, q: char, unterminated: Seq<char>) -> (int, Result<Seq<char>, Seq<char>>) {
    match find_from(s, p + 1, q) {
        Some(c) => (c + 1, Ok(s.subrange(p + 1, c))),
        None => (s.len() as int, Err(unterminated)),
    }
}

pub open spec fn string_spec(s: Seq<char>, p: int) -> (int, Result<Seq<char>, Seq<char>>) {
    delimited_spec(s, p, '"', "Unterminated string literal"@)
}

pub open spec fn quoted_atom_spec(s: Seq<char>, p: int) -> (int, Result<Seq<char>, Seq<char>>) {
    delimited_spec(s, p, '\'', "Unterminated quoted atom"@)
}

/// A number after whitespace: its run of digits read as a 32-bit integer.
pub open spec fn number_spec(s: Seq<char>, p: int) -> (int, Result<i32, Seq<char>>) {
    let q = skip_ws_spec(s, p);
    let e = digit_end(s, q);
    match parse_i32_spec(s.subrange(q, e)) {
        Ok(n) => (e, Ok(n as i32)),
        Err(err) => (e, Err(int_error_text(err))),
    }
}

/// A term after whitespace, by its first character: a digit starts a
/// number, `"` a string, `'` a quoted atom, an upper-case letter a variable,
/// anything else an atom.
pub open spec fn term_spec(s: Seq<char>, p: int) -> (int, Result<PrologTermV, Seq<char>>) {
    let q = skip_ws_spec(s, p);
    if q < 0 || q >= s.len() {
        (q, Err("Unexpected end of input while parsing term"@))
    } else {
        let c = s[q];
        if '0' <= c <= '9' {
            let (e, r) = number_spec(s, q);
            (e, match r { Ok(n) => Ok(PrologTermV::Const(n)), Err(m) => Err(m) })
        } else if c == '"' {
            let (e, r) = string_spec(s, q);
            (e, match r { Ok(t) => Ok(PrologTermV::Str(t)), Err(m) => Err(m) })
        } else if c == '\'' {
            let (e, r) = quoted_atom_spec(s, q);
            (e, match r { Ok(t) => Ok(PrologTermV::Atom(t)), Err(m) => Err(m) })
        } else if is_upper(c) {
            let (e, r) = identifier_spec(s, q);
            (e, match r { Ok(t) => Ok(PrologTermV::Var(t)), Err(m) => Err(m) })
        } else {
            let (e, r) = identifier_spec(s, q);
            (e, match r { Ok(t) => Ok(PrologTermV::Atom(t)), Err(m) => Err(m) })
        }
    }
}

/// Terms separated by commas, after the terms `acc` already read.
pub open spec fn term_list_spec(s: Seq<char>, p: int, acc: Seq<PrologTermV>) -> (int, Result<Seq<PrologTermV>, Seq<char>>)
    decreases s.len() - p,
{
    let (p1, r) = term_spec(s, p);
    match r {
        Err(m) => (p1, Err(m)),
        Ok(t) => {
            let p2 = skip_ws_spec(s, p1);
            if 0 <= p2 < s.len() && s[p2] == ',' {
                let p3 = skip_ws_spec(s, p2 + 1);
                if p < p3 <= s.len() { term_list_spec(s, p3, acc.push(t)) } else { (p3, Err(Seq::empty())) }
            } else {
                (p2, Ok(acc.push(t)))
            }
        },
    }
}

/// The expected text after whitespace.
pub open spec fn consume_spec(s: Seq<char>, p: int, expected: Seq<char>) -> (int, Result<(), Seq<char>>) {
    let q = skip_ws_spec(s, p);
    if 0 <= q && q + expected.len() <= s.len() && s.subrange(q, q + expected.len()) == expected {
        (q + expected.len(), Ok(()))
    } else {
        (q, Err("Expected '"@ + expected + "'"@))
    }
}

/// A goal: a predicate name and, in parentheses, its arguments.
pub open spec fn goal_spec(s: Seq<char>, p: int) -> (int, Result<GoalV, Seq<char>>) {
    let (p1, r) = identifier_spec(s, p);
    match r {
        Err(m) => (p1, Err(m)),
        Ok(name) => {
            let p2 = skip_ws_spec(s, p1);
            if 0 <= p2 < s.len() && s[p2] == '(' {
                let (p3, r2) = term_list_spec(s, p2 + 1, Seq::empty());
                match r2 {
                    Err(m) => (p3, Err(m)),
                    Ok(args) => {
                        let (p4, r3) = consume_spec(s, p3, ")"@);
                        match r3 {
                            Err(m) => (p4, Err(m)),
                            Ok(_) => (p4, Ok(GoalV { predicate: name, args })),
                        }
                    },
                }
            } else {
                (p2, Ok(GoalV { predicate: name, args: Seq::empty() }))
            }
        },
    }
}

/// A fact: a goal and a period.
pub open spec fn fact_spec(s: Seq<char>, p: int) -> (int, Result<PrologClauseV, Seq<char>>) {
    let (p1, r) = goal_spec(s, p);
    match r {
        Err(m) => (p1, Err(m)),
        Ok(g) => {
            let (p2, r2) = consume_spec(s, p1, "."@);
            match r2 {
                Err(m) => (p2, Err(m)),
                Ok(_) => (p2, Ok(PrologClauseV { head: g, body: None })),
            }
        },
    }
}

/// A query: a goal and a period.
pub open spec fn query_spec(s: Seq<char>, p: int) -> (int, Result<Seq<GoalV>, Seq<char>>) {
    let (p1, r) = goal_spec(s, p);
    match r {
        Err(m) => (p1, Err(m)),
        Ok(g) => {
            let (p2, r2) = consume_spec(s, p1, "."@);
            match r2 {
                Err(m) => (p2, Err(m)),
                Ok(_) => (p2, Ok(seq![g])),
            }
        },
    }
}

proof fn lemma_skip_ws(s: Seq<char>, p: int)
    requires
        0 <= p <= s.len(),
    ensures
        p <= skip_ws_spec(s, p) <= s.len(),
    decreases s.len() - p,
{
    if p < s.len() && is_ws(s[p]) {
        lemma_skip_ws(s, p + 1);
    }
}

proof fn lemma_ident_end(s: Seq<char>, p: int)
    requires
        0 <= p <= s.len(),
    ensures
        p <= ident_end(s, p) <= s.len(),
    decreases s.len() - p,
{
    if p < s.len() && (is_alnum(s[p]) || s[p] == '_') {
        lemma_ident_end(s, p + 1);
    }
}

proof fn lemma_digit_end(s: Seq<char>, p: int)
    requires
        0 <= p <= s.len(),
    ensures
        p <= digit_end(s, p) <= s.len(),
    decreases s.len() - p,
{
    if p < s.len() && '0' <= s[p] <= '9' {
        lemma_digit_end(s, p + 1);
    }
}

proof fn lemma_find_from(s: Seq<char>, p: int, q: char)
    requires
        0 <= p <= s.len(),
    ensures
        find_from(s, p, q) matches Some(c) ==> p <= c < s.len() && s[c] == q,
    decreases s.len() - p,
{
    if p < s.len() && s[p] != q {
        lemma_find_from(s, p + 1, q);
    }
}

/// A parser over a text, at a position in it.
pub struct PrologParser {
    input: Vec<char>,
    pos: usize,
}

impl PrologParser {
    #[verifier::type_invariant]
    spec fn inv(self) -> bool {
        self.pos <= self.input@.len()
    }

    /// The text being read.
    pub closed spec fn text(&self) -> Seq<char> {
        self.input@
    }

    /// The position reached.
    pub closed spec fn position(&self) -> int {
        self.pos as int
    }

    /// A parser at the start of a text.
    pub fn new(input: &str) -> (r: PrologParser)
        ensures
            r.text() == input@,
            r.position() == 0,
    {
        PrologParser { input: str_chars(input), pos: 0 }
    }

    fn skip_whitespace(&mut self)
        ensures
            final(self).text() == old(self).text(),
            final(self).position() == skip_ws_spec(old(self).text(), old(self).position()),
    {
        proof {
            use_type_invariant(&*self);
        }
        let n = self.input.len();
        while self.pos < n && is_whitespace(self.input[self.pos])
            invariant
                n == self.input@.len(),
                self.input@ == old(self).input@,
                old(self).pos <= self.pos <= n,
                skip_ws_spec(self.input@, self.pos as int) == skip_ws_spec(old(self).input@, old(self).pos as int),
            decreases n - self.pos,
        {
            self.pos = self.pos + 1;
        }
    }

    fn current_char(&self) -> (r: Option<char>)
        ensures
            r == (if self.position() < self.text().len() { Some(self.text()[self.position()]) } else { None::<char> }),
    {
        proof {
            use_type_invariant(self);
        }
        if self.pos < self.input.len() { Some(self.input[self.pos]) } else { None }
    }

    /// Reads an identifier: letters, digits and underscores (see `identifier_spec`).
    pub fn parse_identifier(&mut self) -> (r: Result<String, String>)
        ensures
            final(self).text() == old(self).text(),
            ({
                let (p, res) = identifier_spec(old(self).text(), old(self).position());
                &&& final(self).position() == p
                &&& match r { Ok(v) => res == Ok::<Seq<char>, Seq<char>>(v@), Err(e) => res == Err::<Seq<char>, Seq<char>>(e@) }
            }),
            old(self).position() <= final(self).position() <= final(self).text().len(),
    {
        proof {
            use_type_invariant(&*self);
            lemma_skip_ws(self.input@, self.pos as int);
        }
        self.skip_whitespace();
        proof {
            use_type_invariant(&*self);
            lemma_ident_end(self.input@, self.pos as int);
        }
        let start = self.pos;
        let n = self.input.len();
        let ghost q = skip_ws_spec(old(self).input@, old(self).pos as int);
        while self.pos < n && (char_is_alphanumeric(self.input[self.pos]) || self.input[self.pos] == '_')
            invariant
                n == self.input@.len(),
                self.input@ == old(self).input@,
                start as int == q,
                old(self).pos <= start <= self.pos <= n,
                ident_end(self.input@, self.pos as int) == ident_end(self.input@, start as int),
            decreases n - self.pos,
        {
            self.pos = self.pos + 1;
        }
        if start == self.pos {
            Err(chars_to_string(&str_chars("Expected identifier")))
        } else {
            Ok(chars_to_string(&copy_range(&self.input, start, self.pos)))
        }
    }

    fn delimited(&mut self, q: char, unterminated: &str) -> (r: Result<String, String>)
        requires
            old(self).position() < old(self).text().len(),
        ensures
            final(self).text() == old(self).text(),
            ({
                let (p, res) = delimited_spec(old(self).text(), old(self).position(), q, unterminated@);
                &&& final(self).position() == p
                &&& match r { Ok(v) => res == Ok::<Seq<char>, Seq<char>>(v@), Err(e) => res == Err::<Seq<char>, Seq<char>>(e@) }
            }),
            old(self).position() <= final(self).position() <= final(self).text().len(),
    {
        proof {
            use_type_invariant(&*self);
            lemma_find_from(self.input@, self.pos + 1, q);
        }
        let n = self.input.len();
        self.pos = self.pos + 1;
        let start = self.pos;
        while self.pos < n
            invariant
                n == self.input@.len(),
                self.input@ == old(self).input@,
                start == old(self).pos + 1,
                start <= self.pos <= n,
                find_from(self.input@, self.pos as int, q) == find_from(self.input@, start as int, q),
            decreases n - self.pos,
        {
            if self.input[self.pos] == q {
                let s = chars_to_string(&copy_range(&self.input, start, self.pos));
                self.pos = self.pos + 1;
                return Ok(s);
            }
            self.pos = self.pos + 1;
        }
        Err(chars_to_string(&str_chars(unterminated)))
    }

    /// Reads a double-quoted string (see `string_spec`); the parser must be
    /// at its opening quote or another one-byte character.
    pub fn parse_string(&mut self) -> (r: Result<String, String>)
        requires
            old(self).position() < old(self).text().len(),
            (old(self).text()[old(self).position()] as u32) < 128,
        ensures
            final(self).text() == old(self).text(),
            ({
                let (p, res) = string_spec(old(self).text(), old(self).position());
                &&& final(self).position() == p
                &&& match r { Ok(v) => res == Ok::<Seq<char>, Seq<char>>(v@), Err(e) => res == Err::<Seq<char>, Seq<char>>(e@) }
            }),
            old(self).position() <= final(self).position() <= final(self).text().len(),
    {
        self.delimited('"', "Unterminated string literal")
    }

    /// Reads a single-quoted atom (see `quoted_atom_spec`); the parser must be
    /// at its opening quote or another one-byte character.
    pub fn parse_quoted_atom(&mut self) -> (r: Result<String, String>)
        requires
            old(self).position() < old(self).text().len(),
            (old(self).text()[old(self).position()] as u32) < 128,
        ensures
            final(self).text() == old(self).text(),
            ({
                let (p, res) = quoted_atom_spec(old(self).text(), old(self).position());
                &&& final(self).position() == p
                &&& match r { Ok(v) => res == Ok::<Seq<char>, Seq<char>>(v@), Err(e) => res == Err::<Seq<char>, Seq<char>>(e@) }
            }),
            old(self).position() <= final(self).position() <= final(self).text().len(),
    {
        self.delimited('\'', "Unterminated quoted atom")
    }

    /// Reads a number: a run of decimal digits (see `number_spec`).
    pub fn parse_number(&mut self) -> (r: Result<i32, String>)
        ensures
            final(self).text() == old(self).text(),
            ({
                let (p, res) = number_spec(old(self).text(), old(self).position());
                &&& final(self).position() == p
                &&& match r { Ok(v) => res == Ok::<i32, Seq<char>>(v), Err(e) => res == Err::<i32, Seq<char>>(e@) }
            }),
            old(self).position() <= final(self).position() <= final(self).text().len(),
    {
        proof {
            use_type_invariant(&*self);
            lemma_skip_ws(self.input@, self.pos as int);
        }
        self.skip_whitespace();
        proof {
            use_type_invariant(&*self);
            lemma_digit_end(self.input@, self.pos as int);
        }
        let start = self.pos;
        let n = self.input.len();
        let ghost q = skip_ws_spec(old(self).input@, old(self).pos as int);
        while self.pos < n && '0' <= self.input[self.pos] && self.input[self.pos] <= '9'
            invariant
                n == self.input@.len(),
                self.input@ == old(self).input@,
                start as int == q,
                old(self).pos <= start <= self.pos <= n,
                digit_end(self.input@, self.pos as int) == digit_end(self.input@, start as int),
            decreases n - self.pos,
        {
            self.pos = self.pos + 1;
        }
        let digits = copy_range(&self.input, start, self.pos);
        match parse_i32(&digits) {
            Ok(v) => Ok(v),
            Err(e) => {
                let mut out: Vec<char> = Vec::new();
                push_int_error(&mut out, e);
                Err(chars_to_string(&out))
            },
        }
    }

    /// Reads a term (see `term_spec`).
    pub fn parse_term(&mut self) -> (r: Result<PrologTerm, String>)
        ensures
            final(self).text() == old(self).text(),
            ({
                let (p, res) = term_spec(old(self).text(), old(self).position());
                &&& final(self).position() == p
                &&& match r { Ok(v) => res == Ok::<PrologTermV, Seq<char>>(v@), Err(e) => res == Err::<PrologTermV, Seq<char>>(e@) }
            }),
            old(self).position() <= final(self).position() <= final(self).text().len(),
    {
        proof {
            use_type_invariant(&*self);
            lemma_skip_ws(self.input@, self.pos as int);
        }
        self.skip_whitespace();
        proof {
            use_type_invariant(&*self);
        }
        match self.current_char() {
            Some(ch) => {
                if '0' <= ch && ch <= '9' {
                    match self.parse_number() {
                        Ok(n) => Ok(PrologTerm::Const(n)),
                        Err(m) => Err(m),
                    }
                } else if ch == '"' {
                    match self.parse_string() {
                        Ok(t) => Ok(PrologTerm::Str(t)),
                        Err(m) => Err(m),
                    }
                } else if ch == '\'' {
                    match self.parse_quoted_atom() {
                        Ok(t) => Ok(PrologTerm::Atom(t)),
                        Err(m) => Err(m),
                    }
                } else if char_is_uppercase(ch) {
                    match self.parse_identifier() {
                        Ok(t) => Ok(PrologTerm::Var(t)),
                        Err(m) => Err(m),
                    }
                } else {
                    match self.parse_identifier() {
                        Ok(t) => Ok(PrologTerm::Atom(t)),
                        Err(m) => Err(m),
                    }
                }
            },
            None => Err(chars_to_string(&str_chars("Unexpected end of input while parsing term"))),
        }
    }

    /// Reads terms separated by commas (see `term_list_spec`).
    pub fn parse_term_list(&mut self) -> (r: Result<Vec<PrologTerm>, String>)
        ensures
            final(self).text() == old(self).text(),
            ({
                let (p, res) = term_list_spec(old(self).text(), old(self).position(), Seq::empty());
                &&& final(self).position() == p
                &&& match r { Ok(v) => res == Ok::<Seq<PrologTermV>, Seq<char>>(prolog_terms_view(v@)), Err(e) => res == Err::<Seq<PrologTermV>, Seq<char>>(e@) }
            }),
            old(self).position() <= final(self).position() <= final(self).text().len(),
    {
        let mut terms: Vec<PrologTerm> = Vec::new();
        let ghost s = self.text();
        let ghost p0 = self.position();
        proof {
            use_type_invariant(&*self);
            assert(prolog_terms_view(terms@) =~= Seq::<PrologTermV>::empty());
        }
        loop
            invariant
                self.text() == s,
                s == old(self).text(),
                p0 == old(self).position(),
                p0 <= self.position() <= s.len(),
                term_list_spec(s, self.position(), prolog_terms_view(terms@)) == term_list_spec(s, p0, Seq::empty()),
            decreases s.len() - self.position(),
        {
            let ghost p = self.position();
            let term = match self.parse_term() {
                Ok(t) => t,
                Err(m) => return Err(m),
            };
            let ghost before = prolog_terms_view(terms@);
            terms.push(term);
            proof {
                assert(prolog_terms_view(terms@) =~= before.push(term@));
                use_type_invariant(&*self);
                lemma_skip_ws(s, self.position());
            }
            self.skip_whitespace();
            proof {
                use_type_invariant(&*self);
            }
            match self.current_char() {
                Some(',') => {
                    self.advance_one();
                    proof {
                        use_type_invariant(&*self);
                        lemma_skip_ws(s, self.position());
                    }
                    self.skip_whitespace();
                },
                _ => {
                    return Ok(terms);
                },
            }
        }
    }

    fn advance_one(&mut self)
        requires
            old(self).position() < old(self).text().len(),
        ensures
            final(self).text() == old(self).text(),
            final(self).position() == old(self).position() + 1,
    {
        let n = self.input.len();
        if self.pos < n {
            self.pos = self.pos + 1;
        }
    }

    /// Reads the expected text after whitespace (see `consume_spec`).
    pub fn consume_expected(&mut self, expected: &str) -> (r: Result<(), String>)
        ensures
            final(self).text() == old(self).text(),
            ({
                let (p, res) = consume_spec(old(self).text(), old(self).position(), expected@);
                &&& final(self).position() == p
                &&& match r { Ok(v) => res == Ok::<(), Seq<char>>(v), Err(e) => res == Err::<(), Seq<char>>(e@) }
            }),
            old(self).position() <= final(self).position() <= final(self).text().len(),
    {
        proof {
            use_type_invariant(&*self);
            lemma_skip_ws(self.input@, self.pos as int);
        }
        self.skip_whitespace();
        proof {
            use_type_invariant(&*self);
        }
        let e = str_chars(expected);
        let n = self.input.len();
        let m = e.len();
        let mut ok = m <= n - self.pos;
        let mut k: usize = 0;
        while ok && k < m
            invariant
                n == self.input@.len(),
                self.pos <= n,
                m == e@.len(),
                e@ == expected@,
                k <= m,
                ok ==> m <= n - self.pos,
                ok ==> forall|j: int| 0 <= j < k ==> self.input@[self.pos + j] == e@[j],
                !ok ==> self.input@.subrange(self.pos as int, self.pos + m) != e@ || m > n - self.pos,
            decreases m - k, if ok { 1int } else { 0int },
        {
            if self.input[self.pos + k] != e[k] {
                ok = false;
                proof {
                    assert(self.input@.subrange(self.pos as int, self.pos + m)[k as int] != e@[k as int]);
                }
            } else {
                k += 1;
            }
        }
        if ok {
            proof {
                assert(self.input@.subrange(self.pos as int, self.pos + m) =~= e@);
            }
            self.pos = self.pos + m;
            Ok(())
        } else {
            let mut out: Vec<char> = Vec::new();
            push_str(&mut out, "Expected '");
            push_str(&mut out, expected);
            push_str(&mut out, "'");
            proof {
                assert(out@ =~= "Expected '"@ + expected@ + "'"@);
            }
            Err(chars_to_string(&out))
        }
    }

    /// Reads a goal (see `goal_spec`).
    pub fn parse_goal(&mut self) -> (r: Result<PrologGoal, String>)
        ensures
            final(self).text() == old(self).text(),
            ({
                let (p, res) = goal_spec(old(self).text(), old(self).position());
                &&& final(self).position() == p
                &&& match r { Ok(v) => res == Ok::<GoalV, Seq<char>>(v@), Err(e) => res == Err::<GoalV, Seq<char>>(e@) }
            }),
            old(self).position() <= final(self).position() <= final(self).text().len(),
    {
        let predicate = match self.parse_identifier() {
            Ok(p) => p,
            Err(m) => return Err(m),
        };
        proof {
            use_type_invariant(&*self);
            lemma_skip_ws(self.text(), self.position());
        }
        self.skip_whitespace();
        proof {
            use_type_invariant(&*self);
        }
        match self.current_char() {
            Some('(') => {
                self.advance_one();
                let args = match self.parse_term_list() {
                    Ok(a) => a,
                    Err(m) => return Err(m),
                };
                match self.consume_expected(")") {
                    Ok(_) => Ok(PrologGoal { predicate, args }),
                    Err(m) => Err(m),
                }
            },
            _ => {
                let g = PrologGoal { predicate, args: Vec::new() };
                proof {
                    assert(prolog_terms_view(g.args@) =~= Seq::<PrologTermV>::empty());
                }
                Ok(g)
            },
        }
    }

    /// Reads a fact: a goal and a period (see `fact_spec`).
    pub fn parse_fact(&mut self) -> (r: Result<PrologClause, String>)
        ensures
            final(self).text() == old(self).text(),
            ({
                let (p, res) = fact_spec(old(self).text(), old(self).position());
                &&& final(self).position() == p
                &&& match r { Ok(v) => res == Ok::<PrologClauseV, Seq<char>>(v@), Err(e) => res == Err::<PrologClauseV, Seq<char>>(e@) }
            }),
    {
        let goal = match self.parse_goal() {
            Ok(g) => g,
            Err(m) => return Err(m),
        };
        match self.consume_expected(".") {
            Ok(_) => Ok(PrologClause { head: goal, body: None }),
            Err(m) => Err(m),
        }
    }

    /// Reads a query: a goal and a period (see `query_spec`).
    pub fn parse_query(&mut self) -> (r: Result<Vec<PrologGoal>, String>)
        ensures
            final(self).text() == old(self).text(),
            ({
                let (p, res) = query_spec(old(self).text(), old(self).position());
                &&& final(self).position() == p
                &&& match r { Ok(v) => res == Ok::<Seq<GoalV>, Seq<char>>(crate::languages::prolog::ast::goals_view(v@)), Err(e) => res == Err::<Seq<GoalV>, Seq<char>>(e@) }
            }),
    {
        let goal = match self.parse_goal() {
            Ok(g) => g,
            Err(m) => return Err(m),
        };
        match self.consume_expected(".") {
            Ok(_) => {
                let mut v: Vec<PrologGoal> = Vec::new();
                v.push(goal);
                proof {
                    assert(crate::languages::prolog::ast::goals_view(v@) =~= seq![goal@]);
                }
                Ok(v)
            },
            Err(m) => Err(m),
        }
    }
}

} // verus!
