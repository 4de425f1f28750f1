//! Arithmetic expressions over 32-bit integers.

use vstd::prelude::*;
use crate::lexer::{parse_i32_spec, parse_i32, int_error_text, push_int_error};
use crate::text::{digits, int_text, push_str, push_usize, chars_to_string};
use crate::round_trip::{lemma_digits_are_digits, lemma_read_i32};

verus! {

/// An arithmetic expression.
#[derive(Debug, PartialEq, Eq)]
pub enum Expr {
    Const(i32),
    Add(Box<Expr>, Box<Expr>),
    Sub(Box<Expr>, Box<Expr>),
    Mul(Box<Expr>, Box<Expr>),
    Div(Box<Expr>, Box<Expr>),
}

/// Copies an expression.
pub fn copy_expr(e: &Expr) -> (r: Expr)
    ensures
        r == *e,
    decreases e,
{
    match e {
        Expr::Const(n) => Expr::Const(*n),
        Expr::Add(a, b) => Expr::Add(Box::new(copy_expr(a)), Box::new(copy_expr(b))),
        Expr::Sub(a, b) => Expr::Sub(Box::new(copy_expr(a)), Box::new(copy_expr(b))),
        Expr::Mul(a, b) => Expr::Mul(Box::new(copy_expr(a)), Box::new(copy_expr(b))),
        Expr::Div(a, b) => Expr::Div(Box::new(copy_expr(a)), Box::new(copy_expr(b))),
    }
}

impl Clone for Expr {
    fn clone(&self) -> (r: Self)
        ensures
            r == *self,
    {
        copy_expr(self)
    }
}

/// Integer division rounding toward zero, as machine division does.
pub open spec fn div_toward_zero(a: int, b: int) -> int {
    let q = abs(a) / abs(b);
    if (a < 0) != (b < 0) {
        -q
    } else {
        q
    }
}

pub open spec fn abs(a: int) -> int {
    if a < 0 { -a } else { a }
}

/// Divides two machine integers, rounding toward zero.
pub fn div_i32(a: i32, b: i32) -> (r: i32)
    requires
        b != 0,
        !(a == i32::MIN && b == -1),
    ensures
        r == div_toward_zero(a as int, b as int),
{
    let n: i64 = if a < 0 { -(a as i64) } else { a as i64 };
    let d: i64 = if b < 0 { -(b as i64) } else { b as i64 };
    let q: i64 = n / d;
    assert(0 <= q <= n) by (nonlinear_arith)
        requires q == n / d, n >= 0, d >= 1;
    if (a < 0) != (b < 0) {
        (-q) as i32
    } else {
        assert(q <= i32::MAX) by (nonlinear_arith)
            requires q == n / d, n >= 0, d >= 1, n <= 0x8000_0000, (n == 0x8000_0000 ==> d >= 2);
        q as i32
    }
}

/// Whether a mathematical integer fits in a machine integer.
pub open spec fn fits_i32(v: int) -> bool {
    i32::MIN <= v <= i32::MAX
}

/// The value of an expression, or `None` where evaluating it divides by zero
/// or leaves the machine integer range at some step.
pub open spec fn eval(e: Expr) -> Option<int>
    decreases e,
{
    match e {
        Expr::Const(n) => Some(n as int),
        Expr::Add(a, b) => match (eval(*a), eval(*b)) {
            (Some(x), Some(y)) => if fits_i32(x + y) { Some(x + y) } else { None },
            _ => None,
        },
        Expr::Sub(a, b) => match (eval(*a), eval(*b)) {
            (Some(x), Some(y)) => if fits_i32(x - y) { Some(x - y) } else { None },
            _ => None,
        },
        Expr::Mul(a, b) => match (eval(*a), eval(*b)) {
            (Some(x), Some(y)) => if fits_i32(x * y) { Some(x * y) } else { None },
            _ => None,
        },
        Expr::Div(a, b) => match (eval(*a), eval(*b)) {
            (Some(x), Some(y)) => if y != 0 && fits_i32(div_toward_zero(x, y)) {
                Some(div_toward_zero(x, y))
            } else {
                None
            },
            _ => None,
        },
    }
}

proof fn lemma_eval_fits(e: Expr)
    ensures
        eval(e) matches Some(v) ==> fits_i32(v),
    decreases e,
{
    match e {
        Expr::Const(n) => {}
        Expr::Add(a, b) | Expr::Sub(a, b) | Expr::Mul(a, b) | Expr::Div(a, b) => {
            lemma_eval_fits(*a);
            lemma_eval_fits(*b);
        }
    }
}

proof fn lemma_div_fits(x: int, y: int)
    requires
        fits_i32(x),
        fits_i32(y),
        y != 0,
    ensures
        fits_i32(div_toward_zero(x, y)) <==> !(x == i32::MIN && y == -1),
{
    let q = abs(x) / abs(y);
    assert(0 <= q <= abs(x)) by (nonlinear_arith)
        requires q == abs(x) / abs(y), abs(x) >= 0, abs(y) >= 1;
    if abs(y) >= 2 {
        assert(q <= abs(x) / 2) by (nonlinear_arith)
            requires q == abs(x) / abs(y), abs(x) >= 0, abs(y) >= 2;
    } else {
        assert(q == abs(x)) by (nonlinear_arith)
            requires q == abs(x) / abs(y), abs(x) >= 0, abs(y) == 1;
    }
}

/// Evaluates an expression. The expression must have a value (see `eval`):
/// machine arithmetic stops on a division by zero or an overflow.
pub fn evaluate(expr: &Expr) -> (r: i32)
    requires
        eval(*expr) is Some,
    ensures
        r as int == eval(*expr)->0,
    decreases expr,
{
    proof {
        lemma_eval_fits(*expr);
    }
    match expr {
        Expr::Const(n) => *n,
        Expr::Add(a, b) => {
            let x = evaluate(a);
            let y = evaluate(b);
            x + y
        }
        Expr::Sub(a, b) => {
            let x = evaluate(a);
            let y = evaluate(b);
            x - y
        }
        Expr::Mul(a, b) => {
            let x = evaluate(a);
            let y = evaluate(b);
            x * y
        }
        Expr::Div(a, b) => {
            let x = evaluate(a);
            let y = evaluate(b);
            proof {
                lemma_div_fits(x as int, y as int);
            }
            div_i32(x, y)
        }
    }
}

/// Evaluates an expression, or answers `None` where `evaluate` may not be
/// called (see `eval`).
pub fn try_evaluate(expr: &Expr) -> (r: Option<i32>)
    ensures
        match r {
            Some(v) => eval(*expr) == Some(v as int),
            None => eval(*expr) is None,
        },
    decreases expr,
{
    proof {
        lemma_eval_fits(*expr);
    }
    match expr {
        Expr::Const(n) => Some(*n),
        Expr::Add(a, b) => match (try_evaluate(a), try_evaluate(b)) {
            (Some(x), Some(y)) => x.checked_add(y),
            _ => None,
        },
        Expr::Sub(a, b) => match (try_evaluate(a), try_evaluate(b)) {
            (Some(x), Some(y)) => x.checked_sub(y),
            _ => None,
        },
        Expr::Mul(a, b) => match (try_evaluate(a), try_evaluate(b)) {
            (Some(x), Some(y)) => x.checked_mul(y),
            _ => None,
        },
        Expr::Div(a, b) => match (try_evaluate(a), try_evaluate(b)) {
            (Some(x), Some(y)) => {
                if y == 0 || (x == i32::MIN && y == -1) {
                    proof {
                        if y != 0 {
                            lemma_div_fits(x as int, y as int);
                        }
                    }
                    None
                } else {
                    proof {
                        lemma_div_fits(x as int, y as int);
                    }
                    Some(div_i32(x, y))
                }
            }
            _ => None,
        },
    }
}

// ---------------------------------------------------------------------------
// Reading expressions.

/// A token of an arithmetic expression.
#[derive(Debug, PartialEq, Eq)]
pub enum Token {
    Number(i32),
    Plus,
    Minus,
    Mul,
    Div,
    LParen,
    RParen,
}

/// The number of leading decimal digits of `s`.
pub open spec fn digit_run(s: Seq<char>) -> nat
    decreases s.len(),
{
    if s.len() > 0 && '0' <= s[0] <= '9' {
        1 + digit_run(s.drop_first())
    } else {
        0
    }
}

/// The tokens of an expression: blanks, tabs and newlines separate tokens,
/// runs of digits are numbers, and `+ - * / ( )` are operators; any other
/// character, or a number out of range, is an error.
pub open spec fn tokenize_spec(s: Seq<char>) -> Result<Seq<Token>, Seq<char>>
    decreases s.len(),
{
    if s.len() == 0 {
        Ok(Seq::empty())
    } else {
        let c = s[0];
        if c == ' ' || c == '\t' || c == '\n' {
            tokenize_spec(s.drop_first())
        } else if '0' <= c <= '9' {
            let k = digit_run(s);
            if 0 < k <= s.len() {
                match parse_i32_spec(s.take(k as int)) {
                    Err(e) => Err("Invalid number: "@ + int_error_text(e)),
                    Ok(n) => match tokenize_spec(s.skip(k as int)) {
                        Ok(rest) => Ok(seq![Token::Number(n as i32)] + rest),
                        Err(e) => Err(e),
                    },
                }
            } else {
                Err(Seq::empty())
            }
        } else {
            let tok = if c == '+' {
                Some(Token::Plus)
            } else if c == '-' {
                Some(Token::Minus)
            } else if c == '*' {
                Some(Token::Mul)
            } else if c == '/' {
                Some(Token::Div)
            } else if c == '(' {
                Some(Token::LParen)
            } else if c == ')' {
                Some(Token::RParen)
            } else {
                None
            };
            match tok {
                None => Err("Unexpected character: "@ + seq![c]),
                Some(t) => match tokenize_spec(s.drop_first()) {
                    Ok(rest) => Ok(seq![t] + rest),
                    Err(e) => Err(e),
                },
            }
        }
    }
}

/// The message for an unexpected token.
pub open spec fn unexpected_at(pos: int) -> Seq<char> {
    "Unexpected token at position "@ + digits(pos as nat)
}

/// Sums and differences of terms, left-associative.
pub open spec fn parse_expr_spec(t: Seq<Token>, pos: int) -> Result<(Expr, int), Seq<char>>
    decreases t.len() - pos, 4int,
{
    match parse_term_spec(t, pos) {
        Err(e) => Err(e),
        Ok((lhs, p)) => if pos < p <= t.len() { expr_rest(t, lhs, p) } else { Err(Seq::empty()) },
    }
}

/// The operators `+` and `-` after the expression read so far.
pub open spec fn expr_rest(t: Seq<Token>, lhs: Expr, pos: int) -> Result<(Expr, int), Seq<char>>
    decreases t.len() - pos, 3int,
{
    if 0 <= pos < t.len() && (t[pos] is Plus || t[pos] is Minus) {
        match parse_term_spec(t, pos + 1) {
            Err(e) => Err(e),
            Ok((rhs, p)) => {
                let e = if t[pos] is Plus { Expr::Add(Box::new(lhs), Box::new(rhs)) } else { Expr::Sub(Box::new(lhs), Box::new(rhs)) };
                if pos < p <= t.len() { expr_rest(t, e, p) } else { Err(Seq::empty()) }
            },
        }
    } else {
        Ok((lhs, pos))
    }
}

/// Products and quotients of factors, left-associative.
pub open spec fn parse_term_spec(t: Seq<Token>, pos: int) -> Result<(Expr, int), Seq<char>>
    decreases t.len() - pos, 2int,
{
    match parse_factor_spec(t, pos) {
        Err(e) => Err(e),
        Ok((lhs, p)) => if pos < p <= t.len() { term_rest(t, lhs, p) } else { Err(Seq::empty()) },
    }
}

/// The operators `*` and `/` after the term read so far.
pub open spec fn term_rest(t: Seq<Token>, lhs: Expr, pos: int) -> Result<(Expr, int), Seq<char>>
    decreases t.len() - pos, 1int,
{
    if 0 <= pos < t.len() && (t[pos] is Mul || t[pos] is Div) {
        match parse_factor_spec(t, pos + 1) {
            Err(e) => Err(e),
            Ok((rhs, p)) => {
                let e = if t[pos] is Mul { Expr::Mul(Box::new(lhs), Box::new(rhs)) } else { Expr::Div(Box::new(lhs), Box::new(rhs)) };
                if pos < p <= t.len() { term_rest(t, e, p) } else { Err(Seq::empty()) }
            },
        }
    } else {
        Ok((lhs, pos))
    }
}

/// A number, a parenthesized expression, or a negated factor (read as
/// `0 - factor`).
pub open spec fn parse_factor_spec(t: Seq<Token>, pos: int) -> Result<(Expr, int), Seq<char>>
    decreases t.len() - pos, 0int,
{
    if pos < 0 || pos >= t.len() {
        Err("Unexpected end of input"@)
    } else {
        match t[pos] {
            Token::Number(n) => Ok((Expr::Const(n), pos + 1)),
            Token::LParen => match parse_expr_spec(t, pos + 1) {
                Err(e) => Err(e),
                Ok((e, p)) => if p >= t.len() || !(t[p] is RParen) {
                    Err("Missing closing parenthesis"@)
                } else {
                    Ok((e, p + 1))
                },
            },
            Token::Minus => match parse_factor_spec(t, pos + 1) {
                Err(e) => Err(e),
                Ok((f, p)) => Ok((Expr::Sub(Box::new(Expr::Const(0)), Box::new(f)), p)),
            },
            _ => Err(unexpected_at(pos)),
        }
    }
}

/// Reading a whole expression: every token must be used.
pub open spec fn parse_expression_spec(s: Seq<char>) -> Result<Expr, Seq<char>> {
    match tokenize_spec(s) {
        Err(e) => Err(e),
        Ok(t) => match parse_expr_spec(t, 0) {
            Err(e) => Err(e),
            Ok((e, p)) => if p != t.len() { Err(unexpected_at(p)) } else { Ok(e) },
        },
    }
}

proof fn lemma_digit_run(s: Seq<char>, k: int)
    requires
        0 <= k <= s.len(),
        forall|j: int| 0 <= j < k ==> '0' <= #[trigger] s[j] <= '9',
        k == s.len() || !('0' <= s[k] <= '9'),
    ensures
        digit_run(s) == k,
    decreases k,
{
    if k > 0 {
        lemma_digit_run(s.drop_first(), k - 1);
    }
}

fn tokenize(s: &Vec<char>) -> (r: Result<Vec<Token>, String>)
    ensures
        match r {
            Ok(v) => tokenize_spec(s@) == Ok::<Seq<Token>, Seq<char>>(v@),
            Err(e) => tokenize_spec(s@) == Err::<Seq<Token>, Seq<char>>(e@),
        },
{
    let mut out: Vec<Token> = Vec::new();
    let mut i: usize = 0;
    let n = s.len();
    proof {
        assert(s@.skip(0) =~= s@);
        assert(out@ + Seq::<Token>::empty() =~= out@);
    }
    while i < n
        invariant
            n == s@.len(),
            i <= n,
            match tokenize_spec(s@.skip(i as int)) {
                Ok(t) => tokenize_spec(s@) == Ok::<Seq<Token>, Seq<char>>(out@ + t),
                Err(e) => tokenize_spec(s@) == Err::<Seq<Token>, Seq<char>>(e),
            },
        decreases n - i,
    {
        let c = s[i];
        let ghost rest = s@.skip(i as int);
        proof {
            assert(rest[0] == c);
            assert(rest.drop_first() =~= s@.skip(i + 1));
        }
        if c == ' ' || c == '\t' || c == '\n' {
            i += 1;
        } else if '0' <= c && c <= '9' {
            let mut j: usize = i;
            while j < n && '0' <= s[j] && s[j] <= '9'
                invariant
                    n == s@.len(),
                    i <= j <= n,
                    forall|k: int| i <= k < j ==> '0' <= #[trigger] s@[k] <= '9',
                decreases n - j,
            {
                j += 1;
            }
            proof {
                assert forall|k: int| 0 <= k < j - i implies '0' <= #[trigger] rest[k] <= '9' by {
                    assert(rest[k] == s@[i + k]);
                }
                if j < n {
                    assert(rest[j - i] == s@[j as int]);
                }
                lemma_digit_run(rest, j - i);
            }
            let num = copy_digits(s, i, j);
            proof {
                assert(num@ =~= rest.take(j - i));
            }
            match parse_i32(&num) {
                Err(e) => {
                    proof {
                        reveal_strlit("Invalid number: ");
                    }
                    let mut msg: Vec<char> = Vec::new();
                    push_str(&mut msg, "Invalid number: ");
                    push_int_error(&mut msg, e);
                    proof {
                        assert(msg@ =~= "Invalid number: "@ + int_error_text(e));
                    }
                    return Err(chars_to_string(&msg));
                },
                Ok(v) => {
                    let ghost before = out@;
                    out.push(Token::Number(v));
                    proof {
                        assert(rest.skip(j - i) =~= s@.skip(j as int));
                        match tokenize_spec(s@.skip(j as int)) {
                            Ok(t) => {
                                assert(before + (seq![Token::Number(v)] + t) =~= out@ + t);
                            },
                            Err(e) => {},
                        }
                    }
                    i = j;
                },
            }
        } else {
            let tok = if c == '+' {
                Token::Plus
            } else if c == '-' {
                Token::Minus
            } else if c == '*' {
                Token::Mul
            } else if c == '/' {
                Token::Div
            } else if c == '(' {
                Token::LParen
            } else if c == ')' {
                Token::RParen
            } else {
                proof {
                    reveal_strlit("Unexpected character: ");
                }
                let mut msg: Vec<char> = Vec::new();
                push_str(&mut msg, "Unexpected character: ");
                msg.push(c);
                proof {
                    assert(msg@ =~= "Unexpected character: "@ + seq![c]);
                }
                return Err(chars_to_string(&msg));
            };
            let ghost before = out@;
            out.push(tok);
            proof {
                match tokenize_spec(s@.skip(i + 1)) {
                    Ok(t) => {
                        assert(before + (seq![tok] + t) =~= out@ + t);
                    },
                    Err(e) => {},
                }
            }
            i += 1;
        }
    }
    proof {
        assert(s@.skip(n as int) =~= Seq::<char>::empty());
        assert(out@ + Seq::<Token>::empty() =~= out@);
    }
    Ok(out)
}

fn copy_digits(s: &Vec<char>, lo: usize, hi: usize) -> (r: Vec<char>)
    requires
        lo <= hi <= s@.len(),
    ensures
        r@ == s@.subrange(lo as int, hi as int),
{
    crate::lexer::copy_range(s, lo, hi)
}

fn unexpected_message(pos: usize) -> (r: String)
    ensures
        r@ == unexpected_at(pos as int),
{
    proof {
        reveal_strlit("Unexpected token at position ");
    }
    let mut msg: Vec<char> = Vec::new();
    push_str(&mut msg, "Unexpected token at position ");
    push_usize(&mut msg, pos);
    chars_to_string(&msg)
}

fn parse_expr(t: &Vec<Token>, pos: usize) -> (r: Result<(Expr, usize), String>)
    requires
        pos <= t@.len(),
    ensures
        match r {
            Ok((e, p)) => parse_expr_spec(t@, pos as int) == Ok::<(Expr, int), Seq<char>>((e, p as int)) && pos < p <= t@.len(),
            Err(m) => parse_expr_spec(t@, pos as int) == Err::<(Expr, int), Seq<char>>(m@),
        },
    decreases t@.len() - pos, 4int,
{
    let (mut expr, mut p) = match parse_term(t, pos) {
        Ok(x) => x,
        Err(m) => return Err(m),
    };
    let ghost start = p;
    proof {
        assert(parse_expr_spec(t@, pos as int) == expr_rest(t@, expr, p as int));
    }
    loop
        invariant
            pos < start <= p <= t@.len(),
            parse_expr_spec(t@, pos as int) == expr_rest(t@, expr, p as int),
        ensures
            pos < p <= t@.len(),
            parse_expr_spec(t@, pos as int) == Ok::<(Expr, int), Seq<char>>((expr, p as int)),
        decreases t@.len() - p,
    {
        if p >= t.len() {
            break;
        }
        let plus = match t[p] {
            Token::Plus => true,
            Token::Minus => false,
            _ => break,
        };
        let (rhs, np) = match parse_term(t, p + 1) {
            Ok(x) => x,
            Err(m) => return Err(m),
        };
        expr = if plus { Expr::Add(Box::new(expr), Box::new(rhs)) } else { Expr::Sub(Box::new(expr), Box::new(rhs)) };
        p = np;
    }
    Ok((expr, p))
}

fn parse_term(t: &Vec<Token>, pos: usize) -> (r: Result<(Expr, usize), String>)
    requires
        pos <= t@.len(),
    ensures
        match r {
            Ok((e, p)) => parse_term_spec(t@, pos as int) == Ok::<(Expr, int), Seq<char>>((e, p as int)) && pos < p <= t@.len(),
            Err(m) => parse_term_spec(t@, pos as int) == Err::<(Expr, int), Seq<char>>(m@),
        },
    decreases t@.len() - pos, 2int,
{
    let (mut term, mut p) = match parse_factor(t, pos) {
        Ok(x) => x,
        Err(m) => return Err(m),
    };
    let ghost start = p;
    proof {
        assert(parse_term_spec(t@, pos as int) == term_rest(t@, term, p as int));
    }
    loop
        invariant
            pos < start <= p <= t@.len(),
            parse_term_spec(t@, pos as int) == term_rest(t@, term, p as int),
        ensures
            pos < p <= t@.len(),
            parse_term_spec(t@, pos as int) == Ok::<(Expr, int), Seq<char>>((term, p as int)),
        decreases t@.len() - p,
    {
        if p >= t.len() {
            break;
        }
        let mul = match t[p] {
            Token::Mul => true,
            Token::Div => false,
            _ => break,
        };
        let (rhs, np) = match parse_factor(t, p + 1) {
            Ok(x) => x,
            Err(m) => return Err(m),
        };
        term = if mul { Expr::Mul(Box::new(term), Box::new(rhs)) } else { Expr::Div(Box::new(term), Box::new(rhs)) };
        p = np;
    }
    Ok((term, p))
}

fn parse_factor(t: &Vec<Token>, pos: usize) -> (r: Result<(Expr, usize), String>)
    requires
        pos <= t@.len(),
    ensures
        match r {
            Ok((e, p)) => parse_factor_spec(t@, pos as int) == Ok::<(Expr, int), Seq<char>>((e, p as int)) && pos < p <= t@.len(),
            Err(m) => parse_factor_spec(t@, pos as int) == Err::<(Expr, int), Seq<char>>(m@),
        },
    decreases t@.len() - pos, 0int,
{
    if pos >= t.len() {
        proof {
            reveal_strlit("Unexpected end of input");
        }
        return Err(chars_to_string(&str_vec("Unexpected end of input")));
    }
    match &t[pos] {
        Token::Number(n) => Ok((Expr::Const(*n), pos + 1)),
        Token::LParen => {
            let (e, p) = match parse_expr(t, pos + 1) {
                Ok(x) => x,
                Err(m) => return Err(m),
            };
            if p >= t.len() || !matches!(t[p], Token::RParen) {
                proof {
                    reveal_strlit("Missing closing parenthesis");
                }
                return Err(chars_to_string(&str_vec("Missing closing parenthesis")));
            }
            Ok((e, p + 1))
        },
        Token::Minus => {
            let (f, p) = match parse_factor(t, pos + 1) {
                Ok(x) => x,
                Err(m) => return Err(m),
            };
            Ok((Expr::Sub(Box::new(Expr::Const(0)), Box::new(f)), p))
        },
        _ => Err(unexpected_message(pos)),
    }
}

fn str_vec(s: &str) -> (r: Vec<char>)
    ensures
        r@ == s@,
{
    crate::lexer::str_chars(s)
}

/// Reads an arithmetic expression with the usual precedence: `*` and `/`
/// bind tighter than `+` and `-`, all are left-associative, parentheses
/// group, and a leading `-` negates a factor (see `parse_expression_spec`).
pub fn parse_expression(input: &str) -> (r: Result<Expr, String>)
    ensures
        match r {
            Ok(e) => parse_expression_spec(input@) == Ok::<Expr, Seq<char>>(e),
            Err(m) => parse_expression_spec(input@) == Err::<Expr, Seq<char>>(m@),
        },
{
    let chars = str_vec(input);
    let tokens = match tokenize(&chars) {
        Ok(t) => t,
        Err(m) => return Err(m),
    };
    let (expr, pos) = match parse_expr(&tokens, 0) {
        Ok(x) => x,
        Err(m) => return Err(m),
    };
    if pos != tokens.len() {
        return Err(unexpected_message(pos));
    }
    Ok(expr)
}

// ---------------------------------------------------------------------------
// Sums of products: precedence and associativity.

/// `*` for a product operator marked `true`, `/` for one marked `false`.
pub open spec fn mul_token(mul: bool) -> Token {
    if mul { Token::Mul } else { Token::Div }
}

/// `+` for a sum operator marked `true`, `-` for one marked `false`.
pub open spec fn add_token(plus: bool) -> Token {
    if plus { Token::Plus } else { Token::Minus }
}

/// The tokens of the operators and numbers after the first number of a
/// product: each pair is an operator (`*` when `true`) and a number.
pub open spec fn factors_tokens(rest: Seq<(bool, i32)>) -> Seq<Token>
    decreases rest.len(),
{
    if rest.len() == 0 {
        Seq::empty()
    } else {
        seq![mul_token(rest[0].0), Token::Number(rest[0].1)] + factors_tokens(rest.drop_first())
    }
}

/// The tokens of a product: a number, then operators and numbers.
pub open spec fn product_tokens(p: (i32, Seq<(bool, i32)>)) -> Seq<Token> {
    seq![Token::Number(p.0)] + factors_tokens(p.1)
}

/// The tokens of the operators and products after the first product of a
/// sum: each pair is an operator (`+` when `true`) and a product.
pub open spec fn terms_tokens(rest: Seq<(bool, (i32, Seq<(bool, i32)>))>) -> Seq<Token>
    decreases rest.len(),
{
    if rest.len() == 0 {
        Seq::empty()
    } else {
        seq![add_token(rest[0].0)] + product_tokens(rest[0].1) + terms_tokens(rest.drop_first())
    }
}

/// The operators applied from left to right: `acc`, then each operator with
/// the next number.
pub open spec fn fold_factors(acc: Expr, rest: Seq<(bool, i32)>) -> Expr
    decreases rest.len(),
{
    if rest.len() == 0 {
        acc
    } else {
        let next = if rest[0].0 {
            Expr::Mul(Box::new(acc), Box::new(Expr::Const(rest[0].1)))
        } else {
            Expr::Div(Box::new(acc), Box::new(Expr::Const(rest[0].1)))
        };
        fold_factors(next, rest.drop_first())
    }
}

/// The expression of a product: its operators applied from left to right.
pub open spec fn product_expr(p: (i32, Seq<(bool, i32)>)) -> Expr {
    fold_factors(Expr::Const(p.0), p.1)
}

/// The sum operators applied from left to right, each to a whole product.
pub open spec fn fold_terms(acc: Expr, rest: Seq<(bool, (i32, Seq<(bool, i32)>))>) -> Expr
    decreases rest.len(),
{
    if rest.len() == 0 {
        acc
    } else {
        let next = if rest[0].0 {
            Expr::Add(Box::new(acc), Box::new(product_expr(rest[0].1)))
        } else {
            Expr::Sub(Box::new(acc), Box::new(product_expr(rest[0].1)))
        };
        fold_terms(next, rest.drop_first())
    }
}

/// No product continues at `q`: the tokens end there or the token is not
/// `*` or `/`.
pub open spec fn product_ends(t: Seq<Token>, q: int) -> bool {
    q == t.len() || !(t[q] is Mul || t[q] is Div)
}

proof fn lemma_factors_rest(t: Seq<Token>, lhs: Expr, pos: int, rest: Seq<(bool, i32)>)
    requires
        0 <= pos,
        pos + factors_tokens(rest).len() <= t.len(),
        t.subrange(pos, pos + factors_tokens(rest).len()) == factors_tokens(rest),
        product_ends(t, pos + factors_tokens(rest).len()),
    ensures
        factors_tokens(rest).len() == 2 * rest.len(),
        term_rest(t, lhs, pos) == Ok::<(Expr, int), Seq<char>>((fold_factors(lhs, rest), pos + factors_tokens(rest).len())),
    decreases rest.len(),
{
    if rest.len() > 0 {
        let ft = factors_tokens(rest);
        let tail = factors_tokens(rest.drop_first());
        let l = ft.len() as int;
        assert(ft == seq![mul_token(rest[0].0), Token::Number(rest[0].1)] + tail);
        assert(t[pos] == t.subrange(pos, pos + l)[0]);
        assert(t[pos + 1] == t.subrange(pos, pos + l)[1]);
        assert(t.subrange(pos + 2, pos + 2 + tail.len()) =~= tail) by {
            assert forall|i: int| 0 <= i < tail.len() implies t.subrange(pos + 2, pos + 2 + tail.len())[i] == tail[i] by {
                assert(t.subrange(pos, pos + l)[i + 2] == ft[i + 2]);
            }
        }
        let next = if rest[0].0 {
            Expr::Mul(Box::new(lhs), Box::new(Expr::Const(rest[0].1)))
        } else {
            Expr::Div(Box::new(lhs), Box::new(Expr::Const(rest[0].1)))
        };
        lemma_factors_rest(t, next, pos + 2, rest.drop_first());
        assert(t[pos] == mul_token(rest[0].0));
        assert(t[pos + 1] == Token::Number(rest[0].1));
        assert(parse_factor_spec(t, pos + 1) == Ok::<(Expr, int), Seq<char>>((Expr::Const(rest[0].1), pos + 2)));
        assert(fold_factors(lhs, rest) == fold_factors(next, rest.drop_first()));
        assert(term_rest(t, lhs, pos) == term_rest(t, next, pos + 2));
    } else {
        assert(factors_tokens(rest).len() == 0);
    }
}

proof fn lemma_product(t: Seq<Token>, pos: int, p: (i32, Seq<(bool, i32)>))
    requires
        0 <= pos,
        pos + product_tokens(p).len() <= t.len(),
        t.subrange(pos, pos + product_tokens(p).len()) == product_tokens(p),
        product_ends(t, pos + product_tokens(p).len()),
    ensures
        product_tokens(p).len() == 1 + 2 * p.1.len(),
        parse_term_spec(t, pos) == Ok::<(Expr, int), Seq<char>>((product_expr(p), pos + product_tokens(p).len())),
{
    let pt = product_tokens(p);
    let ft = factors_tokens(p.1);
    assert(t[pos] == t.subrange(pos, pos + pt.len())[0]);
    assert(t.subrange(pos + 1, pos + 1 + ft.len()) =~= ft) by {
        assert forall|i: int| 0 <= i < ft.len() implies t.subrange(pos + 1, pos + 1 + ft.len())[i] == ft[i] by {
            assert(t.subrange(pos, pos + pt.len())[i + 1] == pt[i + 1]);
        }
    }
    lemma_factors_rest(t, Expr::Const(p.0), pos + 1, p.1);
}

proof fn lemma_terms_rest(t: Seq<Token>, lhs: Expr, pos: int, rest: Seq<(bool, (i32, Seq<(bool, i32)>))>)
    requires
        0 <= pos <= t.len(),
        t.subrange(pos, t.len() as int) == terms_tokens(rest),
    ensures
        expr_rest(t, lhs, pos) == Ok::<(Expr, int), Seq<char>>((fold_terms(lhs, rest), t.len() as int)),
    decreases rest.len(),
{
    let tt = terms_tokens(rest);
    if rest.len() == 0 {
        assert(t.subrange(pos, t.len() as int).len() == 0);
    } else {
        let pt = product_tokens(rest[0].1);
        let tail = terms_tokens(rest.drop_first());
        assert(tt == seq![add_token(rest[0].0)] + pt + tail);
        assert(t[pos] == t.subrange(pos, t.len() as int)[0]);
        let q = pos + 1 + pt.len();
        assert(t.subrange(pos + 1, q) =~= pt) by {
            assert forall|i: int| 0 <= i < pt.len() implies t.subrange(pos + 1, q)[i] == pt[i] by {
                assert(t.subrange(pos, t.len() as int)[i + 1] == tt[i + 1]);
            }
        }
        assert(t.subrange(q, t.len() as int) =~= tail) by {
            assert forall|i: int| 0 <= i < tail.len() implies t.subrange(q, t.len() as int)[i] == tail[i] by {
                assert(t.subrange(pos, t.len() as int)[i + 1 + pt.len()] == tt[i + 1 + pt.len()]);
            }
        }
        if q < t.len() {
            assert(t[q] == tail[0]);
            assert(tail[0] == add_token(rest.drop_first()[0].0));
        }
        lemma_product(t, pos + 1, rest[0].1);
        let next = if rest[0].0 {
            Expr::Add(Box::new(lhs), Box::new(product_expr(rest[0].1)))
        } else {
            Expr::Sub(Box::new(lhs), Box::new(product_expr(rest[0].1)))
        };
        lemma_terms_rest(t, next, q, rest.drop_first());
    }
}

/// The tokens of a sum of products.
pub open spec fn sum_tokens(first: (i32, Seq<(bool, i32)>), rest: Seq<(bool, (i32, Seq<(bool, i32)>))>) -> Seq<Token> {
    product_tokens(first) + terms_tokens(rest)
}

/// Precedence and associativity: a sum of products of numbers reads as its
/// products, each the left fold of `*` and `/` over its numbers, combined
/// by the left fold of `+` and `-`; every token is used.
pub proof fn law_parse_sum_of_products(first: (i32, Seq<(bool, i32)>), rest: Seq<(bool, (i32, Seq<(bool, i32)>))>)
    ensures
        parse_expr_spec(sum_tokens(first, rest), 0) == Ok::<(Expr, int), Seq<char>>((
            fold_terms(product_expr(first), rest),
            sum_tokens(first, rest).len() as int,
        )),
{
    let t = sum_tokens(first, rest);
    let pt = product_tokens(first);
    let tt = terms_tokens(rest);
    assert(t.subrange(0, pt.len() as int) =~= pt);
    assert(t.subrange(pt.len() as int, t.len() as int) =~= tt);
    if pt.len() < t.len() {
        assert(t[pt.len() as int] == tt[0]);
        assert(tt[0] == add_token(rest[0].0));
    }
    lemma_product(t, 0, first);
    lemma_terms_rest(t, product_expr(first), pt.len() as int, rest);
}

/// The text of a token: a number in decimal digits, an operator or a
/// parenthesis as its character.
pub open spec fn token_text(t: Token) -> Seq<char> {
    match t {
        Token::Number(n) => digits(n as nat),
        Token::Plus => seq!['+'],
        Token::Minus => seq!['-'],
        Token::Mul => seq!['*'],
        Token::Div => seq!['/'],
        Token::LParen => seq!['('],
        Token::RParen => seq![')'],
    }
}

/// The texts of tokens, each followed by a blank.
pub open spec fn tokens_text(ts: Seq<Token>) -> Seq<char>
    decreases ts.len(),
{
    if ts.len() == 0 {
        Seq::empty()
    } else {
        token_text(ts[0]) + seq![' '] + tokens_text(ts.drop_first())
    }
}

/// Every number among the tokens is at least zero (a negative number is
/// written with a minus operator).
pub open spec fn numbers_natural(ts: Seq<Token>) -> bool {
    forall|k: int| 0 <= k < ts.len() ==> (#[trigger] ts[k] matches Token::Number(n) ==> n >= 0)
}

proof fn lemma_digit_run_prefix(d: Seq<char>, x: Seq<char>)
    requires
        forall|i: int| 0 <= i < d.len() ==> '0' <= #[trigger] d[i] <= '9',
        x.len() > 0,
        !('0' <= x[0] <= '9'),
    ensures
        digit_run(d + x) == d.len(),
    decreases d.len(),
{
    if d.len() == 0 {
        assert(d + x =~= x);
    } else {
        assert((d + x).drop_first() =~= d.drop_first() + x);
        lemma_digit_run_prefix(d.drop_first(), x);
    }
}

/// Each token's text, followed by a blank, reads as that token.
proof fn lemma_token_text(t: Token, rest: Seq<char>)
    requires
        t matches Token::Number(n) ==> n >= 0,
    ensures
        tokenize_spec(token_text(t) + seq![' '] + rest) == match tokenize_spec(rest) {
            Ok(ts) => Ok::<Seq<Token>, Seq<char>>(seq![t] + ts),
            Err(e) => Err(e),
        },
{
    let s = token_text(t) + seq![' '] + rest;
    let sp = seq![' '] + rest;
    assert(sp.drop_first() =~= rest);
    assert(tokenize_spec(sp) == tokenize_spec(rest));
    match t {
        Token::Number(n) => {
            let d = digits(n as nat);
            lemma_digits_are_digits(n as nat);
            assert(s =~= d + sp);
            lemma_digit_run_prefix(d, sp);
            assert(s.take(d.len() as int) =~= d);
            assert(s.skip(d.len() as int) =~= sp);
            lemma_read_i32(n);
            assert(int_text(n as int) == d);
        },
        _ => {
            assert(s.drop_first() =~= sp);
        },
    }
}

/// Tokens written out with a blank after each read back as the same tokens.
pub proof fn law_tokens_read_back(ts: Seq<Token>)
    requires
        numbers_natural(ts),
    ensures
        tokenize_spec(tokens_text(ts)) == Ok::<Seq<Token>, Seq<char>>(ts),
    decreases ts.len(),
{
    if ts.len() > 0 {
        let rest = ts.drop_first();
        assert forall|k: int| 0 <= k < rest.len() implies (#[trigger] rest[k] matches Token::Number(n) ==> n >= 0) by {
            assert(rest[k] == ts[k + 1]);
        }
        law_tokens_read_back(rest);
        assert(ts[0] matches Token::Number(n) ==> n >= 0);
        lemma_token_text(ts[0], tokens_text(rest));
        assert(tokens_text(ts) == token_text(ts[0]) + seq![' '] + tokens_text(rest));
        assert(seq![ts[0]] + rest =~= ts);
    } else {
        assert(ts =~= Seq::<Token>::empty());
    }
}

/// Reading the text of a sum of products of natural numbers (tokens
/// separated by blanks, as `8 / 2 / 2` or `1 + 2 * 3 - 4`) gives its
/// products, each the left fold of `*` and `/` over its numbers, combined
/// by the left fold of `+` and `-`.
pub proof fn law_parse_expression_sum_of_products(first: (i32, Seq<(bool, i32)>), rest: Seq<(bool, (i32, Seq<(bool, i32)>))>)
    requires
        numbers_natural(sum_tokens(first, rest)),
    ensures
        parse_expression_spec(tokens_text(sum_tokens(first, rest)))
            == Ok::<Expr, Seq<char>>(fold_terms(product_expr(first), rest)),
{
    law_tokens_read_back(sum_tokens(first, rest));
    law_parse_sum_of_products(first, rest);
}

} // verus!
