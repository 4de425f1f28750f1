//! Rendering of numbers, strings and terms as text.

use vstd::prelude::*;
use crate::term::{Term, TermV};

verus! {

broadcast use vstd::std_specs::vec::group_vec_axioms;

/// The decimal digits of a natural number.
pub open spec fn digits(n: nat) -> Seq<char>
    decreases n,
{
    if n < 10 {
        seq![digit_char(n)]
    } else {
        digits(n / 10).push(digit_char(n % 10))
    }
}

/// The character of a decimal digit.
pub open spec fn digit_char(d: nat) -> char {
    ((d + 48) as u8) as char
}

/// The decimal text of an integer, with a minus sign when it is negative.
pub open spec fn int_text(v: int) -> Seq<char> {
    if v < 0 {
        seq!['-'] + digits((-v) as nat)
    } else {
        digits(v as nat)
    }
}

/// A string in double quotes, escaped as its debug form escapes it.
pub open spec fn quoted(s: Seq<char>) -> Seq<char> {
    seq!['"'] + escaped(s) + seq!['"']
}

/// What `char::escape_debug` gives for a character, as the standard library
/// computes it from its Unicode tables.
pub uninterp spec fn debug_escape(c: char) -> Seq<char>;

/// `char::escape_debug`: its result is named `debug_escape` of the argument.
#[verifier::external_body]
fn escape_debug(c: char) -> (r: String)
    ensures
        r@ == debug_escape(c),
{
    c.escape_debug().to_string()
}

/// The escaped form of one character inside a quoted string: as
/// `escape_debug` gives it, except that a single quote stays as it is.
pub open spec fn escape_char(c: char) -> Seq<char> {
    if c == '\'' { seq!['\''] } else { debug_escape(c) }
}

/// The escaped form of a string.
pub open spec fn escaped(s: Seq<char>) -> Seq<char>
    decreases s.len(),
{
    if s.len() == 0 {
        seq![]
    } else {
        escaped(s.drop_last()) + escape_char(s.last())
    }
}

/// Appends the characters of a string slice.
pub fn push_str(out: &mut Vec<char>, s: &str)
    ensures
        final(out)@ == old(out)@ + s@,
{
    let n = s.unicode_len();
    let mut i: usize = 0;
    while i < n
        invariant
            n == s@.len(),
            i <= n,
            out@ == old(out)@ + s@.subrange(0, i as int),
        decreases n - i,
    {
        let c = s.get_char(i);
        out.push(c);
        i += 1;
        proof {
            assert(s@.subrange(0, i as int) =~= s@.subrange(0, i - 1).push(c));
        }
    }
    proof {
        assert(s@.subrange(0, n as int) =~= s@);
    }
}

/// Appends the decimal digits of a number.
pub fn push_usize(out: &mut Vec<char>, n: usize)
    ensures
        final(out)@ == old(out)@ + digits(n as nat),
    decreases n,
{
    if n < 10 {
        out.push(((n as u8) + 48) as char);
        proof {
            assert(old(out)@ + digits(n as nat) =~= old(out)@.push(digit_char(n as nat)));
        }
    } else {
        push_usize(out, n / 10);
        let d = n % 10;
        out.push(((d as u8) + 48) as char);
        proof {
            assert(digits(n as nat) == digits((n / 10) as nat).push(digit_char((n % 10) as nat)));
            assert(final(out)@ =~= old(out)@ + digits(n as nat));
        }
    }
}

/// Appends the decimal text of a machine integer.
pub fn push_i32(out: &mut Vec<char>, v: i32)
    ensures
        final(out)@ == old(out)@ + int_text(v as int),
{
    if v < 0 {
        out.push('-');
        let m: usize = (-(v as i64)) as usize;
        push_usize(out, m);
        proof {
            assert(final(out)@ =~= old(out)@ + int_text(v as int));
        }
    } else {
        push_usize(out, v as usize);
    }
}

/// Appends a string in double quotes, escaped.
pub fn push_quoted(out: &mut Vec<char>, s: &String)
    ensures
        final(out)@ == old(out)@ + quoted(s@),
{
    out.push('"');
    let t = s.as_str();
    let n = t.unicode_len();
    let mut i: usize = 0;
    while i < n
        invariant
            n == s@.len(),
            t@ == s@,
            i <= n,
            out@ == old(out)@ + seq!['"'] + escaped(s@.subrange(0, i as int)),
        decreases n - i,
    {
        let c = t.get_char(i);
        if c == '\'' {
            out.push(c);
        } else {
            let e = escape_debug(c);
            push_str(out, e.as_str());
        }
        i += 1;
        proof {
            let pre = s@.subrange(0, i as int);
            assert(pre.drop_last() =~= s@.subrange(0, i - 1));
            assert(pre.last() == c);
            assert(out@ =~= old(out)@ + seq!['"'] + escaped(s@.subrange(0, i as int)));
        }
    }
    out.push('"');
    proof {
        assert(s@.subrange(0, n as int) =~= s@);
        assert(final(out)@ =~= old(out)@ + quoted(s@));
    }
}


/// The text of a term in the notation of its derived debug form, such as
/// `Compound("f", [Const(1), Var(0)])`.
pub open spec fn term_text(t: TermV) -> Seq<char>
    decreases t,
{
    match t {
        TermV::Const(n) => "Const("@ + int_text(n as int) + ")"@,
        TermV::Var(v) => "Var("@ + digits(v as nat) + ")"@,
        TermV::Compound(f, args) => "Compound("@ + quoted(f) + ", ["@ + list_text(args) + "])"@,
        TermV::Lambda(p, b) => "Lambda("@ + digits(p as nat) + ", "@ + term_text(*b) + ")"@,
        TermV::App(a, b) => "App("@ + term_text(*a) + ", "@ + term_text(*b) + ")"@,
        TermV::Prob(b) => "Prob("@ + term_text(*b) + ")"@,
        TermV::Constraint(f, args) => "Constraint("@ + quoted(f) + ", ["@ + list_text(args) + "])"@,
        TermV::Modal(f, b) => "Modal("@ + quoted(f) + ", "@ + term_text(*b) + ")"@,
        TermV::Temporal(f, b) => "Temporal("@ + quoted(f) + ", "@ + term_text(*b) + ")"@,
        TermV::HigherOrder(b) => "HigherOrder("@ + term_text(*b) + ")"@,
        TermV::Str(s) => "Str("@ + quoted(s) + ")"@,
    }
}

/// The texts of terms, separated by a comma and a space.
pub open spec fn list_text(ts: Seq<TermV>) -> Seq<char>
    decreases ts,
{
    if ts.len() == 0 {
        seq![]
    } else if ts.len() == 1 {
        term_text(ts[0])
    } else {
        list_text(ts.drop_last()) + ", "@ + term_text(ts.last())
    }
}

fn push_args_text(out: &mut Vec<char>, args: &Vec<Term>)
    ensures
        final(out)@ == old(out)@ + list_text(Term::args_view(args@)),
    decreases args, 0nat,
{
    let mut i: usize = 0;
    while i < args.len()
        invariant
            i <= args.len(),
            out@ == old(out)@ + list_text(Term::args_view(args@).subrange(0, i as int)),
        decreases args.len() - i,
    {
        proof {
            assert(decreases_to!(args => args@[i as int]));
        }
        if i > 0 {
            push_str(out, ", ");
        }
        push_term_text(out, &args[i]);
        i += 1;
        proof {
            let sub = Term::args_view(args@).subrange(0, i as int);
            assert(sub.drop_last() =~= Term::args_view(args@).subrange(0, i - 1));
            if i == 1 {
                assert(list_text(Term::args_view(args@).subrange(0, 0)) =~= seq![]);
            }
            assert(out@ =~= old(out)@ + list_text(sub));
        }
    }
    proof {
        assert(Term::args_view(args@).subrange(0, args@.len() as int) =~= Term::args_view(args@));
    }
}

/// Appends the text of a term (see `term_text`).
pub fn push_term_text(out: &mut Vec<char>, t: &Term)
    ensures
        final(out)@ == old(out)@ + term_text(t@),
    decreases t, 1nat,
{
    proof {
        reveal_strlit("Const(");
        reveal_strlit("Var(");
        reveal_strlit("Compound(");
        reveal_strlit("Lambda(");
        reveal_strlit("App(");
        reveal_strlit("Prob(");
        reveal_strlit("Constraint(");
        reveal_strlit("Modal(");
        reveal_strlit("Temporal(");
        reveal_strlit("HigherOrder(");
        reveal_strlit("Str(");
        reveal_strlit(")");
        reveal_strlit(", ");
        reveal_strlit(", [");
        reveal_strlit("])");
        Term::lemma_args_view(*t);
    }
    let ghost start = out@;
    match t {
        Term::Const(n) => {
            push_str(out, "Const(");
            push_i32(out, *n);
            push_str(out, ")");
        }
        Term::Var(v) => {
            push_str(out, "Var(");
            push_usize(out, *v);
            push_str(out, ")");
        }
        Term::Compound(f, args) => {
            push_str(out, "Compound(");
            push_quoted(out, f);
            push_str(out, ", [");
            push_args_text(out, args);
            push_str(out, "])");
        }
        Term::Lambda(p, b) => {
            push_str(out, "Lambda(");
            push_usize(out, *p);
            push_str(out, ", ");
            push_term_text(out, b);
            push_str(out, ")");
        }
        Term::App(a, b) => {
            push_str(out, "App(");
            push_term_text(out, a);
            push_str(out, ", ");
            push_term_text(out, b);
            push_str(out, ")");
        }
        Term::Prob(b) => {
            push_str(out, "Prob(");
            push_term_text(out, b);
            push_str(out, ")");
        }
        Term::Constraint(f, args) => {
            push_str(out, "Constraint(");
            push_quoted(out, f);
            push_str(out, ", [");
            push_args_text(out, args);
            push_str(out, "])");
        }
        Term::Modal(f, b) => {
            push_str(out, "Modal(");
            push_quoted(out, f);
            push_str(out, ", ");
            push_term_text(out, b);
            push_str(out, ")");
        }
        Term::Temporal(f, b) => {
            push_str(out, "Temporal(");
            push_quoted(out, f);
            push_str(out, ", ");
            push_term_text(out, b);
            push_str(out, ")");
        }
        Term::HigherOrder(b) => {
            push_str(out, "HigherOrder(");
            push_term_text(out, b);
            push_str(out, ")");
        }
        Term::Str(s) => {
            push_str(out, "Str(");
            push_quoted(out, s);
            push_str(out, ")");
        }
    }
    proof {
        assert(out@ =~= start + term_text(t@));
    }
}

/// The text of a term (see `term_text`).
pub fn term_to_text(t: &Term) -> (r: String)
    ensures
        r@ == term_text(t@),
{
    let mut out: Vec<char> = Vec::new();
    push_term_text(&mut out, t);
    proof {
        assert(out@ =~= term_text(t@));
    }
    chars_to_string(&out)
}

/// Makes a string from characters.
#[verifier::external_body]
pub(crate) fn chars_to_string(v: &Vec<char>) -> (r: String)
    ensures
        r@ == v@,
{
    v.iter().collect()
}

} // verus!
