//! Reading back what is written: the text of an instruction, as a program
//! listing shows it, is read by the instruction reader as the same
//! instruction.

use vstd::prelude::*;
use crate::lexer::{
    is_ws, is_digit, digit_value, digits_value, parse_int, parse_i32_spec, parse_usize_spec, trim, trim_start,
    trim_end, split, words,
};
use crate::text::{digits, digit_char, int_text};
use crate::display::{instr_text, reg, in_quotes, listing_text};
use crate::instruction_parser::{
    uppercase, line_spec, line_tokens, instr_spec, register_spec, is_quoted, unquote, lines_spec,
    parse_instructions_spec,
};
use crate::machine::InstrV;

verus! {

proof fn lemma_digit_char(d: nat)
    requires
        d < 10,
    ensures
        is_digit(digit_char(d)),
        digit_value(digit_char(d)) == d,
{
    assert((d + 48) as u8 as int == d + 48);
    assert(((d + 48) as u8) as char as int == d + 48);
}

/// The digits of a number are decimal digits, and there is at least one.
pub proof fn lemma_digits_are_digits(n: nat)
    ensures
        digits(n).len() >= 1,
        forall|i: int| 0 <= i < digits(n).len() ==> is_digit(#[trigger] digits(n)[i]),
    decreases n,
{
    if n < 10 {
        lemma_digit_char(n);
    } else {
        lemma_digits_are_digits(n / 10);
        lemma_digit_char(n % 10);
        let d = digits(n / 10);
        assert forall|i: int| 0 <= i < digits(n).len() implies is_digit(#[trigger] digits(n)[i]) by {
            if i < d.len() {
                assert(digits(n)[i] == d[i]);
            }
        }
    }
}

/// Reading the digits of a number gives the number back, negated where
/// asked, when every prefix stays in range.
proof fn lemma_digits_value(n: nat, neg: bool, lo: int, hi: int)
    requires
        lo <= 0 <= hi,
        neg ==> lo <= -n,
        !neg ==> n <= hi,
    ensures
        digits_value(digits(n), neg, lo, hi) == Ok::<int, crate::lexer::IntError>(if neg { -n } else { n as int }),
    decreases n,
{
    if n < 10 {
        lemma_digit_char(n);
        let s = digits(n);
        assert(s.drop_last() =~= Seq::<char>::empty());
        assert(digits_value(s.drop_last(), neg, lo, hi) == Ok::<int, crate::lexer::IntError>(0));
        assert(s.last() == digit_char(n));
    } else {
        lemma_digits_value(n / 10, neg, lo, hi);
        lemma_digit_char(n % 10);
        let s = digits(n);
        assert(s.drop_last() =~= digits(n / 10));
        assert(s.last() == digit_char(n % 10));
        assert((n / 10) * 10 + n % 10 == n) by (nonlinear_arith);
        let v = if neg { -((n / 10) as int) } else { (n / 10) as int };
        assert(digits_value(s.drop_last(), neg, lo, hi) == Ok::<int, crate::lexer::IntError>(v));
        let w = if neg { v * 10 - digit_value(s.last()) } else { v * 10 + digit_value(s.last()) };
        assert(w == (if neg { -n } else { n as int }));
    }
}

/// Reading the text of a machine integer gives it back.
pub proof fn lemma_read_i32(v: i32)
    ensures
        parse_i32_spec(int_text(v as int)) == Ok::<int, crate::lexer::IntError>(v as int),
{
    if v < 0 {
        let n = (-(v as int)) as nat;
        lemma_digits_are_digits(n);
        lemma_digits_value(n, true, i32::MIN as int, i32::MAX as int);
        let s = int_text(v as int);
        assert(s.drop_first() =~= digits(n));
        assert(is_digit(digits(n)[0]));
        assert(s.len() >= 2);
    } else {
        let n = v as nat;
        lemma_digits_are_digits(n);
        lemma_digits_value(n, false, i32::MIN as int, i32::MAX as int);
        assert(is_digit(digits(n)[0]));
    }
}

/// Reading the digits of a machine word gives it back.
pub proof fn lemma_read_usize(n: usize)
    ensures
        parse_usize_spec(digits(n as nat)) == Ok::<int, crate::lexer::IntError>(n as int),
{
    lemma_digits_are_digits(n as nat);
    lemma_digits_value(n as nat, false, 0, usize::MAX as int);
    assert(is_digit(digits(n as nat)[0]));
}

/// A text without whitespace.
pub open spec fn no_ws(s: Seq<char>) -> bool {
    forall|i: int| 0 <= i < s.len() ==> !is_ws(#[trigger] s[i])
}

/// A text of whitespace only.
pub open spec fn all_ws(s: Seq<char>) -> bool {
    forall|i: int| 0 <= i < s.len() ==> is_ws(#[trigger] s[i])
}

pub proof fn lemma_split_plain(s: Seq<char>, sep: char)
    requires
        !s.contains(sep),
    ensures
        split(s, sep) == seq![s],
    decreases s.len(),
{
    if s.len() > 0 {
        lemma_split_plain(s.drop_last(), sep);
        assert(s.last() != sep) by {
            assert(s[s.len() - 1] == s.last());
        }
        assert(s.drop_last().push(s.last()) =~= s);
        assert(seq![s.drop_last()].update(0, s.drop_last().push(s.last())) =~= seq![s]);
    } else {
        assert(s =~= Seq::<char>::empty());
    }
}

proof fn lemma_split_len(s: Seq<char>, sep: char)
    ensures
        split(s, sep).len() >= 1,
    decreases s.len(),
{
    if s.len() > 0 {
        lemma_split_len(s.drop_last(), sep);
    }
}

proof fn lemma_split_extend(s: Seq<char>, t: Seq<char>, sep: char)
    requires
        !t.contains(sep),
    ensures
        split(s + t, sep) == split(s, sep).update(split(s, sep).len() - 1, split(s, sep).last() + t),
    decreases t.len(),
{
    lemma_split_len(s, sep);
    let r = split(s, sep);
    if t.len() == 0 {
        assert(s + t =~= s);
        assert(r.last() + t =~= r.last());
        assert(r.update(r.len() - 1, r.last()) =~= r);
    } else {
        let t1 = t.drop_last();
        let c = t.last();
        assert(c != sep) by {
            assert(t[t.len() - 1] == c);
        }
        assert(!t1.contains(sep)) by {
            if t1.contains(sep) {
                let j = choose|j: int| 0 <= j < t1.len() && t1[j] == sep;
                assert(t[j] == sep);
            }
        }
        lemma_split_extend(s, t1, sep);
        assert((s + t).drop_last() =~= s + t1);
        assert((s + t).last() == c);
        let r1 = split(s + t1, sep);
        assert(r1 == r.update(r.len() - 1, r.last() + t1));
        assert(r1.last() == r.last() + t1);
        assert((r.last() + t1).push(c) =~= r.last() + t);
        assert(r1.update(r1.len() - 1, r1.last().push(c)) =~= r.update(r.len() - 1, r.last() + t));
    }
}

proof fn lemma_split_sep(s: Seq<char>, sep: char)
    ensures
        split(s.push(sep), sep) == split(s, sep).push(Seq::empty()),
{
    assert(s.push(sep).drop_last() =~= s);
}

/// Splitting `a`, a separator, and `b` gives the pieces of `a` and of `b`
/// where neither holds the separator.
proof fn lemma_split_two(a: Seq<char>, b: Seq<char>, sep: char)
    requires
        !a.contains(sep),
        !b.contains(sep),
    ensures
        split(a + seq![sep] + b, sep) == seq![a, b],
{
    lemma_split_plain(a, sep);
    lemma_split_sep(a, sep);
    assert(a + seq![sep] =~= a.push(sep));
    lemma_split_extend(a.push(sep), b, sep);
    assert(seq![a].push(Seq::<char>::empty()).update(1, Seq::<char>::empty() + b) =~= seq![a, b]);
}

proof fn lemma_split_three(a: Seq<char>, b: Seq<char>, c: Seq<char>, sep: char)
    requires
        !a.contains(sep),
        !b.contains(sep),
        !c.contains(sep),
    ensures
        split(a + seq![sep] + b + seq![sep] + c, sep) == seq![a, b, c],
{
    lemma_split_two(a, b, sep);
    let ab = a + seq![sep] + b;
    lemma_split_sep(ab, sep);
    assert(ab + seq![sep] =~= ab.push(sep));
    lemma_split_extend(ab.push(sep), c, sep);
    assert(seq![a, b].push(Seq::<char>::empty()).update(2, Seq::<char>::empty() + c) =~= seq![a, b, c]);
}

pub proof fn lemma_trim_plain(s: Seq<char>)
    requires
        s.len() > 0,
        !is_ws(s[0]),
        !is_ws(s.last()),
    ensures
        trim(s) == s,
{
}

proof fn lemma_trim_start_ws(w: Seq<char>, s: Seq<char>)
    requires
        all_ws(w),
    ensures
        trim_start(w + s) == trim_start(s),
    decreases w.len(),
{
    if w.len() > 0 {
        assert((w + s)[0] == w[0]);
        assert((w + s).drop_first() =~= w.drop_first() + s);
        lemma_trim_start_ws(w.drop_first(), s);
    } else {
        assert(w + s =~= s);
    }
}

/// Trimming whitespace in front of a text that neither starts nor ends with
/// whitespace leaves the text.
proof fn lemma_trim_after_ws(w: Seq<char>, s: Seq<char>)
    requires
        all_ws(w),
        s.len() > 0,
        !is_ws(s[0]),
        !is_ws(s.last()),
    ensures
        trim(w + s) == s,
{
    lemma_trim_start_ws(w, s);
}

proof fn lemma_words_one(s: Seq<char>)
    requires
        s.len() > 0,
        no_ws(s),
    ensures
        words(s) == seq![s],
    decreases s.len(),
{
    if s.len() == 1 {
        assert(s.drop_last() =~= Seq::<char>::empty());
        assert(words(s.drop_last()) == Seq::<Seq<char>>::empty());
        assert(!is_ws(s[0]));
        assert(seq![s.last()] =~= s);
    } else {
        lemma_words_one(s.drop_last());
        assert(!is_ws(s[s.len() - 2]));
        assert(!is_ws(s.last()));
        assert(s.drop_last().push(s.last()) =~= s);
        assert(seq![s.drop_last()].update(0, s.drop_last().push(s.last())) =~= seq![s]);
    }
}

proof fn lemma_words_trailing_ws(a: Seq<char>, w: Seq<char>)
    requires
        all_ws(w),
    ensures
        words(a + w) == words(a),
    decreases w.len(),
{
    if w.len() > 0 {
        assert((a + w).drop_last() =~= a + w.drop_last());
        assert((a + w).last() == w.last());
        assert(is_ws(w[w.len() - 1]));
        lemma_words_trailing_ws(a, w.drop_last());
    } else {
        assert(a + w =~= a);
    }
}

proof fn lemma_words_after_ws(x: Seq<char>, b: Seq<char>)
    requires
        x.len() > 0,
        is_ws(x.last()),
        b.len() > 0,
        no_ws(b),
    ensures
        words(x + b) == words(x).push(b),
    decreases b.len(),
{
    let s = x + b;
    if b.len() == 1 {
        assert(s.drop_last() =~= x);
        assert(s.last() == b[0]);
        assert(s[s.len() - 2] == x.last());
        assert(seq![b[0]] =~= b);
    } else {
        let b1 = b.drop_last();
        lemma_words_after_ws(x, b1);
        assert(s.drop_last() =~= x + b1);
        assert(s.last() == b.last());
        assert(!is_ws(b[b.len() - 1]));
        assert(s[s.len() - 2] == b1.last());
        assert(!is_ws(b[b.len() - 2]));
        let r = words(x + b1);
        assert(r == words(x).push(b1));
        assert(b1.push(b.last()) =~= b);
        assert(r.update(r.len() - 1, r.last().push(b.last())) =~= words(x).push(b));
    }
}

/// The words of a word, some whitespace and another word.
proof fn lemma_words_two(a: Seq<char>, w: Seq<char>, b: Seq<char>)
    requires
        a.len() > 0,
        no_ws(a),
        w.len() > 0,
        all_ws(w),
        b.len() > 0,
        no_ws(b),
    ensures
        words(a + w + b) == seq![a, b],
{
    lemma_words_one(a);
    lemma_words_trailing_ws(a, w);
    assert((a + w).last() == w[w.len() - 1]);
    lemma_words_after_ws(a + w, b);
}

/// A token: not empty, neither starting nor ending with whitespace, and
/// without a comma.
pub open spec fn solid(s: Seq<char>) -> bool {
    s.len() > 0 && !is_ws(s[0]) && !is_ws(s.last()) && !s.contains(',')
}

/// Upper-case letters and underscores.
pub open spec fn caps(s: Seq<char>) -> bool {
    forall|i: int| 0 <= i < s.len() ==> ('A' <= #[trigger] s[i] <= 'Z' || s[i] == '_')
}

proof fn lemma_caps(s: Seq<char>)
    requires
        s.len() > 0,
        caps(s),
    ensures
        solid(s),
        no_ws(s),
        !s.contains('\n'),
        !s.contains('"'),
{
    assert(s[s.len() - 1] == s.last());
    assert(!s.contains(',')) by {
        if s.contains(',') {
            let j = choose|j: int| 0 <= j < s.len() && s[j] == ',';
        }
    }
    assert(!s.contains('\n')) by {
        if s.contains('\n') {
            let j = choose|j: int| 0 <= j < s.len() && s[j] == '\n';
        }
    }
    assert(!s.contains('"')) by {
        if s.contains('"') {
            let j = choose|j: int| 0 <= j < s.len() && s[j] == '"';
        }
    }
}

proof fn lemma_contains_concat(a: Seq<char>, b: Seq<char>, c: char)
    ensures
        (a + b).contains(c) <==> (a.contains(c) || b.contains(c)),
{
    if (a + b).contains(c) {
        let j = choose|j: int| 0 <= j < (a + b).len() && (a + b)[j] == c;
        if j < a.len() {
            assert(a[j] == c);
        } else {
            assert(b[j - a.len()] == c);
        }
    }
    if a.contains(c) {
        let j = choose|j: int| 0 <= j < a.len() && a[j] == c;
        assert((a + b)[j] == c);
    }
    if b.contains(c) {
        let j = choose|j: int| 0 <= j < b.len() && b[j] == c;
        assert((a + b)[a.len() + j] == c);
    }
}

proof fn lemma_no_ws_concat(a: Seq<char>, b: Seq<char>)
    requires
        no_ws(a),
        no_ws(b),
    ensures
        no_ws(a + b),
{
    assert forall|i: int| 0 <= i < (a + b).len() implies !is_ws(#[trigger] (a + b)[i]) by {
        if i < a.len() {
            assert((a + b)[i] == a[i]);
        } else {
            assert((a + b)[i] == b[i - a.len()]);
        }
    }
}

/// The facts about the decimal digits of a number that reading needs.
proof fn lemma_digits_token(n: usize)
    ensures
        solid(digits(n as nat)),
        no_ws(digits(n as nat)),
        !digits(n as nat).contains('\n'),
        !digits(n as nat).contains('"'),
        parse_usize_spec(digits(n as nat)) == Ok::<int, crate::lexer::IntError>(n as int),
{
    let d = digits(n as nat);
    lemma_digits_are_digits(n as nat);
    lemma_read_usize(n);
    assert(is_digit(d[d.len() - 1]));
    assert forall|i: int| 0 <= i < d.len() implies !is_ws(#[trigger] d[i]) by {
        assert(is_digit(d[i]));
    }
    assert(!d.contains(',')) by {
        if d.contains(',') {
            let j = choose|j: int| 0 <= j < d.len() && d[j] == ',';
            assert(is_digit(d[j]));
        }
    }
    assert(!d.contains('\n')) by {
        if d.contains('\n') {
            let j = choose|j: int| 0 <= j < d.len() && d[j] == '\n';
            assert(is_digit(d[j]));
        }
    }
    assert(!d.contains('"')) by {
        if d.contains('"') {
            let j = choose|j: int| 0 <= j < d.len() && d[j] == '"';
            assert(is_digit(d[j]));
        }
    }
}

/// The facts about the text of a machine integer that reading needs.
proof fn lemma_int_token(v: i32)
    ensures
        solid(int_text(v as int)),
        !int_text(v as int).contains('\n'),
        parse_i32_spec(int_text(v as int)) == Ok::<int, crate::lexer::IntError>(v as int),
{
    lemma_read_i32(v);
    let t = int_text(v as int);
    if v < 0 {
        let n = (-(v as int)) as nat;
        lemma_digits_are_digits(n);
        let d = digits(n);
        assert(t == seq!['-'] + d);
        assert(t.last() == d[d.len() - 1]);
        assert(is_digit(d[d.len() - 1]));
        assert(!d.contains(',')) by {
            if d.contains(',') {
                let j = choose|j: int| 0 <= j < d.len() && d[j] == ',';
                assert(is_digit(d[j]));
            }
        }
        assert(!d.contains('\n')) by {
            if d.contains('\n') {
                let j = choose|j: int| 0 <= j < d.len() && d[j] == '\n';
                assert(is_digit(d[j]));
            }
        }
        lemma_contains_concat(seq!['-'], d, ',');
        lemma_contains_concat(seq!['-'], d, '\n');
    } else {
        lemma_digits_token(v as usize);
    }
}

/// The facts about a register operand that reading needs.
proof fn lemma_reg_token(r: usize)
    ensures
        solid(reg(r)),
        no_ws(reg(r)),
        !reg(r).contains('\n'),
        !reg(r).contains('"'),
        register_spec(reg(r)) == Ok::<usize, Seq<char>>(r),
{
    reveal_strlit("R");
    let d = digits(r as nat);
    lemma_digits_token(r);
    let t = reg(r);
    assert(t == seq!['R'] + d);
    assert(t.last() == d.last());
    lemma_contains_concat(seq!['R'], d, ',');
    lemma_contains_concat(seq!['R'], d, '\n');
    lemma_contains_concat(seq!['R'], d, '"');
    assert(no_ws(seq!['R']));
    lemma_no_ws_concat(seq!['R'], d);
    lemma_trim_plain(t);
    assert(t.drop_first() =~= d);
}

/// The facts about a quoted operand that reading needs.
proof fn lemma_quoted_token(s: Seq<char>)
    requires
        !s.contains(','),
    ensures
        solid(in_quotes(s)),
        in_quotes(s)[0] == '"',
        in_quotes(s).last() == '"',
        is_quoted(in_quotes(s)),
        unquote(in_quotes(s)) == s,
        trim(in_quotes(s)) == in_quotes(s),
        no_ws(s) ==> no_ws(in_quotes(s)),
        !s.contains('\n') ==> !in_quotes(s).contains('\n'),
{
    reveal_strlit("\"");
    let q = in_quotes(s);
    assert(q == seq!['"'] + s + seq!['"']);
    lemma_contains_concat(seq!['"'], s, ',');
    lemma_contains_concat(seq!['"'] + s, seq!['"'], ',');
    lemma_contains_concat(seq!['"'], s, '\n');
    lemma_contains_concat(seq!['"'] + s, seq!['"'], '\n');
    assert(q.subrange(1, q.len() - 1) =~= s);
    lemma_trim_plain(q);
    if no_ws(s) {
        assert(no_ws(seq!['"']));
        lemma_no_ws_concat(seq!['"'], s);
        lemma_no_ws_concat(seq!['"'] + s, seq!['"']);
    }
}

/// A mnemonic, some spaces and an operand form one token of two words.
proof fn lemma_first_token(m: Seq<char>, w: Seq<char>, x: Seq<char>)
    requires
        solid(m),
        no_ws(m),
        w.len() > 0,
        all_ws(w),
        solid(x),
        no_ws(x),
    ensures
        solid(m + w + x),
        words(m + w + x) == seq![m, x],
{
    let t = m + w + x;
    lemma_words_two(m, w, x);
    assert(t[0] == m[0]);
    assert(t.last() == x.last());
    assert(!w.contains(',')) by {
        if w.contains(',') {
            let j = choose|j: int| 0 <= j < w.len() && w[j] == ',';
            assert(is_ws(w[j]));
        }
    }
    lemma_contains_concat(m, w, ',');
    lemma_contains_concat(m + w, x, ',');
}

/// A line that is one token.
proof fn lemma_tokens_one(t: Seq<char>)
    requires
        solid(t),
    ensures
        trim(t) == t,
        line_tokens(t) == seq![t],
{
    lemma_trim_plain(t);
    lemma_split_plain(t, ',');
    assert(seq![t].map_values(|x: Seq<char>| trim(x)) =~= seq![t]);
}

/// A line of two tokens separated by a comma and a space.
proof fn lemma_tokens_two(a: Seq<char>, b: Seq<char>)
    requires
        solid(a),
        solid(b),
    ensures
        trim(a + seq![',', ' '] + b) == a + seq![',', ' '] + b,
        line_tokens(a + seq![',', ' '] + b) == seq![a, b],
{
    let t = a + seq![',', ' '] + b;
    let b1 = seq![' '] + b;
    assert(t =~= a + seq![','] + b1);
    assert(t[0] == a[0]);
    assert(t.last() == b.last());
    lemma_trim_plain(t);
    lemma_contains_concat(seq![' '], b, ',');
    lemma_split_two(a, b1, ',');
    assert(all_ws(seq![' ']));
    lemma_trim_after_ws(seq![' '], b);
    lemma_trim_plain(a);
    assert(seq![a, b1].map_values(|x: Seq<char>| trim(x)) =~= seq![a, b]);
}

/// A line of three tokens separated by commas and spaces.
proof fn lemma_tokens_three(a: Seq<char>, b: Seq<char>, c: Seq<char>)
    requires
        solid(a),
        solid(b),
        solid(c),
    ensures
        trim(a + seq![',', ' '] + b + seq![',', ' '] + c) == a + seq![',', ' '] + b + seq![',', ' '] + c,
        line_tokens(a + seq![',', ' '] + b + seq![',', ' '] + c) == seq![a, b, c],
{
    let t = a + seq![',', ' '] + b + seq![',', ' '] + c;
    let b1 = seq![' '] + b;
    let c1 = seq![' '] + c;
    assert(t =~= a + seq![','] + b1 + seq![','] + c1);
    assert(t[0] == a[0]);
    assert(t.last() == c.last());
    lemma_trim_plain(t);
    lemma_contains_concat(seq![' '], b, ',');
    lemma_contains_concat(seq![' '], c, ',');
    lemma_split_three(a, b1, c1, ',');
    assert(all_ws(seq![' ']));
    lemma_trim_after_ws(seq![' '], b);
    lemma_trim_after_ws(seq![' '], c);
    lemma_trim_plain(a);
    assert(seq![a, b1, c1].map_values(|x: Seq<char>| trim(x)) =~= seq![a, b, c]);
}

/// The mnemonic that begins the text of an instruction.
pub open spec fn mnemonic(i: InstrV) -> Seq<char> {
    match i {
        InstrV::PutConst { .. } => "PUT_CONST"@,
        InstrV::PutVar { .. } => "PUT_VAR"@,
        InstrV::GetConst { .. } => "GET_CONST"@,
        InstrV::GetVar { .. } => "GET_VAR"@,
        InstrV::Call { .. } => "CALL"@,
        InstrV::Proceed => "PROCEED"@,
        InstrV::Choice => "CHOICE"@,
        InstrV::Allocate { .. } => "ALLOCATE"@,
        InstrV::Deallocate => "DEALLOCATE"@,
        InstrV::Fail => "FAIL"@,
        InstrV::IndexedCall { .. } => "INDEXED_CALL"@,
        InstrV::TailCall { .. } => "TAIL_CALL"@,
        InstrV::AssertClause { .. } => "ASSERT_CLAUSE"@,
        InstrV::RetractClause { .. } => "RETRACT_CLAUSE"@,
        InstrV::Cut => "CUT"@,
        InstrV::PutStr { .. } => "PUT_STR"@,
        InstrV::GetStr { .. } => "GET_STR"@,
        InstrV::Halt => "HALT"@,
        _ => Seq::empty(),
    }
}

/// A text that stays one operand of a line: no comma and no line break.
pub open spec fn plain(s: Seq<char>) -> bool {
    !s.contains(',') && !s.contains('\n')
}

/// A name that stays one word of a line: no whitespace and no comma.
pub open spec fn plain_word(s: Seq<char>) -> bool {
    no_ws(s) && !s.contains(',')
}

/// The instructions whose text reads back as themselves: those without
/// operands, those with registers and numbers, and those with a name or a
/// string where the name is one word and the string one operand.
pub open spec fn reads_back(i: InstrV) -> bool {
    match i {
        InstrV::PutConst { .. } | InstrV::GetConst { .. } | InstrV::Proceed | InstrV::Choice
        | InstrV::Allocate { .. } | InstrV::Deallocate | InstrV::Fail | InstrV::Cut | InstrV::Halt => true,
        InstrV::PutVar { name, .. } | InstrV::GetVar { name, .. } => plain(name),
        InstrV::PutStr { value, .. } | InstrV::GetStr { value, .. } => plain(value),
        InstrV::Call { predicate } | InstrV::TailCall { predicate } | InstrV::IndexedCall { predicate, .. }
        | InstrV::AssertClause { predicate, .. } | InstrV::RetractClause { predicate, .. } => plain_word(predicate),
        _ => false,
    }
}

proof fn lemma_bare_line(i: InstrV, n: nat)
    requires
        i is Proceed || i is Choice || i is Deallocate || i is Fail || i is Cut || i is Halt,
        uppercase(mnemonic(i)) == mnemonic(i),
    ensures
        line_spec(instr_text(i), n) == Some(Ok::<InstrV, Seq<char>>(i)),
{
    reveal_strlit("PROCEED");
    reveal_strlit("DEALLOCATE");
    reveal_strlit("FAIL");
    reveal_strlit("CUT");
    reveal_strlit("HALT");
    reveal_strlit("PUT_CONST");
    reveal_strlit("PUT_VAR");
    reveal_strlit("GET_CONST");
    reveal_strlit("GET_VAR");
    reveal_strlit("CALL");
    reveal_strlit("CHOICE");
    reveal_strlit("ALLOCATE");
    reveal_strlit("ARITHMETIC_IS");
    reveal_strlit("SET_LOCAL");
    reveal_strlit("GET_LOCAL");
    reveal_strlit("GET_STRUCTURE");
    reveal_strlit("INDEXED_CALL");
    reveal_strlit("MULTI_INDEXED_CALL");
    reveal_strlit("TAIL_CALL");
    reveal_strlit("ASSERT_CLAUSE");
    reveal_strlit("RETRACT_CLAUSE");
    reveal_strlit("BUILD_COMPOUND");
    reveal_strlit("PUT_STR");
    reveal_strlit("GET_STR");
    reveal_strlit("MOVE");
    let m = mnemonic(i);
    assert(instr_text(i) == m);
    assert(caps(m));
    lemma_caps(m);
    lemma_tokens_one(m);
    lemma_words_one(m);
    let toks = line_tokens(m);
    assert(toks[0].len() > 0);
    assert(seq![m].drop_first() + seq![m].drop_first() =~= Seq::<Seq<char>>::empty());
}

/// What `line_spec` gives for a line, from its tokens and the words of its
/// first token.
proof fn lemma_line_unfold(t: Seq<char>, m: Seq<char>, x: Seq<Seq<char>>, rest: Seq<Seq<char>>, n: nat)
    requires
        trim(t) == t,
        t.len() > 0,
        t[0] != ';',
        t[0] != '#',
        line_tokens(t).len() > 0,
        line_tokens(t).drop_first() == rest,
        forall|k: int| 0 <= k < line_tokens(t).len() ==> (#[trigger] line_tokens(t)[k]).len() > 0,
        words(line_tokens(t)[0]) == seq![m] + x,
        uppercase(m) == m,
    ensures
        line_spec(t, n) == Some(instr_spec(m, x + rest, n)),
{
    let ws = words(line_tokens(t)[0]);
    assert(ws[0] == m);
    assert(ws.drop_first() =~= x);
}

/// The tokens of `m`, spaces, and `x`, followed by further operands: the
/// words of the first token are `m` and `x`.
proof fn lemma_head(m: Seq<char>, w: Seq<char>, x: Seq<char>)
    requires
        m.len() > 0,
        caps(m),
        w.len() > 0,
        all_ws(w),
        solid(x),
        no_ws(x),
    ensures
        solid(m + w + x),
        words(m + w + x) == seq![m] + seq![x],
        (m + w + x)[0] != ';',
        (m + w + x)[0] != '#',
{
    lemma_caps(m);
    lemma_first_token(m, w, x);
    assert(seq![m] + seq![x] =~= seq![m, x]);
    assert((m + w + x)[0] == m[0]);
}

proof fn lemma_instr_indexed_call(p: Seq<char>, x: Seq<char>, r: usize, y: Seq<char>, n: nat)
    requires
        trim(x) == x,
        is_quoted(x),
        unquote(x) == p,
        register_spec(y) == Ok::<usize, Seq<char>>(r),
    ensures
        instr_spec("INDEXED_CALL"@, seq![x, y], n) == Ok::<InstrV, Seq<char>>(InstrV::IndexedCall { predicate: p, index_register: r }),
{
    reveal_strlit("PROCEED");
    reveal_strlit("DEALLOCATE");
    reveal_strlit("FAIL");
    reveal_strlit("CUT");
    reveal_strlit("HALT");
    reveal_strlit("PUT_CONST");
    reveal_strlit("PUT_VAR");
    reveal_strlit("GET_CONST");
    reveal_strlit("GET_VAR");
    reveal_strlit("CALL");
    reveal_strlit("CHOICE");
    reveal_strlit("ALLOCATE");
    reveal_strlit("ARITHMETIC_IS");
    reveal_strlit("SET_LOCAL");
    reveal_strlit("GET_LOCAL");
    reveal_strlit("GET_STRUCTURE");
    reveal_strlit("INDEXED_CALL");
    reveal_strlit("MULTI_INDEXED_CALL");
    reveal_strlit("TAIL_CALL");
    reveal_strlit("ASSERT_CLAUSE");
    reveal_strlit("RETRACT_CLAUSE");
    reveal_strlit("BUILD_COMPOUND");
    reveal_strlit("PUT_STR");
    reveal_strlit("GET_STR");
    reveal_strlit("MOVE");
}

proof fn lemma_instr_reg_string(m: Seq<char>, r: usize, x: Seq<char>, v: Seq<char>, y: Seq<char>, n: nat)
    requires
        m == "PUT_STR"@ || m == "GET_STR"@,
        register_spec(x) == Ok::<usize, Seq<char>>(r),
        trim(y) == y,
        is_quoted(y),
        unquote(y) == v,
    ensures
        instr_spec(m, seq![x, y], n) == Ok::<InstrV, Seq<char>>(
            if m == "PUT_STR"@ { InstrV::PutStr { register: r, value: v } } else { InstrV::GetStr { register: r, value: v } }),
{
    reveal_strlit("PROCEED");
    reveal_strlit("DEALLOCATE");
    reveal_strlit("FAIL");
    reveal_strlit("CUT");
    reveal_strlit("HALT");
    reveal_strlit("PUT_CONST");
    reveal_strlit("PUT_VAR");
    reveal_strlit("GET_CONST");
    reveal_strlit("GET_VAR");
    reveal_strlit("CALL");
    reveal_strlit("CHOICE");
    reveal_strlit("ALLOCATE");
    reveal_strlit("ARITHMETIC_IS");
    reveal_strlit("SET_LOCAL");
    reveal_strlit("GET_LOCAL");
    reveal_strlit("GET_STRUCTURE");
    reveal_strlit("INDEXED_CALL");
    reveal_strlit("MULTI_INDEXED_CALL");
    reveal_strlit("TAIL_CALL");
    reveal_strlit("ASSERT_CLAUSE");
    reveal_strlit("RETRACT_CLAUSE");
    reveal_strlit("BUILD_COMPOUND");
    reveal_strlit("PUT_STR");
    reveal_strlit("GET_STR");
    reveal_strlit("MOVE");
    assert(crate::instruction_parser::string_spec(y) == Ok::<Seq<char>, Seq<char>>(v));
    if m == "PUT_STR"@ {
        assert(m != "PUT_VAR"@) by { assert(m[4] != "PUT_VAR"@[4]); }
        assert(m != "GET_VAR"@) by { assert(m[0] != "GET_VAR"@[0]); }
        assert(m != "PROCEED"@) by { assert(m[1] != "PROCEED"@[1]); }
    } else {
        assert(m != "PUT_VAR"@) by { assert(m[0] != "PUT_VAR"@[0]); }
        assert(m != "GET_VAR"@) by { assert(m[4] != "GET_VAR"@[4]); }
        assert(m != "PROCEED"@) by { assert(m[0] != "PROCEED"@[0]); }
        assert(m != "PUT_STR"@) by { assert(m[0] != "PUT_STR"@[0]); }
    }
}

proof fn lemma_instr_reg_var(m: Seq<char>, r: usize, x: Seq<char>, id: usize, y: Seq<char>, v: Seq<char>, z: Seq<char>, n: nat)
    requires
        m == "PUT_VAR"@ || m == "GET_VAR"@,
        register_spec(x) == Ok::<usize, Seq<char>>(r),
        parse_usize_spec(y) == Ok::<int, crate::lexer::IntError>(id as int),
        trim(z) == z,
        is_quoted(z),
        unquote(z) == v,
    ensures
        instr_spec(m, seq![x, y, z], n) == Ok::<InstrV, Seq<char>>(
            if m == "PUT_VAR"@ { InstrV::PutVar { register: r, var_id: id, name: v } } else { InstrV::GetVar { register: r, var_id: id, name: v } }),
{
    reveal_strlit("PROCEED");
    reveal_strlit("DEALLOCATE");
    reveal_strlit("FAIL");
    reveal_strlit("CUT");
    reveal_strlit("HALT");
    reveal_strlit("PUT_CONST");
    reveal_strlit("PUT_VAR");
    reveal_strlit("GET_CONST");
    reveal_strlit("GET_VAR");
    reveal_strlit("CALL");
    reveal_strlit("CHOICE");
    reveal_strlit("ALLOCATE");
    reveal_strlit("ARITHMETIC_IS");
    reveal_strlit("SET_LOCAL");
    reveal_strlit("GET_LOCAL");
    reveal_strlit("GET_STRUCTURE");
    reveal_strlit("INDEXED_CALL");
    reveal_strlit("MULTI_INDEXED_CALL");
    reveal_strlit("TAIL_CALL");
    reveal_strlit("ASSERT_CLAUSE");
    reveal_strlit("RETRACT_CLAUSE");
    reveal_strlit("BUILD_COMPOUND");
    reveal_strlit("PUT_STR");
    reveal_strlit("GET_STR");
    reveal_strlit("MOVE");
}

proof fn lemma_instr_reg_int(m: Seq<char>, r: usize, x: Seq<char>, v: i32, y: Seq<char>, n: nat)
    requires
        m == "PUT_CONST"@ || m == "GET_CONST"@,
        register_spec(x) == Ok::<usize, Seq<char>>(r),
        parse_i32_spec(y) == Ok::<int, crate::lexer::IntError>(v as int),
    ensures
        instr_spec(m, seq![x, y], n) == Ok::<InstrV, Seq<char>>(if m == "PUT_CONST"@ { InstrV::PutConst { register: r, value: v } } else { InstrV::GetConst { register: r, value: v } }),
{
    reveal_strlit("PROCEED");
    reveal_strlit("DEALLOCATE");
    reveal_strlit("FAIL");
    reveal_strlit("CUT");
    reveal_strlit("HALT");
    reveal_strlit("PUT_CONST");
    reveal_strlit("PUT_VAR");
    reveal_strlit("GET_CONST");
    reveal_strlit("GET_VAR");
    reveal_strlit("CALL");
    reveal_strlit("CHOICE");
    reveal_strlit("ALLOCATE");
    reveal_strlit("ARITHMETIC_IS");
    reveal_strlit("SET_LOCAL");
    reveal_strlit("GET_LOCAL");
    reveal_strlit("GET_STRUCTURE");
    reveal_strlit("INDEXED_CALL");
    reveal_strlit("MULTI_INDEXED_CALL");
    reveal_strlit("TAIL_CALL");
    reveal_strlit("ASSERT_CLAUSE");
    reveal_strlit("RETRACT_CLAUSE");
    reveal_strlit("BUILD_COMPOUND");
    reveal_strlit("PUT_STR");
    reveal_strlit("GET_STR");
    reveal_strlit("MOVE");
}

proof fn lemma_instr_allocate(k: usize, x: Seq<char>, n: nat)
    requires
        parse_usize_spec(x) == Ok::<int, crate::lexer::IntError>(k as int),
    ensures
        instr_spec("ALLOCATE"@, seq![x], n) == Ok::<InstrV, Seq<char>>(InstrV::Allocate { n: k }),
{
    reveal_strlit("PROCEED");
    reveal_strlit("DEALLOCATE");
    reveal_strlit("FAIL");
    reveal_strlit("CUT");
    reveal_strlit("HALT");
    reveal_strlit("PUT_CONST");
    reveal_strlit("PUT_VAR");
    reveal_strlit("GET_CONST");
    reveal_strlit("GET_VAR");
    reveal_strlit("CALL");
    reveal_strlit("CHOICE");
    reveal_strlit("ALLOCATE");
    reveal_strlit("ARITHMETIC_IS");
    reveal_strlit("SET_LOCAL");
    reveal_strlit("GET_LOCAL");
    reveal_strlit("GET_STRUCTURE");
    reveal_strlit("INDEXED_CALL");
    reveal_strlit("MULTI_INDEXED_CALL");
    reveal_strlit("TAIL_CALL");
    reveal_strlit("ASSERT_CLAUSE");
    reveal_strlit("RETRACT_CLAUSE");
    reveal_strlit("BUILD_COMPOUND");
    reveal_strlit("PUT_STR");
    reveal_strlit("GET_STR");
    reveal_strlit("MOVE");
}

proof fn lemma_instr_name(m: Seq<char>, p: Seq<char>, x: Seq<char>, n: nat)
    requires
        m == "CALL"@ || m == "TAIL_CALL"@,
        trim(x) == x,
        is_quoted(x),
        unquote(x) == p,
    ensures
        instr_spec(m, seq![x], n) == Ok::<InstrV, Seq<char>>(if m == "CALL"@ { InstrV::Call { predicate: p } } else { InstrV::TailCall { predicate: p } }),
{
    reveal_strlit("PROCEED");
    reveal_strlit("DEALLOCATE");
    reveal_strlit("FAIL");
    reveal_strlit("CUT");
    reveal_strlit("HALT");
    reveal_strlit("PUT_CONST");
    reveal_strlit("PUT_VAR");
    reveal_strlit("GET_CONST");
    reveal_strlit("GET_VAR");
    reveal_strlit("CALL");
    reveal_strlit("CHOICE");
    reveal_strlit("ALLOCATE");
    reveal_strlit("ARITHMETIC_IS");
    reveal_strlit("SET_LOCAL");
    reveal_strlit("GET_LOCAL");
    reveal_strlit("GET_STRUCTURE");
    reveal_strlit("INDEXED_CALL");
    reveal_strlit("MULTI_INDEXED_CALL");
    reveal_strlit("TAIL_CALL");
    reveal_strlit("ASSERT_CLAUSE");
    reveal_strlit("RETRACT_CLAUSE");
    reveal_strlit("BUILD_COMPOUND");
    reveal_strlit("PUT_STR");
    reveal_strlit("GET_STR");
    reveal_strlit("MOVE");
    assert(crate::instruction_parser::ident_spec(x) == p);
    if m == "TAIL_CALL"@ {
        assert(m != "PUT_CONST"@) by { assert(m[0] != "PUT_CONST"@[0]); }
        assert(m != "GET_CONST"@) by { assert(m[0] != "GET_CONST"@[0]); }
        assert(m != "SET_LOCAL"@) by { assert(m[0] != "SET_LOCAL"@[0]); }
        assert(m != "GET_LOCAL"@) by { assert(m[0] != "GET_LOCAL"@[0]); }
    } else {
        assert(m != "FAIL"@) by { assert(m[0] != "FAIL"@[0]); }
    }
}

proof fn lemma_instr_clause(m: Seq<char>, p: Seq<char>, x: Seq<char>, a: usize, y: Seq<char>, n: nat)
    requires
        m == "ASSERT_CLAUSE"@ || m == "RETRACT_CLAUSE"@,
        trim(x) == x,
        is_quoted(x),
        unquote(x) == p,
        parse_usize_spec(y) == Ok::<int, crate::lexer::IntError>(a as int),
    ensures
        instr_spec(m, seq![x, y], n) == Ok::<InstrV, Seq<char>>(if m == "ASSERT_CLAUSE"@ { InstrV::AssertClause { predicate: p, address: a } } else { InstrV::RetractClause { predicate: p, address: a } }),
{
    reveal_strlit("PROCEED");
    reveal_strlit("DEALLOCATE");
    reveal_strlit("FAIL");
    reveal_strlit("CUT");
    reveal_strlit("HALT");
    reveal_strlit("PUT_CONST");
    reveal_strlit("PUT_VAR");
    reveal_strlit("GET_CONST");
    reveal_strlit("GET_VAR");
    reveal_strlit("CALL");
    reveal_strlit("CHOICE");
    reveal_strlit("ALLOCATE");
    reveal_strlit("ARITHMETIC_IS");
    reveal_strlit("SET_LOCAL");
    reveal_strlit("GET_LOCAL");
    reveal_strlit("GET_STRUCTURE");
    reveal_strlit("INDEXED_CALL");
    reveal_strlit("MULTI_INDEXED_CALL");
    reveal_strlit("TAIL_CALL");
    reveal_strlit("ASSERT_CLAUSE");
    reveal_strlit("RETRACT_CLAUSE");
    reveal_strlit("BUILD_COMPOUND");
    reveal_strlit("PUT_STR");
    reveal_strlit("GET_STR");
    reveal_strlit("MOVE");
    assert(crate::instruction_parser::ident_spec(x) == p);
    if m == "ASSERT_CLAUSE"@ {
        assert(m != "ARITHMETIC_IS"@) by { assert(m[1] != "ARITHMETIC_IS"@[1]); }
        assert(m != "GET_STRUCTURE"@) by { assert(m[0] != "GET_STRUCTURE"@[0]); }
    } else {
        assert(m != "ASSERT_CLAUSE"@) by { assert(m.len() != "ASSERT_CLAUSE"@.len()); }
    }
}

#[verifier::rlimit(100)]
#[verifier::spinoff_prover]
proof fn lemma_line_reg_int(m: Seq<char>, r: usize, v: i32, n: nat)
    requires
        m == "PUT_CONST"@ || m == "GET_CONST"@,
        uppercase(m) == m,
    ensures
        line_spec(m + seq![' '] + reg(r) + seq![',', ' '] + int_text(v as int), n) == Some(Ok::<InstrV, Seq<char>>(if m == "PUT_CONST"@ { InstrV::PutConst { register: r, value: v } } else { InstrV::GetConst { register: r, value: v } })),
{
    reveal_strlit("PUT_CONST");
    reveal_strlit("GET_CONST");
    let w = seq![' '];
    let x = reg(r);
    let y = int_text(v as int);
    assert(all_ws(w));
    assert(caps(m));
    lemma_reg_token(r);
    lemma_int_token(v);
    lemma_head(m, w, x);
    lemma_tokens_two(m + w + x, y);
    let t = m + w + x + seq![',', ' '] + y;
    assert(line_tokens(t).drop_first() =~= seq![y]);
    lemma_line_unfold(t, m, seq![x], seq![y], n);
    assert(seq![x] + seq![y] =~= seq![x, y]);
    lemma_instr_reg_int(m, r, x, v, y, n);
}

#[verifier::rlimit(100)]
#[verifier::spinoff_prover]
proof fn lemma_line_allocate(k: usize, n: nat)
    requires
        uppercase("ALLOCATE"@) == "ALLOCATE"@,
    ensures
        line_spec("ALLOCATE"@ + seq![' ', ' '] + digits(k as nat), n) == Some(Ok::<InstrV, Seq<char>>(InstrV::Allocate { n: k })),
{
    reveal_strlit("ALLOCATE");
    let m = "ALLOCATE"@;
    let w = seq![' ', ' '];
    let x = digits(k as nat);
    assert(all_ws(w));
    assert(caps(m));
    lemma_digits_token(k);
    lemma_head(m, w, x);
    let t = m + w + x;
    lemma_tokens_one(t);
    assert(line_tokens(t).drop_first() =~= Seq::<Seq<char>>::empty());
    lemma_line_unfold(t, m, seq![x], Seq::empty(), n);
    assert(seq![x] + Seq::<Seq<char>>::empty() =~= seq![x]);
    lemma_instr_allocate(k, x, n);
}

#[verifier::rlimit(100)]
#[verifier::spinoff_prover]
proof fn lemma_line_name(m: Seq<char>, w: Seq<char>, p: Seq<char>, n: nat)
    requires
        m == "CALL"@ || m == "TAIL_CALL"@,
        uppercase(m) == m,
        w.len() > 0,
        all_ws(w),
        plain_word(p),
    ensures
        line_spec(m + w + in_quotes(p), n) == Some(Ok::<InstrV, Seq<char>>(if m == "CALL"@ { InstrV::Call { predicate: p } } else { InstrV::TailCall { predicate: p } })),
{
    reveal_strlit("CALL");
    reveal_strlit("TAIL_CALL");
    let x = in_quotes(p);
    assert(caps(m));
    lemma_quoted_token(p);
    lemma_head(m, w, x);
    let t = m + w + x;
    lemma_tokens_one(t);
    assert(line_tokens(t).drop_first() =~= Seq::<Seq<char>>::empty());
    lemma_line_unfold(t, m, seq![x], Seq::empty(), n);
    assert(seq![x] + Seq::<Seq<char>>::empty() =~= seq![x]);
    lemma_instr_name(m, p, x, n);
}

#[verifier::rlimit(100)]
#[verifier::spinoff_prover]
proof fn lemma_line_indexed_call(p: Seq<char>, r: usize, n: nat)
    requires
        uppercase("INDEXED_CALL"@) == "INDEXED_CALL"@,
        plain_word(p),
    ensures
        line_spec("INDEXED_CALL"@ + seq![' '] + in_quotes(p) + seq![',', ' '] + reg(r), n) == Some(Ok::<InstrV, Seq<char>>(InstrV::IndexedCall { predicate: p, index_register: r })),
{
    reveal_strlit("INDEXED_CALL");
    let m = "INDEXED_CALL"@;
    let w = seq![' '];
    let x = in_quotes(p);
    let y = reg(r);
    assert(all_ws(w));
    assert(caps(m));
    lemma_quoted_token(p);
    lemma_reg_token(r);
    lemma_head(m, w, x);
    lemma_tokens_two(m + w + x, y);
    let t = m + w + x + seq![',', ' '] + y;
    assert(line_tokens(t).drop_first() =~= seq![y]);
    lemma_line_unfold(t, m, seq![x], seq![y], n);
    assert(seq![x] + seq![y] =~= seq![x, y]);
    lemma_instr_indexed_call(p, x, r, y, n);
}

#[verifier::rlimit(100)]
#[verifier::spinoff_prover]
proof fn lemma_line_clause(m: Seq<char>, p: Seq<char>, a: usize, n: nat)
    requires
        m == "ASSERT_CLAUSE"@ || m == "RETRACT_CLAUSE"@,
        uppercase(m) == m,
        plain_word(p),
    ensures
        line_spec(m + seq![' '] + in_quotes(p) + seq![',', ' '] + digits(a as nat), n) == Some(Ok::<InstrV, Seq<char>>(if m == "ASSERT_CLAUSE"@ { InstrV::AssertClause { predicate: p, address: a } } else { InstrV::RetractClause { predicate: p, address: a } })),
{
    reveal_strlit("ASSERT_CLAUSE");
    reveal_strlit("RETRACT_CLAUSE");
    let w = seq![' '];
    let x = in_quotes(p);
    let y = digits(a as nat);
    assert(all_ws(w));
    assert(caps(m));
    lemma_quoted_token(p);
    lemma_digits_token(a);
    lemma_head(m, w, x);
    lemma_tokens_two(m + w + x, y);
    let t = m + w + x + seq![',', ' '] + y;
    assert(line_tokens(t).drop_first() =~= seq![y]);
    lemma_line_unfold(t, m, seq![x], seq![y], n);
    assert(seq![x] + seq![y] =~= seq![x, y]);
    lemma_instr_clause(m, p, x, a, y, n);
}

#[verifier::rlimit(100)]
#[verifier::spinoff_prover]
proof fn lemma_line_reg_string(m: Seq<char>, r: usize, v: Seq<char>, n: nat)
    requires
        m == "PUT_STR"@ || m == "GET_STR"@,
        uppercase(m) == m,
        plain(v),
    ensures
        line_spec(m + seq![' ', ' ', ' '] + reg(r) + seq![',', ' '] + in_quotes(v), n) == Some(Ok::<InstrV, Seq<char>>(if m == "PUT_STR"@ { InstrV::PutStr { register: r, value: v } } else { InstrV::GetStr { register: r, value: v } })),
{
    reveal_strlit("PUT_STR");
    reveal_strlit("GET_STR");
    let w = seq![' ', ' ', ' '];
    let x = reg(r);
    let y = in_quotes(v);
    assert(all_ws(w));
    assert(caps(m));
    lemma_reg_token(r);
    lemma_quoted_token(v);
    lemma_head(m, w, x);
    lemma_tokens_two(m + w + x, y);
    let t = m + w + x + seq![',', ' '] + y;
    assert(line_tokens(t).drop_first() =~= seq![y]);
    lemma_line_unfold(t, m, seq![x], seq![y], n);
    assert(seq![x] + seq![y] =~= seq![x, y]);
    lemma_instr_reg_string(m, r, x, v, y, n);
}

#[verifier::rlimit(100)]
#[verifier::spinoff_prover]
proof fn lemma_line_reg_var(m: Seq<char>, r: usize, id: usize, v: Seq<char>, n: nat)
    requires
        m == "PUT_VAR"@ || m == "GET_VAR"@,
        uppercase(m) == m,
        plain(v),
    ensures
        line_spec(m + seq![' ', ' ', ' '] + reg(r) + seq![',', ' '] + digits(id as nat) + seq![',', ' '] + in_quotes(v), n) == Some(Ok::<InstrV, Seq<char>>(if m == "PUT_VAR"@ { InstrV::PutVar { register: r, var_id: id, name: v } } else { InstrV::GetVar { register: r, var_id: id, name: v } })),
{
    reveal_strlit("PUT_VAR");
    reveal_strlit("GET_VAR");
    let w = seq![' ', ' ', ' '];
    let x = reg(r);
    let y = digits(id as nat);
    let z = in_quotes(v);
    assert(all_ws(w));
    assert(caps(m));
    lemma_reg_token(r);
    lemma_digits_token(id);
    lemma_quoted_token(v);
    lemma_head(m, w, x);
    lemma_tokens_three(m + w + x, y, z);
    let t = m + w + x + seq![',', ' '] + y + seq![',', ' '] + z;
    assert(line_tokens(t).drop_first() =~= seq![y, z]);
    lemma_line_unfold(t, m, seq![x], seq![y, z], n);
    assert(seq![x] + seq![y, z] =~= seq![x, y, z]);
    lemma_instr_reg_var(m, r, x, id, y, v, z, n);
}

/// A text without a line break.
pub open spec fn one_line(s: Seq<char>) -> bool {
    !s.contains('\n')
}

proof fn lemma_one_line2(a: Seq<char>, b: Seq<char>)
    requires
        one_line(a),
        one_line(b),
    ensures
        one_line(a + b),
{
    lemma_contains_concat(a, b, '\n');
}

proof fn lemma_spaces_one_line(w: Seq<char>)
    requires
        forall|i: int| 0 <= i < w.len() ==> (#[trigger] w[i] == ' ' || w[i] == ','),
    ensures
        one_line(w),
{
    if w.contains('\n') {
        let j = choose|j: int| 0 <= j < w.len() && w[j] == '\n';
    }
}

#[verifier::rlimit(100)]
#[verifier::spinoff_prover]
proof fn lemma_text_reg_int(i: InstrV, n: nat)
    requires
        reads_back(i),
        uppercase(mnemonic(i)) == mnemonic(i),
        i is PutConst || i is GetConst,
    ensures
        one_line(instr_text(i)),
        line_spec(instr_text(i), n) == Some(Ok::<InstrV, Seq<char>>(i)),
{
    reveal_strlit(", ");
    let sp1 = seq![' '];
    let sp2 = seq![' ', ' '];
    let sp3 = seq![' ', ' ', ' '];
    let sp6 = seq![' ', ' ', ' ', ' ', ' ', ' '];
    let cs = seq![',', ' '];
    lemma_spaces_one_line(sp1);
    lemma_spaces_one_line(sp2);
    lemma_spaces_one_line(sp3);
    lemma_spaces_one_line(sp6);
    lemma_spaces_one_line(cs);
    let m = mnemonic(i);
    match i {
        InstrV::PutConst { register, value } | InstrV::GetConst { register, value } => {
            reveal_strlit("PUT_CONST ");
            reveal_strlit("GET_CONST ");
            reveal_strlit("PUT_CONST");
            reveal_strlit("GET_CONST");
            let t = m + sp1 + reg(register) + cs + int_text(value as int);
            assert(instr_text(i) == t) by { assert("PUT_CONST "@ =~= "PUT_CONST"@ + sp1); assert("GET_CONST "@ =~= "GET_CONST"@ + sp1); assert(", "@ =~= cs); }
            assert(caps(m));
            lemma_caps(m);
            lemma_reg_token(register);
            lemma_int_token(value);
            lemma_one_line2(m, sp1);
            lemma_one_line2(m + sp1, reg(register));
            lemma_one_line2(m + sp1 + reg(register), cs);
            lemma_one_line2(m + sp1 + reg(register) + cs, int_text(value as int));
            lemma_line_reg_int(m, register, value, n);
        },
        _ => {},
    }
}

#[verifier::rlimit(100)]
#[verifier::spinoff_prover]
proof fn lemma_text_allocate(i: InstrV, n: nat)
    requires
        reads_back(i),
        uppercase(mnemonic(i)) == mnemonic(i),
        i is Allocate,
    ensures
        one_line(instr_text(i)),
        line_spec(instr_text(i), n) == Some(Ok::<InstrV, Seq<char>>(i)),
{
    reveal_strlit(", ");
    let sp1 = seq![' '];
    let sp2 = seq![' ', ' '];
    let sp3 = seq![' ', ' ', ' '];
    let sp6 = seq![' ', ' ', ' ', ' ', ' ', ' '];
    let cs = seq![',', ' '];
    lemma_spaces_one_line(sp1);
    lemma_spaces_one_line(sp2);
    lemma_spaces_one_line(sp3);
    lemma_spaces_one_line(sp6);
    lemma_spaces_one_line(cs);
    let m = mnemonic(i);
    match i {
        InstrV::Allocate { n: k } => {
            reveal_strlit("ALLOCATE  ");
            reveal_strlit("ALLOCATE");
            let t = m + sp2 + digits(k as nat);
            assert(instr_text(i) == t) by { assert("ALLOCATE  "@ =~= "ALLOCATE"@ + sp2); assert(", "@ =~= cs); }
            assert(caps(m));
            lemma_caps(m);
            lemma_digits_token(k);
            lemma_one_line2(m, sp2);
            lemma_one_line2(m + sp2, digits(k as nat));
            lemma_line_allocate(k, n);
        },
        _ => {},
    }
}

#[verifier::rlimit(100)]
#[verifier::spinoff_prover]
proof fn lemma_text_name(i: InstrV, n: nat)
    requires
        reads_back(i),
        uppercase(mnemonic(i)) == mnemonic(i),
        i is Call || i is TailCall,
    ensures
        one_line(instr_text(i)),
        line_spec(instr_text(i), n) == Some(Ok::<InstrV, Seq<char>>(i)),
{
    reveal_strlit(", ");
    let sp1 = seq![' '];
    let sp2 = seq![' ', ' '];
    let sp3 = seq![' ', ' ', ' '];
    let sp6 = seq![' ', ' ', ' ', ' ', ' ', ' '];
    let cs = seq![',', ' '];
    lemma_spaces_one_line(sp1);
    lemma_spaces_one_line(sp2);
    lemma_spaces_one_line(sp3);
    lemma_spaces_one_line(sp6);
    lemma_spaces_one_line(cs);
    let m = mnemonic(i);
    match i {
        InstrV::Call { predicate: p } | InstrV::TailCall { predicate: p } => {
            reveal_strlit("CALL      ");
            reveal_strlit("TAIL_CALL ");
            reveal_strlit("CALL");
            reveal_strlit("TAIL_CALL");
            let w = if i is Call { sp6 } else { sp1 };
            assert(all_ws(w));
            let t = m + w + in_quotes(p);
            assert(instr_text(i) == t) by { assert("CALL      "@ =~= "CALL"@ + sp6); assert("TAIL_CALL "@ =~= "TAIL_CALL"@ + sp1); }
            assert(caps(m));
            lemma_caps(m);
            assert(!p.contains('\n')) by {
                if p.contains('\n') {
                    let j = choose|j: int| 0 <= j < p.len() && p[j] == '\n';
                    assert(!is_ws(p[j]));
                }
            }
            lemma_quoted_token(p);
            lemma_one_line2(m, w);
            lemma_one_line2(m + w, in_quotes(p));
            lemma_line_name(m, w, p, n);
        },
        _ => {},
    }
}

#[verifier::rlimit(100)]
#[verifier::spinoff_prover]
proof fn lemma_text_indexed_call(i: InstrV, n: nat)
    requires
        reads_back(i),
        uppercase(mnemonic(i)) == mnemonic(i),
        i is IndexedCall,
    ensures
        one_line(instr_text(i)),
        line_spec(instr_text(i), n) == Some(Ok::<InstrV, Seq<char>>(i)),
{
    reveal_strlit(", ");
    let sp1 = seq![' '];
    let sp2 = seq![' ', ' '];
    let sp3 = seq![' ', ' ', ' '];
    let sp6 = seq![' ', ' ', ' ', ' ', ' ', ' '];
    let cs = seq![',', ' '];
    lemma_spaces_one_line(sp1);
    lemma_spaces_one_line(sp2);
    lemma_spaces_one_line(sp3);
    lemma_spaces_one_line(sp6);
    lemma_spaces_one_line(cs);
    let m = mnemonic(i);
    match i {
        InstrV::IndexedCall { predicate: p, index_register: r } => {
            reveal_strlit("INDEXED_CALL ");
            reveal_strlit("INDEXED_CALL");
            let t = m + sp1 + in_quotes(p) + cs + reg(r);
            assert(instr_text(i) == t) by { assert("INDEXED_CALL "@ =~= "INDEXED_CALL"@ + sp1); assert(", "@ =~= cs); }
            assert(caps(m));
            lemma_caps(m);
            assert(!p.contains('\n')) by {
                if p.contains('\n') {
                    let j = choose|j: int| 0 <= j < p.len() && p[j] == '\n';
                    assert(!is_ws(p[j]));
                }
            }
            lemma_quoted_token(p);
            lemma_reg_token(r);
            lemma_one_line2(m, sp1);
            lemma_one_line2(m + sp1, in_quotes(p));
            lemma_one_line2(m + sp1 + in_quotes(p), cs);
            lemma_one_line2(m + sp1 + in_quotes(p) + cs, reg(r));
            lemma_line_indexed_call(p, r, n);
        },
        _ => {},
    }
}

#[verifier::rlimit(100)]
#[verifier::spinoff_prover]
proof fn lemma_text_clause(i: InstrV, n: nat)
    requires
        reads_back(i),
        uppercase(mnemonic(i)) == mnemonic(i),
        i is AssertClause || i is RetractClause,
    ensures
        one_line(instr_text(i)),
        line_spec(instr_text(i), n) == Some(Ok::<InstrV, Seq<char>>(i)),
{
    reveal_strlit(", ");
    let sp1 = seq![' '];
    let sp2 = seq![' ', ' '];
    let sp3 = seq![' ', ' ', ' '];
    let sp6 = seq![' ', ' ', ' ', ' ', ' ', ' '];
    let cs = seq![',', ' '];
    lemma_spaces_one_line(sp1);
    lemma_spaces_one_line(sp2);
    lemma_spaces_one_line(sp3);
    lemma_spaces_one_line(sp6);
    lemma_spaces_one_line(cs);
    let m = mnemonic(i);
    match i {
        InstrV::AssertClause { predicate: p, address: a } | InstrV::RetractClause { predicate: p, address: a } => {
            reveal_strlit("ASSERT_CLAUSE ");
            reveal_strlit("RETRACT_CLAUSE ");
            reveal_strlit("ASSERT_CLAUSE");
            reveal_strlit("RETRACT_CLAUSE");
            let t = m + sp1 + in_quotes(p) + cs + digits(a as nat);
            assert(instr_text(i) == t) by { assert("ASSERT_CLAUSE "@ =~= "ASSERT_CLAUSE"@ + sp1); assert("RETRACT_CLAUSE "@ =~= "RETRACT_CLAUSE"@ + sp1); assert(", "@ =~= cs); }
            assert(caps(m));
            lemma_caps(m);
            assert(!p.contains('\n')) by {
                if p.contains('\n') {
                    let j = choose|j: int| 0 <= j < p.len() && p[j] == '\n';
                    assert(!is_ws(p[j]));
                }
            }
            lemma_quoted_token(p);
            lemma_digits_token(a);
            lemma_one_line2(m, sp1);
            lemma_one_line2(m + sp1, in_quotes(p));
            lemma_one_line2(m + sp1 + in_quotes(p), cs);
            lemma_one_line2(m + sp1 + in_quotes(p) + cs, digits(a as nat));
            lemma_line_clause(m, p, a, n);
        },
        _ => {},
    }
}

#[verifier::rlimit(100)]
#[verifier::spinoff_prover]
proof fn lemma_text_reg_string(i: InstrV, n: nat)
    requires
        reads_back(i),
        uppercase(mnemonic(i)) == mnemonic(i),
        i is PutStr || i is GetStr,
    ensures
        one_line(instr_text(i)),
        line_spec(instr_text(i), n) == Some(Ok::<InstrV, Seq<char>>(i)),
{
    reveal_strlit(", ");
    let sp1 = seq![' '];
    let sp2 = seq![' ', ' '];
    let sp3 = seq![' ', ' ', ' '];
    let sp6 = seq![' ', ' ', ' ', ' ', ' ', ' '];
    let cs = seq![',', ' '];
    lemma_spaces_one_line(sp1);
    lemma_spaces_one_line(sp2);
    lemma_spaces_one_line(sp3);
    lemma_spaces_one_line(sp6);
    lemma_spaces_one_line(cs);
    let m = mnemonic(i);
    match i {
        InstrV::PutStr { register: r, value: v } | InstrV::GetStr { register: r, value: v } => {
            reveal_strlit("PUT_STR   ");
            reveal_strlit("GET_STR   ");
            reveal_strlit("PUT_STR");
            reveal_strlit("GET_STR");
            let t = m + sp3 + reg(r) + cs + in_quotes(v);
            assert(instr_text(i) == t) by { assert("PUT_STR   "@ =~= "PUT_STR"@ + sp3); assert("GET_STR   "@ =~= "GET_STR"@ + sp3); assert(", "@ =~= cs); }
            assert(caps(m));
            lemma_caps(m);
            lemma_reg_token(r);
            lemma_quoted_token(v);
            lemma_one_line2(m, sp3);
            lemma_one_line2(m + sp3, reg(r));
            lemma_one_line2(m + sp3 + reg(r), cs);
            lemma_one_line2(m + sp3 + reg(r) + cs, in_quotes(v));
            lemma_line_reg_string(m, r, v, n);
        },
        _ => {},
    }
}

#[verifier::rlimit(100)]
#[verifier::spinoff_prover]
proof fn lemma_text_reg_var(i: InstrV, n: nat)
    requires
        reads_back(i),
        uppercase(mnemonic(i)) == mnemonic(i),
        i is PutVar || i is GetVar,
    ensures
        one_line(instr_text(i)),
        line_spec(instr_text(i), n) == Some(Ok::<InstrV, Seq<char>>(i)),
{
    reveal_strlit(", ");
    let sp1 = seq![' '];
    let sp2 = seq![' ', ' '];
    let sp3 = seq![' ', ' ', ' '];
    let sp6 = seq![' ', ' ', ' ', ' ', ' ', ' '];
    let cs = seq![',', ' '];
    lemma_spaces_one_line(sp1);
    lemma_spaces_one_line(sp2);
    lemma_spaces_one_line(sp3);
    lemma_spaces_one_line(sp6);
    lemma_spaces_one_line(cs);
    let m = mnemonic(i);
    match i {
        InstrV::PutVar { register: r, var_id: id, name: v } | InstrV::GetVar { register: r, var_id: id, name: v } => {
            reveal_strlit("PUT_VAR   ");
            reveal_strlit("GET_VAR   ");
            reveal_strlit("PUT_VAR");
            reveal_strlit("GET_VAR");
            let t = m + sp3 + reg(r) + cs + digits(id as nat) + cs + in_quotes(v);
            assert(instr_text(i) == t) by { assert("PUT_VAR   "@ =~= "PUT_VAR"@ + sp3); assert("GET_VAR   "@ =~= "GET_VAR"@ + sp3); assert(", "@ =~= cs); }
            assert(caps(m));
            lemma_caps(m);
            lemma_reg_token(r);
            lemma_digits_token(id);
            lemma_quoted_token(v);
            lemma_one_line2(m, sp3);
            lemma_one_line2(m + sp3, reg(r));
            lemma_one_line2(m + sp3 + reg(r), cs);
            lemma_one_line2(m + sp3 + reg(r) + cs, digits(id as nat));
            lemma_one_line2(m + sp3 + reg(r) + cs + digits(id as nat), cs);
            lemma_one_line2(m + sp3 + reg(r) + cs + digits(id as nat) + cs, in_quotes(v));
            lemma_line_reg_var(m, r, id, v, n);
        },
        _ => {},
    }
}

#[verifier::rlimit(100)]
#[verifier::spinoff_prover]
proof fn lemma_text_bare(i: InstrV, n: nat)
    requires
        reads_back(i),
        uppercase(mnemonic(i)) == mnemonic(i),
        i is Proceed || i is Choice || i is Deallocate || i is Fail || i is Cut || i is Halt,
    ensures
        one_line(instr_text(i)),
        line_spec(instr_text(i), n) == Some(Ok::<InstrV, Seq<char>>(i)),
{
    reveal_strlit(", ");
    let sp1 = seq![' '];
    let sp2 = seq![' ', ' '];
    let sp3 = seq![' ', ' ', ' '];
    let sp6 = seq![' ', ' ', ' ', ' ', ' ', ' '];
    let cs = seq![',', ' '];
    lemma_spaces_one_line(sp1);
    lemma_spaces_one_line(sp2);
    lemma_spaces_one_line(sp3);
    lemma_spaces_one_line(sp6);
    lemma_spaces_one_line(cs);
    let m = mnemonic(i);
    match i {
        InstrV::Proceed | InstrV::Choice | InstrV::Deallocate | InstrV::Fail | InstrV::Cut | InstrV::Halt => {
            reveal_strlit("PROCEED");
            reveal_strlit("CHOICE");
            reveal_strlit("DEALLOCATE");
            reveal_strlit("FAIL");
            reveal_strlit("CUT");
            reveal_strlit("HALT");
            assert(instr_text(i) == m);
            assert(caps(m));
            lemma_caps(m);
            lemma_bare_line(i, n);
        },
        _ => {},
    }
}

/// The text of an instruction that reads back is one line and reads back
/// as the instruction.
proof fn lemma_text_line(i: InstrV, n: nat)
    requires
        reads_back(i),
        uppercase(mnemonic(i)) == mnemonic(i),
    ensures
        one_line(instr_text(i)),
        line_spec(instr_text(i), n) == Some(Ok::<InstrV, Seq<char>>(i)),
{
    match i {
        InstrV::PutConst { .. } | InstrV::GetConst { .. } => lemma_text_reg_int(i, n),
        InstrV::Allocate { .. } => lemma_text_allocate(i, n),
        InstrV::Call { .. } | InstrV::TailCall { .. } => lemma_text_name(i, n),
        InstrV::IndexedCall { .. } => lemma_text_indexed_call(i, n),
        InstrV::AssertClause { .. } | InstrV::RetractClause { .. } => lemma_text_clause(i, n),
        InstrV::PutStr { .. } | InstrV::GetStr { .. } => lemma_text_reg_string(i, n),
        InstrV::PutVar { .. } | InstrV::GetVar { .. } => lemma_text_reg_var(i, n),
        _ => lemma_text_bare(i, n),
    }
}

/// Every instruction of a program reads back, its mnemonic being its own
/// upper case.
pub open spec fn all_read_back(code: Seq<InstrV>) -> bool {
    forall|k: int| 0 <= k < code.len() ==> {
        &&& reads_back(#[trigger] code[k])
        &&& uppercase(mnemonic(code[k])) == mnemonic(code[k])
    }
}

/// The texts of the instructions of a program.
pub open spec fn texts(code: Seq<InstrV>) -> Seq<Seq<char>> {
    Seq::new(code.len(), |k: int| instr_text(code[k]))
}

proof fn lemma_listing_lines(code: Seq<InstrV>)
    requires
        all_read_back(code),
    ensures
        split(listing_text(code), '\n') == texts(code).push(Seq::empty()),
    decreases code.len(),
{
    reveal_strlit("\n");
    if code.len() == 0 {
        assert(listing_text(code) == Seq::<char>::empty());
        assert(texts(code).push(Seq::empty()) =~= seq![Seq::<char>::empty()]);
    } else {
        let c = code.drop_last();
        let i = code.last();
        assert(all_read_back(c)) by {
            assert forall|k: int| 0 <= k < c.len() implies {
                &&& reads_back(#[trigger] c[k])
                &&& uppercase(mnemonic(c[k])) == mnemonic(c[k])
            } by {
                assert(c[k] == code[k]);
            }
        }
        lemma_listing_lines(c);
        assert(code[code.len() - 1] == i);
        lemma_text_line(i, 0);
        let x = listing_text(c);
        let t = instr_text(i);
        assert(listing_text(code) == x + t + seq!['\n']);
        assert(x + t + seq!['\n'] =~= (x + t).push('\n'));
        lemma_split_sep(x + t, '\n');
        lemma_split_extend(x, t, '\n');
        let r = split(x, '\n');
        assert(r == texts(c).push(Seq::empty()));
        assert(r.last() + t =~= t);
        assert(r.update(r.len() - 1, r.last() + t) =~= texts(c).push(t));
        assert(texts(c).push(t) =~= texts(code));
    }
}

proof fn lemma_lines_prefix(code: Seq<InstrV>, k: int)
    requires
        all_read_back(code),
        0 <= k <= code.len(),
    ensures
        lines_spec(texts(code).push(Seq::empty()), k) == Ok::<Seq<InstrV>, Seq<char>>(code.take(k)),
    decreases k,
{
    let lines = texts(code).push(Seq::empty());
    if k == 0 {
        assert(code.take(0) =~= Seq::<InstrV>::empty());
    } else {
        lemma_lines_prefix(code, k - 1);
        assert(lines[k - 1] == instr_text(code[k - 1]));
        lemma_text_line(code[k - 1], k as nat);
        assert(code.take(k - 1).push(code[k - 1]) =~= code.take(k));
    }
}

/// What a program listing shows reads back as the program: every
/// instruction whose text is one line of operands that the reader takes
/// apart again (see `reads_back`), and whose mnemonic is its own upper case,
/// is read back from its line.
pub proof fn law_listing_reads_back(code: Seq<InstrV>)
    requires
        all_read_back(code),
    ensures
        parse_instructions_spec(listing_text(code)) == Ok::<Seq<InstrV>, Seq<char>>(code),
{
    lemma_listing_lines(code);
    let lines = texts(code).push(Seq::empty());
    lemma_lines_prefix(code, code.len() as int);
    assert(code.take(code.len() as int) =~= code);
    assert(lines[code.len() as int] == Seq::<char>::empty());
    assert(trim(Seq::<char>::empty()) == Seq::<char>::empty());
    assert(line_spec(Seq::<char>::empty(), (code.len() + 1) as nat) is None);
}

} // verus!
