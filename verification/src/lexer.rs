//! Character-level text handling shared by the parsers: whitespace, trimming,
//! splitting, and decimal integers as machine integers read them.

use vstd::prelude::*;

verus! {

broadcast use vstd::std_specs::vec::group_vec_axioms;

/// The characters with the Unicode `White_Space` property.
pub open spec fn is_ws(c: char) -> bool {
    ||| '\u{9}' <= c <= '\u{d}'
    ||| c == ' '
    ||| c == '\u{85}'
    ||| c == '\u{a0}'
    ||| c == '\u{1680}'
    ||| '\u{2000}' <= c <= '\u{200a}'
    ||| c == '\u{2028}'
    ||| c == '\u{2029}'
    ||| c == '\u{202f}'
    ||| c == '\u{205f}'
    ||| c == '\u{3000}'
}

/// Whether a character is whitespace (see `is_ws`).
pub fn is_whitespace(c: char) -> (r: bool)
    ensures
        r == is_ws(c),
{
    ('\u{9}' <= c && c <= '\u{d}') || c == ' ' || c == '\u{85}' || c == '\u{a0}' || c == '\u{1680}'
        || ('\u{2000}' <= c && c <= '\u{200a}') || c == '\u{2028}' || c == '\u{2029}' || c == '\u{202f}'
        || c == '\u{205f}' || c == '\u{3000}'
}

/// A sequence without its leading whitespace.
pub open spec fn trim_start(s: Seq<char>) -> Seq<char>
    decreases s.len(),
{
    if s.len() > 0 && is_ws(s[0]) {
        trim_start(s.drop_first())
    } else {
        s
    }
}

/// A sequence without its trailing whitespace.
pub open spec fn trim_end(s: Seq<char>) -> Seq<char>
    decreases s.len(),
{
    if s.len() > 0 && is_ws(s.last()) {
        trim_end(s.drop_last())
    } else {
        s
    }
}

/// A sequence without leading and trailing whitespace.
pub open spec fn trim(s: Seq<char>) -> Seq<char> {
    trim_end(trim_start(s))
}

/// The pieces of `s` between occurrences of `sep`; always at least one.
pub open spec fn split(s: Seq<char>, sep: char) -> Seq<Seq<char>>
    decreases s.len(),
{
    if s.len() == 0 {
        seq![Seq::<char>::empty()]
    } else {
        let rest = split(s.drop_last(), sep);
        if s.last() == sep {
            rest.push(Seq::<char>::empty())
        } else {
            rest.update(rest.len() - 1, rest.last().push(s.last()))
        }
    }
}

/// The maximal runs of non-whitespace characters of `s`, in order.
pub open spec fn words(s: Seq<char>) -> Seq<Seq<char>>
    decreases s.len(),
{
    if s.len() == 0 {
        Seq::empty()
    } else {
        let rest = words(s.drop_last());
        let c = s.last();
        if is_ws(c) {
            rest
        } else if s.len() >= 2 && !is_ws(s[s.len() - 2]) {
            rest.update(rest.len() - 1, rest.last().push(c))
        } else {
            rest.push(seq![c])
        }
    }
}

/// The characters of a string.
pub fn str_chars(s: &str) -> (r: Vec<char>)
    ensures
        r@ == s@,
{
    let n = s.unicode_len();
    let mut out: Vec<char> = Vec::new();
    let mut i: usize = 0;
    while i < n
        invariant
            n == s@.len(),
            i <= n,
            out@ == s@.subrange(0, i as int),
        decreases n - i,
    {
        let c = s.get_char(i);
        out.push(c);
        i += 1;
        proof {
            assert(out@ =~= s@.subrange(0, i as int));
        }
    }
    proof {
        assert(s@.subrange(0, n as int) =~= s@);
    }
    out
}

proof fn lemma_trim_start(s: Seq<char>, lo: int)
    requires
        0 <= lo <= s.len(),
        forall|j: int| 0 <= j < lo ==> is_ws(s[j]),
        lo == s.len() || !is_ws(s[lo]),
    ensures
        trim_start(s) == s.subrange(lo, s.len() as int),
    decreases lo,
{
    if lo == 0 {
        assert(s.subrange(0, s.len() as int) =~= s);
    } else {
        lemma_trim_start(s.drop_first(), lo - 1);
        assert(s.drop_first().subrange(lo - 1, s.len() - 1) =~= s.subrange(lo, s.len() as int));
    }
}

proof fn lemma_trim_end(s: Seq<char>, hi: int)
    requires
        0 <= hi <= s.len(),
        forall|j: int| hi <= j < s.len() ==> is_ws(s[j]),
        hi == 0 || !is_ws(s[hi - 1]),
    ensures
        trim_end(s) == s.subrange(0, hi),
    decreases s.len() - hi,
{
    if hi == s.len() {
        assert(s.subrange(0, hi) =~= s);
    } else {
        lemma_trim_end(s.drop_last(), hi);
        assert(s.drop_last().subrange(0, hi) =~= s.subrange(0, hi));
    }
}

/// Copies the characters of `v` from `lo` to `hi`.
pub fn copy_range(v: &Vec<char>, lo: usize, hi: usize) -> (r: Vec<char>)
    requires
        lo <= hi <= v@.len(),
    ensures
        r@ == v@.subrange(lo as int, hi as int),
{
    let mut out: Vec<char> = Vec::new();
    let mut i: usize = lo;
    while i < hi
        invariant
            lo <= i <= hi,
            hi <= v@.len(),
            out@ == v@.subrange(lo as int, i as int),
        decreases hi - i,
    {
        out.push(v[i]);
        i += 1;
        proof {
            assert(out@ =~= v@.subrange(lo as int, i as int));
        }
    }
    out
}

/// The characters of `v` without leading and trailing whitespace.
pub fn trim_chars(v: &Vec<char>) -> (r: Vec<char>)
    ensures
        r@ == trim(v@),
{
    let n = v.len();
    let mut lo: usize = 0;
    while lo < n && is_whitespace(v[lo])
        invariant
            n == v@.len(),
            lo <= n,
            forall|j: int| 0 <= j < lo ==> is_ws(v@[j]),
        decreases n - lo,
    {
        lo += 1;
    }
    proof {
        lemma_trim_start(v@, lo as int);
    }
    let ghost t = v@.subrange(lo as int, n as int);
    let mut hi: usize = n;
    while hi > lo && is_whitespace(v[hi - 1])
        invariant
            n == v@.len(),
            lo <= hi <= n,
            t == v@.subrange(lo as int, n as int),
            forall|j: int| hi <= j < n ==> is_ws(v@[j]),
        decreases hi,
    {
        hi -= 1;
    }
    proof {
        lemma_trim_end(t, hi - lo);
        assert(t.subrange(0, hi - lo) =~= v@.subrange(lo as int, hi as int));
    }
    copy_range(v, lo, hi)
}

/// The value of a sequence of character vectors.
pub open spec fn pieces_view(v: Seq<Vec<char>>) -> Seq<Seq<char>> {
    Seq::new(v.len(), |i: int| v[i]@)
}

/// Splits `v` at each occurrence of `sep` (see `split`).
pub fn split_chars(v: &Vec<char>, sep: char) -> (r: Vec<Vec<char>>)
    ensures
        pieces_view(r@) == split(v@, sep),
{
    let mut out: Vec<Vec<char>> = Vec::new();
    let mut cur: Vec<char> = Vec::new();
    let mut i: usize = 0;
    proof {
        assert(v@.subrange(0, 0) =~= Seq::<char>::empty());
    }
    while i < v.len()
        invariant
            i <= v@.len(),
            pieces_view(out@).push(cur@) == split(v@.subrange(0, i as int), sep),
        decreases v.len() - i,
    {
        let c = v[i];
        let ghost pre = v@.subrange(0, i as int);
        let ghost next = v@.subrange(0, i + 1);
        proof {
            assert(next.drop_last() =~= pre);
            assert(next.last() == c);
        }
        if c == sep {
            let done = cur;
            let ghost before = pieces_view(out@);
            out.push(done);
            cur = Vec::new();
            proof {
                assert(pieces_view(out@) =~= before.push(done@));
                assert(pieces_view(out@).push(cur@) =~= split(next, sep));
            }
        } else {
            let ghost before = pieces_view(out@).push(cur@);
            cur.push(c);
            proof {
                assert(pieces_view(out@).push(cur@) =~= before.update(before.len() - 1, before.last().push(c)));
            }
        }
        i += 1;
    }
    let ghost before = pieces_view(out@);
    out.push(cur);
    proof {
        assert(v@.subrange(0, v@.len() as int) =~= v@);
        assert(pieces_view(out@) =~= before.push(cur@));
    }
    out
}

/// The runs of non-whitespace characters of `v` (see `words`).
pub fn words_chars(v: &Vec<char>) -> (r: Vec<Vec<char>>)
    ensures
        pieces_view(r@) == words(v@),
{
    let mut out: Vec<Vec<char>> = Vec::new();
    let mut i: usize = 0;
    let mut in_word = false;
    proof {
        assert(v@.subrange(0, 0) =~= Seq::<char>::empty());
        assert(pieces_view(out@) =~= Seq::<Seq<char>>::empty());
    }
    while i < v.len()
        invariant
            i <= v@.len(),
            pieces_view(out@) == words(v@.subrange(0, i as int)),
            in_word == (i > 0 && !is_ws(v@[i - 1])),
            in_word ==> out@.len() > 0,
        decreases v.len() - i,
    {
        let c = v[i];
        let ghost pre = v@.subrange(0, i as int);
        let ghost next = v@.subrange(0, i + 1);
        proof {
            assert(next.drop_last() =~= pre);
            assert(next.last() == c);
            if i > 0 {
                assert(next[next.len() - 2] == v@[i - 1]);
            }
        }
        let ghost before = pieces_view(out@);
        if is_whitespace(c) {
            in_word = false;
        } else if in_word {
            let mut w = out.pop().unwrap();
            w.push(c);
            out.push(w);
            proof {
                assert(pieces_view(out@) =~= before.update(before.len() - 1, before.last().push(c)));
            }
        } else {
            let mut w: Vec<char> = Vec::new();
            w.push(c);
            out.push(w);
            in_word = true;
            proof {
                assert(w@ =~= seq![c]);
                assert(pieces_view(out@) =~= before.push(seq![c]));
            }
        }
        i += 1;
    }
    proof {
        assert(v@.subrange(0, v@.len() as int) =~= v@);
    }
    out
}

/// Why a decimal integer could not be read.
#[derive(Debug, Clone, Copy, PartialEq, Eq)]
pub enum IntError {
    Empty,
    InvalidDigit,
    PosOverflow,
    NegOverflow,
}

/// The message of an integer error.
pub open spec fn int_error_text(e: IntError) -> Seq<char> {
    match e {
        IntError::Empty => "cannot parse integer from empty string"@,
        IntError::InvalidDigit => "invalid digit found in string"@,
        IntError::PosOverflow => "number too large to fit in target type"@,
        IntError::NegOverflow => "number too small to fit in target type"@,
    }
}

pub open spec fn is_digit(c: char) -> bool {
    '0' <= c <= '9'
}

pub open spec fn digit_value(c: char) -> int {
    c as int - '0' as int
}

/// The value of a sequence of decimal digits read left to right, negated
/// when `neg`; the first non-digit gives `InvalidDigit`, and leaving
/// `lo..=hi` at some digit gives an overflow.
pub open spec fn digits_value(d: Seq<char>, neg: bool, lo: int, hi: int) -> Result<int, IntError>
    decreases d.len(),
{
    if d.len() == 0 {
        Ok(0)
    } else {
        match digits_value(d.drop_last(), neg, lo, hi) {
            Err(e) => Err(e),
            Ok(v) => {
                let c = d.last();
                if !is_digit(c) {
                    Err(IntError::InvalidDigit)
                } else {
                    let w = if neg { v * 10 - digit_value(c) } else { v * 10 + digit_value(c) };
                    if lo <= w <= hi {
                        Ok(w)
                    } else if neg {
                        Err(IntError::NegOverflow)
                    } else {
                        Err(IntError::PosOverflow)
                    }
                }
            },
        }
    }
}

/// Reading a decimal integer in `lo..=hi`: an optional `+` sign, or a `-`
/// sign where the type is signed, then decimal digits.
pub open spec fn parse_int(s: Seq<char>, signed: bool, lo: int, hi: int) -> Result<int, IntError> {
    if s.len() == 0 {
        Err(IntError::Empty)
    } else if s.len() == 1 && (s[0] == '+' || s[0] == '-') {
        Err(IntError::InvalidDigit)
    } else if s[0] == '+' {
        digits_value(s.drop_first(), false, lo, hi)
    } else if s[0] == '-' && signed {
        digits_value(s.drop_first(), true, lo, hi)
    } else {
        digits_value(s, false, lo, hi)
    }
}

pub open spec fn parse_i32_spec(s: Seq<char>) -> Result<int, IntError> {
    parse_int(s, true, i32::MIN as int, i32::MAX as int)
}

pub open spec fn parse_usize_spec(s: Seq<char>) -> Result<int, IntError> {
    parse_int(s, false, 0, usize::MAX as int)
}

proof fn lemma_digits_bounds(d: Seq<char>, neg: bool, lo: int, hi: int)
    requires
        lo <= 0 <= hi,
    ensures
        digits_value(d, neg, lo, hi) matches Ok(v) ==> lo <= v <= hi,
    decreases d.len(),
{
    if d.len() > 0 {
        lemma_digits_bounds(d.drop_last(), neg, lo, hi);
    }
}

fn parse_bounded(s: &Vec<char>, signed: bool, lo: i128, hi: i128) -> (r: Result<i128, IntError>)
    requires
        -0x1_0000_0000_0000_0000 <= lo <= 0 <= hi <= 0x1_0000_0000_0000_0000,
    ensures
        match r {
            Ok(v) => parse_int(s@, signed, lo as int, hi as int) == Ok::<int, IntError>(v as int),
            Err(e) => parse_int(s@, signed, lo as int, hi as int) == Err::<int, IntError>(e),
        },
{
    let n = s.len();
    if n == 0 {
        return Err(IntError::Empty);
    }
    if n == 1 && (s[0] == '+' || s[0] == '-') {
        return Err(IntError::InvalidDigit);
    }
    let mut start: usize = 0;
    let mut neg = false;
    if s[0] == '+' {
        start = 1;
    } else if s[0] == '-' && signed {
        start = 1;
        neg = true;
    }
    let ghost d = s@.subrange(start as int, n as int);
    proof {
        if start == 1 {
            assert(d =~= s@.drop_first());
        } else {
            assert(d =~= s@);
        }
        assert(d.subrange(0, 0) =~= Seq::<char>::empty());
    }
    let mut v: i128 = 0;
    let mut i: usize = start;
    while i < n
        invariant
            start <= i <= n,
            n == s@.len(),
            d == s@.subrange(start as int, n as int),
            -0x1_0000_0000_0000_0000 <= lo <= 0 <= hi <= 0x1_0000_0000_0000_0000,
            digits_value(d.subrange(0, i - start), neg, lo as int, hi as int) == Ok::<int, IntError>(v as int),
            lo <= v <= hi,
            parse_int(s@, signed, lo as int, hi as int) == digits_value(d, neg, lo as int, hi as int),
        decreases n - i,
    {
        let c = s[i];
        let ghost pre = d.subrange(0, i - start);
        let ghost next = d.subrange(0, i + 1 - start);
        proof {
            assert(next.drop_last() =~= pre);
            assert(next.last() == c);
        }
        if !('0' <= c && c <= '9') {
            proof {
                assert(digits_value(next, neg, lo as int, hi as int) == Err::<int, IntError>(IntError::InvalidDigit));
                lemma_digits_prefix_err(d, neg, lo as int, hi as int, i + 1 - start);
            }
            return Err(IntError::InvalidDigit);
        }
        let dv: i128 = ((c as u32) - 48) as i128;
        let w: i128 = if neg { v * 10 - dv } else { v * 10 + dv };
        if w < lo || w > hi {
            let e = if neg { IntError::NegOverflow } else { IntError::PosOverflow };
            proof {
                assert(digits_value(next, neg, lo as int, hi as int) == Err::<int, IntError>(e));
                lemma_digits_prefix_err(d, neg, lo as int, hi as int, i + 1 - start);
            }
            return Err(e);
        }
        v = w;
        i += 1;
    }
    proof {
        assert(d.subrange(0, n - start) =~= d);
    }
    Ok(v)
}

/// An error at a prefix is the error of the whole sequence.
proof fn lemma_digits_prefix_err(d: Seq<char>, neg: bool, lo: int, hi: int, k: int)
    requires
        0 <= k <= d.len(),
        digits_value(d.subrange(0, k), neg, lo, hi) is Err,
    ensures
        digits_value(d, neg, lo, hi) == digits_value(d.subrange(0, k), neg, lo, hi),
    decreases d.len() - k,
{
    if k == d.len() {
        assert(d.subrange(0, k) =~= d);
    } else {
        assert(d.subrange(0, k + 1).drop_last() =~= d.subrange(0, k));
        lemma_digits_prefix_err(d, neg, lo, hi, k + 1);
    }
}

/// Reads a 32-bit integer (see `parse_i32_spec`).
pub fn parse_i32(s: &Vec<char>) -> (r: Result<i32, IntError>)
    ensures
        match r {
            Ok(v) => parse_i32_spec(s@) == Ok::<int, IntError>(v as int),
            Err(e) => parse_i32_spec(s@) == Err::<int, IntError>(e),
        },
{
    match parse_bounded(s, true, -0x8000_0000, 0x7fff_ffff) {
        Ok(v) => Ok(v as i32),
        Err(e) => Err(e),
    }
}

/// Reads an unsigned machine-word integer (see `parse_usize_spec`).
pub fn parse_usize(s: &Vec<char>) -> (r: Result<usize, IntError>)
    ensures
        match r {
            Ok(v) => parse_usize_spec(s@) == Ok::<int, IntError>(v as int),
            Err(e) => parse_usize_spec(s@) == Err::<int, IntError>(e),
        },
{
    match parse_bounded(s, false, 0, usize::MAX as i128) {
        Ok(v) => Ok(v as usize),
        Err(e) => Err(e),
    }
}

/// Appends the message of an integer error.
pub fn push_int_error(out: &mut Vec<char>, e: IntError)
    ensures
        final(out)@ == old(out)@ + int_error_text(e),
{
    match e {
        IntError::Empty => {
            proof { reveal_strlit("cannot parse integer from empty string"); }
            crate::text::push_str(out, "cannot parse integer from empty string");
        },
        IntError::InvalidDigit => {
            proof { reveal_strlit("invalid digit found in string"); }
            crate::text::push_str(out, "invalid digit found in string");
        },
        IntError::PosOverflow => {
            proof { reveal_strlit("number too large to fit in target type"); }
            crate::text::push_str(out, "number too large to fit in target type");
        },
        IntError::NegOverflow => {
            proof { reveal_strlit("number too small to fit in target type"); }
            crate::text::push_str(out, "number too small to fit in target type");
        },
    }
}

/// Splitting gives at least one piece.
pub proof fn lemma_split_len(s: Seq<char>, sep: char)
    ensures
        split(s, sep).len() >= 1,
    decreases s.len(),
{
    if s.len() > 0 {
        lemma_split_len(s.drop_last(), sep);
    }
}

/// A sequence without leading occurrences of `c`.
pub open spec fn strip_start_char(s: Seq<char>, c: char) -> Seq<char>
    decreases s.len(),
{
    if s.len() > 0 && s[0] == c { strip_start_char(s.drop_first(), c) } else { s }
}

/// A sequence without trailing occurrences of `c`.
pub open spec fn strip_end_char(s: Seq<char>, c: char) -> Seq<char>
    decreases s.len(),
{
    if s.len() > 0 && s.last() == c { strip_end_char(s.drop_last(), c) } else { s }
}

/// A sequence without leading and trailing occurrences of `c`.
pub open spec fn trim_char(s: Seq<char>, c: char) -> Seq<char> {
    strip_end_char(strip_start_char(s, c), c)
}

/// The pieces joined with single spaces between them.
pub open spec fn join_space(ts: Seq<Seq<char>>) -> Seq<char>
    decreases ts.len(),
{
    if ts.len() == 0 {
        Seq::empty()
    } else if ts.len() == 1 {
        ts[0]
    } else {
        join_space(ts.drop_last()) + seq![' '] + ts.last()
    }
}

proof fn lemma_strip_start(s: Seq<char>, c: char, lo: int)
    requires
        0 <= lo <= s.len(),
        forall|j: int| 0 <= j < lo ==> s[j] == c,
        lo == s.len() || s[lo] != c,
    ensures
        strip_start_char(s, c) == s.subrange(lo, s.len() as int),
    decreases lo,
{
    if lo == 0 {
        assert(s.subrange(0, s.len() as int) =~= s);
    } else {
        lemma_strip_start(s.drop_first(), c, lo - 1);
        assert(s.drop_first().subrange(lo - 1, s.len() - 1) =~= s.subrange(lo, s.len() as int));
    }
}

proof fn lemma_strip_end(s: Seq<char>, c: char, hi: int)
    requires
        0 <= hi <= s.len(),
        forall|j: int| hi <= j < s.len() ==> s[j] == c,
        hi == 0 || s[hi - 1] != c,
    ensures
        strip_end_char(s, c) == s.subrange(0, hi),
    decreases s.len() - hi,
{
    if hi == s.len() {
        assert(s.subrange(0, hi) =~= s);
    } else {
        lemma_strip_end(s.drop_last(), c, hi);
        assert(s.drop_last().subrange(0, hi) =~= s.subrange(0, hi));
    }
}

/// The characters of `v` without leading and trailing occurrences of `c`.
pub fn trim_char_chars(v: &Vec<char>, c: char) -> (r: Vec<char>)
    ensures
        r@ == trim_char(v@, c),
{
    let n = v.len();
    let mut lo: usize = 0;
    while lo < n && v[lo] == c
        invariant
            n == v@.len(),
            lo <= n,
            forall|j: int| 0 <= j < lo ==> v@[j] == c,
        decreases n - lo,
    {
        lo += 1;
    }
    proof {
        lemma_strip_start(v@, c, lo as int);
    }
    let ghost t = v@.subrange(lo as int, n as int);
    let mut hi: usize = n;
    while hi > lo && v[hi - 1] == c
        invariant
            n == v@.len(),
            lo <= hi <= n,
            t == v@.subrange(lo as int, n as int),
            forall|j: int| hi <= j < n ==> v@[j] == c,
        decreases hi,
    {
        hi -= 1;
    }
    proof {
        lemma_strip_end(t, c, hi - lo);
        assert(t.subrange(0, hi - lo) =~= v@.subrange(lo as int, hi as int));
    }
    copy_range(v, lo, hi)
}

/// The pieces of `ts` from position `from` on, joined with single spaces.
pub fn join_space_from(ts: &Vec<Vec<char>>, from: usize) -> (r: Vec<char>)
    requires
        from <= ts@.len(),
    ensures
        r@ == join_space(pieces_view(ts@).skip(from as int)),
{
    let ghost q = pieces_view(ts@).skip(from as int);
    let mut out: Vec<char> = Vec::new();
    let mut i: usize = from;
    proof {
        assert(q.take(0) =~= Seq::<Seq<char>>::empty());
    }
    while i < ts.len()
        invariant
            from <= i <= ts@.len(),
            q == pieces_view(ts@).skip(from as int),
            out@ == join_space(q.take(i - from)),
        decreases ts.len() - i,
    {
        let ghost next = q.take(i + 1 - from);
        proof {
            assert(next.drop_last() =~= q.take(i - from));
            assert(next.last() == ts@[i as int]@);
        }
        if i > from {
            out.push(' ');
        }
        let ghost before = out@;
        let w = &ts[i];
        let mut j: usize = 0;
        while j < w.len()
            invariant
                j <= w@.len(),
                out@ == before + w@.subrange(0, j as int),
            decreases w.len() - j,
        {
            out.push(w[j]);
            j += 1;
            proof {
                assert(out@ =~= before + w@.subrange(0, j as int));
            }
        }
        proof {
            assert(w@.subrange(0, w@.len() as int) =~= w@);
            if i == from {
                assert(next.len() == 1);
                assert(out@ =~= next[0]);
            } else {
                assert(out@ =~= join_space(next.drop_last()) + seq![' '] + next.last());
            }
        }
        i += 1;
    }
    proof {
        assert(q.take(ts@.len() - from) =~= q);
    }
    out
}

/// Trimming does not lengthen a sequence, and what is left is a piece of it.
pub proof fn lemma_trim_len(s: Seq<char>)
    ensures
        trim(s).len() <= s.len(),
        trim_start(s).len() <= s.len(),
{
    lemma_trim_start_len(s);
    lemma_trim_end_len(trim_start(s));
}

proof fn lemma_trim_start_len(s: Seq<char>)
    ensures
        trim_start(s).len() <= s.len(),
    decreases s.len(),
{
    if s.len() > 0 && is_ws(s[0]) {
        lemma_trim_start_len(s.drop_first());
    }
}

proof fn lemma_trim_end_len(s: Seq<char>)
    ensures
        trim_end(s).len() <= s.len(),
    decreases s.len(),
{
    if s.len() > 0 && is_ws(s.last()) {
        lemma_trim_end_len(s.drop_last());
    }
}

/// Splitting gives at most one more piece than there are characters.
pub proof fn lemma_split_len_bound(s: Seq<char>, c: char)
    ensures
        split(s, c).len() <= s.len() + 1,
    decreases s.len(),
{
    if s.len() > 0 {
        lemma_split_len_bound(s.drop_last(), c);
        lemma_split_len(s.drop_last(), c);
    }
}

/// Stripping a character from the end does not lengthen a sequence.
pub proof fn lemma_strip_end_len(s: Seq<char>, c: char)
    ensures
        strip_end_char(s, c).len() <= s.len(),
    decreases s.len(),
{
    if s.len() > 0 && s.last() == c {
        lemma_strip_end_len(s.drop_last(), c);
    }
}

/// Each piece of a split is no longer than the whole.
pub proof fn lemma_split_pieces_len(s: Seq<char>, c: char)
    ensures
        forall|j: int| 0 <= j < split(s, c).len() ==> (#[trigger] split(s, c)[j]).len() <= s.len(),
    decreases s.len(),
{
    if s.len() > 0 {
        lemma_split_pieces_len(s.drop_last(), c);
        lemma_split_len(s.drop_last(), c);
        let rest = split(s.drop_last(), c);
        assert forall|j: int| 0 <= j < split(s, c).len() implies (#[trigger] split(s, c)[j]).len() <= s.len() by {
            if j < rest.len() {
                assert(rest[j].len() <= s.len() - 1);
            }
        }
    }
}

} // verus!
