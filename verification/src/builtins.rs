//! The texts printed by the built-in predicates of the machine.

use std::collections::HashMap;
use vstd::prelude::*;
use crate::machine::{slots_view, subst_view};
use crate::term::{Term, TermV};
use crate::text::{digits, term_text, push_str, push_usize, push_term_text};
use vstd::std_specs::iter::IteratorSpec;

verus! {

broadcast use {vstd::std_specs::vec::group_vec_axioms, vstd::std_specs::hash::group_hash_axioms};

/// A strictly increasing sequence.
pub open spec fn increasing(v: Seq<usize>) -> bool {
    forall|i: int, j: int| 0 <= i < j < v.len() ==> v[i] < v[j]
}

fn insert_sorted(v: &mut Vec<usize>, k: usize)
    requires
        increasing(old(v)@),
        !old(v)@.contains(k),
    ensures
        increasing(final(v)@),
        final(v)@.to_set() == old(v)@.to_set().insert(k),
{
    let mut i: usize = 0;
    while i < v.len() && v[i] < k
        invariant
            i <= v@.len(),
            forall|j: int| 0 <= j < i ==> v@[j] < k,
        decreases v.len() - i,
    {
        i += 1;
    }
    let ghost before = v@;
    v.insert(i, k);
    proof {
        assert(v@ =~= before.subrange(0, i as int).push(k) + before.subrange(i as int, before.len() as int));
        assert forall|a: int, b: int| 0 <= a < b < v@.len() implies v@[a] < v@[b] by {
            if i < before.len() {
                assert(before[i as int] >= k);
                assert(before[i as int] != k);
            }
        }
        assert(v@.to_set() =~= before.to_set().insert(k)) by {
            assert forall|x: usize| v@.to_set().contains(x) <==> before.to_set().insert(k).contains(x) by {
                if v@.contains(x) {
                    let j = choose|j: int| 0 <= j < v@.len() && v@[j] == x;
                    if j < i { assert(before[j] == x); } else if j > i { assert(before[j - 1] == x); }
                }
                if before.contains(x) {
                    let j = choose|j: int| 0 <= j < before.len() && before[j] == x;
                    if j < i { assert(v@[j] == x); } else { assert(v@[j + 1] == x); }
                }
                if x == k { assert(v@[i as int] == k); }
            }
        }
    }
}

proof fn lemma_push_to_set(s: Seq<usize>, a: usize)
    ensures
        s.push(a).to_set() == s.to_set().insert(a),
{
    assert forall|x: usize| s.push(a).to_set().contains(x) <==> s.to_set().insert(a).contains(x) by {
        if s.push(a).contains(x) {
            let j = choose|j: int| 0 <= j < s.len() + 1 && s.push(a)[j] == x;
            if j < s.len() {
                assert(s[j] == x);
            }
        }
        if s.contains(x) {
            let j = choose|j: int| 0 <= j < s.len() && s[j] == x;
            assert(s.push(a)[j] == x);
        }
        if x == a {
            assert(s.push(a)[s.len() as int] == a);
        }
    }
    assert(s.push(a).to_set() =~= s.to_set().insert(a));
}

/// The keys of a map, in increasing order.
pub(crate) fn sorted_keys<V>(m: &HashMap<usize, V>) -> (r: Vec<usize>)
    ensures
        increasing(r@),
        r@.to_set() == m@.dom(),
{
    let mut v: Vec<usize> = Vec::new();
    let ghost ks = m.keys().remaining().unref();
    for k in it: m.keys()
        invariant
            increasing(v@),
            ks == it.seq().unref(),
            ks.no_duplicates(),
            ks.to_set() == m@.dom(),
            v@.to_set() == ks.subrange(0, it.index()).to_set(),
    {
        proof {
            assert(ks[it.index()] == *k);
            if v@.contains(*k) {
                assert(ks.subrange(0, it.index()).to_set().contains(*k));
                let j = choose|j: int| 0 <= j < it.index() && ks.subrange(0, it.index())[j] == *k;
                assert(ks[j] == ks[it.index()]);
            }
        }
        insert_sorted(&mut v, *k);
        proof {
            assert(ks.subrange(0, it.index() + 1) =~= ks.subrange(0, it.index()).push(*k));
            lemma_push_to_set(ks.subrange(0, it.index()), *k);
        }
    }
    proof {
        assert(ks.subrange(0, ks.len() as int) =~= ks);
    }
    v
}

/// Two increasing sequences with the same elements are equal.
pub(crate) proof fn lemma_increasing_unique(a: Seq<usize>, b: Seq<usize>)
    requires
        increasing(a),
        increasing(b),
        a.to_set() == b.to_set(),
    ensures
        a == b,
    decreases a.len(),
{
    if a.len() == 0 {
        if b.len() > 0 {
            assert(b.to_set().contains(b[0]));
        }
        assert(b =~= a);
    } else {
        assert(a.to_set().contains(a[0]));
        assert(b.len() > 0);
        assert(b.to_set().contains(b[0]));
        let i = choose|i: int| 0 <= i < a.len() && a[i] == b[0];
        let j = choose|j: int| 0 <= j < b.len() && b[j] == a[0];
        assert(a[0] <= a[i]);
        assert(b[0] <= b[j]);
        assert(a[0] == b[0]);
        let a1 = a.drop_first();
        let b1 = b.drop_first();
        assert forall|x: usize| a1.to_set().contains(x) <==> b1.to_set().contains(x) by {
            if a1.contains(x) {
                let k = choose|k: int| 0 <= k < a1.len() && a1[k] == x;
                assert(a[k + 1] == x);
                assert(a.to_set().contains(x));
                let m = choose|m: int| 0 <= m < b.len() && b[m] == x;
                assert(m != 0);
                assert(b1[m - 1] == x);
            }
            if b1.contains(x) {
                let k = choose|k: int| 0 <= k < b1.len() && b1[k] == x;
                assert(b[k + 1] == x);
                assert(b.to_set().contains(x));
                let m = choose|m: int| 0 <= m < a.len() && a[m] == x;
                assert(m != 0);
                assert(a1[m - 1] == x);
            }
        }
        assert(a1.to_set() =~= b1.to_set());
        lemma_increasing_unique(a1, b1);
        assert(a =~= seq![a[0]] + a1);
        assert(b =~= seq![b[0]] + b1);
    }
}

/// The elements of a set in increasing order.
pub open spec fn sorted_ids(s: Set<usize>) -> Seq<usize> {
    choose|v: Seq<usize>| increasing(v) && v.to_set() == s
}

/// A number right-aligned in three columns.
pub open spec fn pad3(d: Seq<char>) -> Seq<char> {
    if d.len() < 3 { Seq::new((3 - d.len()) as nat, |i: int| ' ') + d } else { d }
}

/// The name recorded for a variable, or the empty text.
pub open spec fn name_of(names: Map<usize, Seq<char>>, id: usize) -> Seq<char> {
    if names.contains_key(id) { names[id] } else { Seq::empty() }
}

/// The line of register `i`, if it holds a term: a variable with its name,
/// another term in its debug form.
pub open spec fn register_line(i: int, slot: Option<TermV>, names: Map<usize, Seq<char>>) -> Seq<char> {
    match slot {
        None => Seq::empty(),
        Some(TermV::Var(id)) => "Reg "@ + pad3(digits(i as nat)) + ": Var("@ + digits(id as nat) + ") \""@ + name_of(names, id) + "\"\n"@,
        Some(t) => "Reg "@ + pad3(digits(i as nat)) + ": "@ + term_text(t) + "\n"@,
    }
}

pub open spec fn register_lines(regs: Seq<Option<TermV>>, names: Map<usize, Seq<char>>, k: int) -> Seq<char>
    decreases k,
{
    if k <= 0 { Seq::empty() } else { register_lines(regs, names, k - 1) + register_line(k - 1, regs[k - 1], names) }
}

/// What `print` prints: the registers that hold a term.
pub open spec fn registers_text(regs: Seq<Option<TermV>>, names: Map<usize, Seq<char>>) -> Seq<char> {
    "--- Machine Registers ---\n"@ + register_lines(regs, names, regs.len() as int) + "-------------------------\n"@
}

/// The line of one binding: the variable's name (or `_` and its id), its id
/// and its term.
pub open spec fn binding_line(id: usize, t: TermV, names: Map<usize, Seq<char>>) -> Seq<char> {
    let n = name_of(names, id);
    "Variable "@ + (if n.len() == 0 { "_"@ + digits(id as nat) } else { n }) + " (id "@ + digits(id as nat) + ") = "@
        + term_text(t) + "\n"@
}

pub open spec fn binding_lines(subst: Map<usize, TermV>, names: Map<usize, Seq<char>>, ids: Seq<usize>, k: int) -> Seq<char>
    decreases k,
{
    if k <= 0 { Seq::empty() } else { binding_lines(subst, names, ids, k - 1) + binding_line(ids[k - 1], subst[ids[k - 1]], names) }
}

/// What `print_subst` prints: the bindings in increasing order of variable
/// id, or a note that there are none.
pub open spec fn subst_text(subst: Map<usize, TermV>, names: Map<usize, Seq<char>>) -> Seq<char> {
    let ids = sorted_ids(subst.dom());
    "--- Current Substitution ---\n"@
        + (if subst.dom().len() == 0 { "(no bindings)\n"@ } else { binding_lines(subst, names, ids, ids.len() as int) })
        + "----------------------------\n"@
}

/// The value of the table of variable names.
pub open spec fn names_view(m: Map<usize, String>) -> Map<usize, Seq<char>> {
    m.map_values(|s: String| s@)
}

fn push_padded(out: &mut Vec<char>, i: usize)
    ensures
        final(out)@ == old(out)@ + pad3(digits(i as nat)),
{
    proof {
        reveal_strlit("  ");
        reveal_strlit(" ");
    }
    let ghost d = digits(i as nat);
    if i < 10 {
        proof { assert(d.len() == 1); }
        push_str(out, "  ");
        push_usize(out, i);
        proof { assert(final(out)@ =~= old(out)@ + pad3(d)); }
    } else if i < 100 {
        proof {
            assert(digits(i as nat) == digits((i / 10) as nat).push(crate::text::digit_char((i % 10) as nat)));
            assert(digits((i / 10) as nat).len() == 1);
        }
        push_str(out, " ");
        push_usize(out, i);
        proof { assert(final(out)@ =~= old(out)@ + pad3(d)); }
    } else {
        proof { lemma_digits_len(i as nat); }
        push_usize(out, i);
        proof { assert(final(out)@ =~= old(out)@ + pad3(d)); }
    }
}

proof fn lemma_digits_len(n: nat)
    requires
        n >= 100,
    ensures
        digits(n).len() >= 3,
    decreases n,
{
    assert(digits(n) == digits(n / 10).push(crate::text::digit_char(n % 10)));
    if n / 10 >= 100 {
        lemma_digits_len(n / 10);
    } else {
        assert(digits((n / 10) as nat) == digits((n / 100) as nat).push(crate::text::digit_char((n / 10) % 10)));
    }
}

/// Appends what `print` prints (see `registers_text`).
pub fn push_registers_text(out: &mut Vec<char>, regs: &Vec<Option<Term>>, names: &HashMap<usize, String>)
    ensures
        final(out)@ == old(out)@ + registers_text(slots_view(regs@), names_view(names@)),
{
    proof {
        reveal_strlit("--- Machine Registers ---\n");
        reveal_strlit("-------------------------\n");
        reveal_strlit("Reg ");
        reveal_strlit(": Var(");
        reveal_strlit(") \"");
        reveal_strlit("\"\n");
        reveal_strlit(": ");
        reveal_strlit("\n");
    }
    let ghost rv = slots_view(regs@);
    let ghost nv = names_view(names@);
    push_str(out, "--- Machine Registers ---\n");
    let ghost start = out@;
    let mut i: usize = 0;
    while i < regs.len()
        invariant
            i <= regs@.len(),
            rv == slots_view(regs@),
            nv == names_view(names@),
            out@ == start + register_lines(rv, nv, i as int),
        decreases regs.len() - i,
    {
        let ghost before = out@;
        match &regs[i] {
            None => {},
            Some(Term::Var(id)) => {
                push_str(out, "Reg ");
                push_padded(out, i);
                push_str(out, ": Var(");
                push_usize(out, *id);
                push_str(out, ") \"");
                match names.get(id) {
                    Some(n) => push_str(out, n.as_str()),
                    None => {},
                }
                push_str(out, "\"\n");
            },
            Some(t) => {
                push_str(out, "Reg ");
                push_padded(out, i);
                push_str(out, ": ");
                push_term_text(out, t);
                push_str(out, "\n");
            },
        }
        proof {
            assert(out@ =~= before + register_line(i as int, rv[i as int], nv));
        }
        i += 1;
    }
    push_str(out, "-------------------------\n");
    proof {
        assert(out@ =~= old(out)@ + registers_text(rv, nv));
    }
}

/// Appends what `print_subst` prints (see `subst_text`).
pub fn push_subst_text(out: &mut Vec<char>, subst: &HashMap<usize, Term>, names: &HashMap<usize, String>)
    ensures
        final(out)@ == old(out)@ + subst_text(subst_view(subst@), names_view(names@)),
{
    proof {
        reveal_strlit("--- Current Substitution ---\n");
        reveal_strlit("(no bindings)\n");
        reveal_strlit("----------------------------\n");
        reveal_strlit("Variable ");
        reveal_strlit("_");
        reveal_strlit(" (id ");
        reveal_strlit(") = ");
        reveal_strlit("\n");
    }
    let ghost sv = subst_view(subst@);
    let ghost nv = names_view(names@);
    push_str(out, "--- Current Substitution ---\n");
    let ghost start = out@;
    let ids = sorted_keys(subst);
    proof {
        assert(sv.dom() =~= subst@.dom());
        lemma_increasing_unique(ids@, sorted_ids(sv.dom()));
    }
    if ids.len() == 0 {
        proof {
            assert(sv.dom() =~= Set::<usize>::empty());
        }
        push_str(out, "(no bindings)\n");
    } else {
        proof {
            assert(sv.dom().contains(ids@[0]));
            assert(sv.dom().len() != 0);
        }
        let mut k: usize = 0;
        while k < ids.len()
            invariant
                k <= ids@.len(),
                sv == subst_view(subst@),
                nv == names_view(names@),
                ids@.to_set() == subst@.dom(),
                out@ == start + binding_lines(sv, nv, ids@, k as int),
            decreases ids.len() - k,
        {
            let id = ids[k];
            proof {
                assert(ids@.to_set().contains(id));
            }
            let ghost before = out@;
            let t = subst.get(&id).unwrap();
            push_str(out, "Variable ");
            match names.get(&id) {
                Some(n) => {
                    if n.as_str().unicode_len() == 0 {
                        push_str(out, "_");
                        push_usize(out, id);
                    } else {
                        push_str(out, n.as_str());
                    }
                },
                None => {
                    push_str(out, "_");
                    push_usize(out, id);
                },
            }
            push_str(out, " (id ");
            push_usize(out, id);
            push_str(out, ") = ");
            push_term_text(out, t);
            push_str(out, "\n");
            proof {
                assert(out@ =~= before + binding_line(id, sv[id], nv));
            }
            k += 1;
        }
    }
    push_str(out, "----------------------------\n");
    proof {
        assert(out@ =~= old(out)@ + subst_text(sv, nv));
    }
}

} // verus!
