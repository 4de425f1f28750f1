//! How compiled clauses are laid out: code blocks one after another, and a
//! predicate table listing where each predicate's blocks start.

use vstd::prelude::*;
use crate::machine::InstrV;

verus! {

/// A compiled clause: its predicate name and its code block.
pub type Placed = (Seq<char>, Seq<InstrV>);

/// The blocks placed one after another, each block's address added to its
/// predicate's list.
pub open spec fn layout(ps: Seq<Placed>) -> (Seq<InstrV>, Map<Seq<char>, Seq<usize>>)
    decreases ps.len(),
{
    if ps.len() == 0 {
        (Seq::empty(), Map::empty())
    } else {
        let (code, table) = layout(ps.drop_last());
        let (name, block) = ps.last();
        (
            code + block,
            table.insert(name, if table.contains_key(name) { table[name] } else { Seq::empty() }.push(code.len() as usize)),
        )
    }
}

/// Where block `k` starts: after the blocks before it.
pub open spec fn block_start(ps: Seq<Placed>, k: int) -> int
    decreases k,
{
    if k <= 0 {
        0
    } else {
        block_start(ps, k - 1) + ps[k - 1].1.len()
    }
}

/// Every block is non-empty.
pub open spec fn blocks_nonempty(ps: Seq<Placed>) -> bool {
    forall|k: int| 0 <= k < ps.len() ==> (#[trigger] ps[k]).1.len() > 0
}

/// Block `k` stands at its start address in the code, and that address is
/// listed under the block's predicate.
pub open spec fn places_blocks(ps: Seq<Placed>, code: Seq<InstrV>, table: Map<Seq<char>, Seq<usize>>) -> bool {
    forall|k: int| 0 <= k < ps.len() ==> {
        &&& table.contains_key((#[trigger] ps[k]).0)
        &&& table[ps[k].0].contains(block_start(ps, k) as usize)
        &&& code.subrange(block_start(ps, k), block_start(ps, k) + ps[k].1.len()) == ps[k].1
    }
}

/// Each list of the table is increasing.
pub open spec fn lists_increasing(table: Map<Seq<char>, Seq<usize>>) -> bool {
    forall|n: Seq<char>, i: int, j: int| #![trigger table[n][i], table[n][j]]
        table.contains_key(n) && 0 <= i < j < table[n].len() ==> table[n][i] < table[n][j]
}

/// The start addresses of the blocks of predicate `n`, in program order.
pub open spec fn starts_of(ps: Seq<Placed>, n: Seq<char>) -> Seq<usize>
    decreases ps.len(),
{
    if ps.len() == 0 {
        Seq::empty()
    } else if ps.last().0 == n {
        starts_of(ps.drop_last(), n).push(block_start(ps, ps.len() - 1) as usize)
    } else {
        starts_of(ps.drop_last(), n)
    }
}

/// Each list of the table is exactly the start addresses of its predicate's
/// blocks, in program order.
pub open spec fn lists_only_starts(ps: Seq<Placed>, table: Map<Seq<char>, Seq<usize>>) -> bool {
    forall|n: Seq<char>| #[trigger] table.contains_key(n) ==> table[n] == starts_of(ps, n)
}

/// The table lists every clause in program order: the code is the blocks one
/// after another, block `k` stands at its start address and that address is
/// listed under the block's predicate, and each list is increasing and holds
/// exactly the start addresses of that predicate's blocks.
pub open spec fn lists_blocks(ps: Seq<Placed>, code: Seq<InstrV>, table: Map<Seq<char>, Seq<usize>>) -> bool {
    &&& code.len() == block_start(ps, ps.len() as int)
    &&& places_blocks(ps, code, table)
    &&& lists_increasing(table)
    &&& lists_only_starts(ps, table)
}

proof fn lemma_start_prefix(ps: Seq<Placed>, m: int, k: int)
    requires
        0 <= k <= m <= ps.len(),
    ensures
        block_start(ps.take(m), k) == block_start(ps, k),
    decreases k,
{
    if k > 0 {
        lemma_start_prefix(ps, m, k - 1);
        assert(ps.take(m)[k - 1] == ps[k - 1]);
    }
}

proof fn lemma_start_mono(ps: Seq<Placed>, j: int, k: int)
    requires
        0 <= j <= k <= ps.len(),
    ensures
        block_start(ps, j) <= block_start(ps, k),
    decreases k - j,
{
    if j < k {
        lemma_start_mono(ps, j, k - 1);
    }
}

proof fn lemma_starts_below(ps: Seq<Placed>, n: Seq<char>)
    requires
        blocks_nonempty(ps),
        block_start(ps, ps.len() as int) <= usize::MAX,
    ensures
        forall|i: int| 0 <= i < starts_of(ps, n).len() ==> (#[trigger] starts_of(ps, n)[i]) < block_start(ps, ps.len() as int),
    decreases ps.len(),
{
    if ps.len() > 0 {
        let pre = ps.drop_last();
        let last = ps.len() - 1;
        assert forall|k: int| 0 <= k < pre.len() implies (#[trigger] pre[k]).1.len() > 0 by {
            assert(pre[k] == ps[k]);
        }
        assert(pre == ps.take(last));
        lemma_start_prefix(ps, last, last);
        lemma_start_mono(ps, 0, last);
        assert(ps[last].1.len() > 0);
        assert(block_start(ps, ps.len() as int) == block_start(ps, last) + ps[last].1.len());
        lemma_starts_below(pre, n);
        let sp = starts_of(pre, n);
        assert forall|i: int| 0 <= i < starts_of(ps, n).len() implies (#[trigger] starts_of(ps, n)[i]) < block_start(ps, ps.len() as int) by {
            if i < sp.len() {
                assert(starts_of(ps, n)[i] == sp[i]);
            }
        }
    }
}

/// Every address listed before the last block comes before it.
proof fn lemma_step_bound(ps: Seq<Placed>, table0: Map<Seq<char>, Seq<usize>>)
    requires
        ps.len() > 0,
        blocks_nonempty(ps),
        lists_only_starts(ps.drop_last(), table0),
        forall|k: int| 0 <= k <= ps.len() - 1 ==> block_start(ps.drop_last(), k) == block_start(ps, k),
        block_start(ps, ps.len() as int) <= usize::MAX,
    ensures
        forall|n: Seq<char>, i: int| #![trigger table0[n][i]] table0.contains_key(n) && 0 <= i < table0[n].len()
            ==> table0[n][i] < block_start(ps, ps.len() - 1),
{
    let pre = ps.drop_last();
    let last = ps.len() - 1;
    assert forall|k: int| 0 <= k < pre.len() implies (#[trigger] pre[k]).1.len() > 0 by {
        assert(pre[k] == ps[k]);
    }
    lemma_start_mono(ps, last, ps.len() as int);
    assert forall|n: Seq<char>, i: int| #![trigger table0[n][i]] table0.contains_key(n) && 0 <= i < table0[n].len()
        implies table0[n][i] < block_start(ps, last) by {
        lemma_starts_below(pre, n);
        assert(table0[n] == starts_of(pre, n));
        assert(starts_of(pre, n)[i] < block_start(pre, last));
    }
}

#[verifier::spinoff_prover]
proof fn lemma_step_places(ps: Seq<Placed>)
    requires
        ps.len() > 0,
        places_blocks(ps.drop_last(), layout(ps.drop_last()).0, layout(ps.drop_last()).1),
        layout(ps.drop_last()).0.len() == block_start(ps, ps.len() - 1),
        forall|k: int| 0 <= k <= ps.len() - 1 ==> block_start(ps.drop_last(), k) == block_start(ps, k),
        block_start(ps, ps.len() as int) <= usize::MAX,
    ensures
        places_blocks(ps, layout(ps).0, layout(ps).1),
{
    let pre = ps.drop_last();
    let last = ps.len() - 1;
    let (code0, table0) = layout(pre);
    let (name, block) = ps.last();
    let (code, table) = layout(ps);
    let a = code0.len() as int;
    let old_list = if table0.contains_key(name) { table0[name] } else { Seq::<usize>::empty() };
    assert(table == table0.insert(name, old_list.push(a as usize)));
    assert(code == code0 + block);
    assert forall|k: int| 0 <= k < ps.len() implies {
        &&& table.contains_key((#[trigger] ps[k]).0)
        &&& table[ps[k].0].contains(block_start(ps, k) as usize)
        &&& code.subrange(block_start(ps, k), block_start(ps, k) + ps[k].1.len()) == ps[k].1
    } by {
        if k < last {
            assert(pre[k] == ps[k]);
            let n = ps[k].0;
            let st = block_start(ps, k);
            assert(table0[n].contains(st as usize));
            let w = choose|w: int| 0 <= w < table0[n].len() && table0[n][w] == st as usize;
            if n == name {
                assert(table[n][w] == st as usize);
            }
            lemma_start_mono(ps, k + 1, last);
            lemma_start_mono(ps, 0, k);
            assert(block_start(ps, k + 1) == st + ps[k].1.len());
            assert(st + ps[k].1.len() <= code0.len());
            assert(code0.subrange(st, st + ps[k].1.len()) == ps[k].1);
            assert(code.subrange(st, st + ps[k].1.len()) =~= code0.subrange(st, st + ps[k].1.len()));
        } else {
            assert(table[name][old_list.len() as int] == a as usize);
            assert(code.subrange(a, a + block.len()) =~= block);
        }
    }
}

#[verifier::spinoff_prover]
proof fn lemma_step_increasing(ps: Seq<Placed>)
    requires
        ps.len() > 0,
        lists_increasing(layout(ps.drop_last()).1),
        layout(ps.drop_last()).0.len() <= usize::MAX,
        forall|n: Seq<char>, i: int| #![trigger layout(ps.drop_last()).1[n][i]]
            layout(ps.drop_last()).1.contains_key(n) && 0 <= i < layout(ps.drop_last()).1[n].len()
            ==> layout(ps.drop_last()).1[n][i] < layout(ps.drop_last()).0.len(),
    ensures
        lists_increasing(layout(ps).1),
{
    let (code0, table0) = layout(ps.drop_last());
    let (name, block) = ps.last();
    let table = layout(ps).1;
    let a = code0.len() as int;
    let old_list = if table0.contains_key(name) { table0[name] } else { Seq::<usize>::empty() };
    assert(table == table0.insert(name, old_list.push(a as usize)));
    assert forall|n: Seq<char>, i: int, j: int| #![trigger table[n][i], table[n][j]]
        table.contains_key(n) && 0 <= i < j < table[n].len() implies table[n][i] < table[n][j] by {
        if n == name && j == old_list.len() {
            if table0.contains_key(n) {
                assert(table0[n][i] < a);
            }
        } else {
            assert(table0[n][i] < table0[n][j]);
        }
    }
}

#[verifier::spinoff_prover]
proof fn lemma_step_only_starts(ps: Seq<Placed>)
    requires
        ps.len() > 0,
        lists_only_starts(ps.drop_last(), layout(ps.drop_last()).1),
        layout(ps.drop_last()).0.len() == block_start(ps, ps.len() - 1),
        block_start(ps, ps.len() - 1) <= usize::MAX,
    ensures
        lists_only_starts(ps, layout(ps).1),
{
    let pre = ps.drop_last();
    let (code0, table0) = layout(pre);
    let (name, block) = ps.last();
    let table = layout(ps).1;
    let a = code0.len() as int;
    let old_list = if table0.contains_key(name) { table0[name] } else { Seq::<usize>::empty() };
    assert(table == table0.insert(name, old_list.push(a as usize)));
    assert forall|n: Seq<char>| #[trigger] table.contains_key(n) implies table[n] == starts_of(ps, n) by {
        if n == name {
            if !table0.contains_key(n) {
                lemma_starts_absent_any(pre, n);
            }
        }
    }
}

proof fn lemma_starts_absent_any(ps: Seq<Placed>, n: Seq<char>)
    requires
        !layout(ps).1.contains_key(n),
    ensures
        starts_of(ps, n) == Seq::<usize>::empty(),
    decreases ps.len(),
{
    if ps.len() > 0 {
        assert(layout(ps).1.contains_key(ps.last().0));
        assert(ps.last().0 != n);
        lemma_starts_absent_any(ps.drop_last(), n);
    }
}

/// Laying out non-empty blocks lists every block in program order (see
/// `lists_blocks`).
pub proof fn lemma_layout(ps: Seq<Placed>)
    requires
        blocks_nonempty(ps),
        block_start(ps, ps.len() as int) <= usize::MAX,
    ensures
        lists_blocks(ps, layout(ps).0, layout(ps).1),
    decreases ps.len(),
{
    if ps.len() > 0 {
        let pre = ps.drop_last();
        let last = ps.len() - 1;
        assert(pre == ps.take(last));
        assert forall|k: int| 0 <= k <= ps.len() - 1 implies block_start(pre, k) == block_start(ps, k) by {
            lemma_start_prefix(ps, last, k);
        }
        assert forall|k: int| 0 <= k < pre.len() implies (#[trigger] pre[k]).1.len() > 0 by {
            assert(pre[k] == ps[k]);
        }
        lemma_start_mono(ps, last, ps.len() as int);
        lemma_layout(pre);
        lemma_step_bound(ps, layout(pre).1);
        lemma_step_places(ps);
        assert(layout(pre).0.len() <= usize::MAX);
        lemma_step_increasing(ps);
        lemma_step_only_starts(ps);
    }
}

/// The code of a layout is as long as its blocks together.
pub proof fn lemma_layout_len(ps: Seq<Placed>)
    ensures
        layout(ps).0.len() == block_start(ps, ps.len() as int),
    decreases ps.len(),
{
    if ps.len() > 0 {
        let last = ps.len() - 1;
        assert(ps.drop_last() == ps.take(last));
        lemma_start_prefix(ps, last, last);
        lemma_layout_len(ps.drop_last());
    }
}

} // verus!
