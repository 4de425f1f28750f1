//! The clause tables of the machine: clause addresses by predicate name, and
//! clause addresses by predicate name and index key.

use vstd::prelude::*;
use crate::assoc::{assoc_map, keys_distinct, lemma_assoc_map_values, lemma_assoc_contains, lemma_assoc_index, lemma_assoc_push, lemma_assoc_update};
use crate::term::{Term, TermV, copy_term, terms_equal};

verus! {

broadcast use vstd::std_specs::vec::group_vec_axioms;

/// The position of the first occurrence of `a` in `s`.
pub open spec fn first_index(s: Seq<usize>, a: usize) -> Option<int>
    decreases s.len(),
{
    if s.len() == 0 {
        None
    } else if s[0] == a {
        Some(0)
    } else {
        match first_index(s.drop_first(), a) {
            Some(i) => Some(i + 1),
            None => None,
        }
    }
}

/// `s` without the first occurrence of `a` (unchanged when `a` does not occur).
pub open spec fn remove_first(s: Seq<usize>, a: usize) -> Seq<usize> {
    match first_index(s, a) {
        Some(i) => s.remove(i),
        None => s,
    }
}

pub proof fn lemma_first_index(s: Seq<usize>, a: usize)
    ensures
        match first_index(s, a) {
            Some(i) => 0 <= i < s.len() && s[i] == a && forall|j: int| 0 <= j < i ==> s[j] != a,
            None => forall|j: int| 0 <= j < s.len() ==> s[j] != a,
        },
    decreases s.len(),
{
    if s.len() > 0 && s[0] != a {
        lemma_first_index(s.drop_first(), a);
        match first_index(s.drop_first(), a) {
            Some(i) => {
                assert forall|j: int| 0 <= j < i + 1 implies s[j] != a by {
                    if j > 0 {
                        assert(s[j] == s.drop_first()[j - 1]);
                    }
                }
            }
            None => {
                assert forall|j: int| 0 <= j < s.len() implies s[j] != a by {
                    if j > 0 {
                        assert(s[j] == s.drop_first()[j - 1]);
                    }
                }
            }
        }
    }
}

/// Finds the first occurrence of an address.
pub fn find_address(v: &Vec<usize>, a: usize) -> (r: Option<usize>)
    ensures
        match r {
            Some(i) => first_index(v@, a) == Some(i as int),
            None => first_index(v@, a) is None,
        },
{
    proof {
        lemma_first_index(v@, a);
    }
    let mut i: usize = 0;
    while i < v.len()
        invariant
            i <= v.len(),
            forall|j: int| 0 <= j < i ==> v@[j] != a,
        decreases v.len() - i,
    {
        if v[i] == a {
            proof {
                lemma_first_index(v@, a);
                match first_index(v@, a) {
                    Some(k) => {
                        assert(k == i);
                    }
                    None => {}
                }
            }
            return Some(i);
        }
        i += 1;
    }
    proof {
        match first_index(v@, a) {
            Some(k) => {
                assert(v@[k] == a);
            }
            None => {}
        }
    }
    None
}

/// Removes the first occurrence of an address, if there is one.
pub fn remove_address(v: &mut Vec<usize>, a: usize) -> (found: bool)
    ensures
        final(v)@ == remove_first(old(v)@, a),
        found == (first_index(old(v)@, a) is Some),
{
    proof {
        lemma_first_index(v@, a);
    }
    match find_address(v, a) {
        Some(i) => {
            v.remove(i);
            true
        }
        None => false,
    }
}

/// Clause addresses by predicate name, in the order in which they were added.
#[derive(Debug)]
pub struct PredicateTable {
    entries: Vec<(String, Vec<usize>)>,
}

impl PredicateTable {
    closed spec fn pairs_of(entries: Seq<(String, Vec<usize>)>) -> Seq<(Seq<char>, Seq<usize>)> {
        entries.map_values(|e: (String, Vec<usize>)| (e.0@, e.1@))
    }

    closed spec fn pairs(&self) -> Seq<(Seq<char>, Seq<usize>)> {
        Self::pairs_of(self.entries@)
    }

    #[verifier::type_invariant]
    closed spec fn inv(&self) -> bool {
        keys_distinct(self.pairs())
    }
}

impl View for PredicateTable {
    type V = Map<Seq<char>, Seq<usize>>;

    closed spec fn view(&self) -> Map<Seq<char>, Seq<usize>> {
        assoc_map(self.pairs())
    }
}

impl PredicateTable {
    /// An empty table.
    pub fn new() -> (r: PredicateTable)
        ensures
            r@ == Map::<Seq<char>, Seq<usize>>::empty(),
    {
        let r = PredicateTable { entries: Vec::new() };
        proof {
            assert(r.pairs() =~= Seq::<(Seq<char>, Seq<usize>)>::empty());
        }
        r
    }

    fn find(&self, name: &String) -> (r: Option<usize>)
        ensures
            match r {
                Some(i) => i < self.entries@.len() && self.entries@[i as int].0@ == name@,
                None => !self@.contains_key(name@),
            },
    {
        proof {
            use_type_invariant(self);
        }
        let mut i: usize = 0;
        while i < self.entries.len()
            invariant
                i <= self.entries@.len(),
                forall|j: int| 0 <= j < i ==> self.pairs()[j].0 != name@,
            decreases self.entries@.len() - i,
        {
            if self.entries[i].0.eq(name) {
                return Some(i);
            }
            i += 1;
        }
        proof {
            lemma_assoc_contains(self.pairs(), name@);
        }
        None
    }

    /// The clause addresses of a predicate, if it has an entry.
    pub fn get(&self, name: &String) -> (r: Option<&Vec<usize>>)
        ensures
            match r {
                Some(v) => self@.contains_key(name@) && v@ == self@[name@],
                None => !self@.contains_key(name@),
            },
    {
        proof {
            use_type_invariant(self);
        }
        match self.find(name) {
            Some(i) => {
                proof {
                    lemma_assoc_index(self.pairs(), i as int);
                }
                Some(&self.entries[i].1)
            }
            None => None,
        }
    }

    /// Adds a clause address at the end of a predicate's list, creating the
    /// entry if there is none.
    pub fn push(&mut self, name: String, address: usize)
        ensures
            final(self)@ == old(self)@.insert(
                name@,
                if old(self)@.contains_key(name@) { old(self)@[name@] } else { Seq::empty() }.push(address),
            ),
    {
        proof {
            use_type_invariant(&*self);
        }
        match self.find(&name) {
            Some(i) => {
                proof {
                    lemma_assoc_index(self.pairs(), i as int);
                }
                let mut list = self.entries[i].1.clone();
                list.push(address);
                let ghost old_pairs = self.pairs();
                let entry = (name, list);
                proof {
                    lemma_assoc_update(old_pairs, i as int, entry.1@);
                }
                let mut entries: Vec<(String, Vec<usize>)> = Vec::new();
                std::mem::swap(&mut entries, &mut self.entries);
                entries.set(i, entry);
                proof {
                    assert(Self::pairs_of(entries@) =~= old_pairs.update(i as int, (old_pairs[i as int].0, entry.1@)));
                }
                self.entries = entries;
            }
            None => {
                let ghost old_pairs = self.pairs();
                proof {
                    lemma_assoc_contains(old_pairs, name@);
                    lemma_assoc_push(old_pairs, name@, seq![address]);
                }
                let mut list: Vec<usize> = Vec::new();
                list.push(address);
                let mut entries: Vec<(String, Vec<usize>)> = Vec::new();
                std::mem::swap(&mut entries, &mut self.entries);
                entries.push((name, list));
                proof {
                    assert(list@ =~= seq![address]);
                    assert(Self::pairs_of(entries@) =~= old_pairs.push((name@, seq![address])));
                }
                self.entries = entries;
                proof {
                    assert(Seq::<usize>::empty().push(address) =~= seq![address]);
                }
            }
        }
    }

    /// Removes the first occurrence of a clause address from a predicate's
    /// list. Answers `None` when the predicate has no entry, and otherwise
    /// whether the address was found.
    pub fn remove(&mut self, name: &String, address: usize) -> (r: Option<bool>)
        ensures
            match r {
                None => !old(self)@.contains_key(name@) && final(self)@ == old(self)@,
                Some(found) => old(self)@.contains_key(name@)
                    && found == (first_index(old(self)@[name@], address) is Some)
                    && final(self)@ == old(self)@.insert(name@, remove_first(old(self)@[name@], address)),
            },
    {
        proof {
            use_type_invariant(&*self);
        }
        match self.find(name) {
            Some(i) => {
                proof {
                    lemma_assoc_index(self.pairs(), i as int);
                }
                let mut list = self.entries[i].1.clone();
                let found = remove_address(&mut list, address);
                let ghost old_pairs = self.pairs();
                let entry = (self.entries[i].0.clone(), list);
                proof {
                    lemma_assoc_update(old_pairs, i as int, entry.1@);
                }
                let mut entries: Vec<(String, Vec<usize>)> = Vec::new();
                std::mem::swap(&mut entries, &mut self.entries);
                entries.set(i, entry);
                proof {
                    assert(Self::pairs_of(entries@) =~= old_pairs.update(i as int, (old_pairs[i as int].0, entry.1@)));
                }
                self.entries = entries;
                Some(found)
            }
            None => None,
        }
    }

    /// The entries of the table: each predicate name with its clause addresses.
    pub fn to_vec(&self) -> (r: Vec<(String, Vec<usize>)>)
        ensures
            forall|i: int, j: int| 0 <= i < r@.len() && 0 <= j < r@.len() && i != j ==> r@[i].0@ != r@[j].0@,
            forall|k: Seq<char>| self@.contains_key(k) <==> exists|i: int| 0 <= i < r@.len() && r@[i].0@ == k,
            forall|i: int| 0 <= i < r@.len() ==> self@.contains_key(r@[i].0@) && self@[r@[i].0@] == r@[i].1@,
    {
        proof {
            use_type_invariant(self);
        }
        let mut out: Vec<(String, Vec<usize>)> = Vec::new();
        let mut i: usize = 0;
        while i < self.entries.len()
            invariant
                i <= self.entries@.len(),
                out@.len() == i,
                forall|j: int| 0 <= j < i ==> (#[trigger] out@[j]).0@ == self.pairs()[j].0 && out@[j].1@ == self.pairs()[j].1,
            decreases self.entries@.len() - i,
        {
            out.push((self.entries[i].0.clone(), self.entries[i].1.clone()));
            i += 1;
        }
        proof {
            assert forall|i: int, j: int| 0 <= i < out@.len() && 0 <= j < out@.len() && i != j implies out@[i].0@ != out@[j].0@ by {
                assert(self.pairs()[i].0 != self.pairs()[j].0);
            }
            assert forall|k: Seq<char>| self@.contains_key(k) <==> exists|i: int| 0 <= i < out@.len() && out@[i].0@ == k by {
                lemma_assoc_contains(self.pairs(), k);
                if self@.contains_key(k) {
                    let j = choose|j: int| 0 <= j < self.pairs().len() && self.pairs()[j].0 == k;
                    assert(out@[j].0@ == k);
                }
            }
            assert forall|i: int| 0 <= i < out@.len() implies self@.contains_key(out@[i].0@) && self@[out@[i].0@] == out@[i].1@ by {
                lemma_assoc_index(self.pairs(), i);
            }
        }
        out
    }
}

/// Clause addresses by predicate name and index key. A key is a sequence of
/// terms (one term for a single-argument index).
#[derive(Debug)]
pub struct IndexTable {
    entries: Vec<(String, Vec<(Vec<Term>, Vec<usize>)>)>,
}

/// The map of one predicate's index: addresses by key value.
pub open spec fn key_map(inner: Seq<(Vec<Term>, Vec<usize>)>) -> Map<Seq<TermV>, Seq<usize>> {
    assoc_map(key_pairs(inner))
}

/// The pairs of one predicate's index, by value.
pub open spec fn key_pairs(inner: Seq<(Vec<Term>, Vec<usize>)>) -> Seq<(Seq<TermV>, Seq<usize>)> {
    inner.map_values(|e: (Vec<Term>, Vec<usize>)| (Term::args_view(e.0@), e.1@))
}

impl IndexTable {
    closed spec fn outer_of(entries: Seq<(String, Vec<(Vec<Term>, Vec<usize>)>)>) -> Seq<(Seq<char>, Map<Seq<TermV>, Seq<usize>>)> {
        entries.map_values(|e: (String, Vec<(Vec<Term>, Vec<usize>)>)| (e.0@, key_map(e.1@)))
    }

    closed spec fn entries_ok(entries: Seq<(String, Vec<(Vec<Term>, Vec<usize>)>)>) -> bool {
        &&& keys_distinct(Self::outer_of(entries))
        &&& forall|i: int| 0 <= i < entries.len() ==> keys_distinct(#[trigger] key_pairs(entries[i].1@))
    }

    #[verifier::type_invariant]
    closed spec fn inv(&self) -> bool {
        Self::entries_ok(self.entries@)
    }
}

impl View for IndexTable {
    type V = Map<Seq<char>, Map<Seq<TermV>, Seq<usize>>>;

    closed spec fn view(&self) -> Map<Seq<char>, Map<Seq<TermV>, Seq<usize>>> {
        assoc_map(Self::outer_of(self.entries@))
    }
}

fn find_key(inner: &Vec<(Vec<Term>, Vec<usize>)>, key: &Vec<Term>) -> (r: Option<usize>)
    ensures
        match r {
            Some(i) => i < inner@.len() && key_pairs(inner@)[i as int].0 == Term::args_view(key@),
            None => !key_map(inner@).contains_key(Term::args_view(key@)),
        },
{
    let mut i: usize = 0;
    while i < inner.len()
        invariant
            i <= inner@.len(),
            forall|j: int| 0 <= j < i ==> key_pairs(inner@)[j].0 != Term::args_view(key@),
        decreases inner@.len() - i,
    {
        if crate::term::args_equal(&inner[i].0, key) {
            return Some(i);
        }
        i += 1;
    }
    proof {
        lemma_assoc_contains(key_pairs(inner@), Term::args_view(key@));
    }
    None
}

/// The value of a predicate's index after adding `address` under `key`.
pub open spec fn key_map_push(m: Map<Seq<TermV>, Seq<usize>>, key: Seq<TermV>, address: usize) -> Map<Seq<TermV>, Seq<usize>> {
    m.insert(key, if m.contains_key(key) { m[key] } else { Seq::empty() }.push(address))
}

fn push_key(inner: &mut Vec<(Vec<Term>, Vec<usize>)>, key: Vec<Term>, address: usize)
    requires
        keys_distinct(key_pairs(old(inner)@)),
    ensures
        keys_distinct(key_pairs(final(inner)@)),
        key_map(final(inner)@) == key_map_push(key_map(old(inner)@), Term::args_view(key@), address),
{
    let ghost old_pairs = key_pairs(inner@);
    match find_key(inner, &key) {
        Some(i) => {
            proof {
                lemma_assoc_index(old_pairs, i as int);
            }
            let (k, mut list) = inner.remove(i);
            list.push(address);
            let ghost nv = list@;
            inner.insert(i, (k, list));
            proof {
                lemma_assoc_update(old_pairs, i as int, nv);
                assert(key_pairs(inner@) =~= old_pairs.update(i as int, (old_pairs[i as int].0, nv)));
            }
        }
        None => {
            proof {
                lemma_assoc_contains(old_pairs, Term::args_view(key@));
                lemma_assoc_push(old_pairs, Term::args_view(key@), seq![address]);
            }
            let mut list: Vec<usize> = Vec::new();
            list.push(address);
            let ghost kv = Term::args_view(key@);
            inner.push((key, list));
            proof {
                assert(key_pairs(inner@) =~= old_pairs.push((kv, seq![address])));
                assert(Seq::<usize>::empty().push(address) =~= seq![address]);
            }
        }
    }
}

fn retract_in_keys(inner: &mut Vec<(Vec<Term>, Vec<usize>)>, address: usize)
    requires
        keys_distinct(key_pairs(old(inner)@)),
    ensures
        keys_distinct(key_pairs(final(inner)@)),
        key_map(final(inner)@) == key_map(old(inner)@).map_values(|l: Seq<usize>| remove_first(l, address)),
{
    let ghost old_inner = inner@;
    let mut i: usize = 0;
    while i < inner.len()
        invariant
            i <= inner@.len(),
            inner@.len() == old_inner.len(),
            forall|j: int| 0 <= j < inner@.len() ==> key_pairs(inner@)[j].0 == key_pairs(old_inner)[j].0,
            forall|j: int| 0 <= j < i ==> key_pairs(inner@)[j].1 == remove_first(key_pairs(old_inner)[j].1, address),
            forall|j: int| i <= j < inner@.len() ==> key_pairs(inner@)[j].1 == key_pairs(old_inner)[j].1,
        decreases inner@.len() - i,
    {
        let (k, mut list) = inner.remove(i);
        remove_address(&mut list, address);
        inner.insert(i, (k, list));
        i += 1;
    }
    proof {
        let f = |l: Seq<usize>| remove_first(l, address);
        lemma_assoc_map_values(key_pairs(old_inner), key_pairs(inner@), f);
        assert(keys_distinct(key_pairs(inner@))) by {
            assert forall|a: int, b: int| 0 <= a < inner@.len() && 0 <= b < inner@.len() && a != b implies key_pairs(inner@)[a].0 != key_pairs(inner@)[b].0 by {
                assert(key_pairs(old_inner)[a].0 != key_pairs(old_inner)[b].0);
            }
        }
    }
}

impl IndexTable {
    /// An empty table.
    pub fn new() -> (r: IndexTable)
        ensures
            r@ == Map::<Seq<char>, Map<Seq<TermV>, Seq<usize>>>::empty(),
    {
        let r = IndexTable { entries: Vec::new() };
        proof {
            assert(Self::outer_of(r.entries@) =~= Seq::<(Seq<char>, Map<Seq<TermV>, Seq<usize>>)>::empty());
        }
        r
    }

    fn find(&self, name: &String) -> (r: Option<usize>)
        ensures
            match r {
                Some(i) => i < self.entries@.len() && self.entries@[i as int].0@ == name@
                    && self@.contains_key(name@) && self@[name@] == key_map(self.entries@[i as int].1@),
                None => !self@.contains_key(name@),
            },
    {
        proof {
            use_type_invariant(self);
        }
        let mut i: usize = 0;
        while i < self.entries.len()
            invariant
                i <= self.entries@.len(),
                forall|j: int| 0 <= j < i ==> Self::outer_of(self.entries@)[j].0 != name@,
                Self::entries_ok(self.entries@),
            decreases self.entries@.len() - i,
        {
            if self.entries[i].0.eq(name) {
                proof {
                    lemma_assoc_index(Self::outer_of(self.entries@), i as int);
                }
                return Some(i);
            }
            i += 1;
        }
        proof {
            lemma_assoc_contains(Self::outer_of(self.entries@), name@);
        }
        None
    }

    /// The addresses under a key of a predicate's index: `None` when the
    /// predicate has no index, `Some(None)` when the key is not in it.
    pub fn lookup(&self, name: &String, key: &Vec<Term>) -> (r: Option<Option<&Vec<usize>>>)
        ensures
            match r {
                None => !self@.contains_key(name@),
                Some(None) => self@.contains_key(name@) && !self@[name@].contains_key(Term::args_view(key@)),
                Some(Some(v)) => self@.contains_key(name@) && self@[name@].contains_key(Term::args_view(key@))
                    && v@ == self@[name@][Term::args_view(key@)],
            },
    {
        proof {
            use_type_invariant(self);
        }
        match self.find(name) {
            Some(i) => {
                match find_key(&self.entries[i].1, key) {
                    Some(j) => {
                        proof {
                            lemma_assoc_index(key_pairs(self.entries@[i as int].1@), j as int);
                        }
                        Some(Some(&self.entries[i].1[j].1))
                    }
                    None => Some(None),
                }
            }
            None => None,
        }
    }

    /// Adds a clause address under a key of a predicate's index.
    pub fn push(&mut self, name: String, key: Vec<Term>, address: usize)
        ensures
            final(self)@ == old(self)@.insert(
                name@,
                key_map_push(
                    if old(self)@.contains_key(name@) { old(self)@[name@] } else { Map::empty() },
                    Term::args_view(key@),
                    address,
                ),
            ),
    {
        proof {
            use_type_invariant(&*self);
        }
        let ghost old_outer = Self::outer_of(self.entries@);
        let found = self.find(&name);
        let mut entries: Vec<(String, Vec<(Vec<Term>, Vec<usize>)>)> = Vec::new();
        std::mem::swap(&mut entries, &mut self.entries);
        let ghost old_entries = entries@;
        match found {
            Some(i) => {
                proof {
                    lemma_assoc_index(old_outer, i as int);
                }
                let (n, mut inner) = entries.remove(i);
                push_key(&mut inner, key, address);
                let ghost nv = key_map(inner@);
                entries.insert(i, (n, inner));
                proof {
                    lemma_assoc_update(old_outer, i as int, nv);
                    assert(Self::outer_of(entries@) =~= old_outer.update(i as int, (old_outer[i as int].0, nv)));
                    assert forall|j: int| 0 <= j < entries@.len() implies keys_distinct(#[trigger] key_pairs(entries@[j].1@)) by {
                        if j != i {
                            assert(entries@[j] == old_entries[j]);
                        }
                    }
                }
            }
            None => {
                let mut inner: Vec<(Vec<Term>, Vec<usize>)> = Vec::new();
                proof {
                    assert(key_pairs(inner@) =~= Seq::<(Seq<TermV>, Seq<usize>)>::empty());
                    assert(key_map(inner@) =~= Map::<Seq<TermV>, Seq<usize>>::empty());
                }
                push_key(&mut inner, key, address);
                let ghost nv = key_map(inner@);
                proof {
                    lemma_assoc_contains(old_outer, name@);
                    lemma_assoc_push(old_outer, name@, nv);
                }
                let ghost nm = name@;
                entries.push((name, inner));
                proof {
                    assert(Self::outer_of(entries@) =~= old_outer.push((nm, nv)));
                    assert forall|j: int| 0 <= j < entries@.len() implies keys_distinct(#[trigger] key_pairs(entries@[j].1@)) by {
                        if j < old_entries.len() {
                            assert(entries@[j] == old_entries[j]);
                        }
                    }
                }
            }
        }
        self.entries = entries;
    }

    /// Removes the first occurrence of a clause address from every key of a
    /// predicate's index.
    pub fn retract(&mut self, name: &String, address: usize)
        ensures
            old(self)@.contains_key(name@) ==> final(self)@ == old(self)@.insert(
                name@,
                old(self)@[name@].map_values(|l: Seq<usize>| remove_first(l, address)),
            ),
            !old(self)@.contains_key(name@) ==> final(self)@ == old(self)@,
    {
        proof {
            use_type_invariant(&*self);
        }
        let ghost old_outer = Self::outer_of(self.entries@);
        match self.find(name) {
            Some(i) => {
                proof {
                    lemma_assoc_index(old_outer, i as int);
                }
                let mut entries: Vec<(String, Vec<(Vec<Term>, Vec<usize>)>)> = Vec::new();
                std::mem::swap(&mut entries, &mut self.entries);
                let ghost old_entries = entries@;
                let (n, mut inner) = entries.remove(i);
                retract_in_keys(&mut inner, address);
                let ghost nv = key_map(inner@);
                entries.insert(i, (n, inner));
                proof {
                    lemma_assoc_update(old_outer, i as int, nv);
                    assert(Self::outer_of(entries@) =~= old_outer.update(i as int, (old_outer[i as int].0, nv)));
                    assert forall|j: int| 0 <= j < entries@.len() implies keys_distinct(#[trigger] key_pairs(entries@[j].1@)) by {
                        if j != i {
                            assert(entries@[j] == old_entries[j]);
                        }
                    }
                }
                self.entries = entries;
            }
            None => {}
        }
    }
}

} // verus!
