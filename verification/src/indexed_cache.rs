//! Interning cache: a bidirectional, append-only store mapping values to
//! dense integer indices, with a canonical (insertion-order independent)
//! ordering for reproducible serialization.

use vstd::prelude::*;
use vstd::relations::{sorted_by, total_ordering};
use vstd::seq_lib::lemma_sorted_unique;
use itertools::Itertools;
use std::collections::HashMap;

verus! {

broadcast use vstd::std_specs::hash::group_hash_axioms;

/// The ascending order on cached values.
pub open spec fn value_le() -> spec_fn(u64, u64) -> bool {
    |a: u64, b: u64| a <= b
}

/// The canonical order of a set of cached values: ascending by value,
/// independent of the order the values were interned in.
pub open spec fn canonical_of(s: Seq<u64>) -> Seq<u64> {
    s.sort_by(value_le())
}

/// The ascending order on values is a total order.
pub proof fn lemma_value_le_total()
    ensures
        total_ordering(value_le()),
{
    assert forall|a: u64, b: u64| !(#[trigger] value_le()(a, b)) implies value_le()(b, a) by {}
}

/// A sequence with the same multiset of items as a duplicate-free sequence is
/// itself duplicate-free.
pub proof fn lemma_no_duplicates_transfer(a: Seq<u64>, b: Seq<u64>)
    requires
        a.no_duplicates(),
        a.to_multiset() == b.to_multiset(),
    ensures
        b.no_duplicates(),
{
    a.lemma_multiset_has_no_duplicates();
    b.lemma_multiset_has_no_duplicates_conv();
}

/// Canonical-order independence: two caches holding the same multiset of
/// values, in whatever insertion orders, have identical canonical orders.
pub proof fn lemma_canonical_order_independent(a: Seq<u64>, b: Seq<u64>)
    requires
        a.to_multiset() == b.to_multiset(),
    ensures
        canonical_of(a) == canonical_of(b),
{
    lemma_value_le_total();
    a.lemma_sort_by_ensures(value_le());
    b.lemma_sort_by_ensures(value_le());
    lemma_sorted_unique(canonical_of(a), canonical_of(b), value_le());
}

/// Equal values receive equal canonical indices: in the canonical orders of
/// two duplicate-free caches holding the same values, one value sits at one
/// position, regardless of either insertion order.
pub proof fn lemma_canonical_index_agrees(a: Seq<u64>, b: Seq<u64>, pa: int, pb: int)
    requires
        a.no_duplicates(),
        a.to_multiset() == b.to_multiset(),
        0 <= pa < canonical_of(a).len(),
        0 <= pb < canonical_of(b).len(),
        canonical_of(a)[pa] == canonical_of(b)[pb],
    ensures
        pa == pb,
{
    lemma_value_le_total();
    lemma_canonical_order_independent(a, b);
    a.lemma_sort_by_ensures(value_le());
    lemma_no_duplicates_transfer(a, canonical_of(a));
    if pa != pb {
        assert(canonical_of(a)[pa] != canonical_of(a)[pb]);
    }
}

/// Relies on `itertools::Itertools::sorted`: it collects the iterator's items
/// into a vector and sorts it ascending with `slice::sort`, so the result
/// holds exactly the input's items, in ascending order.
#[verifier::external_body]
fn sort_values(v: &Vec<u64>) -> (r: Vec<u64>)
    ensures
        r@.to_multiset() == v@.to_multiset(),
        sorted_by(r@, value_le()),
{
    v.iter().copied().sorted().collect()
}

/// Index of a value in a vector that holds it.
fn position_of(s: &Vec<u64>, a: u64) -> (p: usize)
    requires
        s@.contains(a),
    ensures
        p < s@.len(),
        s@[p as int] == a,
{
    let mut j: usize = 0;
    while j < s.len()
        invariant
            j <= s@.len(),
            s@.contains(a),
            forall|k: int| 0 <= k < j ==> s@[k] != a,
        decreases s@.len() - j,
    {
        if s[j] == a {
            return j;
        }
        j += 1;
    }
    proof {
        let k = choose|k: int| 0 <= k < s@.len() && s@[k] == a;
        assert(false);
    }
    j
}

/// A cache of values with efficient lookup by value and by index. Interning a
/// value returns its existing index if an equal value was interned before,
/// and otherwise appends it under the next sequential index; indices are
/// never reused or invalidated.
#[derive(Debug)]
pub struct IndexedCache {
    /// Store of values for access by index.
    cache: Vec<u64>,
    /// Store of indices for access by value.
    lookup: HashMap<u64, usize>,
}

impl View for IndexedCache {
    type V = Seq<u64>;

    closed spec fn view(&self) -> Seq<u64> {
        self.cache@
    }
}

impl IndexedCache {
    /// Internal consistency: the store holds each value once, and the reverse
    /// map holds exactly the stored values, each at its index.
    pub closed spec fn wf(self) -> bool {
        &&& self.cache@.no_duplicates()
        &&& forall|i: int|
            0 <= i < self.cache@.len() ==> #[trigger] self.lookup@.contains_key(self.cache@[i])
                && self.lookup@[self.cache@[i]] == i
        &&& forall|k: u64| #[trigger] self.lookup@.contains_key(k) ==> self.cache@.contains(k)
    }

    /// An empty cache.
    pub fn new() -> (r: Self)
        ensures
            r.wf(),
            r@ == Seq::<u64>::empty(),
    {
        IndexedCache { cache: Vec::new(), lookup: HashMap::new() }
    }

    /// A cache holding the given duplicate-free values, in order, at indices
    /// `0..n`.
    pub fn from(cache: Vec<u64>) -> (r: Self)
        requires
            cache@.no_duplicates(),
        ensures
            r.wf(),
            r@ == cache@,
    {
        let mut lookup: HashMap<u64, usize> = HashMap::new();
        let mut i: usize = 0;
        while i < cache.len()
            invariant
                i <= cache@.len(),
                cache@.no_duplicates(),
                forall|j: int|
                    0 <= j < i ==> #[trigger] lookup@.contains_key(cache@[j])
                        && lookup@[cache@[j]] == j,
                forall|k: u64| #[trigger] lookup@.contains_key(k) ==> cache@.take(i as int).contains(k),
            decreases cache@.len() - i,
        {
            lookup.insert(cache[i], i);
            proof {
                assert forall|k: u64| #[trigger] lookup@.contains_key(k) implies cache@.take(
                    i + 1,
                ).contains(k) by {
                    if k == cache@[i as int] {
                        assert(cache@.take(i + 1)[i as int] == k);
                    } else {
                        let j = choose|j: int| 0 <= j < i && cache@.take(i as int)[j] == k;
                        assert(cache@.take(i + 1)[j] == k);
                    }
                }
            }
            i += 1;
        }
        proof {
            assert(cache@.take(cache@.len() as int) =~= cache@);
        }
        IndexedCache { cache, lookup }
    }

    /// Intern a value: the index of an equal value interned before, or else
    /// the next sequential index, under which the value is appended. The
    /// returned index always reads back to the interned value, and is the
    /// only index that does.
    pub fn cache(&mut self, item: u64) -> (n: usize)
        requires
            old(self).wf(),
        ensures
            final(self).wf(),
            n < final(self)@.len(),
            final(self)@[n as int] == item,
            forall|j: int| 0 <= j < final(self)@.len() && final(self)@[j] == item ==> j == n,
            old(self)@.contains(item) ==> final(self)@ == old(self)@,
            !old(self)@.contains(item) ==> final(self)@ == old(self)@.push(item) && n == old(
                self,
            )@.len(),
    {
        let r = self.lookup.get(&item);
        match r {
            Some(idx) => {
                let n = *idx;
                proof {
                    let i0 = choose|i0: int| 0 <= i0 < self.cache@.len() && self.cache@[i0] == item;
                    assert(self.lookup@[self.cache@[i0]] == i0);
                }
                n
            },
            None => {
                let n = self.cache.len();
                proof {
                    if self.cache@.contains(item) {
                        let i0 = choose|i0: int|
                            0 <= i0 < self.cache@.len() && self.cache@[i0] == item;
                        assert(self.lookup@.contains_key(self.cache@[i0]));
                    }
                }
                self.cache.push(item);
                self.lookup.insert(item, n);
                proof {
                    assert forall|k: u64| #[trigger] self.lookup@.contains_key(k) implies self.cache@.contains(
                        k,
                    ) by {
                        if k == item {
                            assert(self.cache@[n as int] == k);
                        } else {
                            let j = choose|j: int|
                                0 <= j < old(self).cache@.len() && old(self).cache@[j] == k;
                            assert(self.cache@[j] == k);
                        }
                    }
                }
                n
            },
        }
    }

    /// The index of an equal interned value, if there is one; a pure read.
    pub fn lookup(&self, item: u64) -> (r: Option<usize>)
        requires
            self.wf(),
        ensures
            match r {
                Some(n) => n < self@.len() && self@[n as int] == item,
                None => !self@.contains(item),
            },
    {
        let r = self.lookup.get(&item);
        match r {
            Some(idx) => {
                let n = *idx;
                proof {
                    let i0 = choose|i0: int| 0 <= i0 < self.cache@.len() && self.cache@[i0] == item;
                    assert(self.lookup@[self.cache@[i0]] == i0);
                }
                Some(n)
            },
            None => {
                proof {
                    if self.cache@.contains(item) {
                        let i0 = choose|i0: int|
                            0 <= i0 < self.cache@.len() && self.cache@[i0] == item;
                        assert(self.lookup@.contains_key(self.cache@[i0]));
                    }
                }
                None
            },
        }
    }

    /// The number of interned values.
    pub fn len(&self) -> (n: usize)
        ensures
            n == self@.len(),
    {
        self.cache.len()
    }

    /// The value at an index. Callers must only present indices obtained from
    /// `cache` or `lookup`; an index out of range is a contract violation,
    /// not a recoverable error.
    pub fn get(&self, index: usize) -> (v: u64)
        requires
            index < self@.len(),
        ensures
            v == self@[index as int],
    {
        self.cache[index]
    }

    /// A copy of this cache holding the same values in canonical (ascending)
    /// order, with fresh indices `0..n` assigned by that order. The result
    /// depends only on which values are held, never on insertion history.
    pub fn sorted(&self) -> (r: IndexedCache)
        requires
            self.wf(),
        ensures
            r.wf(),
            r@ == canonical_of(self@),
    {
        let sorted_vec = sort_values(&self.cache);
        proof {
            lemma_value_le_total();
            self.cache@.lemma_sort_by_ensures(value_le());
            lemma_sorted_unique(sorted_vec@, canonical_of(self.cache@), value_le());
            lemma_no_duplicates_transfer(self.cache@, sorted_vec@);
        }
        Self::from(sorted_vec)
    }

    /// For each insertion-order index, the rank of its value under the
    /// canonical order: a permutation translating insertion-order indices to
    /// canonical indices.
    pub fn encode_index(&self) -> (r: Vec<usize>)
        requires
            self.wf(),
        ensures
            r@.len() == self@.len(),
            forall|i: int|
                0 <= i < r@.len() ==> r@[i] < self@.len() && canonical_of(self@)[#[trigger] r@[i] as int]
                    == self@[i],
    {
        let s = sort_values(&self.cache);
        proof {
            lemma_value_le_total();
            self.cache@.lemma_sort_by_ensures(value_le());
            lemma_sorted_unique(s@, canonical_of(self.cache@), value_le());
            s@.to_multiset_ensures();
            self.cache@.to_multiset_ensures();
        }
        let mut r: Vec<usize> = Vec::new();
        let mut i: usize = 0;
        while i < self.cache.len()
            invariant
                i <= self.cache@.len(),
                s@ == canonical_of(self.cache@),
                s@.to_multiset() == self.cache@.to_multiset(),
                s@.len() == self.cache@.len(),
                r@.len() == i,
                forall|k: int|
                    0 <= k < i ==> r@[k] < s@.len() && s@[#[trigger] r@[k] as int]
                        == self.cache@[k],
            decreases self.cache@.len() - i,
        {
            let a = self.cache[i];
            proof {
                s@.to_multiset_ensures();
                self.cache@.to_multiset_ensures();
                assert(self.cache@.contains(a));
                assert(self.cache@.to_multiset().contains(a));
            }
            let p = position_of(&s, a);
            r.push(p);
            i += 1;
        }
        r
    }
}

} // verus!
