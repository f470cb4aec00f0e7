use automerge::indexed_cache::IndexedCache;

#[test]
fn cache_round_trip() {
    let mut c = IndexedCache::new();
    let i5 = c.cache(5);
    let i7 = c.cache(7);
    assert_eq!(i5, 0);
    assert_eq!(i7, 1);
    assert_eq!(c.get(i5), 5);
    assert_eq!(c.get(i7), 7);
    // Interning the same value again returns the same index both times.
    assert_eq!(c.cache(5), i5);
    assert_eq!(c.cache(7), i7);
    assert_eq!(c.len(), 2);
}

#[test]
fn lookup_is_a_pure_read() {
    let mut c = IndexedCache::new();
    c.cache(42);
    assert_eq!(c.lookup(42), Some(0));
    assert_eq!(c.lookup(9), None);
    assert_eq!(c.len(), 1);
}

#[test]
fn from_assigns_indices_in_order() {
    let c = IndexedCache::from(vec![4, 5, 6]);
    assert_eq!(c.len(), 3);
    assert_eq!(c.get(0), 4);
    assert_eq!(c.get(1), 5);
    assert_eq!(c.get(2), 6);
    assert_eq!(c.lookup(6), Some(2));
}

#[test]
fn sorted_orders_by_value() {
    let mut c = IndexedCache::new();
    c.cache(9);
    c.cache(2);
    c.cache(5);
    let s = c.sorted();
    assert_eq!(s.len(), 3);
    assert_eq!(s.get(0), 2);
    assert_eq!(s.get(1), 5);
    assert_eq!(s.get(2), 9);
}

#[test]
fn encode_index_gives_canonical_ranks() {
    let mut c = IndexedCache::new();
    c.cache(30);
    c.cache(10);
    c.cache(20);
    // Canonical order is 10, 20, 30, so insertion indices map to 2, 0, 1.
    assert_eq!(c.encode_index(), vec![2, 0, 1]);
}

#[test]
fn canonical_order_is_insertion_independent() {
    let mut a = IndexedCache::new();
    a.cache(3);
    a.cache(1);
    a.cache(2);
    let mut b = IndexedCache::new();
    b.cache(2);
    b.cache(3);
    b.cache(1);
    let sa = a.sorted();
    let sb = b.sorted();
    assert_eq!(sa.len(), sb.len());
    for i in 0..sa.len() {
        assert_eq!(sa.get(i), sb.get(i));
    }
    // Equal values receive equal canonical indices via encode_index.
    let ea = a.encode_index();
    let eb = b.encode_index();
    // Value 3 sits at insertion index 0 in a and 1 in b.
    assert_eq!(ea[0], eb[1]);
    // Value 1 sits at insertion index 1 in a and 2 in b.
    assert_eq!(ea[1], eb[2]);
    // Value 2 sits at insertion index 2 in a and 0 in b.
    assert_eq!(ea[2], eb[0]);
}
