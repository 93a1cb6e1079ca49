use egg::{UnionFind, Value};

#[derive(Debug, Clone, Copy, PartialEq, Eq)]
struct Size(u64);

impl Value for Size {
    fn merge_ok(to: Size, from: Size, result: Size) -> bool {
        result.0 == to.0 + from.0
    }

    fn merge(to: Size, from: Size) -> Size {
        Size(to.0 + from.0)
    }
}

#[test]
fn make_set_hands_out_consecutive_ids() {
    let mut uf: UnionFind<Size> = UnionFind::new();
    assert_eq!(uf.len(), 0);
    assert_eq!(uf.make_set(Size(1)), 0);
    assert_eq!(uf.make_set(Size(1)), 1);
    assert_eq!(uf.make_set(Size(1)), 2);
    assert_eq!(uf.len(), 3);
}

#[test]
fn find_returns_self_for_singletons() {
    let mut uf: UnionFind<Size> = UnionFind::new();
    for _ in 0..4 {
        uf.make_set(Size(1));
    }
    for id in 0..4u32 {
        assert_eq!(uf.find(id), id);
    }
}

#[test]
fn union_then_find_equal() {
    let mut uf: UnionFind<Size> = UnionFind::new();
    for _ in 0..3 {
        uf.make_set(Size(1));
    }
    uf.union(0, 2);
    assert_eq!(uf.find(0), uf.find(2));
    assert_ne!(uf.find(0), uf.find(1));
}

#[test]
fn union_keeps_smaller_root() {
    let mut uf: UnionFind<Size> = UnionFind::new();
    for _ in 0..3 {
        uf.make_set(Size(1));
    }
    assert_eq!(uf.union(2, 1), 1);
    assert_eq!(uf.union(2, 0), 0);
    assert_eq!(uf.find(1), 0);
    assert_eq!(uf.find(2), 0);
}

#[test]
fn union_merges_values_at_the_root() {
    let mut uf: UnionFind<Size> = UnionFind::new();
    uf.make_set(Size(1));
    uf.make_set(Size(2));
    uf.make_set(Size(4));
    let r = uf.union(0, 1);
    assert_eq!(*uf.value(r), Size(3));
    let r = uf.union(2, 1);
    assert_eq!(r, 0);
    assert_eq!(*uf.value(r), Size(7));
}

#[test]
fn union_of_one_set_changes_nothing() {
    let mut uf: UnionFind<Size> = UnionFind::new();
    uf.make_set(Size(1));
    uf.make_set(Size(2));
    let r = uf.union(0, 1);
    assert_eq!(uf.union(0, 1), r);
    assert_eq!(uf.union(1, 0), r);
    assert_eq!(*uf.value(r), Size(3));
}

#[test]
fn union_drops_the_set_count_by_one() {
    let mut uf: UnionFind<Size> = UnionFind::new();
    assert_eq!(uf.count_sets(), 0);
    for _ in 0..3 {
        uf.make_set(Size(1));
    }
    assert_eq!(uf.count_sets(), 3);
    uf.union(0, 1);
    assert_eq!(uf.count_sets(), 2);
    uf.union(1, 0);
    assert_eq!(uf.count_sets(), 2);
    uf.union(1, 2);
    assert_eq!(uf.count_sets(), 1);
}

#[test]
fn unions_are_transitive() {
    let mut uf: UnionFind<Size> = UnionFind::new();
    for _ in 0..5 {
        uf.make_set(Size(1));
    }
    uf.union(0, 1);
    uf.union(1, 2);
    uf.union(3, 4);
    assert_eq!(uf.find(0), uf.find(2));
    assert_eq!(uf.find(1), uf.find(2));
    assert_ne!(uf.find(2), uf.find(3));
    assert_eq!(uf.find(3), uf.find(4));
}
