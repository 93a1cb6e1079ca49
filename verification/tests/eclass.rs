use egg::{EClass, ENode, Id, Language, Metadata, UnionFind, Value};

#[derive(Debug, Clone, Copy, PartialEq, Eq, Hash)]
enum Op {
    Num(i32),
    Add,
    Var(char),
}

impl Language for Op {}

fn enode(op: Op, children: Vec<Id>) -> ENode<Op> {
    ENode { op, children }
}

/// Constant-folding style analysis data: the constant the class is known to
/// equal, if any. Merging keeps a constant only when both sides have one.
#[derive(Debug, Clone, Copy, PartialEq, Eq)]
struct Const(Option<i32>);

impl Metadata<Op> for Const {
    fn merge_spec(self, other: Const) -> Const {
        Const(self.0.and(other.0))
    }

    fn merge(&self, other: &Const) -> Const {
        Const(self.0.and(other.0))
    }

    fn make(enode: ENode<Op, &Const>) -> Const {
        match enode.op {
            Op::Num(i) => Const(Some(i)),
            Op::Add => {
                let a = enode.children[0].0;
                let b = enode.children[1].0;
                match (a, b) {
                    (Some(a), Some(b)) => Const(Some(a + b)),
                    _ => Const(None),
                }
            }
            Op::Var(_) => Const(None),
        }
    }

    fn modify(eclass: &mut EClass<Op, Const>) {
        if let Some(i) = eclass.metadata.0 {
            eclass.nodes.push(ENode { op: Op::Num(i), children: vec![] });
        }
    }
}

#[test]
fn new_class_is_empty() {
    let c: EClass<Op, ()> = EClass::new(0, vec![], ());
    assert!(c.is_empty());
    assert_eq!(c.len(), 0);
    assert!(c.parent_ids().is_empty());
}

#[test]
fn len_counts_nodes() {
    let nodes = vec![enode(Op::Var('x'), vec![]), enode(Op::Num(1), vec![])];
    let c: EClass<Op, ()> = EClass::new(3, nodes, ());
    assert!(!c.is_empty());
    assert_eq!(c.len(), 2);
}

#[test]
fn iter_yields_nodes_in_order() {
    let nodes = vec![enode(Op::Add, vec![0, 1]), enode(Op::Num(5), vec![])];
    let c: EClass<Op, ()> = EClass::new(2, nodes.clone(), ());
    let seen: Vec<ENode<Op>> = c.iter().iter().cloned().collect();
    assert_eq!(seen, nodes);
}

#[test]
fn merge_keeps_first_id() {
    let to: EClass<Op, ()> = EClass::new(4, vec![enode(Op::Num(1), vec![])], ());
    let from: EClass<Op, ()> = EClass::new(9, vec![enode(Op::Num(2), vec![])], ());
    let merged = <EClass<Op, ()> as Value>::merge(to, from);
    assert_eq!(merged.id, 4);
}

#[test]
fn merge_starts_from_the_longer_list() {
    let to: EClass<Op, ()> = EClass::new(0, vec![enode(Op::Var('a'), vec![])], ());
    let from: EClass<Op, ()> = EClass::new(
        1,
        vec![enode(Op::Num(1), vec![]), enode(Op::Num(2), vec![])],
        (),
    );
    let merged = <EClass<Op, ()> as Value>::merge(to, from);
    assert_eq!(
        *merged.iter(),
        vec![
            enode(Op::Num(1), vec![]),
            enode(Op::Num(2), vec![]),
            enode(Op::Var('a'), vec![]),
        ]
    );
}

#[test]
fn merge_of_equal_lengths_starts_from_the_second() {
    let to: EClass<Op, ()> = EClass::new(0, vec![enode(Op::Var('a'), vec![])], ());
    let from: EClass<Op, ()> = EClass::new(1, vec![enode(Op::Var('b'), vec![])], ());
    let merged = <EClass<Op, ()> as Value>::merge(to, from);
    assert_eq!(
        *merged.iter(),
        vec![enode(Op::Var('b'), vec![]), enode(Op::Var('a'), vec![])]
    );
}

#[test]
fn merge_combines_metadata() {
    let to = EClass::new(0, vec![enode(Op::Num(7), vec![])], Const(Some(7)));
    let from = EClass::new(1, vec![enode(Op::Var('x'), vec![])], Const(None));
    let merged = <EClass<Op, Const> as Value>::merge(to, from);
    assert_eq!(merged.metadata, Const(None));
}

#[test]
fn merge_runs_the_modify_hook() {
    let to = EClass::new(0, vec![enode(Op::Add, vec![1, 2])], Const(Some(3)));
    let from = EClass::new(3, vec![enode(Op::Num(3), vec![])], Const(Some(3)));
    let merged = <EClass<Op, Const> as Value>::merge(to, from);
    assert_eq!(merged.metadata, Const(Some(3)));
    // the hook appended the folded constant after the united node lists
    assert_eq!(merged.len(), 3);
    assert_eq!(
        merged.iter().last(),
        Some(&enode(Op::Num(3), vec![]))
    );
}

#[test]
fn union_merges_classes_in_the_unionfind() {
    let mut uf: UnionFind<EClass<Op, ()>> = UnionFind::new();
    let a = uf.make_set(EClass::new(0, vec![enode(Op::Var('a'), vec![])], ()));
    let b = uf.make_set(EClass::new(1, vec![enode(Op::Var('b'), vec![])], ()));
    let r = uf.union(a, b);
    assert_eq!(r, 0);
    let class = uf.value(r);
    assert_eq!(class.id, 0);
    assert_eq!(class.len(), 2);
}

#[test]
fn canonicalize_replaces_children_by_roots() {
    let mut uf: UnionFind<EClass<Op, ()>> = UnionFind::new();
    for id in 0..4u32 {
        uf.make_set(EClass::new(id, vec![], ()));
    }
    uf.union(0, 1);
    uf.union(2, 3);
    let n = enode(Op::Add, vec![1, 3]);
    let canon = n.canonicalize(&mut uf);
    assert_eq!(canon.op, Op::Add);
    assert_eq!(canon.children, vec![0, 2]);
    // a canonical node is left as it is
    let again = canon.clone().canonicalize(&mut uf);
    assert_eq!(again, canon);
}

#[test]
fn congruent_nodes_canonicalize_alike() {
    let mut uf: UnionFind<EClass<Op, ()>> = UnionFind::new();
    for id in 0..3u32 {
        uf.make_set(EClass::new(id, vec![], ()));
    }
    uf.union(0, 1);
    let x = enode(Op::Add, vec![0, 2]);
    let y = enode(Op::Add, vec![1, 2]);
    let cx = x.canonicalize(&mut uf);
    let cy = y.canonicalize(&mut uf);
    assert_eq!(cx, cy);
}

#[test]
fn add_parent_registers_each_index_once() {
    let mut c: EClass<Op, ()> = EClass::new(0, vec![], ());
    assert!(c.add_parent(1));
    assert!(!c.add_parent(1));
    assert!(c.add_parent(2));
    let mut ids = c.parent_ids();
    ids.sort();
    assert_eq!(ids, vec![1, 2]);
}

#[test]
fn merge_unites_the_parent_indices() {
    let mut to: EClass<Op, ()> = EClass::new(0, vec![enode(Op::Num(1), vec![])], ());
    to.add_parent(1);
    to.add_parent(2);
    let mut from: EClass<Op, ()> = EClass::new(1, vec![enode(Op::Num(2), vec![])], ());
    from.add_parent(2);
    from.add_parent(3);
    let merged = <EClass<Op, ()> as Value>::merge(to, from);
    let mut ids = merged.parent_ids();
    ids.sort();
    assert_eq!(ids, vec![1, 2, 3]);
}
