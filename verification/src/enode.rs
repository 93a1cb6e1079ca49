use vstd::prelude::*;

use crate::Id;
use crate::unionfind::UnionFind;

verus! {

/// The operator set of a domain: a finite tagged set, each tag with a fixed
/// arity, whose payloads (number literals, names) take part in structural
/// equality. Implementations come from the user of the engine.
pub trait Language: Sized {
}

/// An operator applied to children: the node form stored in e-classes. The
/// child type defaults to `Id`, a child class handle; an analysis
/// instantiates it with references to its own data when computing the datum
/// of a fresh node.
#[derive(Debug, Clone, PartialEq, Eq, Hash)]
pub struct ENode<L, Child = Id> {
    /// The operator at the head of this node.
    pub op: L,
    /// One entry per argument of `op`.
    pub children: Vec<Child>,
}

impl<L> ENode<L> {
    /// Whether every child of this node is a root of the union-find: the
    /// form under which e-nodes are compared and hashconsed.
    pub open spec fn is_canonical<V>(self, uf: UnionFind<V>) -> bool {
        forall|i: int|
            0 <= i < self.children@.len() ==> uf.is_root(#[trigger] self.children@[i] as int)
    }

    /// The roots that this node's children resolve to, in order: what the
    /// children of the canonical form of this node are.
    pub open spec fn canonical_children<V>(self, uf: UnionFind<V>) -> Seq<int> {
        Seq::new(self.children@.len(), |i: int| uf.root(self.children@[i] as int))
    }

    /// Congruence: two nodes that carry the same operator, and whose
    /// children resolve pairwise to the same roots, have the same canonical
    /// form — so one stands for the other everywhere classes are compared.
    pub proof fn lemma_congruence<V>(x: ENode<L>, y: ENode<L>, uf: UnionFind<V>)
        requires
            x.op == y.op,
            x.children@.len() == y.children@.len(),
            forall|i: int|
                0 <= i < x.children@.len() ==> uf.root(#[trigger] x.children@[i] as int)
                    == uf.root(#[trigger] y.children@[i] as int),
        ensures
            x.canonical_children(uf) == y.canonical_children(uf),
    {
        assert(x.canonical_children(uf) =~= y.canonical_children(uf));
    }

    /// Replaces every child by the root of its class: the canonical form of
    /// this node. The result is canonical, and canonicalizing it again would
    /// change nothing, since the root of a root is itself.
    pub fn canonicalize<V>(self, uf: &mut UnionFind<V>) -> (r: ENode<L>)
        requires
            old(uf).wf(),
            forall|i: int|
                0 <= i < self.children@.len() ==> #[trigger] self.children@[i] < old(uf).size(),
        ensures
            r.op == self.op,
            r.children@.len() == self.children@.len(),
            forall|i: int|
                0 <= i < self.children@.len() ==> r.children@[i] == old(uf).root(
                    #[trigger] self.children@[i] as int,
                ),
            r.children@.map_values(|c: Id| c as int) == self.canonical_children(*old(uf)),
            r.is_canonical(*final(uf)),
            final(uf).wf(),
            final(uf).size() == old(uf).size(),
            forall|j: int| 0 <= j < old(uf).size() ==> final(uf).root(j) == old(uf).root(j),
            forall|j: int| 0 <= j < old(uf).size() ==> final(uf).is_root(j) == old(uf).is_root(j),
            forall|j: int|
                0 <= j < old(uf).size() ==> final(uf).value_at(j) == old(uf).value_at(j),
            final(uf).num_sets() == old(uf).num_sets(),
    {
        let ENode { op, children } = self;
        let mut canon: Vec<Id> = Vec::new();
        let mut i: usize = 0;
        while i < children.len()
            invariant
                i <= children@.len(),
                old(uf).wf(),
                uf.wf(),
                uf.size() == old(uf).size(),
                forall|k: int|
                    0 <= k < children@.len() ==> #[trigger] children@[k] < old(uf).size(),
                forall|j: int| 0 <= j < old(uf).size() ==> uf.root(j) == old(uf).root(j),
                forall|j: int| 0 <= j < old(uf).size() ==> uf.is_root(j) == old(uf).is_root(j),
                forall|j: int|
                    0 <= j < old(uf).size() ==> uf.value_at(j) == old(uf).value_at(j),
                uf.num_sets() == old(uf).num_sets(),
                canon@.len() == i,
                forall|k: int|
                    0 <= k < i ==> #[trigger] canon@[k] == old(uf).root(children@[k] as int),
                forall|k: int| 0 <= k < i ==> uf.is_root(#[trigger] canon@[k] as int),
            decreases children@.len() - i,
        {
            let root: Id = uf.find(children[i]);
            canon.push(root);
            proof {
                assert forall|k: int| 0 <= k < canon@.len() implies uf.is_root(
                    #[trigger] canon@[k] as int,
                ) by {
                    if k < canon@.len() - 1 {
                        old(uf).lemma_root_is_root(children@[k] as int);
                    }
                }
            }
            i = i + 1;
        }
        proof {
            assert(canon@.map_values(|c: Id| c as int) =~= ENode {
                op,
                children,
            }.canonical_children(*old(uf)));
        }
        ENode { op, children: canon }
    }
}

} // verus!
