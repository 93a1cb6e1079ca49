//! An equivalence class of e-nodes, the per-class analysis data attached to
//! it, and how two classes melt into one when the union-find unites them.

use vstd::prelude::*;

use crate::Id;
use crate::enode::ENode;
use crate::enode::Language;
use crate::index_set::index_set_elems;
use crate::index_set::index_set_extend;
use crate::index_set::index_set_insert;
use crate::index_set::index_set_new;
use crate::index_set::index_set_to_vec;
use crate::unionfind::Value;

verus! {

/// Arbitrary analysis data attached to each e-class.
///
/// The data is made when an e-node is added, merged when two classes unify,
/// and may then mutate its containing class through `modify` — for example,
/// an analysis that constant-folds arithmetic can add an e-node for the
/// folded value. If no data is wanted, `()` implements this trivially.
pub trait Metadata<L>: Sized {
    /// What `merge` returns for a given pair of data. For saturation to be
    /// well defined it should be associative, commutative and idempotent.
    spec fn merge_spec(self, other: Self) -> Self;

    /// Combines the data of two classes that unify.
    fn merge(&self, other: &Self) -> (r: Self)
        ensures
            r == Self::merge_spec(*self, *other),
    ;

    /// Computes the datum of a freshly added e-node, whose children carry
    /// the data shown in their place.
    fn make(enode: ENode<L, &Self>) -> Self;

    /// A hook that lets the data mutate its containing class: it may add
    /// e-nodes, and nothing else — no e-node, parent or datum is lost.
    fn modify(eclass: &mut EClass<L, Self>)
        ensures
            final(eclass).id == old(eclass).id,
            final(eclass).metadata == old(eclass).metadata,
            old(eclass).nodes@.is_prefix_of(final(eclass).nodes@),
            final(eclass).parent_set() == old(eclass).parent_set(),
    {
    }
}

/// The trivial analysis: no data at all.
impl<L: Language> Metadata<L> for () {
    open spec fn merge_spec(self, other: Self) -> Self {
        ()
    }

    fn merge(&self, _other: &Self) -> Self {
        ()
    }

    fn make(_enode: ENode<L, &Self>) -> Self {
        ()
    }
}

/// An equivalence class of e-nodes, with its analysis data and the
/// back-index of the e-nodes that have this class among their children.
#[derive(Debug, Clone)]
#[non_exhaustive]
pub struct EClass<L, M> {
    /// This class's id.
    pub id: Id,
    /// The equivalent e-nodes in this class.
    pub nodes: Vec<ENode<L>>,
    /// The analysis data attached to this class.
    pub metadata: M,
    /// The back-index: positions of the e-nodes that have this class among
    /// their children, maintained by the containing graph for its repairs.
    pub parents: indexmap::IndexSet<usize>,
}

impl<L, M> EClass<L, M> {
    /// The parent indices registered in the back-index.
    pub open spec fn parent_set(self) -> Set<usize> {
        index_set_elems(self.parents)
    }

    /// Makes a class with the given id, e-nodes and data, and no parents
    /// registered yet.
    pub fn new(id: Id, nodes: Vec<ENode<L>>, metadata: M) -> (c: EClass<L, M>)
        ensures
            c.id == id,
            c.nodes == nodes,
            c.metadata == metadata,
            c.parent_set() == Set::<usize>::empty(),
    {
        EClass { id, nodes, metadata, parents: index_set_new() }
    }

    /// Returns `true` if the `eclass` is empty.
    pub fn is_empty(&self) -> (r: bool)
        ensures
            r == (self.nodes@.len() == 0),
    {
        self.nodes.is_empty()
    }

    /// Returns the number of enodes in this eclass.
    pub fn len(&self) -> (n: usize)
        ensures
            n == self.nodes@.len(),
    {
        self.nodes.len()
    }

    /// Iterates over the enodes in the this eclass.
    pub fn iter(&self) -> (r: &Vec<ENode<L>>)
        ensures
            r@ == self.nodes@,
    {
        &self.nodes
    }

    /// Registers `parent` in the back-index; returns `true` if it was new.
    pub fn add_parent(&mut self, parent: usize) -> (r: bool)
        ensures
            final(self).id == old(self).id,
            final(self).nodes == old(self).nodes,
            final(self).metadata == old(self).metadata,
            final(self).parent_set() == old(self).parent_set().insert(parent),
            r == !old(self).parent_set().contains(parent),
    {
        index_set_insert(&mut self.parents, parent)
    }

    /// The registered parent indices, each exactly once.
    pub fn parent_ids(&self) -> (r: Vec<usize>)
        ensures
            r@.to_set() == self.parent_set(),
            r@.no_duplicates(),
    {
        index_set_to_vec(&self.parents)
    }
}

/// When the union-find unites two classes, the surviving class keeps the
/// first class's id, concatenates the node lists starting from the longer
/// one, merges the analysis data, unites the parent back-indices, and then
/// runs the analysis's `modify` hook — which may only add e-nodes, so no
/// equality is lost.
impl<L: Language, M: Metadata<L>> Value for EClass<L, M> {
    open spec fn merge_ok(to: Self, from: Self, result: Self) -> bool {
        &&& result.id == to.id
        &&& result.metadata == M::merge_spec(to.metadata, from.metadata)
        &&& (if from.nodes@.len() < to.nodes@.len() {
            to.nodes@ + from.nodes@
        } else {
            from.nodes@ + to.nodes@
        }).is_prefix_of(result.nodes@)
        &&& result.nodes@.len() >= to.nodes@.len() + from.nodes@.len()
        &&& result.parent_set() == to.parent_set().union(from.parent_set())
    }

    fn merge(to: Self, from: Self) -> Self {
        let EClass { id, nodes: to_nodes, metadata: to_metadata, parents: mut parents } = to;
        let EClass { id: _, nodes: from_nodes, metadata: from_metadata, parents: from_parents } =
            from;
        let merged_metadata = to_metadata.merge(&from_metadata);
        let (mut more, mut less) = if from_nodes.len() < to_nodes.len() {
            (to_nodes, from_nodes)
        } else {
            (from_nodes, to_nodes)
        };
        more.append(&mut less);
        index_set_extend(&mut parents, from_parents);
        let mut eclass = EClass { id, nodes: more, metadata: merged_metadata, parents };
        M::modify(&mut eclass);
        eclass
    }
}

} // verus!
