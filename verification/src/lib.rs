//! Core pieces of an equality-saturation engine: the union-find that backs
//! an e-graph's class ids, e-nodes, and e-classes with user-supplied analysis
//! data that is merged when classes unify.

use vstd::prelude::*;

pub mod eclass;
pub mod enode;
pub mod index_set;
pub mod unionfind;

pub use eclass::EClass;
pub use eclass::Metadata;
pub use enode::ENode;
pub use enode::Language;
pub use unionfind::UnionFind;
pub use unionfind::Value;

verus! {

/// A class id: an integer handle resolved through the union-find.
pub type Id = u32;

} // verus!
