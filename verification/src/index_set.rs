//! The back-index of an e-class holds the positions of the e-nodes that have
//! the class among their children. It is kept in an `indexmap::IndexSet`,
//! which the verifier sees only through the contracts below.

use vstd::prelude::*;

verus! {

#[verifier::external_type_specification]
#[verifier::external_body]
#[verifier::reject_recursive_types(T)]
#[verifier::reject_recursive_types(S)]
pub struct ExIndexSet<T, S>(indexmap::IndexSet<T, S>);

/// The set of values an `indexmap::IndexSet<usize>` holds.
pub uninterp spec fn index_set_elems(s: indexmap::IndexSet<usize>) -> Set<usize>;

/// Relies on indexmap's `Clone` impl for `IndexSet`, about whose result
/// nothing is claimed; it only lets a class holding such a set be cloned.
pub assume_specification<T, S>[ <indexmap::IndexSet<T, S> as std::clone::Clone>::clone ](
    s: &indexmap::IndexSet<T, S>,
) -> indexmap::IndexSet<T, S>
    where
        T: std::clone::Clone,
        S: std::clone::Clone,
;

/// Relies on indexmap::IndexSet::new: makes a set that holds nothing.
#[verifier::external_body]
pub(crate) fn index_set_new() -> (r: indexmap::IndexSet<usize>)
    ensures
        index_set_elems(r) == Set::<usize>::empty(),
{
    indexmap::IndexSet::new()
}

/// Relies on indexmap::IndexSet::insert: adds the value, and says whether it
/// was absent before.
#[verifier::external_body]
pub(crate) fn index_set_insert(s: &mut indexmap::IndexSet<usize>, v: usize) -> (r: bool)
    ensures
        index_set_elems(*final(s)) == index_set_elems(*old(s)).insert(v),
        r == !index_set_elems(*old(s)).contains(v),
{
    s.insert(v)
}

/// Relies on indexmap's `Extend` impl for `IndexSet`: inserts every value of
/// the given set into `a`.
#[verifier::external_body]
pub(crate) fn index_set_extend(a: &mut indexmap::IndexSet<usize>, b: indexmap::IndexSet<usize>)
    ensures
        index_set_elems(*final(a)) == index_set_elems(*old(a)).union(index_set_elems(b)),
{
    a.extend(b)
}

/// Relies on indexmap::IndexSet::iter: yields each held value exactly once.
#[verifier::external_body]
pub(crate) fn index_set_to_vec(s: &indexmap::IndexSet<usize>) -> (r: Vec<usize>)
    ensures
        r@.to_set() == index_set_elems(*s),
        r@.no_duplicates(),
{
    s.iter().copied().collect()
}

} // verus!
