//! A disjoint-set forest over integer ids, with a value attached to each
//! root. This backs the class ids of an e-graph: every class id resolves
//! through `find` to a root, and `union` melts two classes into one,
//! combining their values.

use vstd::prelude::*;
use vstd::set_lib::lemma_int_range;
use vstd::set_lib::lemma_len_subset;
use vstd::set_lib::set_int_range;

use crate::Id;

verus! {

/// A value attached to the root of each set. When two sets unite, the two
/// root values are combined by `merge`; `merge_ok` is the implementation's
/// own statement of which results that combination may produce.
pub trait Value: Sized {
    /// Which results `merge` may return for the given pair of root values.
    spec fn merge_ok(to: Self, from: Self, result: Self) -> bool;

    /// Combines the surviving root's value `to` with the absorbed root's
    /// value `from`.
    fn merge(to: Self, from: Self) -> (r: Self)
        ensures
            Self::merge_ok(to, from, r),
    ;
}

/// Every slot's parent is the slot itself or an earlier slot, so every
/// parent chain is finite.
pub open spec fn parents_bounded(s: Seq<Id>) -> bool {
    forall|i: int| 0 <= i < s.len() ==> s[i] <= i
}

/// The root reached from slot `i` by following parent links.
pub open spec fn root_in(s: Seq<Id>, i: int) -> int
    decreases i when 0 <= i < s.len() && parents_bounded(s)
{
    if s[i] == i {
        i
    } else {
        root_in(s, s[i] as int)
    }
}

/// The root of a slot is a root, and lies at or before the slot.
pub proof fn lemma_root_props(s: Seq<Id>, i: int)
    requires
        parents_bounded(s),
        0 <= i < s.len(),
    ensures
        0 <= root_in(s, i) <= i,
        s[root_in(s, i)] == root_in(s, i),
    decreases i,
{
    if s[i] != i {
        lemma_root_props(s, s[i] as int);
    }
}

/// Appending a fresh slot leaves every old slot's root as it was.
proof fn lemma_root_push(s: Seq<Id>, x: Id, j: int)
    requires
        parents_bounded(s),
        parents_bounded(s.push(x)),
        0 <= j < s.len(),
    ensures
        root_in(s.push(x), j) == root_in(s, j),
    decreases j,
{
    if s[j] != j {
        lemma_root_push(s, x, s[j] as int);
    }
}

/// Pointing a non-root slot `x` straight at its own root `r` changes no
/// slot's root: the step this forest's path compression takes.
proof fn lemma_root_compress(s: Seq<Id>, x: int, r: Id, j: int)
    requires
        parents_bounded(s),
        0 <= x < s.len(),
        s[x] != x,
        root_in(s, x) == r,
        0 <= j < s.len(),
    ensures
        parents_bounded(s.update(x, r)),
        root_in(s.update(x, r), j) == root_in(s, j),
    decreases j,
{
    let t = s.update(x, r);
    lemma_root_props(s, x);
    assert(root_in(s, x) == root_in(s, s[x] as int));
    assert(r < x) by {
        lemma_root_props(s, s[x] as int);
    }
    if j == x {
        assert(root_in(t, x) == root_in(t, r as int));
        assert(t[r as int] == r);
        assert(root_in(t, r as int) == r);
    } else {
        if s[j] != j {
            lemma_root_compress(s, x, r, s[j] as int);
            assert(root_in(t, j) == root_in(t, s[j] as int));
        }
    }
}

/// Pointing a root `x` at a smaller root `r` moves exactly the slots that
/// were rooted at `x` over to `r`: the step `union` takes.
proof fn lemma_root_link(s: Seq<Id>, x: int, r: Id, j: int)
    requires
        parents_bounded(s),
        0 <= x < s.len(),
        0 <= r < x,
        s[x] == x,
        s[r as int] == r,
        0 <= j < s.len(),
    ensures
        parents_bounded(s.update(x, r)),
        root_in(s.update(x, r), j) == (if root_in(s, j) == x {
            r as int
        } else {
            root_in(s, j)
        }),
    decreases j,
{
    let t = s.update(x, r);
    if j == x {
        assert(root_in(t, x) == root_in(t, r as int));
        assert(t[r as int] == r);
        assert(root_in(t, r as int) == r);
    } else {
        if s[j] != j {
            lemma_root_link(s, x, r, s[j] as int);
            assert(root_in(t, j) == root_in(t, s[j] as int));
        }
    }
}

/// The roots among the slots before `n`.
spec fn roots_below(s: Seq<Id>, n: int) -> Set<int> {
    Set::new(|i: int| 0 <= i < n && i < s.len() && s[i] == i)
}

/// The roots below any bound form a finite set, no larger than the bound.
proof fn lemma_roots_below_finite(s: Seq<Id>, n: int)
    requires
        0 <= n,
    ensures
        roots_below(s, n).finite(),
        roots_below(s, n).len() <= n,
{
    lemma_int_range(0, n);
    assert(roots_below(s, n).subset_of(set_int_range(0, n)));
    lemma_len_subset(roots_below(s, n), set_int_range(0, n));
}

/// A disjoint-set forest over ids `0 .. size`, with a value of type `V` at
/// each root. Parent links point at or before their slot.
pub struct UnionFind<V> {
    parents: Vec<Id>,
    values: Vec<Option<V>>,
}

impl<V> UnionFind<V> {
    /// The number of ids made so far.
    pub closed spec fn size(self) -> int {
        self.parents@.len() as int
    }

    /// The root of the set that `i` belongs to.
    pub closed spec fn root(self, i: int) -> int {
        root_in(self.parents@, i)
    }

    /// Whether `i` is currently the root of its set.
    pub closed spec fn is_root(self, i: int) -> bool {
        0 <= i < self.size() && self.parents@[i] == i
    }

    /// The value attached to `i`, when `i` is a root.
    pub closed spec fn value_at(self, i: int) -> V {
        self.values@[i].unwrap()
    }

    /// Well-formed: parent links point at or before their slot, values and
    /// parents line up, and exactly the roots carry a value.
    pub closed spec fn wf(self) -> bool {
        &&& self.values@.len() == self.parents@.len()
        &&& parents_bounded(self.parents@)
        &&& forall|i: int|
            0 <= i < self.parents@.len() ==> ((self.values@[i] is Some) <==> self.parents@[i]
                == i)
    }

    /// The set of live roots: one per disjoint set.
    pub closed spec fn roots(self) -> Set<int> {
        Set::new(|i: int| self.is_root(i))
    }

    /// The number of disjoint sets.
    pub closed spec fn num_sets(self) -> nat {
        self.roots().len()
    }

    /// The root of a slot is itself a root, and lies at or before the slot.
    pub proof fn lemma_root_is_root(self, i: int)
        requires
            self.wf(),
            0 <= i < self.size(),
        ensures
            self.is_root(self.root(i)),
            0 <= self.root(i) <= i,
    {
        lemma_root_props(self.parents@, i);
    }

    /// Resolving an id twice adds nothing: the root of a root is itself.
    pub proof fn lemma_root_idempotent(self, i: int)
        requires
            self.wf(),
            0 <= i < self.size(),
        ensures
            self.root(self.root(i)) == self.root(i),
    {
        lemma_root_props(self.parents@, i);
    }

    /// The set of live roots is finite: it sits inside `0 .. size`.
    pub proof fn lemma_roots_finite(self)
        ensures
            self.roots().finite(),
            self.roots().len() <= self.size(),
    {
        lemma_int_range(0, self.size());
        assert(self.roots().subset_of(set_int_range(0, self.size())));
        lemma_len_subset(self.roots(), set_int_range(0, self.size()));
    }

    /// Makes an empty union-find.
    pub fn new() -> (r: UnionFind<V>)
        ensures
            r.wf(),
            r.size() == 0,
            r.num_sets() == 0,
    {
        let r = UnionFind { parents: Vec::new(), values: Vec::new() };
        proof {
            assert(r.roots() =~= Set::<int>::empty());
        }
        r
    }

    /// The number of ids made so far.
    pub fn len(&self) -> (n: usize)
        ensures
            n == self.size(),
    {
        self.parents.len()
    }

    /// Counts the disjoint sets: the slots that are their own parent.
    pub fn count_sets(&self) -> (n: usize)
        ensures
            n == self.num_sets(),
    {
        let ghost s = self.parents@;
        let mut count: usize = 0;
        let mut i: usize = 0;
        proof {
            assert(roots_below(s, 0) =~= Set::<int>::empty());
        }
        while i < self.parents.len()
            invariant
                i <= s.len(),
                s == self.parents@,
                count == roots_below(s, i as int).len(),
                count <= i,
            decreases s.len() - i,
        {
            proof {
                lemma_roots_below_finite(s, i as int);
            }
            let p: Id = self.parents[i];
            if p as usize == i {
                count = count + 1;
                proof {
                    assert(roots_below(s, i + 1) =~= roots_below(s, i as int).insert(i as int));
                }
            } else {
                proof {
                    assert(roots_below(s, i + 1) =~= roots_below(s, i as int));
                }
            }
            i = i + 1;
        }
        proof {
            assert(roots_below(s, s.len() as int) =~= self.roots());
        }
        count
    }

    /// Allocates a fresh singleton set whose root carries `value` and
    /// returns its id; ids are handed out consecutively from zero.
    pub fn make_set(&mut self, value: V) -> (id: Id)
        requires
            old(self).wf(),
            old(self).size() < u32::MAX,
        ensures
            final(self).wf(),
            id == old(self).size(),
            final(self).size() == old(self).size() + 1,
            final(self).is_root(id as int),
            final(self).root(id as int) == id,
            final(self).value_at(id as int) == value,
            forall|j: int|
                0 <= j < old(self).size() ==> final(self).root(j) == old(self).root(j),
            forall|j: int|
                0 <= j < old(self).size() ==> final(self).is_root(j) == old(self).is_root(j),
            forall|j: int|
                0 <= j < old(self).size() ==> final(self).value_at(j) == old(self).value_at(j),
            final(self).num_sets() == old(self).num_sets() + 1,
    {
        let n: usize = self.parents.len();
        let id: Id = n as u32;
        self.parents.push(id);
        self.values.push(Some(value));
        proof {
            assert forall|j: int| 0 <= j < old(self).size() implies final(self).root(j) == old(
                self,
            ).root(j) by {
                lemma_root_push(old(self).parents@, id, j);
            }
            assert(final(self).roots() =~= old(self).roots().insert(id as int));
            old(self).lemma_roots_finite();
        }
        id
    }

    /// The root of `id`'s set, without path compression.
    fn find_root(&self, id: Id) -> (r: Id)
        requires
            self.wf(),
            id < self.size(),
        ensures
            r == self.root(id as int),
            self.is_root(r as int),
            r <= id,
    {
        let mut cur: Id = id;
        loop
            invariant
                self.wf(),
                cur <= id,
                id < self.size(),
                self.root(cur as int) == self.root(id as int),
            decreases cur,
        {
            let p: Id = self.parents[cur as usize];
            if p == cur {
                return cur;
            }
            cur = p;
        }
    }

    /// The root of `id`'s set. Compresses the path it walked: afterwards
    /// every slot still has the root it had, but lookups along that path are
    /// shorter.
    pub fn find(&mut self, id: Id) -> (r: Id)
        requires
            old(self).wf(),
            id < old(self).size(),
        ensures
            final(self).wf(),
            final(self).size() == old(self).size(),
            r == old(self).root(id as int),
            final(self).is_root(r as int),
            forall|j: int|
                0 <= j < old(self).size() ==> final(self).root(j) == old(self).root(j),
            forall|j: int|
                0 <= j < old(self).size() ==> final(self).is_root(j) == old(self).is_root(j),
            forall|j: int|
                0 <= j < old(self).size() ==> final(self).value_at(j) == old(self).value_at(j),
            final(self).num_sets() == old(self).num_sets(),
    {
        let root: Id = self.find_root(id);
        let mut cur: Id = id;
        loop
            invariant
                self.wf(),
                self.size() == old(self).size(),
                self.values@ == old(self).values@,
                cur < self.size(),
                self.is_root(root as int),
                self.root(cur as int) == root,
                forall|j: int|
                    0 <= j < old(self).size() ==> self.root(j) == old(self).root(j),
            decreases cur,
        {
            let p: Id = self.parents[cur as usize];
            if p == cur {
                break;
            }
            let ghost pre = self.parents@;
            self.parents.set(cur as usize, root);
            proof {
                assert(root_in(pre, cur as int) == root_in(pre, p as int));
                lemma_root_props(pre, p as int);
                assert(root < cur);
                lemma_root_compress(pre, cur as int, root, cur as int);
                assert(parents_bounded(self.parents@));
                assert forall|j: int| 0 <= j < pre.len() implies root_in(
                    pre.update(cur as int, root),
                    j,
                ) == root_in(pre, j) by {
                    lemma_root_compress(pre, cur as int, root, j);
                }
            }
            cur = p;
        }
        proof {
            assert(final(self).roots() =~= old(self).roots());
        }
        root
    }
}

impl<V: Value> UnionFind<V> {
    /// Unites the sets of `a` and `b` and returns the surviving root. When
    /// the two were distinct sets, the smaller root id survives, its value
    /// becomes `merge(surviving value, absorbed value)`, and the number of
    /// sets drops by one; callers must re-resolve other ids through `find`.
    pub fn union(&mut self, a: Id, b: Id) -> (r: Id)
        requires
            old(self).wf(),
            a < old(self).size(),
            b < old(self).size(),
        ensures
            final(self).wf(),
            final(self).size() == old(self).size(),
            r == final(self).root(a as int),
            r == final(self).root(b as int),
            final(self).is_root(r as int),
            old(self).root(a as int) == old(self).root(b as int) ==> {
                &&& r == old(self).root(a as int)
                &&& final(self).num_sets() == old(self).num_sets()
                &&& forall|j: int|
                    0 <= j < old(self).size() ==> final(self).root(j) == old(self).root(j)
                &&& forall|j: int|
                    0 <= j < old(self).size() && old(self).is_root(j) ==> final(self).value_at(j)
                        == old(self).value_at(j)
            },
            old(self).root(a as int) != old(self).root(b as int) ==> {
                let ra = old(self).root(a as int);
                let rb = old(self).root(b as int);
                let keep = if ra < rb {
                    ra
                } else {
                    rb
                };
                let absorbed = if ra < rb {
                    rb
                } else {
                    ra
                };
                &&& r == keep
                &&& V::merge_ok(
                    old(self).value_at(keep),
                    old(self).value_at(absorbed),
                    final(self).value_at(keep),
                )
                &&& forall|j: int|
                    0 <= j < old(self).size() ==> final(self).root(j) == (if old(self).root(j)
                        == absorbed {
                        keep
                    } else {
                        old(self).root(j)
                    })
                &&& forall|j: int|
                    0 <= j < old(self).size() && old(self).is_root(j) && j != keep && j != absorbed
                        ==> final(self).value_at(j) == old(self).value_at(j)
                &&& final(self).num_sets() + 1 == old(self).num_sets()
            },
    {
        let ra: Id = self.find(a);
        let rb: Id = self.find(b);
        if ra == rb {
            proof {
                assert(final(self).roots() =~= old(self).roots());
            }
            return ra;
        }
        let (keep, absorbed): (Id, Id) = if ra < rb {
            (ra, rb)
        } else {
            (rb, ra)
        };
        let ghost mid = *self;
        let mut to_slot: Option<V> = None;
        self.values.set_and_swap(keep as usize, &mut to_slot);
        let mut from_slot: Option<V> = None;
        self.values.set_and_swap(absorbed as usize, &mut from_slot);
        let merged = V::merge(to_slot.unwrap(), from_slot.unwrap());
        self.values.set(keep as usize, Some(merged));
        let ghost pre = self.parents@;
        self.parents.set(absorbed as usize, keep);
        proof {
            assert forall|j: int| 0 <= j < pre.len() implies root_in(
                pre.update(absorbed as int, keep),
                j,
            ) == (if root_in(pre, j) == absorbed {
                keep as int
            } else {
                root_in(pre, j)
            }) by {
                lemma_root_link(pre, absorbed as int, keep, j);
            }
            assert(final(self).roots() =~= mid.roots().remove(absorbed as int));
            mid.lemma_roots_finite();
            assert(mid.roots().contains(absorbed as int));
            assert(final(self).num_sets() + 1 == mid.num_sets());
            assert(mid.roots() =~= old(self).roots());
        }
        keep
    }

    /// The value at the root of a set. `find` gives the root.
    pub fn value(&self, root: Id) -> (r: &V)
        requires
            self.wf(),
            self.is_root(root as int),
        ensures
            *r == self.value_at(root as int),
    {
        match &self.values[root as usize] {
            Some(v) => v,
            None => vstd::pervasive::unreached(),
        }
    }
}

} // verus!
