//! A unit allocator over a segment tree.
//!
//! The tree has `next_power_of_two(capacity)` leaves, one per unit; each
//! internal node caches the AND of its children's "fully occupied" bit, so
//! `alloc` can descend from the root to any free leaf (preferring the left
//! child) and both operations re-propagate the cached bit to the root in
//! O(log capacity).
//!
//! Node `j`'s children are `2*j` and `2*j + 1`; the root is node 1 and the
//! leaf for unit `i` is node `non_leaf_size + i`. Leaves padding the unit
//! count out to a power of two are permanently marked occupied.

use vstd::prelude::*;
use crate::allocator::{Allocator, all_units, CAPACITY_LIMIT};

verus! {

/// Is node `a` an ancestor of node `n` (including `n` itself)?
pub open spec fn is_ancestor(a: int, n: int) -> bool
    decreases n,
{
    if n < 1 || a < 1 {
        false
    } else if n == a {
        true
    } else if n < a {
        false
    } else {
        is_ancestor(a, n / 2)
    }
}

/// Is `n` a power of two?
pub open spec fn is_pow2(n: int) -> bool
    decreases n,
{
    if n <= 0 {
        false
    } else if n == 1 {
        true
    } else {
        n % 2 == 0 && is_pow2(n / 2)
    }
}

/// Every internal node caches the AND of its two children.
pub open spec fn nodes_consistent(tree: Seq<bool>, non_leaf_size: int) -> bool {
    forall|j: int| 1 <= j < non_leaf_size ==> #[trigger] tree[j] == (tree[2 * j] && tree[2 * j + 1])
}

/// The parent of an ancestor of `n` is itself an ancestor of `n`.
pub proof fn lemma_ancestor_parent(a: int, n: int)
    requires
        is_ancestor(a, n),
        a >= 2,
    ensures
        is_ancestor(a / 2, n),
    decreases n,
{
    if n == a {
        assert(is_ancestor(a / 2, a / 2));
    } else {
        lemma_ancestor_parent(a, n / 2);
    }
}

pub proof fn lemma_ancestor_le(a: int, n: int)
    requires
        is_ancestor(a, n),
    ensures
        a <= n,
    decreases n,
{
    if n != a && n >= 1 && a >= 1 && n > a {
        lemma_ancestor_le(a, n / 2);
    }
}

/// The root is an ancestor of every node.
pub proof fn lemma_root_ancestor(n: int)
    requires
        n >= 1,
    ensures
        is_ancestor(1, n),
    decreases n,
{
    if n > 1 {
        lemma_root_ancestor(n / 2);
    }
}

/// A strict descendant of `j` lies below one of `j`'s children.
pub proof fn lemma_ancestor_step(j: int, n: int)
    requires
        is_ancestor(j, n),
        j != n,
    ensures
        is_ancestor(2 * j, n) || is_ancestor(2 * j + 1, n),
    decreases n,
{
    if n / 2 == j {
        assert(n == 2 * j || n == 2 * j + 1);
    } else {
        lemma_ancestor_step(j, n / 2);
        assert(is_ancestor(2 * j, n) || is_ancestor(2 * j + 1, n)) by {
            lemma_ancestor_le(j, n / 2);
        }
    }
}

/// A strict descendant sits at least one level down.
pub proof fn lemma_proper_descendant(a: int, n: int)
    requires
        is_ancestor(a, n),
        n != a,
        a >= 1,
    ensures
        n >= 2 * a,
{
    lemma_ancestor_le(a, n / 2);
}

/// On one level of a perfect tree, every leaf under a left child sits left
/// of every leaf under its sibling.
pub proof fn lemma_sibling_order(j: int, l1: int, l2: int, level: int)
    requires
        j >= 1,
        is_pow2(level),
        level <= l1 < 2 * level,
        level <= l2 < 2 * level,
        is_ancestor(2 * j, l1),
        is_ancestor(2 * j + 1, l2),
    ensures
        l1 < l2,
    decreases level,
{
    if l1 == 2 * j && l2 == 2 * j + 1 {
    } else if l1 == 2 * j {
        lemma_proper_descendant(2 * j + 1, l2);
    } else if l2 == 2 * j + 1 {
        lemma_proper_descendant(2 * j, l1);
        if 2 * j >= level {
            assert(false) by {
                assert(l1 >= 4 * j >= 2 * level);
            }
        } else {
            assert(2 * j == level - 1 || 2 * j + 1 > level || 2 * j + 1 < level);
            assert(2 * j + 1 >= level);
            assert(2 * j + 1 == level);
            assert(level % 2 == 0 || level == 1);
            assert(false);
        }
    } else {
        lemma_proper_descendant(2 * j, l1);
        lemma_proper_descendant(2 * j + 1, l2);
        assert(level >= 2) by {
            if level == 1 {
                assert(l1 == 1);
                lemma_ancestor_le(2 * j, 1);
            }
        }
        lemma_sibling_order(j, l1 / 2, l2 / 2, level / 2);
    }
}

/// Under a node marked occupied, every leaf is occupied.
pub proof fn lemma_full_subtree(tree: Seq<bool>, non_leaf_size: int, j: int)
    requires
        nodes_consistent(tree, non_leaf_size),
        non_leaf_size >= 1,
        tree.len() == 2 * non_leaf_size,
        1 <= j < 2 * non_leaf_size,
        tree[j],
    ensures
        forall|l: int|
            non_leaf_size <= l < 2 * non_leaf_size && is_ancestor(j, l) ==> tree[l],
    decreases 2 * non_leaf_size - j,
{
    if j >= non_leaf_size {
        assert forall|l: int|
            non_leaf_size <= l < 2 * non_leaf_size && is_ancestor(j, l) implies tree[l] by {
            if l != j {
                lemma_ancestor_le(j, l / 2);
            }
        }
    } else {
        lemma_full_subtree(tree, non_leaf_size, 2 * j);
        lemma_full_subtree(tree, non_leaf_size, 2 * j + 1);
        assert forall|l: int|
            non_leaf_size <= l < 2 * non_leaf_size && is_ancestor(j, l) implies tree[l] by {
            if l != j {
                lemma_ancestor_step(j, l);
            }
        }
    }
}

/// Segment-tree propagation: in every reachable allocator state, the
/// cached occupancy bit of every internal node equals the AND of its two
/// children — so a full-tree recomputation after any operation matches the
/// cache.
pub proof fn lemma_segment_tree_propagation(a: &SegmentTreeAllocator)
    requires
        a.wf(),
    ensures
        nodes_consistent(a.node_view(), a.leaf_base()),
        forall|j: int|
            1 <= j < a.leaf_base() ==> #[trigger] a.node_view()[j] == (a.node_view()[2 * j]
                && a.node_view()[2 * j + 1]),
{
}

/// A unit allocator whose occupancy lives in a segment tree: leaf
/// `non_leaf_size + i` marks unit `i`, and each internal node is the AND of
/// its children.
pub struct SegmentTreeAllocator {
    tree: Vec<bool>,
    non_leaf_size: usize,
    capacity: Ghost<nat>,
}

impl SegmentTreeAllocator {
    /// The number of leaves (also the index of the first leaf).
    pub closed spec fn leaf_base(&self) -> int {
        self.non_leaf_size as int
    }

    /// The cached occupancy bit of node `j`; lets callers recompute and
    /// compare the AND of any internal node's children.
    pub closed spec fn node_view(&self) -> Seq<bool> {
        self.tree@
    }

    /// Reads the occupancy bit of node `j`.
    pub fn node(&self, j: usize) -> (r: bool)
        requires
            self.wf(),
            j < 2 * self.leaf_base(),
        ensures
            r == self.node_view()[j as int],
    {
        self.tree[j]
    }

    /// Reads the number of leaves.
    pub fn leaf_count(&self) -> (r: usize)
        requires
            self.wf(),
        ensures
            r == self.leaf_base(),
    {
        self.non_leaf_size
    }

    /// Writes `value` into node `index` (a leaf) and re-propagates the
    /// cached AND bit of every ancestor up to the root.
    fn update_node(&mut self, index: usize, value: bool)
        requires
            old(self).wf(),
            old(self).leaf_base() <= index < old(self).leaf_base() + old(self).capacity@,
        ensures
            final(self).non_leaf_size == old(self).non_leaf_size,
            final(self).capacity@ == old(self).capacity@,
            final(self).wf(),
            final(self).node_view()[index as int] == value,
            forall|l: int|
                old(self).leaf_base() <= l < 2 * old(self).leaf_base() && l != index
                    ==> final(self).node_view()[l] == old(self).node_view()[l],
    {
        let ghost nls = self.non_leaf_size as int;
        let ghost leaves0 = self.tree@;
        self.tree[index] = value;
        proof {
            assert(is_ancestor(index as int, index as int));
            assert forall|j: int|
                1 <= j < nls && !(is_ancestor(j, index as int) && j != index) implies #[trigger] self
                .tree@[j] == (self.tree@[2 * j] && self.tree@[2 * j + 1]) by {
                if 2 * j == index as int || 2 * j + 1 == index as int {
                    assert(is_ancestor(j, j));
                    assert(is_ancestor(j, index as int));
                }
            }
        }
        let mut i: usize = index;
        while i > 1
            invariant
                self.non_leaf_size == old(self).non_leaf_size,
                self.capacity@ == old(self).capacity@,
                1 <= self.non_leaf_size <= 0x4000_0000,
                self.capacity@ <= self.non_leaf_size,
                self.tree@.len() == 2 * nls,
                nls == self.non_leaf_size,
                nls <= index < 2 * nls,
                1 <= i <= index,
                is_ancestor(i as int, index as int),
                self.tree@[index as int] == value,
                forall|l: int| nls <= l < 2 * nls && l != index ==> self.tree@[l] == leaves0[l],
                forall|j: int|
                    1 <= j < nls && !(is_ancestor(j, i as int) && j != i) ==> #[trigger] self.tree@[j]
                        == (self.tree@[2 * j] && self.tree@[2 * j + 1]),
            decreases i,
        {
            let ghost iold = i as int;
            i = i / 2;
            proof {
                lemma_ancestor_parent(iold, index as int);
                lemma_ancestor_le(iold, index as int);
                assert(i as int == iold / 2);
                assert(i as int != index as int);
                assert(is_ancestor(i as int, index as int / 2));
                lemma_ancestor_le(i as int, index as int / 2);
                assert(i < nls);
            }
            let v = self.tree[2 * i] && self.tree[2 * i + 1];
            self.tree[i] = v;
            proof {
                assert forall|j: int|
                    1 <= j < nls && !(is_ancestor(j, i as int) && j != i) implies #[trigger] self
                    .tree@[j] == (self.tree@[2 * j] && self.tree@[2 * j + 1]) by {
                    if j != i {
                        assert(!(is_ancestor(j, iold) && j != iold)) by {
                            if is_ancestor(j, iold) && j != iold {
                                assert(is_ancestor(j, iold / 2));
                            }
                        }
                        assert(2 * j != i as int && 2 * j + 1 != i as int) by {
                            if 2 * j == i as int || 2 * j + 1 == i as int {
                                assert(j == i as int / 2);
                                assert(is_ancestor(j, j));
                                assert(is_ancestor(j, i as int));
                            }
                        }
                    }
                }
            }
        }
        proof {
            assert forall|j: int|
                1 <= j < nls implies #[trigger] self.tree@[j] == (self.tree@[2 * j] && self.tree@[2
                * j + 1]) by {
                if is_ancestor(j, 1) && j != 1 {
                    lemma_ancestor_le(j, 1);
                }
            }
            assert forall|i2: int|
                self.capacity@ <= i2 < nls implies #[trigger] self.tree@[nls + i2] == true by {
                assert(self.tree@[nls + i2] == leaves0[nls + i2]);
                assert(old(self).tree@[nls + i2] == true);
            }
        }
    }
}

impl Allocator for SegmentTreeAllocator {
    closed spec fn capacity(&self) -> nat {
        self.capacity@
    }

    closed spec fn allocated(&self) -> Set<int> {
        Set::new(
            |i: int| 0 <= i < self.capacity@ && self.tree@[self.non_leaf_size as int + i],
        )
    }

    closed spec fn wf(&self) -> bool {
        &&& 1 <= self.non_leaf_size <= 0x4000_0000
        &&& is_pow2(self.non_leaf_size as int)
        &&& self.capacity@ <= self.non_leaf_size
        &&& self.tree@.len() == 2 * self.non_leaf_size
        &&& nodes_consistent(self.tree@, self.non_leaf_size as int)
        &&& forall|i: int|
            self.capacity@ <= i < self.non_leaf_size ==> #[trigger] self.tree@[self.non_leaf_size
                + i] == true
    }

    fn new(capacity: usize) -> (r: Self)
        ensures
            is_pow2(r.leaf_base()),
            r.leaf_base() >= capacity,
            r.leaf_base() == 1 || r.leaf_base() / 2 < capacity,
    {
        let mut leaf_count: usize = 1;
        while leaf_count < capacity
            invariant
                capacity <= CAPACITY_LIMIT,
                1 <= leaf_count,
                is_pow2(leaf_count as int),
                leaf_count == 1 || leaf_count / 2 < capacity,
                leaf_count == 1 || leaf_count <= 2 * (capacity - 1),
            decreases 2 * capacity - leaf_count,
        {
            leaf_count = leaf_count * 2;
        }
        proof {
            assert(capacity <= leaf_count <= 0x4000_0000);
        }
        let mut tree: Vec<bool> = Vec::new();
        let mut k: usize = 0;
        while k < 2 * leaf_count
            invariant
                leaf_count <= 0x4000_0000,
                tree@.len() == k,
                k <= 2 * leaf_count,
                forall|j: int| 0 <= j < k ==> tree@[j] == false,
            decreases 2 * leaf_count - k,
        {
            tree.push(false);
            k = k + 1;
        }
        let mut i: usize = capacity;
        while i < leaf_count
            invariant
                leaf_count <= 0x4000_0000,
                capacity <= i <= leaf_count,
                tree@.len() == 2 * leaf_count,
                forall|j: int| capacity <= j < i ==> #[trigger] tree@[leaf_count + j] == true,
                forall|j: int| 0 <= j < capacity ==> #[trigger] tree@[leaf_count + j] == false,
                forall|j: int| 0 <= j < leaf_count ==> tree@[j] == false,
            decreases leaf_count - i,
        {
            tree[leaf_count + i] = true;
            i = i + 1;
        }
        let mut j: usize = leaf_count;
        while j > 1
            invariant
                1 <= j <= leaf_count,
                capacity <= leaf_count <= 0x4000_0000,
                tree@.len() == 2 * leaf_count,
                forall|l: int| capacity <= l < leaf_count ==> #[trigger] tree@[leaf_count + l] == true,
                forall|l: int| 0 <= l < capacity ==> #[trigger] tree@[leaf_count + l] == false,
                forall|l: int|
                    j <= l < leaf_count ==> #[trigger] tree@[l] == (tree@[2 * l] && tree@[2 * l
                        + 1]),
            decreases j,
        {
            j = j - 1;
            let v = tree[2 * j] && tree[2 * j + 1];
            tree[j] = v;
        }
        let r = SegmentTreeAllocator {
            tree,
            non_leaf_size: leaf_count,
            capacity: Ghost(capacity as nat),
        };
        proof {
            assert(r.allocated() =~= Set::<int>::empty());
        }
        r
    }

    fn allocate(&mut self) -> (r: Option<usize>)
        ensures
            r matches Some(index) ==> forall|j: int|
                0 <= j < index ==> old(self).allocated().contains(j),
    {
        let ghost nls = self.non_leaf_size as int;
        if self.tree[1] {
            proof {
                lemma_full_subtree(self.tree@, nls, 1);
                assert forall|i: int| 0 <= i < self.capacity@ implies self.allocated().contains(
                    i,
                ) by {
                    lemma_root_ancestor(nls + i);
                }
                assert(self.allocated() =~= all_units(self.capacity@));
            }
            None
        } else {
            proof {
                assert forall|l: int, l2: int|
                    nls <= l < 2 * nls && !(#[trigger] self.tree@[l]) && !is_ancestor(1, l) && nls
                        <= l2 < 2 * nls && #[trigger] is_ancestor(1, l2) implies l2 < l by {
                    lemma_root_ancestor(l);
                }
            }
            let mut node_index: usize = 1;
            while node_index < self.non_leaf_size
                invariant
                    self.wf(),
                    nls == self.non_leaf_size,
                    1 <= node_index < 2 * nls,
                    !self.tree@[node_index as int],
                    forall|l: int, l2: int|
                        nls <= l < 2 * nls && !(#[trigger] self.tree@[l]) && !is_ancestor(
                            node_index as int,
                            l,
                        ) && nls <= l2 < 2 * nls && #[trigger] is_ancestor(node_index as int, l2)
                            ==> l2 < l,
                decreases 2 * nls - node_index,
            {
                let ghost n0 = node_index as int;
                if !self.tree[2 * node_index] {
                    node_index = 2 * node_index;
                    proof {
                        assert forall|l: int, l2: int|
                            nls <= l < 2 * nls && !(#[trigger] self.tree@[l]) && !is_ancestor(
                                2 * n0,
                                l,
                            ) && nls <= l2 < 2 * nls && #[trigger] is_ancestor(2 * n0, l2)
                                implies l2 < l by {
                            lemma_ancestor_parent(2 * n0, l2);
                            if is_ancestor(n0, l) {
                                lemma_ancestor_step(n0, l);
                                lemma_sibling_order(n0, l2, l, nls);
                            }
                        }
                    }
                } else {
                    node_index = 2 * node_index + 1;
                    proof {
                        lemma_full_subtree(self.tree@, nls, 2 * n0);
                        assert forall|l: int, l2: int|
                            nls <= l < 2 * nls && !(#[trigger] self.tree@[l]) && !is_ancestor(
                                2 * n0 + 1,
                                l,
                            ) && nls <= l2 < 2 * nls && #[trigger] is_ancestor(2 * n0 + 1, l2)
                                implies l2 < l by {
                            lemma_ancestor_parent(2 * n0 + 1, l2);
                            if is_ancestor(n0, l) {
                                lemma_ancestor_step(n0, l);
                            }
                        }
                    }
                }
            }
            let index = node_index - self.non_leaf_size;
            proof {
                assert(index < self.capacity@) by {
                    if index >= self.capacity@ {
                        assert(self.tree@[nls + index]);
                    }
                }
                assert forall|j: int| 0 <= j < index implies old(self).allocated().contains(
                    j,
                ) by {
                    let l = nls + j;
                    assert(self.tree@[l]) by {
                        if !self.tree@[l] {
                            assert(!is_ancestor(node_index as int, l)) by {
                                if is_ancestor(node_index as int, l) {
                                    lemma_proper_descendant(node_index as int, l);
                                }
                            }
                            assert(is_ancestor(node_index as int, node_index as int));
                        }
                    }
                }
            }
            self.update_node(node_index, true);
            proof {
                assert(self.allocated() =~= old(self).allocated().insert(index as int));
            }
            Some(index)
        }
    }

    fn dealloc(&mut self, index: usize) {
        let node_index = index + self.non_leaf_size;
        self.update_node(node_index, false);
        proof {
            assert(self.allocated() =~= old(self).allocated().remove(index as int));
        }
    }
}

} // verus!
