//! A unit allocator kept as a stack of disjoint free ranges.
//!
//! `alloc` pops the top range, splits one unit off its front and pushes the
//! remainder back; `dealloc` pushes a fresh singleton range. Both run in
//! O(1); the most recently freed unit is handed out first (LIFO).

use vstd::prelude::*;
use crate::allocator::{Allocator, all_units};

verus! {

/// Does some free range of `list` cover the unit `i`?
pub open spec fn in_free_list(list: Seq<(usize, usize)>, i: int) -> bool {
    exists|k: int| 0 <= k < list.len() && (#[trigger] list[k]).0 <= i < list[k].1
}

/// A unit allocator whose free space is a stack of disjoint `(start, end)`
/// ranges, each meaning the units `start..end` are free.
pub struct StackedAllocator {
    list: Vec<(usize, usize)>,
    capacity: Ghost<nat>,
}

impl StackedAllocator {
    /// The stack of free ranges, oldest at the bottom; `allocate` serves
    /// from the top, so the most recently freed unit goes out first.
    pub closed spec fn free_list(&self) -> Seq<(usize, usize)> {
        self.list@
    }
}

impl Allocator for StackedAllocator {
    closed spec fn capacity(&self) -> nat {
        self.capacity@
    }

    closed spec fn allocated(&self) -> Set<int> {
        Set::new(|i: int| 0 <= i < self.capacity@ && !in_free_list(self.list@, i))
    }

    closed spec fn wf(&self) -> bool {
        &&& self.capacity@ <= usize::MAX
        &&& forall|k: int|
            0 <= k < self.list@.len() ==> (#[trigger] self.list@[k]).0 < self.list@[k].1
                <= self.capacity@
        &&& forall|k1: int, k2: int|
            0 <= k1 < k2 < self.list@.len() ==> (#[trigger] self.list@[k1]).1
                <= (#[trigger] self.list@[k2]).0 || self.list@[k2].1 <= self.list@[k1].0
    }

    fn new(capacity: usize) -> (r: Self)
        ensures
            capacity > 0 ==> r.free_list() == seq![(0usize, capacity)],
            capacity == 0 ==> r.free_list() == Seq::<(usize, usize)>::empty(),
    {
        let mut list: Vec<(usize, usize)> = Vec::new();
        if capacity > 0 {
            list.push((0, capacity));
        }
        let r = StackedAllocator { list, capacity: Ghost(capacity as nat) };
        proof {
            assert forall|i: int| 0 <= i < capacity implies !r.allocated().contains(i) by {
                assert(in_free_list(r.list@, i)) by {
                    assert(r.list@[0].0 <= i < r.list@[0].1);
                }
            }
            assert(r.allocated() =~= Set::<int>::empty());
        }
        r
    }

    fn allocate(&mut self) -> (r: Option<usize>)
        ensures
            old(self).free_list().len() == 0 ==> r is None && final(self).free_list() == old(
                self,
            ).free_list(),
            old(self).free_list().len() > 0 ==> ({
                let top = old(self).free_list().last();
                &&& r == Some(top.0)
                &&& final(self).free_list() == if top.1 - top.0 > 1 {
                    old(self).free_list().drop_last().push((((top.0 + 1) as usize), top.1))
                } else {
                    old(self).free_list().drop_last()
                }
            }),
    {
        let ghost pre = self.list@;
        if let Some((start, end)) = self.list.pop() {
            if end - start > 1 {
                self.list.push((start + 1, end));
                proof {
                    let post = self.list@;
                    assert forall|i: int| in_free_list(post, i) implies in_free_list(pre, i)
                        && i != start by {
                        let k = choose|k: int|
                            0 <= k < post.len() && (#[trigger] post[k]).0 <= i < post[k].1;
                        if k < post.len() - 1 {
                            assert(pre[k].0 <= i < pre[k].1);
                        } else {
                            assert(pre[pre.len() - 1].0 <= i < pre[pre.len() - 1].1);
                        }
                    }
                    assert forall|i: int| in_free_list(pre, i) && i != start implies
                        in_free_list(post, i) by {
                        let k = choose|k: int| 0 <= k < pre.len() && (#[trigger] pre[k]).0 <= i < pre[k].1;
                        if k < pre.len() - 1 {
                            assert(post[k].0 <= i < post[k].1);
                        } else {
                            assert(post[post.len() - 1].0 <= i < post[post.len() - 1].1);
                        }
                    }
                    assert(self.allocated() =~= old(self).allocated().insert(start as int));
                }
            } else {
                proof {
                    let post = self.list@;
                    assert forall|i: int| in_free_list(pre, i) && i != start implies
                        in_free_list(post, i) by {
                        let k = choose|k: int| 0 <= k < pre.len() && (#[trigger] pre[k]).0 <= i < pre[k].1;
                        assert(k < pre.len() - 1) by {
                            assert(pre[pre.len() - 1].1 == start + 1);
                        }
                        assert(post[k].0 <= i < post[k].1);
                    }
                    assert forall|i: int| in_free_list(post, i) implies in_free_list(pre, i)
                        && i != start by {
                        let k = choose|k: int|
                            0 <= k < post.len() && (#[trigger] post[k]).0 <= i < post[k].1;
                        assert(pre[k].0 <= i < pre[k].1);
                        assert(pre[pre.len() - 1].0 <= start < pre[pre.len() - 1].1);
                    }
                    assert(self.allocated() =~= old(self).allocated().insert(start as int));
                }
            }
            Some(start)
        } else {
            proof {
                assert(self.allocated() =~= all_units(self.capacity@));
            }
            None
        }
    }

    fn dealloc(&mut self, index: usize)
        ensures
            final(self).free_list() == old(self).free_list().push((index, (index + 1) as usize)),
    {
        proof {
            assert(!in_free_list(self.list@, index as int));
        }
        let ghost pre = self.list@;
        self.list.push((index, index + 1));
        proof {
            let post = self.list@;
            assert forall|k1: int, k2: int| 0 <= k1 < k2 < post.len() implies
                (#[trigger] post[k1]).1 <= (#[trigger] post[k2]).0
                    || post[k2].1 <= post[k1].0 by {
                if k2 == post.len() - 1 {
                    assert(!(pre[k1].0 <= index < pre[k1].1));
                }
            }
            assert forall|i: int| in_free_list(post, i) implies in_free_list(pre, i)
                || i == index by {
                let k = choose|k: int| 0 <= k < post.len() && (#[trigger] post[k]).0 <= i < post[k].1;
                if k < post.len() - 1 {
                    assert(pre[k].0 <= i < pre[k].1);
                }
            }
            assert forall|i: int| in_free_list(pre, i) implies in_free_list(post, i) by {
                let k = choose|k: int| 0 <= k < pre.len() && (#[trigger] pre[k]).0 <= i < pre[k].1;
                assert(post[k].0 <= i < post[k].1);
            }
            assert(in_free_list(post, index as int)) by {
                assert(post[post.len() - 1].0 <= index < post[post.len() - 1].1);
            }
            assert(self.allocated() =~= old(self).allocated().remove(index as int));
        }
    }
}

} // verus!
