//! Something like the slab allocator, but can grow when there's not enough space.
use vstd::prelude::*;

verus! {

broadcast use vstd::set_lib::group_set_properties;

/// How many items a vector can hold without reallocating.
///
/// This calls `Vec::capacity`. It claims that the items already there fit, whatever the allocator
/// gave.
#[verifier::external_body]
fn vec_capacity<T>(vec: &Vec<T>) -> (cap: usize)
    ensures
        cap >= vec@.len(),
{
    vec.capacity()
}

/// An allocator for one type of object. Or, well, allocator: you store things into it, so it's not
/// strictly an allocator, more like a storage.
///
/// Each item has an index that stays the same for the whole life of the item. It may get reused
/// once the item is released.
///
/// The view of a storage maps the indexes in use to the items they hold.
pub struct Recycler<T> {
    /// The actual storage where items live.
    ///
    /// The live slots have Some(T), while the currently unused ones have None.
    pub data: Vec<Option<T>>,
    /// Indexes of currently unused slots, used as a stack (we don't care about the order and it's
    /// the fastest operation on Vec).
    pub free: Vec<usize>,
}

impl<T> View for Recycler<T> {
    type V = Map<int, T>;

    open spec fn view(&self) -> Map<int, T> {
        Map::new(|i: int| self.holds(i), |i: int| self.data@[i]->0)
    }
}

impl<T> Recycler<T> {
    /// There is an item at the index.
    pub open spec fn holds(&self, i: int) -> bool {
        0 <= i < self.data@.len() && self.data@[i] is Some
    }

    /// The stack of unused slots lists each empty slot exactly once and nothing else.
    pub open spec fn wf(&self) -> bool {
        &&& self.free@.no_duplicates()
        &&& forall|j: int|
            0 <= j < self.free@.len() ==> (#[trigger] self.free@[j]) < self.data@.len()
                && self.data@[self.free@[j] as int] is None
        &&& forall|i: int|
            0 <= i < self.data@.len() && (#[trigger] self.data@[i]) is None
                ==> self.free@.contains(i as usize)
    }

    /// The index the next stored item gets.
    pub open spec fn next_index(&self) -> int {
        if self.free@.len() > 0 {
            self.free@.last() as int
        } else {
            self.data@.len() as int
        }
    }

    /// The item was put to the index, which wasn't in use. Nothing else changed.
    ///
    /// The slot released last is used first; only when there is none, the storage grows.
    pub open spec fn stored(pre: Self, post: Self, item: T, idx: usize) -> bool {
        &&& idx == pre.next_index()
        &&& !pre@.dom().contains(idx as int)
        &&& post@ == pre@.insert(idx as int, item)
        &&& if pre.free@.len() > 0 {
            &&& post.free@ == pre.free@.drop_last()
            &&& post.data@ == pre.data@.update(idx as int, Some(item))
        } else {
            &&& post.free@ == pre.free@
            &&& post.data@ == pre.data@.push(Some(item))
        }
    }

    /// The item was taken out from the index, which can be used by another one now. Nothing else
    /// changed.
    pub open spec fn released(pre: Self, post: Self, idx: usize, item: T) -> bool {
        &&& pre@.dom().contains(idx as int)
        &&& item == pre@[idx as int]
        &&& post@ == pre@.remove(idx as int)
        &&& post.free@ == pre.free@.push(idx)
        &&& post.data@ == pre.data@.update(idx as int, None)
    }

    /// Create a new, empty storage
    pub fn new() -> (r: Self)
        ensures
            r.wf(),
            r@ == Map::<int, T>::empty(),
            r.data@.len() == 0,
            r.free@.len() == 0,
    {
        let r = Recycler { data: Vec::new(), free: Vec::new() };
        assert(r@ =~= Map::<int, T>::empty());
        r
    }

    /// Put another item into the storage. Return the item's index
    ///
    /// The slot released last is used first; only when there is none, the storage grows.
    pub fn store(&mut self, item: T) -> (idx: usize)
        requires
            old(self).wf(),
        ensures
            final(self).wf(),
            Self::stored(*old(self), *final(self), item, idx),
    {
        let ghost before = *self;
        match self.free.pop() {
            Some(idx) => {
                assert(idx == before.free@[before.free@.len() - 1]);
                self.data[idx] = Some(item);
                proof {
                    assert forall|i: int|
                        0 <= i < self.data@.len() && (#[trigger] self.data@[i]) is None implies
                        self.free@.contains(i as usize) by {
                        assert(i < self.data.len());
                        assert(before.data@[i] is None);
                        let j = choose|j: int|
                            0 <= j < before.free@.len() && before.free@[j] == i as usize;
                        assert(self.free@[j] == i as usize);
                    }
                    assert(self@ =~= before@.insert(idx as int, item));
                }
                idx
            },
            None => {
                self.data.push(Some(item));
                proof {
                    assert(self@ =~= before@.insert(before.data@.len() as int, item));
                }
                self.data.len() - 1
            },
        }
    }

    /// The index the next stored item gets.
    pub fn peek_index(&self) -> (idx: usize)
        ensures
            idx == self.next_index(),
    {
        if self.free.len() > 0 {
            self.free[self.free.len() - 1]
        } else {
            self.data.len()
        }
    }

    /// Return the item at the given index. The index is not valid until the storage retuns it for
    /// another newly stored item.
    ///
    /// The old content is returned.
    pub fn release(&mut self, idx: usize) -> (item: T)
        requires
            old(self).wf(),
            old(self)@.dom().contains(idx as int),
        ensures
            final(self).wf(),
            Self::released(*old(self), *final(self), idx, item),
    {
        let ghost before = *self;
        let item = self.data[idx].take().unwrap();
        self.free.push(idx);
        proof {
            assert(self.data@ =~= before.data@.update(idx as int, None));
            assert forall|i: int|
                0 <= i < self.data@.len() && (#[trigger] self.data@[i]) is None implies
                self.free@.contains(i as usize) by {
                if i == idx {
                    assert(self.free@[before.free@.len() as int] == i as usize);
                } else {
                    assert(before.data@[i] is None);
                    let j = choose|j: int|
                        0 <= j < before.free@.len() && before.free@[j] == i as usize;
                    assert(self.free@[j] == i as usize);
                }
            }
            assert(self@ =~= before@.remove(idx as int));
        }
        item
    }

    /// Check if the given index is valid (stores some value)
    pub fn valid(&self, idx: usize) -> (r: bool)
        ensures
            r == self@.dom().contains(idx as int),
    {
        idx < self.data.len() && self.data[idx].is_some()
    }

    /// How many items can be held without reallocation. Note that the reallocation happens
    /// automatically.
    pub fn capacity(&self) -> (r: usize)
        ensures
            r >= self.data@.len(),
    {
        vec_capacity(&self.data)
    }

    /// How many items are there stored?
    pub fn len(&self) -> (r: usize)
        requires
            self.wf(),
        ensures
            r == self@.dom().len(),
            self@.dom().finite(),
    {
        proof {
            self.lemma_len();
        }
        self.data.len() - self.free.len()
    }

    /// Is it empty of any content?
    pub fn is_empty(&self) -> (r: bool)
        requires
            self.wf(),
        ensures
            r == (self@ == Map::<int, T>::empty()),
    {
        proof {
            self.lemma_len();
            if self@.dom().len() == 0 {
                assert(self@ =~= Map::<int, T>::empty());
            }
        }
        self.len() == 0
    }

    /// The slots are either in use or on the stack of the unused ones.
    pub proof fn lemma_len(&self)
        requires
            self.wf(),
        ensures
            self@.dom().finite(),
            self.free@.len() <= self.data@.len(),
            self@.dom().len() == self.data@.len() - self.free@.len(),
    {
        let all = vstd::set_lib::set_int_range(0, self.data@.len() as int);
        vstd::set_lib::lemma_int_range(0, self.data@.len() as int);
        let free = self.free@.map_values(|i: usize| i as int);
        assert(free.no_duplicates());
        free.unique_seq_to_set();
        assert(free.to_set().subset_of(all)) by {
            assert forall|i: int| free.to_set().contains(i) implies all.contains(i) by {
                let j = choose|j: int| 0 <= j < free.len() && free[j] == i;
                assert(self.free@[j] == i);
            }
        }
        assert(self@.dom() =~= all.difference(free.to_set())) by {
            assert forall|i: int| all.contains(i) && !self@.dom().contains(i) implies
                free.to_set().contains(i) by {
                assert(i < self.data.len());
                assert(self.data@[i] is None);
                let j = choose|j: int| 0 <= j < self.free@.len() && self.free@[j] == i as usize;
                assert(free[j] == i);
            }
            assert forall|i: int| free.to_set().contains(i) implies !self@.dom().contains(i) by {
                let j = choose|j: int| 0 <= j < free.len() && free[j] == i;
                assert(self.free@[j] == i);
            }
        }
        vstd::set_lib::lemma_len_subset(free.to_set(), all);
        assert(all.intersect(free.to_set()) =~= free.to_set());
    }

    /// Change the item at the given index.
    pub fn index_mut(&mut self, idx: usize) -> (item: &mut T)
        requires
            old(self).wf(),
            old(self)@.dom().contains(idx as int),
        ensures
            *item == old(self)@[idx as int],
            final(self).wf(),
            final(self)@ == old(self)@.insert(idx as int, *final(item)),
            final(self).free@ == old(self).free@,
            final(self).data@ == old(self).data@.update(idx as int, Some(*final(item))),
    {
        self.data[idx].as_mut().unwrap()
    }
}

impl<T> core::ops::Index<usize> for Recycler<T> {
    type Output = T;

    fn index(&self, idx: usize) -> (item: &T)
        ensures
            *item == self@[idx as int],
    {
        self.data[idx].as_ref().unwrap()
    }
}

impl<T> vstd::std_specs::core::IndexSpecImpl<usize> for Recycler<T> {
    open spec fn index_req(&self, idx: &usize) -> bool {
        self@.dom().contains(*idx as int)
    }
}

} // verus!
