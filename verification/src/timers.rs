//! The timeouts that wait for their time.
use vstd::multiset::Multiset;
use vstd::prelude::*;

use crate::handle::{Handle, TimeoutId};

verus! {

broadcast use vstd::seq_lib::group_to_multiset_ensures;

/// A timeout that wasn't due yet.
#[derive(Debug, Clone, Copy, PartialEq, Eq, Structural)]
pub struct TimeoutHolder {
    pub id: TimeoutId,
    /// Whom to tell about it.
    pub recipient: Handle,
    /// When it happens, in nanoseconds.
    pub when: i128,
}

/// The timeouts ordered by their time, the soonest first.
///
/// It is a binary heap. The view is the multiset of the timeouts in it.
pub struct TimeoutHeap {
    items: Vec<TimeoutHolder>,
}

spec fn ordered_at(s: Seq<TimeoutHolder>, i: int) -> bool {
    s[(i - 1) / 2].when <= s[i].when
}

/// Swapping two items of a sequence doesn't change what is in it.
proof fn lemma_swap(s: Seq<TimeoutHolder>, i: int, j: int)
    requires
        0 <= i < s.len(),
        0 <= j < s.len(),
        i != j,
    ensures
        s.update(i, s[j]).update(j, s[i]).to_multiset() == s.to_multiset(),
{
    let once = s.update(i, s[j]);
    let twice = once.update(j, s[i]);
    assert(once.to_multiset() =~= s.to_multiset().insert(s[j]).remove(s[i]));
    assert(twice.to_multiset() =~= once.to_multiset().insert(s[i]).remove(once[j]));
    assert(s.to_multiset().count(s[i]) > 0) by {
        assert(s.contains(s[i]));
    }
    assert(s.to_multiset().count(s[j]) > 0) by {
        assert(s.contains(s[j]));
    }
    assert(twice.to_multiset() =~= s.to_multiset());
}

impl View for TimeoutHeap {
    type V = Multiset<TimeoutHolder>;

    closed spec fn view(&self) -> Multiset<TimeoutHolder> {
        self.items@.to_multiset()
    }
}

impl TimeoutHeap {
    #[verifier::type_invariant]
    spec fn inv(self) -> bool {
        heap_ordered(self.items@)
    }

    /// The timeout at the top of the heap.
    pub closed spec fn first(&self) -> TimeoutHolder {
        self.items@[0]
    }

    /// A heap with no timeouts.
    pub fn new() -> (heap: TimeoutHeap)
        ensures
            heap@ == Multiset::<TimeoutHolder>::empty(),
    {
        let heap = TimeoutHeap { items: Vec::new() };
        assert(heap@ =~= Multiset::<TimeoutHolder>::empty());
        heap
    }

    /// How many timeouts are there?
    pub fn len(&self) -> (r: usize)
        ensures
            r == self@.len(),
    {
        self.items.len()
    }

    /// The timeout that happens first, or one of these if there are more.
    pub fn peek(&self) -> (r: Option<TimeoutHolder>)
        ensures
            match r {
                Some(t) => soonest(self@, t) && t == self.first(),
                None => self@.len() == 0,
            },
    {
        proof {
            use_type_invariant(self);
        }
        if self.items.len() == 0 {
            None
        } else {
            proof {
                lemma_soonest(self.items@);
            }
            Some(self.items[0])
        }
    }

    /// Add a timeout.
    pub fn push(&mut self, t: TimeoutHolder)
        ensures
            final(self)@ == old(self)@.insert(t),
    {
        proof {
            use_type_invariant(&*self);
        }
        let mut items: Vec<TimeoutHolder> = Vec::new();
        std::mem::swap(&mut items, &mut self.items);
        sift_in(&mut items, t);
        self.items = items;
    }

    /// Take the timeout that happens first out, or one of these if there are more.
    pub fn pop(&mut self) -> (r: Option<TimeoutHolder>)
        ensures
            match r {
                Some(t) => {
                    &&& soonest(old(self)@, t)
                    &&& t == old(self).first()
                    &&& final(self)@ == old(self)@.remove(t)
                },
                None => old(self)@.len() == 0 && final(self)@ == old(self)@,
            },
    {
        proof {
            use_type_invariant(&*self);
        }
        if self.items.len() == 0 {
            return None;
        }
        let mut items: Vec<TimeoutHolder> = Vec::new();
        std::mem::swap(&mut items, &mut self.items);
        let t = sift_out(&mut items);
        self.items = items;
        Some(t)
    }

    /// Is there a timeout for the event?
    pub fn refers_to(&self, handle: Handle) -> (r: bool)
        ensures
            r == exists|t: TimeoutHolder| #[trigger] self@.contains(t) && t.recipient == handle,
    {
        let mut i: usize = 0;
        while i < self.items.len()
            invariant
                i <= self.items@.len(),
                forall|j: int| 0 <= j < i ==> (#[trigger] self.items@[j]).recipient != handle,
            decreases self.items@.len() - i,
        {
            if self.items[i].recipient == handle {
                proof {
                    let t = self.items@[i as int];
                    assert(self.items@.contains(t));
                    assert(self@.contains(t));
                }
                return true;
            }
            i = i + 1;
        }
        proof {
            assert forall|t: TimeoutHolder| #[trigger] self@.contains(t) implies t.recipient
                != handle by {
                assert(self.items@.contains(t));
            }
        }
        false
    }

    /// All the timeouts, in no particular order.
    pub fn into_vec(self) -> (items: Vec<TimeoutHolder>)
        ensures
            items@.to_multiset() == self@,
    {
        self.items
    }
}

/// Nothing in the multiset happens sooner than this timeout, which is there.
pub open spec fn soonest(m: Multiset<TimeoutHolder>, t: TimeoutHolder) -> bool {
    m.contains(t) && forall|u: TimeoutHolder| #[trigger] m.contains(u) ==> t.when <= u.when
}

spec fn heap_ordered(s: Seq<TimeoutHolder>) -> bool {
    forall|i: int| 0 < i < s.len() ==> #[trigger] ordered_at(s, i)
}

/// Nothing in an ordered heap is smaller than its root.
proof fn lemma_root(s: Seq<TimeoutHolder>, i: int)
    requires
        heap_ordered(s),
        0 <= i < s.len(),
    ensures
        s[0].when <= s[i].when,
    decreases i,
{
    if i > 0 {
        assert(ordered_at(s, i));
        lemma_root(s, (i - 1) / 2);
    }
}

/// The root of an ordered heap happens first.
proof fn lemma_soonest(s: Seq<TimeoutHolder>)
    requires
        heap_ordered(s),
        s.len() > 0,
    ensures
        soonest(s.to_multiset(), s[0]),
{
    assert(s.contains(s[0]));
    assert forall|u: TimeoutHolder| #[trigger] s.to_multiset().contains(u) implies s[0].when
        <= u.when by {
        assert(s.contains(u));
        let i = choose|i: int| 0 <= i < s.len() && s[i] == u;
        lemma_root(s, i);
    }
}

/// Put a timeout at the end of the heap and move it up to its place.
fn sift_in(items: &mut Vec<TimeoutHolder>, t: TimeoutHolder)
    requires
        heap_ordered(old(items)@),
    ensures
        heap_ordered(final(items)@),
        final(items)@.to_multiset() == old(items)@.to_multiset().insert(t),
{
    let ghost before = items@;
    items.push(t);
    let mut pos: usize = items.len() - 1;
    proof {
        assert forall|i: int| 0 < i < items@.len() && i != pos implies #[trigger] ordered_at(
            items@,
            i,
        ) by {
            assert(ordered_at(before, i));
        }
    }
    while pos > 0
        invariant_except_break
            forall|i: int|
                0 < i < items@.len() && i != pos ==> #[trigger] ordered_at(items@, i),
            forall|i: int|
                pos > 0 && 0 < i < items@.len() && (i - 1) / 2 == pos ==> items@[(pos - 1)
                    / 2].when <= (#[trigger] items@[i]).when,
        invariant
            pos < items@.len(),
            items@.to_multiset() == before.to_multiset().insert(t),
        ensures
            heap_ordered(items@),
        decreases pos,
    {
        let parent: usize = (pos - 1) / 2;
        let here = items[pos];
        let above = items[parent];
        if above.when <= here.when {
            assert(ordered_at(items@, pos as int));
            break;
        }
        let ghost s = items@;
        items[pos] = above;
        items[parent] = here;
        proof {
            assert(items@ =~= s.update(pos as int, s[parent as int]).update(
                parent as int,
                s[pos as int],
            ));
            lemma_swap(s, pos as int, parent as int);
            assert forall|i: int| 0 < i < items@.len() && i != parent implies #[trigger] ordered_at(
                items@,
                i,
            ) by {
                if i != pos {
                    assert(ordered_at(s, i));
                }
            }
            assert forall|i: int|
                parent > 0 && 0 < i < items@.len() && (i - 1) / 2 == parent implies items@[(parent
                - 1) / 2].when <= (#[trigger] items@[i]).when by {
                assert(ordered_at(s, parent as int));
                if i != pos {
                    assert(ordered_at(s, i));
                }
            }
        }
        pos = parent;
    }
}

/// Take the root out of the heap and put the last item to its place from above.
fn sift_out(items: &mut Vec<TimeoutHolder>) -> (t: TimeoutHolder)
    requires
        heap_ordered(old(items)@),
        old(items)@.len() > 0,
    ensures
        heap_ordered(final(items)@),
        soonest(old(items)@.to_multiset(), t),
        t == old(items)@[0],
        final(items)@.to_multiset() == old(items)@.to_multiset().remove(t),
{
    let ghost before = items@;
    proof {
        lemma_soonest(before);
    }
    let t = items.swap_remove(0);
    let ghost rest = items@;
    proof {
        assert(rest.to_multiset() =~= before.to_multiset().remove(t)) by {
            let last = before.last();
            assert(before =~= before.drop_last().push(last));
            assert(before.to_multiset() =~= before.drop_last().to_multiset().insert(last));
            if before.len() > 1 {
                assert(rest =~= before.drop_last().update(0, last));
                assert(rest.to_multiset() =~= before.drop_last().to_multiset().insert(last).remove(
                    before[0],
                ));
            } else {
                assert(rest =~= before.drop_last());
            }
        }
        assert forall|i: int| 0 < i < items@.len() && (i - 1) / 2 != 0 implies #[trigger] ordered_at(
            items@,
            i,
        ) by {
            assert(ordered_at(before, i));
        }
    }
    let mut pos: usize = 0;
    let len: usize = items.len();
    while pos < len / 2
        invariant_except_break
            forall|i: int|
                0 < i < items@.len() && (i - 1) / 2 != pos ==> #[trigger] ordered_at(items@, i),
            forall|i: int|
                pos > 0 && 0 < i < items@.len() && (i - 1) / 2 == pos ==> items@[(pos - 1)
                    / 2].when <= (#[trigger] items@[i]).when,
        invariant
            len == items@.len(),
            items@.to_multiset() == rest.to_multiset(),
        ensures
            heap_ordered(items@),
        decreases items@.len() - pos,
    {
        let mut child: usize = 2 * pos + 1;
        if len - child > 1 && items[child + 1].when < items[child].when {
            child = child + 1;
        }
        let here = items[pos];
        let below = items[child];
        if here.when <= below.when {
            proof {
                assert forall|i: int| 0 < i < items@.len() implies #[trigger] ordered_at(
                    items@,
                    i,
                ) by {
                    if (i - 1) / 2 == pos {
                        assert(i == 2 * pos + 1 || i == 2 * pos + 2);
                    }
                }
            }
            break;
        }
        let ghost s = items@;
        items[pos] = below;
        items[child] = here;
        proof {
            assert(items@ =~= s.update(pos as int, s[child as int]).update(
                child as int,
                s[pos as int],
            ));
            lemma_swap(s, pos as int, child as int);
            assert forall|i: int|
                0 < i < items@.len() && (i - 1) / 2 != child implies #[trigger] ordered_at(
                items@,
                i,
            ) by {
                if (i - 1) / 2 == pos {
                    assert(i == 2 * pos + 1 || i == 2 * pos + 2);
                } else if i == pos {
                    assert(s[(pos - 1) / 2].when <= s[child as int].when);
                } else {
                    assert(ordered_at(s, i));
                }
            }
            assert forall|i: int|
                child > 0 && 0 < i < items@.len() && (i - 1) / 2 == child implies items@[(child
                - 1) / 2].when <= (#[trigger] items@[i]).when by {
                assert(ordered_at(s, i));
            }
        }
        pos = child;
    }
    t
}

} // verus!
