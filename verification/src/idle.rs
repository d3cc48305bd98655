//! The queue of events waiting for the loop to become idle.
use vstd::prelude::*;

use linked_hash_map::LinkedHashMap;

use crate::handle::Handle;

verus! {

/// The map of the `linked_hash_map` crate that remembers the order of insertion.
#[verifier::external_type_specification]
#[verifier::external_body]
#[verifier::reject_recursive_types(K)]
#[verifier::reject_recursive_types(V)]
#[verifier::reject_recursive_types(S)]
pub struct ExLinkedHashMap<K, V, S>(LinkedHashMap<K, V, S>);

/// The keys in the map, the one that entered first at the front.
pub uninterp spec fn keys_in_order(m: LinkedHashMap<(usize, u64), ()>) -> Seq<(usize, u64)>;

/// Anything else than the value.
pub open spec fn differs<A>(value: A) -> spec_fn(A) -> bool {
    |x: A| x != value
}

/// The sequence with every occurrence of the value left out.
pub open spec fn without<A>(s: Seq<A>, value: A) -> Seq<A> {
    s.filter(differs(value))
}

/// Creates a map.
///
/// This calls `LinkedHashMap::new`. It claims there are no keys in the map.
#[verifier::external_body]
fn map_new() -> (m: LinkedHashMap<(usize, u64), ()>)
    ensures
        keys_in_order(m) == Seq::<(usize, u64)>::empty(),
{
    LinkedHashMap::new()
}

/// Puts a key into the map.
///
/// This calls `LinkedHashMap::insert`. It claims the key becomes the last one, even if it was there
/// before, while the rest keep their order. The previous value is returned if there was one.
#[verifier::external_body]
fn map_insert(m: &mut LinkedHashMap<(usize, u64), ()>, key: (usize, u64)) -> (r: Option<()>)
    ensures
        r is Some <==> keys_in_order(*old(m)).contains(key),
        keys_in_order(*final(m)) == without(keys_in_order(*old(m)), key).push(key),
{
    m.insert(key, ())
}

/// Removes a key from the map.
///
/// This calls `LinkedHashMap::remove`. It claims the key is no longer there and the rest keep their
/// order. The value is returned if there was one.
#[verifier::external_body]
fn map_remove(m: &mut LinkedHashMap<(usize, u64), ()>, key: (usize, u64)) -> (r: Option<()>)
    ensures
        r is Some <==> keys_in_order(*old(m)).contains(key),
        keys_in_order(*final(m)) == without(keys_in_order(*old(m)), key),
{
    m.remove(&key)
}

/// Removes the first key.
///
/// This calls `LinkedHashMap::pop_front`. It claims the first key is taken out and returned with
/// its value, and that nothing is returned from an empty map only.
#[verifier::external_body]
fn map_pop_front(m: &mut LinkedHashMap<(usize, u64), ()>) -> (r: Option<((usize, u64), ())>)
    ensures
        r is Some <==> keys_in_order(*old(m)).len() > 0,
        match r {
            Some((key, _)) => key == keys_in_order(*old(m)).first() && keys_in_order(*final(m))
                == keys_in_order(*old(m)).drop_first(),
            None => keys_in_order(*final(m)) == keys_in_order(*old(m)),
        },
{
    m.pop_front()
}

/// Is the map empty?
///
/// This calls `LinkedHashMap::is_empty`. It claims the answer is about the keys in the map.
#[verifier::external_body]
fn map_is_empty(m: &LinkedHashMap<(usize, u64), ()>) -> (r: bool)
    ensures
        r == (keys_in_order(*m).len() == 0),
{
    m.is_empty()
}

/// The events that want to be called once the loop has nothing better to do.
///
/// The view is the sequence of the events, the one waiting for the longest time first.
pub struct IdleQueue {
    map: LinkedHashMap<(usize, u64), ()>,
}

spec fn handle_of(key: (usize, u64)) -> Handle {
    Handle { id: key.0, generation: key.1 }
}

spec fn handles_of(keys: Seq<(usize, u64)>) -> Seq<Handle> {
    keys.map_values(|k: (usize, u64)| handle_of(k))
}

/// Leaving out a key leaves out its handle.
proof fn lemma_handles_without(keys: Seq<(usize, u64)>, key: (usize, u64))
    ensures
        handles_of(without(keys, key)) == without(handles_of(keys), handle_of(key)),
    decreases keys.len(),
{
    reveal(Seq::filter);
    if keys.len() > 0 {
        lemma_handles_without(keys.drop_last(), key);
        assert(handles_of(keys).drop_last() =~= handles_of(keys.drop_last()));
        assert(handles_of(without(keys, key)) =~= without(handles_of(keys), handle_of(key)));
    } else {
        assert(handles_of(without(keys, key)) =~= without(handles_of(keys), handle_of(key)));
    }
}

impl View for IdleQueue {
    type V = Seq<Handle>;

    closed spec fn view(&self) -> Seq<Handle> {
        handles_of(keys_in_order(self.map))
    }
}

impl IdleQueue {
    /// An empty queue.
    pub fn new() -> (q: IdleQueue)
        ensures
            q@ == Seq::<Handle>::empty(),
    {
        IdleQueue { map: map_new() }
    }

    /// Put the event at the end of the queue. If it already waits there, it moves to the end.
    pub fn push(&mut self, handle: Handle)
        ensures
            final(self)@ == without(old(self)@, handle).push(handle),
    {
        let key = (handle.id, handle.generation);
        proof {
            lemma_handles_without(keys_in_order(self.map), key);
        }
        let _ = map_insert(&mut self.map, key);
    }

    /// The event waits no more.
    pub fn remove(&mut self, handle: Handle)
        ensures
            final(self)@ == without(old(self)@, handle),
    {
        let key = (handle.id, handle.generation);
        proof {
            lemma_handles_without(keys_in_order(self.map), key);
        }
        let _ = map_remove(&mut self.map, key);
    }

    /// Take the event waiting for the longest time.
    pub fn pop_front(&mut self) -> (r: Option<Handle>)
        ensures
            r == (if old(self)@.len() > 0 {
                Some(old(self)@.first())
            } else {
                None
            }),
            final(self)@ == (if old(self)@.len() > 0 {
                old(self)@.drop_first()
            } else {
                old(self)@
            }),
    {
        match map_pop_front(&mut self.map) {
            Some((key, _)) => Some(Handle { id: key.0, generation: key.1 }),
            None => None,
        }
    }

    /// Is there nobody waiting?
    pub fn is_empty(&self) -> (r: bool)
        ensures
            r == (self@.len() == 0),
    {
        map_is_empty(&self.map)
    }
}

} // verus!
