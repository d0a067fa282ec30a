//! A bounded queue shared by producers and consumers.  It hands items back
//! newest first, and it tells a producer to wait while it is full and a
//! consumer to wait while it is empty.
use vstd::prelude::*;

verus! {

/// The items after an attempt to add `x` to `items`, with room for `capacity`.
pub open spec fn after_enqueue<T>(items: Seq<T>, capacity: nat, x: T) -> Seq<T> {
    if items.len() < capacity {
        items.push(x)
    } else {
        items
    }
}

/// The item that an attempt to take from `items` yields: the newest one.
pub open spec fn taken<T>(items: Seq<T>) -> Option<T> {
    if items.len() > 0 {
        Some(items.last())
    } else {
        None
    }
}

/// The items after an attempt to take from `items`.
pub open spec fn after_dequeue<T>(items: Seq<T>) -> Seq<T> {
    if items.len() > 0 {
        items.drop_last()
    } else {
        items
    }
}

/// A bounded queue of items.
pub struct LockedQueue<T> {
    items: Vec<T>,
    capacity: usize,
}

impl<T> LockedQueue<T> {
    /// The items, oldest first.
    pub closed spec fn items(&self) -> Seq<T> {
        self.items@
    }

    /// The number of items the queue holds at most.
    pub closed spec fn capacity(&self) -> nat {
        self.capacity as nat
    }

    /// The queue never holds more items than its capacity.
    #[verifier::type_invariant]
    closed spec fn within_capacity(&self) -> bool {
        self.items.len() <= self.capacity
    }

    /// An empty queue with room for `capacity` items.
    pub fn new(capacity: usize) -> (q: LockedQueue<T>)
        ensures
            q.items() == Seq::<T>::empty(),
            q.capacity() == capacity,
    {
        LockedQueue { items: Vec::with_capacity(capacity), capacity }
    }

    /// Adds `item` when there is room; otherwise hands it back, and the
    /// producer has to wait until a consumer takes an item.
    pub fn enqueue(&mut self, item: T) -> (res: Result<(), T>)
        ensures
            final(self).items() == after_enqueue(old(self).items(), old(self).capacity(), item),
            final(self).capacity() == old(self).capacity(),
            final(self).items().len() <= final(self).capacity(),
            res is Ok <==> old(self).items().len() < old(self).capacity(),
            res matches Err(x) ==> x == item,
    {
        proof {
            use_type_invariant(&*self);
        }
        if self.items.len() == self.capacity {
            Err(item)
        } else {
            let mut items = Vec::new();
            std::mem::swap(&mut items, &mut self.items);
            items.push(item);
            std::mem::swap(&mut items, &mut self.items);
            Ok(())
        }
    }

    /// Takes the newest item; `None` when the queue is empty, and the
    /// consumer has to wait until a producer adds one.
    pub fn dequeue(&mut self) -> (res: Option<T>)
        ensures
            res == taken(old(self).items()),
            final(self).items() == after_dequeue(old(self).items()),
            final(self).capacity() == old(self).capacity(),
            final(self).items().len() <= final(self).capacity(),
    {
        proof {
            use_type_invariant(&*self);
        }
        let mut items = Vec::new();
        std::mem::swap(&mut items, &mut self.items);
        let res = items.pop();
        std::mem::swap(&mut items, &mut self.items);
        res
    }

    /// The number of items in the queue.
    pub fn len(&self) -> (n: usize)
        ensures
            n == self.items().len(),
    {
        self.items.len()
    }
}

/// Taking from the queue right after adding an item, when there was room,
/// yields that item and leaves the queue as it was.
pub proof fn lemma_dequeue_undoes_enqueue<T>(items: Seq<T>, capacity: nat, x: T)
    requires
        items.len() < capacity,
    ensures
        taken(after_enqueue(items, capacity, x)) == Some(x),
        after_dequeue(after_enqueue(items, capacity, x)) == items,
{
    assert(items.push(x).drop_last() =~= items);
}

/// An attempt to add an item to a full queue changes nothing.
pub proof fn lemma_full_queue_refuses<T>(items: Seq<T>, capacity: nat, x: T)
    requires
        items.len() >= capacity,
    ensures
        after_enqueue(items, capacity, x) == items,
{
}

} // verus!
