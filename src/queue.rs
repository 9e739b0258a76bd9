//! The bounded first-in first-out queue that hands items from one party of
//! the line to the next. This is its state and its decisions; the party that
//! shares it between threads blocks a sender while `push` refuses and a
//! receiver while `pop` finds nothing.
use vstd::prelude::*;
use std::collections::VecDeque;

verus! {

/// A queue holding at most `capacity` items.
pub struct ProdQueue<T> {
    buf: VecDeque<T>,
    capacity: usize,
}

impl<T> ProdQueue<T> {
    /// The items held, oldest first.
    pub closed spec fn contents(self) -> Seq<T> {
        self.buf@
    }

    pub closed spec fn spec_capacity(self) -> nat {
        self.capacity as nat
    }

    /// Never more items than the capacity, and room for at least one.
    pub open spec fn wf(self) -> bool {
        self.spec_capacity() >= 1 && self.contents().len() <= self.spec_capacity()
    }

    /// An empty queue. A capacity of zero is taken as one.
    pub fn new(capacity: usize) -> (r: Self)
        ensures
            r.wf(),
            r.contents().len() == 0,
            r.spec_capacity() == if capacity == 0 {
                1
            } else {
                capacity as nat
            },
    {
        let capacity = if capacity == 0 {
            1
        } else {
            capacity
        };
        ProdQueue { buf: VecDeque::new(), capacity }
    }

    /// Appends `item` when there is room. When the queue is full the item is
    /// handed back and nothing changes: the sender has to wait.
    pub fn push(&mut self, item: T) -> (r: Result<(), T>)
        ensures
            final(self).spec_capacity() == old(self).spec_capacity(),
            old(self).contents().len() < old(self).spec_capacity() ==> {
                &&& r is Ok
                &&& final(self).contents() == old(self).contents().push(item)
            },
            old(self).contents().len() >= old(self).spec_capacity() ==> {
                &&& r == Err::<(), T>(item)
                &&& final(self).contents() == old(self).contents()
            },
            old(self).wf() ==> final(self).wf(),
    {
        if self.buf.len() >= self.capacity {
            Err(item)
        } else {
            self.buf.push_back(item);
            Ok(())
        }
    }

    /// Removes and returns the oldest item; `None` when the queue is empty:
    /// the receiver has to wait.
    pub fn pop(&mut self) -> (r: Option<T>)
        ensures
            final(self).spec_capacity() == old(self).spec_capacity(),
            old(self).contents().len() == 0 ==> r is None && final(self).contents()
                == old(self).contents(),
            old(self).contents().len() > 0 ==> {
                &&& r == Some(old(self).contents()[0])
                &&& final(self).contents() == old(self).contents().drop_first()
            },
            old(self).wf() ==> final(self).wf(),
    {
        let r = self.buf.pop_front();
        proof {
            if old(self).contents().len() > 0 {
                assert(self.buf@ =~= old(self).contents().drop_first());
            }
        }
        r
    }

    /// The number of items held now.
    pub fn len(&self) -> (r: usize)
        ensures
            r == self.contents().len(),
    {
        self.buf.len()
    }

    pub fn capacity(&self) -> (r: usize)
        ensures
            r == self.spec_capacity(),
    {
        self.capacity
    }

    pub fn is_empty(&self) -> (r: bool)
        ensures
            r == (self.contents().len() == 0),
    {
        self.buf.len() == 0
    }

    /// Whether a `push` now would be refused.
    pub fn is_full(&self) -> (r: bool)
        ensures
            r == (self.contents().len() >= self.spec_capacity()),
    {
        self.buf.len() >= self.capacity
    }
}

} // verus!
