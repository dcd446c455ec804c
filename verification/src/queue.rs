//! A fixed-capacity FIFO queue in a ring buffer.
use vstd::prelude::*;
use crate::error::Code;

verus! {

/// Slot `i` places after `r` in a ring of `c` slots (for `r`, `i` below
/// `c`).
pub open spec fn slot(r: int, i: int, c: int) -> int {
    if r + i < c { r + i } else { r + i - c }
}

/// A queue of at most `capacity` items, kept in a ring buffer: `count`
/// items from `read_pos` on; the next one goes to `write_pos`.
pub struct ArrayQueue<T> {
    data: Vec<T>,
    read_pos: usize,
    write_pos: usize,
    count: usize,
    capacity: usize,
}

impl<T> View for ArrayQueue<T> {
    type V = Seq<T>;

    /// The items, oldest first.
    closed spec fn view(&self) -> Seq<T> {
        Seq::new(self.count as nat, |i: int| self.data@[slot(self.read_pos as int, i, self.capacity as int)])
    }
}

impl<T> ArrayQueue<T> {
    /// How many items the queue holds at most.
    pub closed spec fn capacity_spec(&self) -> nat {
        self.capacity as nat
    }

    /// The positions lie in the buffer and the items fill the slots from
    /// the read position up to the write position.
    pub closed spec fn wf(&self) -> bool {
        &&& self.capacity == self.data@.len()
        &&& self.count <= self.capacity
        &&& (self.capacity == 0 ==> self.read_pos == 0 && self.write_pos == 0)
        &&& (self.capacity > 0 ==> self.read_pos < self.capacity && self.write_pos < self.capacity)
        &&& (self.capacity > 0 ==> self.write_pos == slot(self.read_pos as int, self.count as int, self.capacity as int)
            || (self.count == self.capacity && self.write_pos == self.read_pos))
    }

    /// An empty queue whose buffer is `buf`: it holds `buf.len()` items.
    pub fn new(buf: Vec<T>) -> (r: Self)
        ensures
            r.wf(),
            r@ == Seq::<T>::empty(),
            r.capacity_spec() == buf@.len(),
    {
        let capacity = buf.len();
        let r = ArrayQueue { data: buf, read_pos: 0, write_pos: 0, count: 0, capacity };
        assert(r@ =~= Seq::<T>::empty());
        r
    }

    /// Adds `value` at the back; fails with `Full` when the queue holds
    /// `capacity` items.
    pub fn push(&mut self, value: T) -> (r: Result<(), Code>)
        requires
            old(self).wf(),
        ensures
            final(self).wf(),
            final(self).capacity_spec() == old(self).capacity_spec(),
            r is Err <==> old(self)@.len() == old(self).capacity_spec(),
            r matches Err(e) ==> e == Code::Full && final(self)@ == old(self)@,
            r is Ok ==> final(self)@ == old(self)@.push(value),
    {
        if self.count == self.capacity {
            return Err(Code::Full);
        }
        let ghost before = self@;
        self.data.set(self.write_pos, value);
        self.count = self.count + 1;
        self.write_pos = if self.write_pos + 1 == self.capacity { 0 } else { self.write_pos + 1 };
        assert(self@ =~= before.push(value));
        Ok(())
    }

    /// The oldest item, if any.
    pub fn front(&self) -> (r: Option<&T>)
        requires
            self.wf(),
        ensures
            r is None <==> self@.len() == 0,
            r matches Some(v) ==> *v == self@[0],
    {
        if self.count == 0 {
            None
        } else {
            Some(&self.data[self.read_pos])
        }
    }

    /// Removes the oldest item; fails with `Empty` when there is none.
    pub fn pop(&mut self) -> (r: Result<(), Code>)
        requires
            old(self).wf(),
        ensures
            final(self).wf(),
            final(self).capacity_spec() == old(self).capacity_spec(),
            r is Err <==> old(self)@.len() == 0,
            r matches Err(e) ==> e == Code::Empty && final(self)@ == old(self)@,
            r is Ok ==> final(self)@ == old(self)@.drop_first(),
    {
        if self.count == 0 {
            return Err(Code::Empty);
        }
        let ghost before = self@;
        self.count = self.count - 1;
        self.read_pos = if self.read_pos + 1 == self.capacity { 0 } else { self.read_pos + 1 };
        assert(self@ =~= before.drop_first());
        Ok(())
    }

    /// How many items the queue holds.
    pub fn len(&self) -> (r: usize)
        requires
            self.wf(),
        ensures
            r == self@.len(),
    {
        self.count
    }

    /// How many items the queue holds at most.
    pub fn capacity(&self) -> (r: usize)
        ensures
            r == self.capacity_spec(),
    {
        self.capacity
    }
}

/// Whatever is pushed, the oldest item is the one to leave first, and the
/// rest keep their order.
pub proof fn lemma_fifo<T>(q: Seq<T>, x: T)
    requires
        q.len() > 0,
    ensures
        q.push(x)[0] == q[0],
        q.push(x).drop_first() == q.drop_first().push(x),
{
    assert(q.push(x).drop_first() =~= q.drop_first().push(x));
}

} // verus!
