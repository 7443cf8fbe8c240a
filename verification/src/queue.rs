use vstd::prelude::*;

verus! {

/// How many entries a barrier buffer holds before it is handed to the collector.
pub const VECTOR_QUEUE_CAPACITY: usize = 4096;

/// A buffer that the barrier fills one entry at a time and empties in one go.
pub struct VectorQueue<T> {
    buffer: Vec<T>,
}

impl<T> View for VectorQueue<T> {
    type V = Seq<T>;

    closed spec fn view(&self) -> Seq<T> {
        self.buffer@
    }
}

impl<T> VectorQueue<T> {
    /// An empty buffer.
    pub fn new() -> (q: Self)
        ensures
            q@ == Seq::<T>::empty(),
    {
        VectorQueue { buffer: Vec::new() }
    }

    /// Whether the buffer holds nothing.
    pub fn is_empty(&self) -> (r: bool)
        ensures
            r == (self@.len() == 0),
    {
        self.buffer.len() == 0
    }

    /// The number of entries in the buffer.
    pub fn len(&self) -> (r: usize)
        ensures
            r == self@.len(),
    {
        self.buffer.len()
    }

    /// Whether the buffer has reached its capacity.
    pub fn is_full(&self) -> (r: bool)
        ensures
            r == (self@.len() >= VECTOR_QUEUE_CAPACITY),
    {
        self.buffer.len() >= VECTOR_QUEUE_CAPACITY
    }

    /// Appends `v`.
    pub fn push(&mut self, v: T)
        ensures
            final(self)@ == old(self)@.push(v),
    {
        self.buffer.push(v);
    }

    /// Hands out every entry, in the order they were pushed, and leaves the buffer empty.
    pub fn take(&mut self) -> (r: Vec<T>)
        ensures
            r@ == old(self)@,
            final(self)@ == Seq::<T>::empty(),
    {
        let mut out: Vec<T> = Vec::new();
        std::mem::swap(&mut out, &mut self.buffer);
        out
    }

    /// The entries, in the order they were pushed.
    pub fn as_vec(&self) -> (r: &Vec<T>)
        ensures
            r@ == self@,
    {
        &self.buffer
    }
}

} // verus!
