use vstd::prelude::*;

verus! {

/// The address of a heap object. Null references are written as `None`.
#[derive(Clone, Copy, Debug, PartialEq, Eq, Structural)]
pub struct ObjectReference(pub usize);

/// The address of a reference field (a slot) in the heap.
#[derive(Clone, Copy, Debug, PartialEq, Eq, Structural)]
pub struct Slot(pub usize);

/// A contiguous run of `len` slots starting at address `start`, such as the
/// destination of an array copy.
#[derive(Clone, Copy, Debug, PartialEq, Eq, Structural)]
pub struct MemorySlice {
    pub start: usize,
    pub len: usize,
}

} // verus!
