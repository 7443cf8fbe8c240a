use vstd::prelude::*;
use vstd::arithmetic::power2::pow2;
use vstd::arithmetic::div_mod::lemma_fundamental_div_mod;
use vstd::bits::{lemma_usize_shl_is_mul, lemma_usize_pow2_no_overflow};
use crate::object::{ObjectReference, Slot};
use atomic::Ordering;

verus! {

/// Value of a slot's unlog bit once the barrier has logged the slot.
pub const LOGGED_VALUE: u8 = 0;

/// Value of a slot's unlog bit while the slot still needs logging.
pub const UNLOGGED_VALUE: u8 = 1;

/// Value of a lock bit that nobody holds.
pub const UNLOCKED_VALUE: u8 = 0;

/// Value of a lock bit held by a barrier that is logging a slot it covers.
pub const LOCKED_VALUE: u8 = 1;

/// The bytes a slot occupies: four with compressed pointers, eight without.
pub open spec fn slot_bytes_for(compressed_ptrs: bool) -> int {
    if compressed_ptrs { 4 } else { 8 }
}

/// The heap as the barrier sees it: the slots with their referents, one
/// unlog bit per slot, and one lock bit per `2^log_bytes_per_lock_bit` bytes.
pub struct HeapView {
    pub start: int,
    pub compressed_ptrs: bool,
    pub log_bytes_per_lock_bit: int,
    pub slot_bytes: int,
    pub lock_region_bytes: int,
    pub contents: Seq<Option<ObjectReference>>,
    pub unlog_bits: Seq<u8>,
    pub lock_bits: Seq<u8>,
}

impl HeapView {
    /// The shape of the side tables fits the slots they describe.
    pub open spec fn wf(self) -> bool {
        &&& self.slot_bytes == slot_bytes_for(self.compressed_ptrs)
        &&& 0 <= self.log_bytes_per_lock_bit < usize::BITS
        &&& self.lock_region_bytes == pow2(self.log_bytes_per_lock_bit as nat)
        &&& 0 <= self.start
        &&& self.start + self.contents.len() * self.slot_bytes <= usize::MAX
        &&& self.unlog_bits.len() == self.contents.len()
        &&& self.contents.len() * self.slot_bytes <= self.lock_bits.len() * self.lock_region_bytes
        &&& self.lock_bits.len() <= usize::MAX
        &&& forall|i: int| 0 <= i < self.unlog_bits.len() ==> #[trigger] self.unlog_bits[i] <= 1
        &&& forall|i: int| 0 <= i < self.lock_bits.len() ==> #[trigger] self.lock_bits[i] <= 1
    }

    /// `s` is the address of one of the heap's slots.
    pub open spec fn valid_slot(self, s: Slot) -> bool {
        &&& self.start <= s.0
        &&& (s.0 - self.start) % self.slot_bytes == 0
        &&& (s.0 - self.start) / self.slot_bytes < self.contents.len()
    }

    /// Position of the slot in `contents` and `unlog_bits`.
    pub open spec fn slot_index(self, s: Slot) -> int {
        (s.0 - self.start) / self.slot_bytes
    }

    /// Position of the lock bit that covers the slot.
    pub open spec fn lock_index(self, s: Slot) -> int {
        (s.0 - self.start) / self.lock_region_bytes
    }

    /// The referent the slot holds.
    pub open spec fn target(self, s: Slot) -> Option<ObjectReference> {
        self.contents[self.slot_index(s)]
    }

    /// The barrier has logged the slot.
    pub open spec fn is_logged(self, s: Slot) -> bool {
        self.unlog_bits[self.slot_index(s)] == LOGGED_VALUE
    }

    /// Somebody holds the lock bit that covers the slot.
    pub open spec fn is_locked(self, s: Slot) -> bool {
        self.lock_bits[self.lock_index(s)] == LOCKED_VALUE
    }

    /// A write to the slot can go through the barrier without waiting: the
    /// slot is logged, so the barrier returns at once, or the lock bit
    /// covering it is free.
    pub open spec fn barrier_can_proceed(self, s: Slot) -> bool {
        self.is_logged(s) || !self.is_locked(s)
    }

    /// No lock bit is held.
    pub open spec fn unlocked(self) -> bool {
        forall|i: int| 0 <= i < self.lock_bits.len() ==> #[trigger] self.lock_bits[i] == UNLOCKED_VALUE
    }

    /// The same heap with the slot's unlog bit set to `LOGGED_VALUE`.
    pub open spec fn with_logged(self, s: Slot) -> HeapView {
        HeapView { unlog_bits: self.unlog_bits.update(self.slot_index(s), LOGGED_VALUE), ..self }
    }

    /// The same heap with the lock bit covering the slot set to `v`.
    pub open spec fn with_lock_bit(self, s: Slot, v: u8) -> HeapView {
        HeapView { lock_bits: self.lock_bits.update(self.lock_index(s), v), ..self }
    }

    /// The same heap with the slot holding `t`.
    pub open spec fn with_target(self, s: Slot, t: Option<ObjectReference>) -> HeapView {
        HeapView { contents: self.contents.update(self.slot_index(s), t), ..self }
    }

    /// Two heaps with the same layout: the same slots and the same side tables' shape.
    pub open spec fn same_layout(self, other: HeapView) -> bool {
        &&& self.start == other.start
        &&& self.compressed_ptrs == other.compressed_ptrs
        &&& self.log_bytes_per_lock_bit == other.log_bytes_per_lock_bit
        &&& self.slot_bytes == other.slot_bytes
        &&& self.lock_region_bytes == other.lock_region_bytes
        &&& self.contents.len() == other.contents.len()
        &&& self.unlog_bits.len() == other.unlog_bits.len()
        &&& self.lock_bits.len() == other.lock_bits.len()
    }
}

/// The slot and lock indices of a valid slot lie inside their tables.
pub proof fn lemma_slot_indices(h: HeapView, s: Slot)
    requires
        h.wf(),
        h.valid_slot(s),
    ensures
        0 <= h.slot_index(s) < h.contents.len(),
        0 <= h.lock_index(s) < h.lock_bits.len(),
        s.0 - h.start < h.contents.len() * h.slot_bytes,
        s.0 < usize::MAX,
        h.lock_region_bytes > 0,
{
    let off = s.0 - h.start;
    let sb = h.slot_bytes;
    let lr = h.lock_region_bytes;
    let n = h.contents.len() as int;
    let q = off / sb;
    lemma_fundamental_div_mod(off, sb);
    assert(off == sb * q);
    assert(off < n * sb) by (nonlinear_arith)
        requires
            off == sb * q,
            0 <= q < n,
            sb > 0,
    ;
    assert(lr > 0) by {
        vstd::arithmetic::power2::lemma_pow2_pos(h.log_bytes_per_lock_bit as nat);
    }
    let l = off / lr;
    lemma_fundamental_div_mod(off, lr);
    assert(0 <= l < h.lock_bits.len()) by (nonlinear_arith)
        requires
            off == lr * l + off % lr,
            0 <= off % lr < lr,
            0 <= off < h.lock_bits.len() * lr,
            lr > 0,
    ;
}

/// Distinct slots have distinct positions in the slot table.
pub proof fn lemma_slot_index_injective(h: HeapView, s1: Slot, s2: Slot)
    requires
        h.wf(),
        h.valid_slot(s1),
        h.valid_slot(s2),
        h.slot_index(s1) == h.slot_index(s2),
    ensures
        s1 == s2,
{
    lemma_fundamental_div_mod(s1.0 - h.start, h.slot_bytes);
    lemma_fundamental_div_mod(s2.0 - h.start, h.slot_bytes);
}

/// A heap of slots together with the side metadata the barrier reads and
/// writes: the field unlog bits and the lock bits.
pub struct Heap {
    start: usize,
    compressed_ptrs: bool,
    log_bytes_per_lock_bit: usize,
    slot_bytes: usize,
    lock_region_bytes: usize,
    contents: Vec<Option<ObjectReference>>,
    unlog_bits: Vec<u8>,
    lock_bits: Vec<u8>,
}

impl View for Heap {
    type V = HeapView;

    closed spec fn view(&self) -> HeapView {
        HeapView {
            start: self.start as int,
            compressed_ptrs: self.compressed_ptrs,
            log_bytes_per_lock_bit: self.log_bytes_per_lock_bit as int,
            slot_bytes: self.slot_bytes as int,
            lock_region_bytes: self.lock_region_bytes as int,
            contents: self.contents@,
            unlog_bits: self.unlog_bits@,
            lock_bits: self.lock_bits@,
        }
    }
}

impl Heap {
    /// A heap whose slots start at `start` and hold `contents`, every slot
    /// unlogged and every lock bit free.
    pub fn new(
        start: usize,
        compressed_ptrs: bool,
        log_bytes_per_lock_bit: usize,
        contents: Vec<Option<ObjectReference>>,
    ) -> (h: Heap)
        requires
            log_bytes_per_lock_bit < usize::BITS,
            start + contents.len() * slot_bytes_for(compressed_ptrs)
                + pow2(log_bytes_per_lock_bit as nat) <= usize::MAX,
        ensures
            h@.wf(),
            h@.unlocked(),
            h@.start == start,
            h@.compressed_ptrs == compressed_ptrs,
            h@.log_bytes_per_lock_bit == log_bytes_per_lock_bit,
            h@.contents == contents@,
            forall|i: int| 0 <= i < h@.unlog_bits.len() ==> #[trigger] h@.unlog_bits[i] == UNLOGGED_VALUE,
    {
        let slot_bytes: usize = if compressed_ptrs { 4 } else { 8 };
        proof {
            lemma_usize_pow2_no_overflow(log_bytes_per_lock_bit as nat);
            lemma_usize_shl_is_mul(1, log_bytes_per_lock_bit);
        }
        let lock_region_bytes: usize = 1usize << log_bytes_per_lock_bit;
        let n: usize = contents.len();
        assert(n * slot_bytes <= usize::MAX) by (nonlinear_arith)
            requires
                start + n * slot_bytes + lock_region_bytes <= usize::MAX,
                n >= 0,
                slot_bytes >= 0,
        ;
        let bytes: usize = n * slot_bytes;
        let lock_count: usize = (bytes + lock_region_bytes - 1) / lock_region_bytes;
        proof {
            let x = bytes + lock_region_bytes - 1;
            let r = lock_region_bytes as int;
            lemma_fundamental_div_mod(x, r);
            assert(bytes <= lock_count * r) by (nonlinear_arith)
                requires
                    x == r * lock_count + x % r,
                    x % r < r,
                    x == bytes + r - 1,
                    lock_count == x / r,
            ;
        }
        let unlog_bits: Vec<u8> = vec![UNLOGGED_VALUE; n];
        let lock_bits: Vec<u8> = vec![UNLOCKED_VALUE; lock_count];
        Heap {
            start,
            compressed_ptrs,
            log_bytes_per_lock_bit,
            slot_bytes,
            lock_region_bytes,
            contents,
            unlog_bits,
            lock_bits,
        }
    }

    fn slot_index(&self, slot: Slot) -> (i: usize)
        requires
            self@.wf(),
            self@.valid_slot(slot),
        ensures
            i == self@.slot_index(slot),
            i < self@.contents.len(),
    {
        proof {
            lemma_slot_indices(self@, slot);
        }
        (slot.0 - self.start) / self.slot_bytes
    }

    fn lock_index(&self, slot: Slot) -> (i: usize)
        requires
            self@.wf(),
            self@.valid_slot(slot),
        ensures
            i == self@.lock_index(slot),
            i < self@.lock_bits.len(),
    {
        proof {
            lemma_slot_indices(self@, slot);
        }
        (slot.0 - self.start) / self.lock_region_bytes
    }

    /// Whether pointers in this heap are compressed to four bytes.
    pub fn compressed_ptrs(&self) -> (r: bool)
        ensures
            r == self@.compressed_ptrs,
    {
        self.compressed_ptrs
    }

    /// The log2 of the heap bytes that one lock bit covers.
    pub fn log_bytes_per_lock_bit(&self) -> (r: usize)
        ensures
            r == self@.log_bytes_per_lock_bit,
    {
        self.log_bytes_per_lock_bit
    }

    /// The bytes one slot occupies.
    pub fn slot_bytes(&self) -> (r: usize)
        ensures
            r == self@.slot_bytes,
    {
        self.slot_bytes
    }

    /// Whether `slot` is the address of one of the heap's slots.
    pub fn is_valid_slot(&self, slot: Slot) -> (r: bool)
        requires
            self@.wf(),
        ensures
            r == self@.valid_slot(slot),
    {
        slot.0 >= self.start && (slot.0 - self.start) % self.slot_bytes == 0 && (slot.0
            - self.start) / self.slot_bytes < self.contents.len()
    }

    /// The referent stored in the slot.
    pub fn load(&self, slot: Slot) -> (r: Option<ObjectReference>)
        requires
            self@.wf(),
            self@.valid_slot(slot),
        ensures
            r == self@.target(slot),
    {
        let i = self.slot_index(slot);
        self.contents[i]
    }

    /// Writes `target` into the slot; the metadata is left as it is.
    pub fn store(&mut self, slot: Slot, target: Option<ObjectReference>)
        requires
            old(self)@.wf(),
            old(self)@.valid_slot(slot),
        ensures
            final(self)@ == old(self)@.with_target(slot, target),
            final(self)@.wf(),
    {
        let i = self.slot_index(slot);
        self.contents.set(i, target);
    }

    /// The slot's unlog bit.
    pub fn load_unlog_bit(&self, slot: Slot) -> (r: u8)
        requires
            self@.wf(),
            self@.valid_slot(slot),
        ensures
            r == self@.unlog_bits[self@.slot_index(slot)],
    {
        let i = self.slot_index(slot);
        self.unlog_bits[i]
    }

    /// Sets the slot's unlog bit to `v`.
    pub fn store_unlog_bit(&mut self, slot: Slot, v: u8)
        requires
            old(self)@.wf(),
            old(self)@.valid_slot(slot),
            v <= 1,
        ensures
            final(self)@ == (HeapView {
                unlog_bits: old(self)@.unlog_bits.update(old(self)@.slot_index(slot), v),
                ..old(self)@
            }),
            final(self)@.wf(),
    {
        let i = self.slot_index(slot);
        self.unlog_bits.set(i, v);
    }

    /// Sets the slot's unlog bit to `v` with an atomic store of the given
    /// ordering, as needed when barriers holding other lock bits may write the
    /// same byte of unlog bits. The heap is sequential, so the ordering does
    /// not change the effect, which is that of `store_unlog_bit`.
    #[allow(unused_variables)]
    pub fn store_unlog_bit_atomic(&mut self, slot: Slot, v: u8, order: Ordering)
        requires
            old(self)@.wf(),
            old(self)@.valid_slot(slot),
            v <= 1,
        ensures
            final(self)@ == (HeapView {
                unlog_bits: old(self)@.unlog_bits.update(old(self)@.slot_index(slot), v),
                ..old(self)@
            }),
            final(self)@.wf(),
    {
        let i = self.slot_index(slot);
        self.unlog_bits.set(i, v);
    }

    /// The barrier has logged the slot.
    pub fn is_field_logged(&self, slot: Slot) -> (r: bool)
        requires
            self@.wf(),
            self@.valid_slot(slot),
        ensures
            r == self@.is_logged(slot),
    {
        self.load_unlog_bit(slot) == LOGGED_VALUE
    }

    /// Marks the slot as logged.
    pub fn log_field(&mut self, slot: Slot)
        requires
            old(self)@.wf(),
            old(self)@.valid_slot(slot),
        ensures
            final(self)@ == old(self)@.with_logged(slot),
            final(self)@.wf(),
    {
        self.store_unlog_bit(slot, LOGGED_VALUE);
    }

    /// Marks the slot as unlogged again, as the collector does for the
    /// fields of objects that must be tracked anew.
    pub fn unlog_field(&mut self, slot: Slot)
        requires
            old(self)@.wf(),
            old(self)@.valid_slot(slot),
        ensures
            final(self)@ == (HeapView {
                unlog_bits: old(self)@.unlog_bits.update(old(self)@.slot_index(slot), UNLOGGED_VALUE),
                ..old(self)@
            }),
            final(self)@.wf(),
    {
        self.store_unlog_bit(slot, UNLOGGED_VALUE);
    }

    /// The lock bit that covers the slot.
    pub fn load_lock_bit(&self, slot: Slot) -> (r: u8)
        requires
            self@.wf(),
            self@.valid_slot(slot),
        ensures
            r == self@.lock_bits[self@.lock_index(slot)],
    {
        let i = self.lock_index(slot);
        self.lock_bits[i]
    }

    /// Sets the lock bit that covers the slot to `v` with an atomic store of
    /// the given ordering (which does not change the effect in this sequential heap).
    #[allow(unused_variables)]
    pub fn store_lock_bit(&mut self, slot: Slot, v: u8, order: Ordering)
        requires
            old(self)@.wf(),
            old(self)@.valid_slot(slot),
            v <= 1,
        ensures
            final(self)@ == old(self)@.with_lock_bit(slot, v),
            final(self)@.wf(),
    {
        let i = self.lock_index(slot);
        self.lock_bits.set(i, v);
    }

    /// Compare-and-exchange on the lock bit that covers the slot: when it
    /// holds `current` it becomes `new` and `Ok(current)` comes back,
    /// otherwise nothing changes and `Err` carries the value found. The
    /// orderings for success and failure do not change the effect in this
    /// sequential heap.
    #[allow(unused_variables)]
    pub fn compare_exchange_lock_bit(
        &mut self,
        slot: Slot,
        current: u8,
        new: u8,
        success: Ordering,
        failure: Ordering,
    ) -> (r: Result<u8, u8>)
        requires
            old(self)@.wf(),
            old(self)@.valid_slot(slot),
            new <= 1,
        ensures
            final(self)@.wf(),
            old(self)@.lock_bits[old(self)@.lock_index(slot)] == current ==> r == Ok::<u8, u8>(
                current,
            ) && final(self)@ == old(self)@.with_lock_bit(slot, new),
            old(self)@.lock_bits[old(self)@.lock_index(slot)] != current ==> r == Err::<u8, u8>(
                old(self)@.lock_bits[old(self)@.lock_index(slot)],
            ) && final(self)@ == old(self)@,
    {
        let i = self.lock_index(slot);
        let found = self.lock_bits[i];
        if found == current {
            self.lock_bits.set(i, new);
            Ok(current)
        } else {
            Err(found)
        }
    }
}

} // verus!
