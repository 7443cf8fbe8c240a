//! The field barrier of the LXR plan.
use vstd::prelude::*;
use vstd::arithmetic::power2::pow2;
use vstd::arithmetic::div_mod::{lemma_fundamental_div_mod, lemma_mod_multiples_basic, lemma_div_multiples_vanish};
use vstd::bits::{lemma_usize_shl_is_mul, lemma_usize_pow2_no_overflow};
use vstd::wrapping::usize_specs::wrapping_add;
use crate::object::{ObjectReference, Slot, MemorySlice};
use crate::heap::{
    Heap,
    HeapView,
    lemma_slot_indices,
    lemma_slot_index_injective,
    slot_bytes_for,
    LOGGED_VALUE,
};
use crate::queue::{VectorQueue, VECTOR_QUEUE_CAPACITY};
use crate::work::{GCWork, GCWorkView, SchedulerView, WorkBucketStage};
use crate::plan::{Lxr, Mmtk, MmtkView, Pause};
use atomic::Ordering;

pub use crate::heap::{LOCKED_VALUE, UNLOCKED_VALUE};

verus! {

/// The three buffers of a barrier, each as the sequence of its entries.
pub struct BarrierView {
    /// Slots whose new referents are to be incremented.
    pub incs: Seq<Slot>,
    /// Overwritten referents whose counts are to be decremented.
    pub decs: Seq<ObjectReference>,
    /// Objects loaded through weak references during a concurrent mark.
    pub refs: Seq<ObjectReference>,
}

impl BarrierView {
    /// Every buffer is below capacity: a full buffer is always handed over at once.
    pub open spec fn wf(self) -> bool {
        &&& self.incs.len() < VECTOR_QUEUE_CAPACITY
        &&& self.decs.len() < VECTOR_QUEUE_CAPACITY
        &&& self.refs.len() < VECTOR_QUEUE_CAPACITY
    }
}

/// A state in which the barrier may run: buffers below capacity and the
/// heap's tables well formed.
pub open spec fn ready(b: BarrierView, m: MmtkView) -> bool {
    &&& b.wf()
    &&& m.heap.wf()
}

/// The slots may be written through the barrier: each is a slot of the heap
/// that is logged or whose lock bit is free (an unlogged slot whose lock bit
/// is held would make the barrier wait for ever).
pub open spec fn writable_slots(h: HeapView, slots: Seq<Slot>) -> bool {
    forall|i: int| 0 <= i < slots.len() ==> h.valid_slot(#[trigger] slots[i]) && h.barrier_can_proceed(slots[i])
}

/// The heap bytes described by one byte of unlog bits: eight slots.
pub open spec fn heap_bytes_per_unlog_byte_spec(compressed_ptrs: bool) -> int {
    8 * slot_bytes_for(compressed_ptrs)
}

/// A lock bit covers at least a whole byte of unlog bits, so the holder may
/// write that byte with a plain store.
pub open spec fn plain_unlog_store_suffices_spec(
    compressed_ptrs: bool,
    log_bytes_per_lock_bit: int,
) -> bool {
    pow2(log_bytes_per_lock_bit as nat) >= heap_bytes_per_unlog_byte_spec(compressed_ptrs)
}

/// Snapshot-at-the-beginning packets are due: concurrent marking is enabled
/// and either a mark is running or the final-mark pause is on.
pub open spec fn satb_active(plan: Lxr) -> bool {
    plan.cm_enabled && (plan.cm_in_progress || plan.current_pause == Some(Pause::FinalMark))
}

/// The decrement that overwriting a slot holding `old` calls for: none for
/// a null referent, none for a marked one when marked objects get no decrements.
pub open spec fn dec_entry(m: MmtkView, old: Option<ObjectReference>) -> Seq<ObjectReference> {
    match old {
        Some(o) => if !m.options.no_decs || !m.plan.marked_spec(o) {
            seq![o]
        } else {
            Seq::empty()
        },
        None => Seq::empty(),
    }
}

/// Logging a slot: an unlogged slot becomes logged and the referent it holds
/// comes back; a logged slot gives `Err(())` and nothing changes.
pub open spec fn log_slot_spec(h: HeapView, s: Slot) -> (Result<Option<ObjectReference>, ()>, HeapView) {
    if h.is_logged(s) {
        (Err(()), h)
    } else {
        (Ok(h.target(s)), h.with_logged(s))
    }
}

/// Handing the increment buffer to the collector.
pub open spec fn flush_incs_spec(b: BarrierView, m: MmtkView) -> (BarrierView, MmtkView) {
    if b.incs.len() == 0 {
        (b, m)
    } else {
        (
            BarrierView { incs: Seq::empty(), ..b },
            MmtkView {
                plan: Lxr {
                    inc_buffer_size: wrapping_add(m.plan.inc_buffer_size, b.incs.len() as usize),
                    ..m.plan
                },
                scheduler: m.scheduler.add(
                    WorkBucketStage::RCProcessIncs,
                    GCWorkView::ProcessIncs(b.incs),
                ),
                ..m
            },
        )
    }
}

/// Handing the decrement buffer to the collector: one decrement packet,
/// postponed or in the stop-the-world bucket as the options say, preceded
/// by a marking packet over the same objects while SATB packets are due.
pub open spec fn flush_decs_spec(b: BarrierView, m: MmtkView) -> (BarrierView, MmtkView) {
    if b.decs.len() == 0 {
        (b, m)
    } else {
        let plan = if m.options.decs_counter {
            Lxr { barrier_decs: wrapping_add(m.plan.barrier_decs, b.decs.len() as usize), ..m.plan }
        } else {
            m.plan
        };
        let s1 = if satb_active(m.plan) {
            m.scheduler.add(WorkBucketStage::Unconstrained, GCWorkView::ProcessModBufSATB(b.decs))
        } else {
            m.scheduler
        };
        let w = GCWorkView::ProcessDecs(b.decs);
        let s2 = if m.options.lazy_decrements {
            s1.postpone_prioritized(w)
        } else {
            s1.add(WorkBucketStage::STWRCDecsAndSweep, w)
        };
        (BarrierView { decs: Seq::empty(), ..b }, MmtkView { plan, scheduler: s2, ..m })
    }
}

/// Handing the weakly loaded objects to the concurrent mark.
pub open spec fn flush_weak_refs_spec(b: BarrierView, m: MmtkView) -> (BarrierView, MmtkView) {
    if b.refs.len() == 0 {
        (b, m)
    } else {
        (
            BarrierView { refs: Seq::empty(), ..b },
            MmtkView {
                scheduler: m.scheduler.add(
                    WorkBucketStage::Unconstrained,
                    GCWorkView::ProcessModBufSATB(b.refs),
                ),
                ..m
            },
        )
    }
}

/// Handing every buffer over: weak references, then increments, then decrements.
pub open spec fn flush_spec(b: BarrierView, m: MmtkView) -> (BarrierView, MmtkView) {
    let (b1, m1) = flush_weak_refs_spec(b, m);
    let (b2, m2) = flush_incs_spec(b1, m1);
    flush_decs_spec(b2, m2)
}

/// The slow path for a freshly logged slot that held `old`: record the
/// decrement, then the increment, handing over each buffer that fills up.
pub open spec fn slow_spec(b: BarrierView, m: MmtkView, slot: Slot, old: Option<ObjectReference>) -> (
    BarrierView,
    MmtkView,
) {
    let b0 = BarrierView { decs: b.decs + dec_entry(m, old), ..b };
    let (b1, m1) = if b0.decs.len() >= VECTOR_QUEUE_CAPACITY {
        flush_decs_spec(b0, m)
    } else {
        (b0, m)
    };
    let b2 = BarrierView { incs: b1.incs.push(slot), ..b1 };
    if b2.incs.len() >= VECTOR_QUEUE_CAPACITY {
        flush_incs_spec(b2, m1)
    } else {
        (b2, m1)
    }
}

/// A write to `slot`: the first write since the slot was unlogged logs it and
/// takes the slow path with the referent it held; later writes do nothing.
/// The flag says whether the slow path was taken.
pub open spec fn enqueue_node_spec(b: BarrierView, m: MmtkView, slot: Slot) -> (
    bool,
    BarrierView,
    MmtkView,
) {
    let (logged, h1) = log_slot_spec(m.heap, slot);
    match logged {
        Ok(old_target) => {
            let (b2, m2) = slow_spec(b, MmtkView { heap: h1, ..m }, slot, old_target);
            (true, b2, m2)
        },
        Err(_) => (false, b, m),
    }
}

/// Writes to each of `slots` in turn.
pub open spec fn enqueue_all_spec(b: BarrierView, m: MmtkView, slots: Seq<Slot>) -> (
    BarrierView,
    MmtkView,
)
    decreases slots.len(),
{
    if slots.len() == 0 {
        (b, m)
    } else {
        let (b1, m1) = enqueue_all_spec(b, m, slots.drop_last());
        let (_, b2, m2) = enqueue_node_spec(b1, m1, slots.last());
        (b2, m2)
    }
}

/// A load through a weak reference during a concurrent mark keeps an
/// unmarked referent for the mark.
pub open spec fn load_reference_spec(b: BarrierView, m: MmtkView, o: ObjectReference) -> (
    BarrierView,
    MmtkView,
) {
    if !m.plan.cm_in_progress || m.plan.marked_spec(o) {
        (b, m)
    } else {
        let b0 = BarrierView { refs: b.refs.push(o), ..b };
        if b0.refs.len() >= VECTOR_QUEUE_CAPACITY {
            flush_weak_refs_spec(b0, m)
        } else {
            (b0, m)
        }
    }
}

/// The slots of a memory slice, in address order.
pub open spec fn slice_slots(h: HeapView, s: MemorySlice) -> Seq<Slot> {
    Seq::new(s.len as nat, |i: int| Slot((s.start + i * h.slot_bytes) as usize))
}

/// The slice lies inside the heap and starts on a slot boundary.
pub open spec fn slice_in_heap(h: HeapView, s: MemorySlice) -> bool {
    &&& h.start <= s.start
    &&& (s.start - h.start) % h.slot_bytes == 0
    &&& (s.start - h.start) / h.slot_bytes + s.len <= h.contents.len()
}

/// The slots of a slice inside the heap are slots of the heap, at addresses
/// that fit a `usize`.
pub proof fn lemma_slice_slots_valid(h: HeapView, s: MemorySlice)
    requires
        h.wf(),
        slice_in_heap(h, s),
    ensures
        forall|i: int|
            0 <= i < s.len ==> (#[trigger] slice_slots(h, s)[i]).0 == s.start + i * h.slot_bytes
                && h.valid_slot(slice_slots(h, s)[i]),
{
    let sb = h.slot_bytes;
    let q0 = (s.start - h.start) / sb;
    lemma_fundamental_div_mod(s.start - h.start, sb);
    assert forall|i: int| 0 <= i < s.len implies (#[trigger] slice_slots(h, s)[i]).0 == s.start
        + i * h.slot_bytes && h.valid_slot(slice_slots(h, s)[i]) by {
        let off = sb * (q0 + i);
        assert(s.start - h.start + i * sb == off) by (nonlinear_arith)
            requires
                s.start - h.start == sb * q0,
                off == sb * (q0 + i),
        ;
        assert(off <= sb * h.contents.len()) by (nonlinear_arith)
            requires
                q0 + i <= h.contents.len(),
                sb > 0,
                off == sb * (q0 + i),
        ;
        assert(h.contents.len() * sb == sb * h.contents.len()) by (nonlinear_arith);
        lemma_mod_multiples_basic(q0 + i, sb);
        lemma_div_multiples_vanish(q0 + i, sb);
        assert((q0 + i) * sb == off) by (nonlinear_arith)
            requires
                off == sb * (q0 + i),
        ;
        assert(s.start + i * h.slot_bytes <= h.start + h.contents.len() * sb);
        assert(slice_slots(h, s)[i].0 - h.start == off);
    }
}

/// The barrier's state changes nothing but what the barrier owns: the heap
/// keeps its layout, its contents and its lock bits, the plan its mark state
/// and flags, and the options stay.
pub open spec fn barrier_frame(m: MmtkView, m2: MmtkView) -> bool {
    &&& m2.heap.same_layout(m.heap)
    &&& m2.heap.contents == m.heap.contents
    &&& m2.heap.lock_bits == m.heap.lock_bits
    &&& m2.plan.cm_enabled == m.plan.cm_enabled
    &&& m2.plan.cm_in_progress == m.plan.cm_in_progress
    &&& m2.plan.current_pause == m.plan.current_pause
    &&& m2.plan.marked == m.plan.marked
    &&& m2.options == m.options
}

/// Flushing the decrement buffer keeps the frame and the other buffers, and empties it.
pub proof fn lemma_flush_decs_frame(b: BarrierView, m: MmtkView)
    ensures
        ({
            let (b2, m2) = flush_decs_spec(b, m);
            &&& barrier_frame(m, m2)
            &&& m2.heap == m.heap
            &&& b2.decs.len() == 0
            &&& b2.incs == b.incs
            &&& b2.refs == b.refs
        }),
{
}

/// Flushing the increment buffer keeps the frame and the other buffers, and empties it.
pub proof fn lemma_flush_incs_frame(b: BarrierView, m: MmtkView)
    ensures
        ({
            let (b2, m2) = flush_incs_spec(b, m);
            &&& barrier_frame(m, m2)
            &&& m2.heap == m.heap
            &&& b2.incs.len() == 0
            &&& b2.decs == b.decs
            &&& b2.refs == b.refs
        }),
{
}

/// Flushing the weak references keeps the frame and the other buffers, and empties it.
pub proof fn lemma_flush_weak_refs_frame(b: BarrierView, m: MmtkView)
    ensures
        ({
            let (b2, m2) = flush_weak_refs_spec(b, m);
            &&& barrier_frame(m, m2)
            &&& m2.heap == m.heap
            &&& b2.refs.len() == 0
            &&& b2.incs == b.incs
            &&& b2.decs == b.decs
        }),
{
}

/// The slow path keeps the frame and the heap, and leaves every buffer below capacity.
pub proof fn lemma_slow_frame(b: BarrierView, m: MmtkView, slot: Slot, old: Option<ObjectReference>)
    requires
        b.wf(),
    ensures
        ({
            let (b2, m2) = slow_spec(b, m, slot, old);
            &&& barrier_frame(m, m2)
            &&& m2.heap == m.heap
            &&& b2.wf()
        }),
{
    let b0 = BarrierView { decs: b.decs + dec_entry(m, old), ..b };
    lemma_flush_decs_frame(b0, m);
    let (b1, m1) = if b0.decs.len() >= VECTOR_QUEUE_CAPACITY {
        flush_decs_spec(b0, m)
    } else {
        (b0, m)
    };
    let b2 = BarrierView { incs: b1.incs.push(slot), ..b1 };
    lemma_flush_incs_frame(b2, m1);
}

/// Every write keeps the barrier ready to run, changes no slot contents and
/// no lock bit, and leaves the written slot logged; a slot logged before stays logged.
pub proof fn lemma_enqueue_node_frame(b: BarrierView, m: MmtkView, slot: Slot)
    requires
        ready(b, m),
        m.heap.valid_slot(slot),
        m.heap.barrier_can_proceed(slot),
    ensures
        ({
            let (r, b2, m2) = enqueue_node_spec(b, m, slot);
            &&& ready(b2, m2)
            &&& barrier_frame(m, m2)
            &&& r == !m.heap.is_logged(slot)
            &&& m2.heap.is_logged(slot)
            &&& forall|s: Slot|
                m.heap.valid_slot(s) ==> (#[trigger] m2.heap.is_logged(s) == (m.heap.is_logged(s)
                    || s == slot))
        }),
{
    lemma_slot_indices(m.heap, slot);
    if !m.heap.is_logged(slot) {
        let m1 = MmtkView { heap: m.heap.with_logged(slot), ..m };
        lemma_slow_frame(b, m1, slot, m.heap.target(slot));
        let h2 = m.heap.with_logged(slot);
        assert forall|i: int| 0 <= i < h2.unlog_bits.len() implies #[trigger] h2.unlog_bits[i] <= 1 by {
            if i != m.heap.slot_index(slot) {
                assert(m.heap.unlog_bits[i] <= 1);
            }
        }
        assert forall|s: Slot| m.heap.valid_slot(s) implies (#[trigger] h2.is_logged(s) == (
        m.heap.is_logged(s) || s == slot)) by {
            lemma_slot_indices(m.heap, s);
            if m.heap.slot_index(s) == m.heap.slot_index(slot) {
                lemma_slot_index_injective(m.heap, s, slot);
            }
        }
    }
}

/// Writing to each slot of a sequence keeps the barrier ready and the frame,
/// and leaves every one of them logged.
pub proof fn lemma_enqueue_all_frame(b: BarrierView, m: MmtkView, slots: Seq<Slot>)
    requires
        ready(b, m),
        writable_slots(m.heap, slots),
    ensures
        ({
            let (b2, m2) = enqueue_all_spec(b, m, slots);
            &&& ready(b2, m2)
            &&& barrier_frame(m, m2)
            &&& forall|i: int| 0 <= i < slots.len() ==> m2.heap.is_logged(#[trigger] slots[i])
            &&& forall|s: Slot|
                m.heap.valid_slot(s) ==> (#[trigger] m2.heap.is_logged(s) == (m.heap.is_logged(s)
                    || slots.contains(s)))
        }),
    decreases slots.len(),
{
    if slots.len() > 0 {
        let pre = slots.drop_last();
        assert forall|i: int| 0 <= i < pre.len() implies m.heap.valid_slot(#[trigger] pre[i])
            && m.heap.barrier_can_proceed(pre[i]) by {
            assert(pre[i] == slots[i]);
        }
        lemma_enqueue_all_frame(b, m, pre);
        let (b1, m1) = enqueue_all_spec(b, m, pre);
        assert(m.heap.valid_slot(slots[slots.len() - 1]));
        assert(m1.heap.valid_slot(slots.last()));
        assert(m1.heap.barrier_can_proceed(slots.last()));
        lemma_enqueue_node_frame(b1, m1, slots.last());
        let (r, b2, m2) = enqueue_node_spec(b1, m1, slots.last());
        assert forall|i: int| 0 <= i < slots.len() implies m2.heap.is_logged(#[trigger] slots[i]) by {
            if i < slots.len() - 1 {
                assert(pre[i] == slots[i]);
                assert(m1.heap.valid_slot(slots[i]));
            }
        }
        assert forall|s: Slot| m.heap.valid_slot(s) implies (#[trigger] m2.heap.is_logged(s) == (
        m.heap.is_logged(s) || slots.contains(s))) by {
            assert(m1.heap.valid_slot(s));
            assert(m1.heap.is_logged(s) == (m.heap.is_logged(s) || pre.contains(s)));
            if slots.contains(s) && s != slots.last() {
                let k = choose|k: int| 0 <= k < slots.len() && slots[k] == s;
                assert(k < slots.len() - 1);
                assert(pre[k] == s);
            }
            if pre.contains(s) {
                let k = choose|k: int| 0 <= k < pre.len() && pre[k] == s;
                assert(slots[k] == s);
            }
            if s == slots.last() {
                assert(slots[slots.len() - 1] == s);
            }
        }
    }
}

/// A field barrier of the LXR plan: it logs slots on their first write since
/// they were unlogged, buffers the increments and decrements this calls for,
/// and the objects loaded through weak references during a concurrent mark.
pub struct LXRFieldBarrierSemantics {
    incs: VectorQueue<Slot>,
    decs: VectorQueue<ObjectReference>,
    refs: VectorQueue<ObjectReference>,
}

impl View for LXRFieldBarrierSemantics {
    type V = BarrierView;

    closed spec fn view(&self) -> BarrierView {
        BarrierView { incs: self.incs@, decs: self.decs@, refs: self.refs@ }
    }
}

/// The heap bytes that one byte of unlog bits describes: eight slots.
pub fn heap_bytes_per_unlog_byte(compressed_ptrs: bool) -> (r: usize)
    ensures
        r == heap_bytes_per_unlog_byte_spec(compressed_ptrs),
{
    if compressed_ptrs {
        32
    } else {
        64
    }
}

/// Whether the holder of the lock bit covering a slot may set the slot's
/// unlog bit with a plain store: it may when one lock bit covers at least
/// the heap bytes of a whole byte of unlog bits; otherwise barriers holding
/// other lock bits may write the same byte, and the store must be atomic.
pub fn plain_unlog_store_suffices(compressed_ptrs: bool, log_bytes_per_lock_bit: usize) -> (r: bool)
    requires
        log_bytes_per_lock_bit < usize::BITS,
    ensures
        r == plain_unlog_store_suffices_spec(compressed_ptrs, log_bytes_per_lock_bit as int),
{
    proof {
        lemma_usize_pow2_no_overflow(log_bytes_per_lock_bit as nat);
        lemma_usize_shl_is_mul(1, log_bytes_per_lock_bit);
    }
    (1usize << log_bytes_per_lock_bit) >= heap_bytes_per_unlog_byte(compressed_ptrs)
}

impl LXRFieldBarrierSemantics {
    /// A barrier with empty buffers.
    #[allow(unused_variables)]
    pub fn new(mmtk: &Mmtk) -> (r: Self)
        ensures
            r@.incs == Seq::<Slot>::empty(),
            r@.decs == Seq::<ObjectReference>::empty(),
            r@.refs == Seq::<ObjectReference>::empty(),
            r@.wf(),
    {
        LXRFieldBarrierSemantics {
            incs: VectorQueue::new(),
            decs: VectorQueue::new(),
            refs: VectorQueue::new(),
        }
    }

    /// The slot's unlog bit.
    pub fn get_slot_logging_state(&self, heap: &Heap, slot: Slot) -> (r: u8)
        requires
            heap@.wf(),
            heap@.valid_slot(slot),
        ensures
            r == heap@.unlog_bits[heap@.slot_index(slot)],
            (r == LOGGED_VALUE) == heap@.is_logged(slot),
    {
        heap.load_unlog_bit(slot)
    }

    /// Takes the lock bit covering the slot unless the slot is logged.
    /// Returns whether it took the lock; the heap is otherwise unchanged.
    pub fn attempt_to_lock_slot_bailout_if_logged(&self, heap: &mut Heap, slot: Slot) -> (r: bool)
        requires
            old(heap)@.wf(),
            old(heap)@.valid_slot(slot),
            old(heap)@.barrier_can_proceed(slot),
        ensures
            final(heap)@.wf(),
            r == !old(heap)@.is_logged(slot),
            r ==> final(heap)@ == old(heap)@.with_lock_bit(slot, LOCKED_VALUE),
            !r ==> final(heap)@ == old(heap)@,
    {
        proof {
            lemma_slot_indices(heap@, slot);
        }
        loop
            invariant
                heap@ == old(heap)@,
                heap@.wf(),
                heap@.valid_slot(slot),
                heap@.barrier_can_proceed(slot),
            decreases 0nat,
        {
            // Bail out if the slot is logged.
            if self.get_slot_logging_state(heap, slot) == LOGGED_VALUE {
                return false;
            }
            let before = Ghost(heap@);
            proof {
                lemma_slot_indices(heap@, slot);
                assert(heap@.lock_bits[heap@.lock_index(slot)] <= 1);
                assert(heap@.lock_bits[heap@.lock_index(slot)] == UNLOCKED_VALUE);
            }
            // Try to take the lock; it is free, so this succeeds.
            match heap.compare_exchange_lock_bit(
                slot,
                UNLOCKED_VALUE,
                LOCKED_VALUE,
                Ordering::Relaxed,
                Ordering::Relaxed,
            ) {
                Ok(_) => {
                    if self.get_slot_logging_state(heap, slot) == LOGGED_VALUE {
                        self.unlock_slot(heap, slot);
                        assert(heap@.lock_bits =~= before@.lock_bits);
                        return false;
                    }
                    return true;
                },
                Err(_) => {},
            }
        }
    }

    /// Releases the lock bit covering the slot.
    pub fn unlock_slot(&self, heap: &mut Heap, slot: Slot)
        requires
            old(heap)@.wf(),
            old(heap)@.valid_slot(slot),
        ensures
            final(heap)@ == old(heap)@.with_lock_bit(slot, UNLOCKED_VALUE),
            final(heap)@.wf(),
    {
        heap.store_lock_bit(slot, UNLOCKED_VALUE, Ordering::Relaxed);
    }

    /// Marks the slot as logged and releases the lock bit covering it.
    pub fn log_and_unlock_slot(&self, heap: &mut Heap, slot: Slot)
        requires
            old(heap)@.wf(),
            old(heap)@.valid_slot(slot),
        ensures
            final(heap)@ == old(heap)@.with_logged(slot).with_lock_bit(slot, UNLOCKED_VALUE),
            final(heap)@.wf(),
    {
        let compressed = heap.compressed_ptrs();
        let log_bytes = heap.log_bytes_per_lock_bit();
        if plain_unlog_store_suffices(compressed, log_bytes) {
            heap.store_unlog_bit(slot, LOGGED_VALUE);
        } else {
            heap.store_unlog_bit_atomic(slot, LOGGED_VALUE, Ordering::Relaxed);
        }
        heap.store_lock_bit(slot, UNLOCKED_VALUE, Ordering::Relaxed);
    }

    /// Logs the slot under its lock bit. If the slot was unlogged, returns
    /// `Ok` with the referent it held and leaves it logged; if it was logged,
    /// returns `Err(())` and changes nothing.
    pub fn log_slot_and_get_old_target(&self, heap: &mut Heap, slot: Slot) -> (r: Result<
        Option<ObjectReference>,
        (),
    >)
        requires
            old(heap)@.wf(),
            old(heap)@.valid_slot(slot),
            old(heap)@.barrier_can_proceed(slot),
        ensures
            final(heap)@.wf(),
            (r, final(heap)@) == log_slot_spec(old(heap)@, slot),
    {
        proof {
            lemma_slot_indices(heap@, slot);
        }
        if self.attempt_to_lock_slot_bailout_if_logged(heap, slot) {
            let old_target = heap.load(slot);
            self.log_and_unlock_slot(heap, slot);
            assert(heap@.lock_bits =~= old(heap)@.lock_bits);
            Ok(old_target)
        } else {
            Err(())
        }
    }

    /// Logs the slot without taking its lock bit, with the same outcome as
    /// `log_slot_and_get_old_target`.
    pub fn log_slot_and_get_old_target_sloppy(&self, heap: &mut Heap, slot: Slot) -> (r: Result<
        Option<ObjectReference>,
        (),
    >)
        requires
            old(heap)@.wf(),
            old(heap)@.valid_slot(slot),
        ensures
            final(heap)@.wf(),
            (r, final(heap)@) == log_slot_spec(old(heap)@, slot),
    {
        if !heap.is_field_logged(slot) {
            let old_target = heap.load(slot);
            heap.log_field(slot);
            Ok(old_target)
        } else {
            Err(())
        }
    }

    /// Whether decrements must also feed the concurrent mark.
    pub fn should_create_satb_packets(&self, mmtk: &Mmtk) -> (r: bool)
        ensures
            r == satb_active(mmtk.plan),
    {
        mmtk.plan.cm_enabled && (mmtk.plan.cm_in_progress || mmtk.plan.current_pause == Some(
            Pause::FinalMark,
        ))
    }

    /// Hands the increment buffer, if not empty, to the increment bucket and
    /// adds its length to the plan's count of increments.
    pub fn flush_incs(&mut self, mmtk: &mut Mmtk)
        ensures
            (final(self)@, final(mmtk)@) == flush_incs_spec(old(self)@, old(mmtk)@),
    {
        if !self.incs.is_empty() {
            let incs = self.incs.take();
            mmtk.plan.increase_inc_buffer_size(incs.len());
            mmtk.scheduler.add(WorkBucketStage::RCProcessIncs, GCWork::ProcessIncs(incs));
        }
    }

    /// Hands the decrement buffer, if not empty, to the collector: while SATB
    /// packets are due its objects go to the concurrent mark as well; the
    /// decrement packet is postponed when decrements are lazy and goes to the
    /// stop-the-world decrement bucket otherwise.
    pub fn flush_decs_and_satb(&mut self, mmtk: &mut Mmtk)
        ensures
            (final(self)@, final(mmtk)@) == flush_decs_spec(old(self)@, old(mmtk)@),
    {
        if !self.decs.is_empty() {
            if mmtk.options.decs_counter {
                mmtk.plan.barrier_decs = mmtk.plan.barrier_decs.wrapping_add(self.decs.len());
            }
            let w = if self.should_create_satb_packets(mmtk) {
                let decs = self.decs.take();
                let shared = decs.clone();
                assert(shared@ =~= decs@);
                mmtk.scheduler.add(WorkBucketStage::Unconstrained, GCWork::ProcessModBufSATB(shared));
                GCWork::ProcessDecs(decs)
            } else {
                let decs = self.decs.take();
                GCWork::ProcessDecs(decs)
            };
            if mmtk.options.lazy_decrements {
                mmtk.scheduler.postpone_prioritized(w);
            } else {
                mmtk.scheduler.add(WorkBucketStage::STWRCDecsAndSweep, w);
            }
        }
    }

    /// Hands the weakly loaded objects, if any, to the concurrent mark.
    pub fn flush_weak_refs(&mut self, mmtk: &mut Mmtk)
        ensures
            (final(self)@, final(mmtk)@) == flush_weak_refs_spec(old(self)@, old(mmtk)@),
    {
        if !self.refs.is_empty() {
            let nodes = self.refs.take();
            mmtk.scheduler.add(WorkBucketStage::Unconstrained, GCWork::ProcessModBufSATB(nodes));
        }
    }

    /// Hands every buffer to the collector.
    pub fn flush(&mut self, mmtk: &mut Mmtk)
        ensures
            (final(self)@, final(mmtk)@) == flush_spec(old(self)@, old(mmtk)@),
            final(self)@.incs.len() == 0,
            final(self)@.decs.len() == 0,
            final(self)@.refs.len() == 0,
    {
        proof {
            let (b1, m1) = flush_weak_refs_spec(self@, mmtk@);
            let (b2, m2) = flush_incs_spec(b1, m1);
            lemma_flush_weak_refs_frame(self@, mmtk@);
            lemma_flush_incs_frame(b1, m1);
            lemma_flush_decs_frame(b2, m2);
        }
        self.flush_weak_refs(mmtk);
        self.flush_incs(mmtk);
        self.flush_decs_and_satb(mmtk);
    }

    /// The slow path for a freshly logged slot that held `old`: records the
    /// decrement of `old_target` (if any, and unless it is marked and marked objects
    /// get none) and the increment of the slot, handing over full buffers.
    #[allow(unused_variables)]
    pub fn slow(
        &mut self,
        mmtk: &mut Mmtk,
        src: Option<ObjectReference>,
        slot: Slot,
        old_target: Option<ObjectReference>,
    )
        requires
            old(self)@.wf(),
        ensures
            (final(self)@, final(mmtk)@) == slow_spec(old(self)@, old(mmtk)@, slot, old_target),
            final(self)@.wf(),
    {
        proof {
            lemma_slow_frame(self@, mmtk@, slot, old_target);
        }
        let ghost b = self@;
        let ghost m = mmtk@;
        if let Some(o) = old_target {
            if !mmtk.options.no_decs || !mmtk.plan.is_marked(o) {
                self.decs.push(o);
                assert(self@.decs =~= b.decs + dec_entry(m, old_target));
                if self.decs.is_full() {
                    self.flush_decs_and_satb(mmtk);
                }
            } else {
                assert(self@.decs =~= b.decs + dec_entry(m, old_target));
            }
        } else {
            assert(self@.decs =~= b.decs + dec_entry(m, old_target));
        }
        self.incs.push(slot);
        if self.incs.is_full() {
            self.flush_incs(mmtk);
        }
    }

    /// The barrier for a write to `slot`: logs the slot and takes the slow
    /// path if this is its first write since it was unlogged. Returns whether
    /// it did.
    #[allow(unused_variables)]
    pub fn enqueue_node(
        &mut self,
        mmtk: &mut Mmtk,
        src: Option<ObjectReference>,
        slot: Slot,
        new: Option<ObjectReference>,
    ) -> (r: bool)
        requires
            ready(old(self)@, old(mmtk)@),
            old(mmtk)@.heap.valid_slot(slot),
            old(mmtk)@.heap.barrier_can_proceed(slot),
        ensures
            (r, final(self)@, final(mmtk)@) == enqueue_node_spec(old(self)@, old(mmtk)@, slot),
            ready(final(self)@, final(mmtk)@),
            barrier_frame(old(mmtk)@, final(mmtk)@),
            forall|s: Slot|
                old(mmtk)@.heap.valid_slot(s) ==> (#[trigger] final(mmtk)@.heap.is_logged(s) == (
                old(mmtk)@.heap.is_logged(s) || s == slot)),
    {
        proof {
            lemma_enqueue_node_frame(self@, mmtk@, slot);
        }
        match self.log_slot_and_get_old_target(&mut mmtk.heap, slot) {
            Ok(old_target) => {
                self.slow(mmtk, src, slot, old_target);
                true
            },
            Err(_) => false,
        }
    }

    /// The barrier for a write of `target` into `slot` of `src`.
    pub fn object_reference_write_slow(
        &mut self,
        mmtk: &mut Mmtk,
        src: Option<ObjectReference>,
        slot: Slot,
        target: Option<ObjectReference>,
    )
        requires
            ready(old(self)@, old(mmtk)@),
            old(mmtk)@.heap.valid_slot(slot),
            old(mmtk)@.heap.barrier_can_proceed(slot),
        ensures
            final(self)@ == enqueue_node_spec(old(self)@, old(mmtk)@, slot).1,
            final(mmtk)@ == enqueue_node_spec(old(self)@, old(mmtk)@, slot).2,
            ready(final(self)@, final(mmtk)@),
    {
        self.enqueue_node(mmtk, src, slot, target);
    }

    /// The barrier for a copy into the slots of `dst`: each slot is written in
    /// address order.
    #[allow(unused_variables)]
    pub fn memory_region_copy_slow(&mut self, mmtk: &mut Mmtk, src: MemorySlice, dst: MemorySlice)
        requires
            ready(old(self)@, old(mmtk)@),
            slice_in_heap(old(mmtk)@.heap, dst),
            forall|i: int|
                0 <= i < dst.len ==> old(mmtk)@.heap.barrier_can_proceed(
                    #[trigger] slice_slots(old(mmtk)@.heap, dst)[i],
                ),
        ensures
            (final(self)@, final(mmtk)@) == enqueue_all_spec(
                old(self)@,
                old(mmtk)@,
                slice_slots(old(mmtk)@.heap, dst),
            ),
            ready(final(self)@, final(mmtk)@),
    {
        let ghost b0 = self@;
        let ghost m0 = mmtk@;
        let ghost slots = slice_slots(m0.heap, dst);
        proof {
            lemma_slice_slots_valid(m0.heap, dst);
            assert(slots.take(0) =~= Seq::<Slot>::empty());
        }
        let slot_bytes = mmtk.heap.slot_bytes();
        let mut i: usize = 0;
        while i < dst.len
            invariant
                0 <= i <= dst.len,
                slots == slice_slots(m0.heap, dst),
                slots.len() == dst.len,
                slot_bytes == m0.heap.slot_bytes,
                forall|j: int|
                    0 <= j < dst.len ==> (#[trigger] slots[j]).0 == dst.start + j
                        * m0.heap.slot_bytes && m0.heap.valid_slot(slots[j]) && m0.heap.barrier_can_proceed(
                        slots[j],
                    ),
                (self@, mmtk@) == enqueue_all_spec(b0, m0, slots.take(i as int)),
                ready(self@, mmtk@),
                barrier_frame(m0, mmtk@),
                forall|s: Slot|
                    m0.heap.valid_slot(s) && m0.heap.is_logged(s) ==> #[trigger] mmtk@.heap.is_logged(s),
            decreases dst.len - i,
        {
            assert(slots[i as int].0 == dst.start + i * m0.heap.slot_bytes);
            let s = Slot(dst.start + i * slot_bytes);
            assert(s == slots[i as int]);
            self.enqueue_node(mmtk, None, s, None);
            proof {
                assert(slots.take(i + 1).drop_last() =~= slots.take(i as int));
                assert(slots.take(i + 1).last() == s);
            }
            i = i + 1;
        }
        proof {
            assert(slots.take(dst.len as int) =~= slots);
        }
    }

    /// A load of `o` through a weak reference: during a concurrent mark an
    /// unmarked `o` is kept for the mark. When that fills the buffer, the
    /// buffer is handed to the mark.
    pub fn load_reference(&mut self, mmtk: &mut Mmtk, o: ObjectReference)
        requires
            old(self)@.wf(),
        ensures
            (final(self)@, final(mmtk)@) == load_reference_spec(old(self)@, old(mmtk)@, o),
            final(self)@.wf(),
    {
        if !mmtk.plan.cm_in_progress || mmtk.plan.is_marked(o) {
            return;
        }
        self.refs.push(o);
        if self.refs.is_full() {
            self.flush_weak_refs(mmtk);
        }
    }

    /// The barrier for an object all of whose reference fields may be
    /// written: each of `fields`, the object's reference slots in the order
    /// the object model lists them, is written in turn.
    pub fn object_probable_write_slow(&mut self, mmtk: &mut Mmtk, obj: ObjectReference, fields: &Vec<Slot>)
        requires
            ready(old(self)@, old(mmtk)@),
            writable_slots(old(mmtk)@.heap, fields@),
        ensures
            (final(self)@, final(mmtk)@) == enqueue_all_spec(old(self)@, old(mmtk)@, fields@),
            ready(final(self)@, final(mmtk)@),
    {
        let ghost b0 = self@;
        let ghost m0 = mmtk@;
        proof {
            assert(fields@.take(0) =~= Seq::<Slot>::empty());
        }
        let mut i: usize = 0;
        while i < fields.len()
            invariant
                0 <= i <= fields.len(),
                writable_slots(m0.heap, fields@),
                (self@, mmtk@) == enqueue_all_spec(b0, m0, fields@.take(i as int)),
                ready(self@, mmtk@),
                barrier_frame(m0, mmtk@),
                forall|s: Slot|
                    m0.heap.valid_slot(s) && m0.heap.is_logged(s) ==> #[trigger] mmtk@.heap.is_logged(s),
            decreases fields.len() - i,
        {
            let s = fields[i];
            self.enqueue_node(mmtk, Some(obj), s, None);
            proof {
                assert(fields@.take(i + 1).drop_last() =~= fields@.take(i as int));
                assert(fields@.take(i + 1).last() == s);
            }
            i = i + 1;
        }
        proof {
            assert(fields@.take(fields.len() as int) =~= fields@);
        }
    }

    /// The buffered increments, oldest first.
    pub fn incs(&self) -> (r: &Vec<Slot>)
        ensures
            r@ == self@.incs,
    {
        self.incs.as_vec()
    }

    /// The buffered decrements, oldest first.
    pub fn decs(&self) -> (r: &Vec<ObjectReference>)
        ensures
            r@ == self@.decs,
    {
        self.decs.as_vec()
    }

    /// The buffered weakly loaded objects, oldest first.
    pub fn refs(&self) -> (r: &Vec<ObjectReference>)
        ensures
            r@ == self@.refs,
    {
        self.refs.as_vec()
    }
}

} // verus!
