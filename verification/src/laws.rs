//! What the barrier promises across calls: a slot is logged once, every
//! logged slot yields exactly one increment and the decrement its old
//! referent calls for, and handing buffers over loses nothing.
use vstd::prelude::*;
use crate::object::{ObjectReference, Slot};
use crate::plan::{Lxr, MmtkView, Pause};
use vstd::wrapping::usize_specs::wrapping_add;
use crate::heap::{HeapView, lemma_slot_indices, lemma_slot_index_injective};
use crate::work::GCWorkView;
use crate::barrier::{
    BarrierView,
    ready,
    writable_slots,
    satb_active,
    dec_entry,
    enqueue_node_spec,
    log_slot_spec,
    enqueue_all_spec,
    lemma_enqueue_all_frame,
    lemma_flush_decs_frame,
    lemma_flush_incs_frame,
    lemma_flush_weak_refs_frame,
    flush_incs_spec,
    flush_decs_spec,
    flush_weak_refs_spec,
    flush_spec,
    slow_spec,
    load_reference_spec,
    lemma_enqueue_node_frame,
};
use crate::queue::VECTOR_QUEUE_CAPACITY;

verus! {

/// The slots of the increment packets among `ws`, oldest packet first.
pub open spec fn incs_in(ws: Seq<GCWorkView>) -> Seq<Slot>
    decreases ws.len(),
{
    if ws.len() == 0 {
        Seq::empty()
    } else {
        incs_in(ws.drop_last()) + match ws.last() {
            GCWorkView::ProcessIncs(s) => s,
            _ => Seq::empty(),
        }
    }
}

/// The objects of the decrement packets among `ws`, oldest packet first.
pub open spec fn decs_in(ws: Seq<GCWorkView>) -> Seq<ObjectReference>
    decreases ws.len(),
{
    if ws.len() == 0 {
        Seq::empty()
    } else {
        decs_in(ws.drop_last()) + match ws.last() {
            GCWorkView::ProcessDecs(s) => s,
            _ => Seq::empty(),
        }
    }
}

/// The objects of the marking packets among `ws`, oldest packet first.
pub open spec fn satb_in(ws: Seq<GCWorkView>) -> Seq<ObjectReference>
    decreases ws.len(),
{
    if ws.len() == 0 {
        Seq::empty()
    } else {
        satb_in(ws.drop_last()) + match ws.last() {
            GCWorkView::ProcessModBufSATB(s) => s,
            _ => Seq::empty(),
        }
    }
}

/// Every increment the barrier has recorded: those handed to the increment
/// bucket, then those still buffered.
pub open spec fn recorded_incs(b: BarrierView, m: MmtkView) -> Seq<Slot> {
    incs_in(m.scheduler.rc_process_incs) + b.incs
}

/// Every decrement the barrier has recorded: those handed to the collector
/// (postponed when decrements are lazy, in the stop-the-world bucket
/// otherwise), then those still buffered.
pub open spec fn recorded_decs(b: BarrierView, m: MmtkView) -> Seq<ObjectReference> {
    decs_in(
        if m.options.lazy_decrements {
            m.scheduler.prioritized
        } else {
            m.scheduler.stw_rc_decs_and_sweep
        },
    ) + b.decs
}

/// Every object kept for the concurrent mark: those handed over, then the
/// weakly loaded ones still buffered.
pub open spec fn recorded_marks(b: BarrierView, m: MmtkView) -> Seq<ObjectReference> {
    satb_in(m.scheduler.unconstrained) + b.refs
}

proof fn lemma_incs_in_push(ws: Seq<GCWorkView>, w: GCWorkView)
    ensures
        incs_in(ws.push(w)) == incs_in(ws) + match w {
            GCWorkView::ProcessIncs(s) => s,
            _ => Seq::empty(),
        },
{
    assert(ws.push(w).drop_last() =~= ws);
}

proof fn lemma_decs_in_push(ws: Seq<GCWorkView>, w: GCWorkView)
    ensures
        decs_in(ws.push(w)) == decs_in(ws) + match w {
            GCWorkView::ProcessDecs(s) => s,
            _ => Seq::empty(),
        },
{
    assert(ws.push(w).drop_last() =~= ws);
}

proof fn lemma_satb_in_push(ws: Seq<GCWorkView>, w: GCWorkView)
    ensures
        satb_in(ws.push(w)) == satb_in(ws) + match w {
            GCWorkView::ProcessModBufSATB(s) => s,
            _ => Seq::empty(),
        },
{
    assert(ws.push(w).drop_last() =~= ws);
}

/// Handing the increments over loses none and leaves the other records alone.
pub proof fn lemma_flush_incs_records(b: BarrierView, m: MmtkView)
    ensures
        ({
            let (b2, m2) = flush_incs_spec(b, m);
            &&& recorded_incs(b2, m2) == recorded_incs(b, m)
            &&& recorded_decs(b2, m2) == recorded_decs(b, m)
            &&& recorded_marks(b2, m2) == recorded_marks(b, m)
            &&& b2.incs.len() == 0
        }),
{
    if b.incs.len() > 0 {
        lemma_incs_in_push(m.scheduler.rc_process_incs, GCWorkView::ProcessIncs(b.incs));
        let (b2, m2) = flush_incs_spec(b, m);
        assert(recorded_incs(b2, m2) =~= recorded_incs(b, m));
    }
}

/// Handing the decrements over loses none, leaves the increments and the
/// weak references alone, and while SATB packets are due gives the same
/// objects to the concurrent mark.
pub proof fn lemma_flush_decs_records(b: BarrierView, m: MmtkView)
    ensures
        ({
            let (b2, m2) = flush_decs_spec(b, m);
            &&& recorded_incs(b2, m2) == recorded_incs(b, m)
            &&& recorded_decs(b2, m2) == recorded_decs(b, m)
            &&& satb_in(m2.scheduler.unconstrained) == satb_in(m.scheduler.unconstrained) + (
            if satb_active(m.plan) {
                b.decs
            } else {
                Seq::empty()
            })
            &&& b2.refs == b.refs
            &&& b2.decs.len() == 0
        }),
{
    if b.decs.len() > 0 {
        let s = m.scheduler;
        lemma_satb_in_push(s.unconstrained, GCWorkView::ProcessModBufSATB(b.decs));
        lemma_decs_in_push(s.prioritized, GCWorkView::ProcessDecs(b.decs));
        lemma_decs_in_push(s.stw_rc_decs_and_sweep, GCWorkView::ProcessDecs(b.decs));
        let (b2, m2) = flush_decs_spec(b, m);
        assert(recorded_decs(b2, m2) =~= recorded_decs(b, m));
    } else {
        assert(b.decs =~= Seq::<ObjectReference>::empty());
        assert(satb_in(m.scheduler.unconstrained) + b.decs =~= satb_in(m.scheduler.unconstrained));
        assert(satb_in(m.scheduler.unconstrained) + Seq::<ObjectReference>::empty() =~= satb_in(
            m.scheduler.unconstrained,
        ));
    }
}

/// Handing the weak references over loses none and leaves the other records alone.
pub proof fn lemma_flush_weak_refs_records(b: BarrierView, m: MmtkView)
    ensures
        ({
            let (b2, m2) = flush_weak_refs_spec(b, m);
            &&& recorded_incs(b2, m2) == recorded_incs(b, m)
            &&& recorded_decs(b2, m2) == recorded_decs(b, m)
            &&& recorded_marks(b2, m2) == recorded_marks(b, m)
            &&& b2.decs == b.decs
            &&& b2.refs.len() == 0
        }),
{
    if b.refs.len() > 0 {
        lemma_satb_in_push(m.scheduler.unconstrained, GCWorkView::ProcessModBufSATB(b.refs));
        let (b2, m2) = flush_weak_refs_spec(b, m);
        assert(recorded_marks(b2, m2) =~= recorded_marks(b, m));
    }
}

/// A flush empties every buffer and loses nothing: the recorded increments
/// and decrements are what they were, and the concurrent mark receives the
/// buffered weak references followed, while SATB packets are due, by the
/// buffered decrements.
pub proof fn lemma_flush_records(b: BarrierView, m: MmtkView)
    ensures
        ({
            let (b2, m2) = flush_spec(b, m);
            &&& b2.incs.len() == 0
            &&& b2.decs.len() == 0
            &&& b2.refs.len() == 0
            &&& recorded_incs(b2, m2) == recorded_incs(b, m)
            &&& recorded_decs(b2, m2) == recorded_decs(b, m)
            &&& satb_in(m2.scheduler.unconstrained) == satb_in(m.scheduler.unconstrained) + b.refs
                + (if satb_active(m.plan) {
                b.decs
            } else {
                Seq::empty()
            })
        }),
{
    let (b1, m1) = flush_weak_refs_spec(b, m);
    let (b2, m2) = flush_incs_spec(b1, m1);
    lemma_flush_weak_refs_records(b, m);
    lemma_flush_incs_records(b1, m1);
    lemma_flush_decs_records(b2, m2);
    crate::barrier::lemma_flush_weak_refs_frame(b, m);
    crate::barrier::lemma_flush_incs_frame(b1, m1);
    let (b3, m3) = flush_decs_spec(b2, m2);
    assert(satb_in(m2.scheduler.unconstrained) == satb_in(m.scheduler.unconstrained) + b.refs);
}

/// The slow path records exactly one increment, of the slot, and the
/// decrement the old referent calls for.
pub proof fn lemma_slow_records(b: BarrierView, m: MmtkView, slot: Slot, old_target: Option<ObjectReference>)
    requires
        b.wf(),
    ensures
        ({
            let (b2, m2) = slow_spec(b, m, slot, old_target);
            &&& recorded_incs(b2, m2) == recorded_incs(b, m).push(slot)
            &&& recorded_decs(b2, m2) == recorded_decs(b, m) + dec_entry(m, old_target)
        }),
{
    let b0 = BarrierView { decs: b.decs + dec_entry(m, old_target), ..b };
    lemma_flush_decs_records(b0, m);
    let (b1, m1) = if b0.decs.len() >= VECTOR_QUEUE_CAPACITY {
        flush_decs_spec(b0, m)
    } else {
        (b0, m)
    };
    assert(recorded_decs(b1, m1) =~= recorded_decs(b, m) + dec_entry(m, old_target));
    assert(recorded_incs(b1, m1) == recorded_incs(b, m));
    let b2 = BarrierView { incs: b1.incs.push(slot), ..b1 };
    assert(recorded_incs(b2, m1) =~= recorded_incs(b, m).push(slot));
    lemma_flush_incs_records(b2, m1);
}

/// A write to a slot records, when it logs the slot, exactly one increment
/// (of that slot) and the decrement of the referent the slot held; when the
/// slot was logged already it records nothing.
pub proof fn lemma_enqueue_node_records(b: BarrierView, m: MmtkView, slot: Slot)
    requires
        ready(b, m),
        m.heap.valid_slot(slot),
        m.heap.barrier_can_proceed(slot),
    ensures
        ({
            let (r, b2, m2) = enqueue_node_spec(b, m, slot);
            &&& r == !m.heap.is_logged(slot)
            &&& recorded_incs(b2, m2) == recorded_incs(b, m) + (if r {
                seq![slot]
            } else {
                Seq::empty()
            })
            &&& recorded_decs(b2, m2) == recorded_decs(b, m) + (if r {
                dec_entry(m, m.heap.target(slot))
            } else {
                Seq::empty()
            })
        }),
{
    if !m.heap.is_logged(slot) {
        let m1 = MmtkView { heap: m.heap.with_logged(slot), ..m };
        lemma_slow_records(b, m1, slot, m.heap.target(slot));
        assert(recorded_incs(b, m).push(slot) =~= recorded_incs(b, m) + seq![slot]);
    } else {
        assert(recorded_incs(b, m) + Seq::<Slot>::empty() =~= recorded_incs(b, m));
        assert(recorded_decs(b, m) + Seq::<ObjectReference>::empty() =~= recorded_decs(b, m));
    }
}

/// Logging a slot has one outcome, whether or not the lock bit is taken
/// (`log_slot_and_get_old_target` and `log_slot_and_get_old_target_sloppy`
/// both return it): it fails exactly when the slot is logged, and then
/// changes nothing; otherwise it returns the referent the slot holds and
/// logs the slot. Either way no slot's contents, no lock bit and no other
/// slot's unlog bit changes.
pub proof fn lemma_log_slot_outcome(h: HeapView, slot: Slot)
    requires
        h.wf(),
        h.valid_slot(slot),
    ensures
        ({
            let (r, h2) = log_slot_spec(h, slot);
            &&& (r is Err) == h.is_logged(slot)
            &&& h.is_logged(slot) ==> h2 == h
            &&& !h.is_logged(slot) ==> r == Ok::<Option<ObjectReference>, ()>(h.target(slot))
            &&& h2.wf()
            &&& h2.same_layout(h)
            &&& h2.contents == h.contents
            &&& h2.lock_bits == h.lock_bits
            &&& forall|s: Slot|
                h.valid_slot(s) ==> (#[trigger] h2.is_logged(s) == (h.is_logged(s) || s == slot))
        }),
{
    lemma_slot_indices(h, slot);
    let (r, h2) = log_slot_spec(h, slot);
    if !h.is_logged(slot) {
        assert forall|i: int| 0 <= i < h2.unlog_bits.len() implies #[trigger] h2.unlog_bits[i] <= 1 by {
            if i != h.slot_index(slot) {
                assert(h.unlog_bits[i] <= 1);
            }
        }
    }
    assert forall|s: Slot| h.valid_slot(s) implies (#[trigger] h2.is_logged(s) == (h.is_logged(s)
        || s == slot)) by {
        lemma_slot_indices(h, s);
        if h.slot_index(s) == h.slot_index(slot) {
            lemma_slot_index_injective(h, s, slot);
        }
    }
}

/// A slot is logged once: a second write to the same slot takes no slow path
/// and changes nothing.
pub proof fn lemma_enqueue_node_logs_once(b: BarrierView, m: MmtkView, slot: Slot)
    requires
        ready(b, m),
        m.heap.valid_slot(slot),
        m.heap.barrier_can_proceed(slot),
    ensures
        ({
            let (r1, b1, m1) = enqueue_node_spec(b, m, slot);
            let (r2, b2, m2) = enqueue_node_spec(b1, m1, slot);
            &&& r1 == !m.heap.is_logged(slot)
            &&& !r2
            &&& b2 == b1
            &&& m2 == m1
        }),
{
    lemma_enqueue_node_frame(b, m, slot);
}

/// A weak-reference load during a concurrent mark records an unmarked
/// referent for the mark, and loses nothing already recorded.
pub proof fn lemma_load_reference_records(b: BarrierView, m: MmtkView, o: ObjectReference)
    requires
        b.wf(),
    ensures
        ({
            let (b2, m2) = load_reference_spec(b, m, o);
            &&& recorded_marks(b2, m2) == recorded_marks(b, m) + (if m.plan.cm_in_progress
                && !m.plan.marked_spec(o) {
                seq![o]
            } else {
                Seq::empty()
            })
            &&& recorded_incs(b2, m2) == recorded_incs(b, m)
            &&& recorded_decs(b2, m2) == recorded_decs(b, m)
            &&& b2.wf()
        }),
{
    if m.plan.cm_in_progress && !m.plan.marked_spec(o) {
        let b0 = BarrierView { refs: b.refs.push(o), ..b };
        lemma_flush_weak_refs_records(b0, m);
        assert(recorded_marks(b0, m) =~= recorded_marks(b, m) + seq![o]);
    } else {
        assert(recorded_marks(b, m) + Seq::<ObjectReference>::empty() =~= recorded_marks(b, m));
    }
}

/// The writes of a run that find their slot unlogged: each slot not logged
/// in `h` and not written earlier in the run, in the order of first write.
pub open spec fn first_writes(h: HeapView, slots: Seq<Slot>) -> Seq<Slot>
    decreases slots.len(),
{
    if slots.len() == 0 {
        Seq::empty()
    } else {
        let pre = slots.drop_last();
        first_writes(h, pre) + if h.is_logged(slots.last()) || pre.contains(slots.last()) {
            Seq::empty()
        } else {
            seq![slots.last()]
        }
    }
}

/// The decrements a run of writes calls for: for each first write, that of
/// the referent its slot held.
pub open spec fn first_write_decs(m: MmtkView, slots: Seq<Slot>) -> Seq<ObjectReference>
    decreases slots.len(),
{
    if slots.len() == 0 {
        Seq::empty()
    } else {
        let pre = slots.drop_last();
        first_write_decs(m, pre) + if m.heap.is_logged(slots.last()) || pre.contains(slots.last()) {
            Seq::empty()
        } else {
            dec_entry(m, m.heap.target(slots.last()))
        }
    }
}

/// A run of writes (an array copy, or all the fields of an object) records
/// exactly one increment for each slot it logs, in the order of first write,
/// and the decrement of the referent each such slot held; a slot written
/// twice, or logged before the run, records nothing more.
pub proof fn lemma_enqueue_all_records(b: BarrierView, m: MmtkView, slots: Seq<Slot>)
    requires
        ready(b, m),
        writable_slots(m.heap, slots),
    ensures
        ({
            let (b2, m2) = enqueue_all_spec(b, m, slots);
            &&& recorded_incs(b2, m2) == recorded_incs(b, m) + first_writes(m.heap, slots)
            &&& recorded_decs(b2, m2) == recorded_decs(b, m) + first_write_decs(m, slots)
        }),
    decreases slots.len(),
{
    if slots.len() == 0 {
        assert(recorded_incs(b, m) + Seq::<Slot>::empty() =~= recorded_incs(b, m));
        assert(recorded_decs(b, m) + Seq::<ObjectReference>::empty() =~= recorded_decs(b, m));
    } else {
        let pre = slots.drop_last();
        let last = slots.last();
        assert forall|i: int| 0 <= i < pre.len() implies m.heap.valid_slot(#[trigger] pre[i])
            && m.heap.barrier_can_proceed(pre[i]) by {
            assert(pre[i] == slots[i]);
        }
        assert(m.heap.valid_slot(last) && m.heap.barrier_can_proceed(last)) by {
            assert(slots[slots.len() - 1] == last);
        }
        lemma_enqueue_all_records(b, m, pre);
        lemma_enqueue_all_frame(b, m, pre);
        let (b1, m1) = enqueue_all_spec(b, m, pre);
        assert(m1.heap.valid_slot(last));
        assert(m1.heap.barrier_can_proceed(last));
        lemma_enqueue_node_records(b1, m1, last);
        let (r, b2, m2) = enqueue_node_spec(b1, m1, last);
        assert(m1.heap.is_logged(last) == (m.heap.is_logged(last) || pre.contains(last)));
        assert(m1.heap.target(last) == m.heap.target(last));
        assert(dec_entry(m1, m.heap.target(last)) == dec_entry(m, m.heap.target(last)));
        let fw = if m.heap.is_logged(last) || pre.contains(last) {
            Seq::<Slot>::empty()
        } else {
            seq![last]
        };
        let fd = if m.heap.is_logged(last) || pre.contains(last) {
            Seq::<ObjectReference>::empty()
        } else {
            dec_entry(m, m.heap.target(last))
        };
        assert(first_writes(m.heap, slots) == first_writes(m.heap, pre) + fw);
        assert(first_write_decs(m, slots) == first_write_decs(m, pre) + fd);
        assert(recorded_incs(b2, m2) =~= recorded_incs(b, m) + first_writes(m.heap, slots));
        assert(recorded_decs(b2, m2) =~= recorded_decs(b, m) + first_write_decs(m, slots));
    }
}

/// SATB packets are due exactly while concurrent marking is enabled and
/// either a mark is running, whatever pause the collector is in, or the
/// final-mark pause is on.
pub proof fn lemma_satb_active_cases(plan: Lxr)
    ensures
        plan.cm_enabled && plan.cm_in_progress ==> satb_active(plan),
        plan.cm_enabled && plan.current_pause == Some(Pause::FinalMark) ==> satb_active(plan),
        !plan.cm_enabled ==> !satb_active(plan),
        !plan.cm_in_progress && plan.current_pause != Some(Pause::FinalMark) ==> !satb_active(plan),
{
}

/// An object is marked exactly when it occurs somewhere among the marked objects.
pub proof fn lemma_marked_cases(plan: Lxr, o: ObjectReference)
    ensures
        plan.marked_spec(o) <==> exists|i: int| 0 <= i < plan.marked@.len() && plan.marked@[i] == o,
{
}

/// Overwriting a null referent calls for no decrement. Overwriting an object
/// calls for exactly one decrement of it, whatever the mark state, unless
/// marked objects get no decrements and this one is marked.
pub proof fn lemma_dec_entry_cases(m: MmtkView, old_target: Option<ObjectReference>)
    ensures
        old_target is None ==> dec_entry(m, old_target).len() == 0,
        old_target is Some && !m.options.no_decs ==> dec_entry(m, old_target) == seq![old_target->0],
        old_target is Some && m.options.no_decs && !(exists|i: int|
            0 <= i < m.plan.marked@.len() && m.plan.marked@[i] == old_target->0) ==> dec_entry(
            m,
            old_target,
        ) == seq![old_target->0],
        old_target is Some && m.options.no_decs && (exists|i: int|
            0 <= i < m.plan.marked@.len() && m.plan.marked@[i] == old_target->0) ==> dec_entry(
            m,
            old_target,
        ).len() == 0,
{
}

/// Handing the decrements over counts them when the counter is on, adds
/// exactly one marking packet (with those objects) while SATB packets are
/// due, and adds no increment or count of increments.
pub proof fn lemma_flush_decs_counts(b: BarrierView, m: MmtkView)
    ensures
        ({
            let (b2, m2) = flush_decs_spec(b, m);
            &&& m2.plan.inc_buffer_size == m.plan.inc_buffer_size
            &&& m2.plan.barrier_decs == if m.options.decs_counter {
                wrapping_add(m.plan.barrier_decs, b.decs.len() as usize)
            } else {
                m.plan.barrier_decs
            }
            &&& m2.scheduler.unconstrained.len() == m.scheduler.unconstrained.len() + if b.decs.len()
                > 0 && satb_active(m.plan) {
                1int
            } else {
                0int
            }
            &&& m2.scheduler.rc_process_incs == m.scheduler.rc_process_incs
        }),
{
    if b.decs.len() == 0 {
        assert(wrapping_add(m.plan.barrier_decs, 0usize) == m.plan.barrier_decs);
    }
}

/// Handing the increments over adds their number to the plan's running
/// count of increments (wrapping), and nothing else to the counts.
pub proof fn lemma_flush_incs_counts(b: BarrierView, m: MmtkView)
    ensures
        ({
            let (b2, m2) = flush_incs_spec(b, m);
            &&& m2.plan.inc_buffer_size == wrapping_add(m.plan.inc_buffer_size, b.incs.len() as usize)
            &&& m2.plan.barrier_decs == m.plan.barrier_decs
            &&& m2.scheduler.unconstrained == m.scheduler.unconstrained
        }),
{
    if b.incs.len() == 0 {
        assert(wrapping_add(m.plan.inc_buffer_size, 0usize) == m.plan.inc_buffer_size);
    }
}

/// A flush adds the number of buffered increments to the plan's running
/// count of increments (wrapping), counts the buffered decrements when the
/// decrement counter is on, and adds one marking packet for the weak
/// references (if any) and one for the decrements (if any, and SATB packets
/// are due).
pub proof fn lemma_flush_counts(b: BarrierView, m: MmtkView)
    ensures
        ({
            let (b2, m2) = flush_spec(b, m);
            &&& m2.plan.inc_buffer_size == wrapping_add(m.plan.inc_buffer_size, b.incs.len() as usize)
            &&& m2.plan.barrier_decs == if m.options.decs_counter {
                wrapping_add(m.plan.barrier_decs, b.decs.len() as usize)
            } else {
                m.plan.barrier_decs
            }
            &&& m2.scheduler.unconstrained.len() == m.scheduler.unconstrained.len() + (if b.refs.len()
                > 0 {
                1int
            } else {
                0int
            }) + (if b.decs.len() > 0 && satb_active(m.plan) {
                1int
            } else {
                0int
            })
        }),
{
    let (b1, m1) = flush_weak_refs_spec(b, m);
    let (b2, m2) = flush_incs_spec(b1, m1);
    lemma_flush_weak_refs_frame(b, m);
    lemma_flush_incs_frame(b1, m1);
    lemma_flush_incs_counts(b1, m1);
    lemma_flush_decs_counts(b2, m2);
}

/// The slow path hands objects to the concurrent mark only when it fills the
/// decrement buffer while SATB packets are due, and then hands it exactly
/// the buffered decrements including the new one; the weak references stay
/// as they are. When it fills the increment buffer it adds the buffer's
/// length to the plan's count of increments.
pub proof fn lemma_slow_marks_and_counts(
    b: BarrierView,
    m: MmtkView,
    slot: Slot,
    old_target: Option<ObjectReference>,
)
    requires
        b.wf(),
    ensures
        ({
            let (b2, m2) = slow_spec(b, m, slot, old_target);
            let decs = b.decs + dec_entry(m, old_target);
            let decs_full = decs.len() >= VECTOR_QUEUE_CAPACITY;
            &&& b2.refs == b.refs
            &&& satb_in(m2.scheduler.unconstrained) == satb_in(m.scheduler.unconstrained) + (
            if decs_full && satb_active(m.plan) {
                decs
            } else {
                Seq::empty()
            })
            &&& b2.decs == if decs_full {
                Seq::<ObjectReference>::empty()
            } else {
                decs
            }
            &&& m2.plan.inc_buffer_size == if b.incs.len() + 1 >= VECTOR_QUEUE_CAPACITY {
                wrapping_add(m.plan.inc_buffer_size, (b.incs.len() + 1) as usize)
            } else {
                m.plan.inc_buffer_size
            }
        }),
{
    let b0 = BarrierView { decs: b.decs + dec_entry(m, old_target), ..b };
    lemma_flush_decs_records(b0, m);
    lemma_flush_decs_frame(b0, m);
    lemma_flush_decs_counts(b0, m);
    let (b1, m1) = if b0.decs.len() >= VECTOR_QUEUE_CAPACITY {
        flush_decs_spec(b0, m)
    } else {
        (b0, m)
    };
    assert(satb_in(m1.scheduler.unconstrained) =~= satb_in(m.scheduler.unconstrained) + (
    if b0.decs.len() >= VECTOR_QUEUE_CAPACITY && satb_active(m.plan) {
        b0.decs
    } else {
        Seq::empty()
    }));
    let b2 = BarrierView { incs: b1.incs.push(slot), ..b1 };
    lemma_flush_incs_frame(b2, m1);
    lemma_flush_incs_counts(b2, m1);
    lemma_flush_incs_records(b2, m1);
}

/// A write that logs its slot hands objects to the concurrent mark only when
/// it fills the decrement buffer while SATB packets are due, and then hands
/// it exactly the buffered decrements followed by the decrement the old
/// referent calls for; a write to a logged slot hands over nothing.
pub proof fn lemma_enqueue_node_marks(b: BarrierView, m: MmtkView, slot: Slot)
    requires
        ready(b, m),
        m.heap.valid_slot(slot),
        m.heap.barrier_can_proceed(slot),
    ensures
        ({
            let (r, b2, m2) = enqueue_node_spec(b, m, slot);
            let decs = b.decs + dec_entry(m, m.heap.target(slot));
            &&& b2.refs == b.refs
            &&& satb_in(m2.scheduler.unconstrained) == satb_in(m.scheduler.unconstrained) + (
            if r && decs.len() >= VECTOR_QUEUE_CAPACITY && satb_active(m.plan) {
                decs
            } else {
                Seq::empty()
            })
        }),
{
    if !m.heap.is_logged(slot) {
        let m1 = MmtkView { heap: m.heap.with_logged(slot), ..m };
        lemma_slow_marks_and_counts(b, m1, slot, m.heap.target(slot));
        assert(dec_entry(m1, m.heap.target(slot)) == dec_entry(m, m.heap.target(slot)));
    } else {
        assert(satb_in(m.scheduler.unconstrained) + Seq::<ObjectReference>::empty() =~= satb_in(
            m.scheduler.unconstrained,
        ));
    }
}

} // verus!
