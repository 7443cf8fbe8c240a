use lxr_barrier::barrier::{
    heap_bytes_per_unlog_byte, plain_unlog_store_suffices, LXRFieldBarrierSemantics, LOCKED_VALUE,
    UNLOCKED_VALUE,
};
use lxr_barrier::heap::{Heap, LOGGED_VALUE, UNLOGGED_VALUE};
use lxr_barrier::object::{MemorySlice, ObjectReference, Slot};
use lxr_barrier::plan::{Lxr, Mmtk, Options, Pause};
use lxr_barrier::queue::VECTOR_QUEUE_CAPACITY;
use lxr_barrier::work::{GCWork, GCWorkScheduler, WorkBucketStage};

const HEAP_START: usize = 0x10000;

fn options() -> Options {
    Options { lazy_decrements: false, no_decs: false, decs_counter: false }
}

fn plan() -> Lxr {
    Lxr {
        cm_enabled: false,
        cm_in_progress: false,
        current_pause: None,
        marked: vec![],
        inc_buffer_size: 0,
        barrier_decs: 0,
    }
}

fn mmtk_with(contents: Vec<Option<ObjectReference>>, options: Options, plan: Lxr) -> Mmtk {
    Mmtk {
        heap: Heap::new(HEAP_START, false, 6, contents),
        plan,
        scheduler: GCWorkScheduler::new(),
        options,
    }
}

/// A heap of `n` slots, slot `i` holding object `0x100000 + 16 * i`.
fn filled(n: usize) -> Vec<Option<ObjectReference>> {
    (0..n).map(|i| Some(ObjectReference(0x100000 + 16 * i))).collect()
}

fn slot(i: usize) -> Slot {
    Slot(HEAP_START + 8 * i)
}

fn incs_of(w: &GCWork) -> Vec<Slot> {
    match w {
        GCWork::ProcessIncs(v) => v.clone(),
        _ => panic!("not an increment packet"),
    }
}

fn decs_of(w: &GCWork) -> Vec<ObjectReference> {
    match w {
        GCWork::ProcessDecs(v) => v.clone(),
        _ => panic!("not a decrement packet"),
    }
}

fn satb_of(w: &GCWork) -> Vec<ObjectReference> {
    match w {
        GCWork::ProcessModBufSATB(v) => v.clone(),
        _ => panic!("not a marking packet"),
    }
}

#[test]
fn new_barrier_has_empty_buffers() {
    let mmtk = mmtk_with(filled(4), options(), plan());
    let b = LXRFieldBarrierSemantics::new(&mmtk);
    assert!(b.incs().is_empty());
    assert!(b.decs().is_empty());
    assert!(b.refs().is_empty());
}

#[test]
fn first_write_logs_slot_and_records_inc_and_dec() {
    let mut mmtk = mmtk_with(filled(4), options(), plan());
    let mut b = LXRFieldBarrierSemantics::new(&mmtk);
    assert!(!mmtk.heap.is_field_logged(slot(2)));
    let took = b.enqueue_node(&mut mmtk, Some(ObjectReference(0x9000)), slot(2), Some(ObjectReference(0x7777)));
    assert!(took);
    assert!(mmtk.heap.is_field_logged(slot(2)));
    assert!(!mmtk.heap.is_field_logged(slot(1)));
    assert_eq!(b.incs(), &vec![slot(2)]);
    assert_eq!(b.decs(), &vec![ObjectReference(0x100000 + 32)]);
    // the barrier never writes the slot itself
    assert_eq!(mmtk.heap.load(slot(2)), Some(ObjectReference(0x100000 + 32)));
    assert_eq!(mmtk.heap.load_lock_bit(slot(2)), UNLOCKED_VALUE);
}

#[test]
fn second_write_to_logged_slot_does_nothing() {
    let mut mmtk = mmtk_with(filled(4), options(), plan());
    let mut b = LXRFieldBarrierSemantics::new(&mmtk);
    assert!(b.enqueue_node(&mut mmtk, None, slot(0), None));
    mmtk.heap.store(slot(0), Some(ObjectReference(0x5550)));
    assert!(!b.enqueue_node(&mut mmtk, None, slot(0), None));
    assert_eq!(b.incs(), &vec![slot(0)]);
    assert_eq!(b.decs(), &vec![ObjectReference(0x100000)]);
}

#[test]
fn null_old_referent_records_no_decrement() {
    let mut mmtk = mmtk_with(vec![None, None], options(), plan());
    let mut b = LXRFieldBarrierSemantics::new(&mmtk);
    assert!(b.enqueue_node(&mut mmtk, None, slot(1), Some(ObjectReference(0x40))));
    assert_eq!(b.incs(), &vec![slot(1)]);
    assert!(b.decs().is_empty());
}

#[test]
fn marked_old_referent_skipped_only_when_marked_objects_get_no_decs() {
    let mut p = plan();
    p.marked = vec![ObjectReference(0x100000)];
    let mut opts = options();
    opts.no_decs = true;
    let mut mmtk = mmtk_with(filled(2), opts, p);
    let mut b = LXRFieldBarrierSemantics::new(&mmtk);
    b.enqueue_node(&mut mmtk, None, slot(0), None);
    b.enqueue_node(&mut mmtk, None, slot(1), None);
    assert_eq!(b.decs(), &vec![ObjectReference(0x100010)]);

    let mut p = plan();
    p.marked = vec![ObjectReference(0x100000)];
    let mut mmtk = mmtk_with(filled(2), options(), p);
    let mut b = LXRFieldBarrierSemantics::new(&mmtk);
    b.enqueue_node(&mut mmtk, None, slot(0), None);
    assert_eq!(b.decs(), &vec![ObjectReference(0x100000)]);
}

#[test]
fn full_increment_buffer_is_handed_over() {
    let n = VECTOR_QUEUE_CAPACITY + 3;
    let mut mmtk = mmtk_with(vec![None; n], options(), plan());
    let mut b = LXRFieldBarrierSemantics::new(&mmtk);
    for i in 0..n {
        assert!(b.enqueue_node(&mut mmtk, None, slot(i), None));
    }
    let bucket = mmtk.scheduler.bucket(WorkBucketStage::RCProcessIncs);
    assert_eq!(bucket.len(), 1);
    let packet = incs_of(&bucket[0]);
    assert_eq!(packet.len(), VECTOR_QUEUE_CAPACITY);
    assert_eq!(packet[0], slot(0));
    assert_eq!(packet[VECTOR_QUEUE_CAPACITY - 1], slot(VECTOR_QUEUE_CAPACITY - 1));
    assert_eq!(b.incs(), &vec![slot(n - 3), slot(n - 2), slot(n - 1)]);
    assert_eq!(mmtk.plan.inc_buffer_size, VECTOR_QUEUE_CAPACITY);
    assert!(mmtk.scheduler.bucket(WorkBucketStage::STWRCDecsAndSweep).is_empty());
}

#[test]
fn full_decrement_buffer_goes_to_stw_bucket() {
    let n = VECTOR_QUEUE_CAPACITY;
    let mut opts = options();
    opts.decs_counter = true;
    let mut mmtk = mmtk_with(filled(n), opts, plan());
    let mut b = LXRFieldBarrierSemantics::new(&mmtk);
    for i in 0..n {
        b.enqueue_node(&mut mmtk, None, slot(i), None);
    }
    let stw = mmtk.scheduler.bucket(WorkBucketStage::STWRCDecsAndSweep);
    assert_eq!(stw.len(), 1);
    let decs = decs_of(&stw[0]);
    assert_eq!(decs.len(), n);
    assert_eq!(decs[5], ObjectReference(0x100000 + 16 * 5));
    assert!(b.decs().is_empty());
    assert!(b.incs().is_empty());
    assert_eq!(mmtk.plan.barrier_decs, n);
    assert!(mmtk.scheduler.bucket(WorkBucketStage::Unconstrained).is_empty());
    assert!(mmtk.scheduler.prioritized().is_empty());
}

#[test]
fn lazy_decrements_are_postponed_and_mirrored_during_marking() {
    let mut opts = options();
    opts.lazy_decrements = true;
    let mut p = plan();
    p.cm_enabled = true;
    p.cm_in_progress = true;
    let mut mmtk = mmtk_with(filled(3), opts, p);
    let mut b = LXRFieldBarrierSemantics::new(&mmtk);
    b.enqueue_node(&mut mmtk, None, slot(0), None);
    b.enqueue_node(&mut mmtk, None, slot(2), None);
    b.flush_decs_and_satb(&mut mmtk);
    let expected = vec![ObjectReference(0x100000), ObjectReference(0x100020)];
    assert_eq!(mmtk.scheduler.prioritized().len(), 1);
    assert_eq!(decs_of(&mmtk.scheduler.prioritized()[0]), expected);
    let unconstrained = mmtk.scheduler.bucket(WorkBucketStage::Unconstrained);
    assert_eq!(unconstrained.len(), 1);
    assert_eq!(satb_of(&unconstrained[0]), expected);
    assert!(mmtk.scheduler.bucket(WorkBucketStage::STWRCDecsAndSweep).is_empty());
    // the decrement counter is off
    assert_eq!(mmtk.plan.barrier_decs, 0);
}

#[test]
fn flush_of_empty_buffers_adds_no_work() {
    let mut mmtk = mmtk_with(filled(2), options(), plan());
    let mut b = LXRFieldBarrierSemantics::new(&mmtk);
    b.flush(&mut mmtk);
    assert!(mmtk.scheduler.bucket(WorkBucketStage::Unconstrained).is_empty());
    assert!(mmtk.scheduler.bucket(WorkBucketStage::RCProcessIncs).is_empty());
    assert!(mmtk.scheduler.bucket(WorkBucketStage::STWRCDecsAndSweep).is_empty());
    assert!(mmtk.scheduler.prioritized().is_empty());
    assert_eq!(mmtk.plan.inc_buffer_size, 0);
}

#[test]
fn flush_hands_every_buffer_over_in_order() {
    let mut p = plan();
    p.cm_enabled = true;
    p.cm_in_progress = true;
    let mut mmtk = mmtk_with(filled(4), options(), p);
    let mut b = LXRFieldBarrierSemantics::new(&mmtk);
    b.enqueue_node(&mut mmtk, None, slot(3), None);
    b.enqueue_node(&mut mmtk, None, slot(1), None);
    b.load_reference(&mut mmtk, ObjectReference(0xABC0));
    b.flush(&mut mmtk);
    assert!(b.incs().is_empty());
    assert!(b.decs().is_empty());
    assert!(b.refs().is_empty());
    let incs = mmtk.scheduler.bucket(WorkBucketStage::RCProcessIncs);
    assert_eq!(incs_of(&incs[0]), vec![slot(3), slot(1)]);
    assert_eq!(mmtk.plan.inc_buffer_size, 2);
    let decs = vec![ObjectReference(0x100030), ObjectReference(0x100010)];
    let stw = mmtk.scheduler.bucket(WorkBucketStage::STWRCDecsAndSweep);
    assert_eq!(decs_of(&stw[0]), decs);
    // weak references first, then the decrements for the concurrent mark
    let unconstrained = mmtk.scheduler.bucket(WorkBucketStage::Unconstrained);
    assert_eq!(unconstrained.len(), 2);
    assert_eq!(satb_of(&unconstrained[0]), vec![ObjectReference(0xABC0)]);
    assert_eq!(satb_of(&unconstrained[1]), decs);
}

#[test]
fn satb_packets_due_only_while_marking_is_on() {
    let mmtk_for = |enabled: bool, running: bool, pause: Option<Pause>| {
        let mut p = plan();
        p.cm_enabled = enabled;
        p.cm_in_progress = running;
        p.current_pause = pause;
        mmtk_with(vec![None], options(), p)
    };
    let cases = [
        (false, true, Some(Pause::FinalMark), false),
        (true, false, None, false),
        (true, true, None, true),
        (true, false, Some(Pause::FinalMark), true),
        (true, false, Some(Pause::RefCount), false),
        (true, false, Some(Pause::InitialMark), false),
        (true, false, Some(Pause::Full), false),
    ];
    for (enabled, running, pause, expected) in cases {
        let mmtk = mmtk_for(enabled, running, pause);
        let b = LXRFieldBarrierSemantics::new(&mmtk);
        assert_eq!(b.should_create_satb_packets(&mmtk), expected);
    }
}

#[test]
fn log_slot_and_get_old_target_returns_old_referent_once() {
    let mut mmtk = mmtk_with(filled(3), options(), plan());
    let b = LXRFieldBarrierSemantics::new(&mmtk);
    assert_eq!(
        b.log_slot_and_get_old_target(&mut mmtk.heap, slot(1)),
        Ok(Some(ObjectReference(0x100010)))
    );
    assert_eq!(b.log_slot_and_get_old_target(&mut mmtk.heap, slot(1)), Err(()));
    assert_eq!(b.get_slot_logging_state(&mmtk.heap, slot(1)), LOGGED_VALUE);
    assert_eq!(b.get_slot_logging_state(&mmtk.heap, slot(0)), UNLOGGED_VALUE);
    assert_eq!(mmtk.heap.load_lock_bit(slot(1)), UNLOCKED_VALUE);
}

#[test]
fn sloppy_logging_agrees_with_locked_logging() {
    let mut m1 = mmtk_with(vec![None, Some(ObjectReference(0x880))], options(), plan());
    let mut m2 = mmtk_with(vec![None, Some(ObjectReference(0x880))], options(), plan());
    let b = LXRFieldBarrierSemantics::new(&m1);
    for i in [1usize, 0, 1] {
        let locked = b.log_slot_and_get_old_target(&mut m1.heap, slot(i));
        let sloppy = b.log_slot_and_get_old_target_sloppy(&mut m2.heap, slot(i));
        assert_eq!(locked, sloppy);
    }
    assert_eq!(b.log_slot_and_get_old_target_sloppy(&mut m2.heap, slot(0)), Err(()));
}

#[test]
fn lock_is_taken_only_for_unlogged_slots() {
    let mut mmtk = mmtk_with(filled(16), options(), plan());
    let b = LXRFieldBarrierSemantics::new(&mmtk);
    assert!(b.attempt_to_lock_slot_bailout_if_logged(&mut mmtk.heap, slot(9)));
    assert_eq!(mmtk.heap.load_lock_bit(slot(9)), LOCKED_VALUE);
    // one lock bit covers 64 bytes: slots 8..16 share it
    assert_eq!(mmtk.heap.load_lock_bit(slot(15)), LOCKED_VALUE);
    assert_eq!(mmtk.heap.load_lock_bit(slot(7)), UNLOCKED_VALUE);
    b.log_and_unlock_slot(&mut mmtk.heap, slot(9));
    assert_eq!(mmtk.heap.load_lock_bit(slot(9)), UNLOCKED_VALUE);
    assert!(mmtk.heap.is_field_logged(slot(9)));
    assert!(!b.attempt_to_lock_slot_bailout_if_logged(&mut mmtk.heap, slot(9)));
    assert_eq!(mmtk.heap.load_lock_bit(slot(9)), UNLOCKED_VALUE);
}

#[test]
fn unlock_slot_releases_lock_bit() {
    let mut mmtk = mmtk_with(filled(2), options(), plan());
    let b = LXRFieldBarrierSemantics::new(&mmtk);
    assert!(b.attempt_to_lock_slot_bailout_if_logged(&mut mmtk.heap, slot(0)));
    b.unlock_slot(&mut mmtk.heap, slot(0));
    assert_eq!(mmtk.heap.load_lock_bit(slot(0)), UNLOCKED_VALUE);
    assert!(!mmtk.heap.is_field_logged(slot(0)));
}

#[test]
fn unlog_byte_and_plain_store_thresholds() {
    assert_eq!(heap_bytes_per_unlog_byte(true), 32);
    assert_eq!(heap_bytes_per_unlog_byte(false), 64);
    assert!(plain_unlog_store_suffices(false, 6));
    assert!(!plain_unlog_store_suffices(false, 5));
    assert!(plain_unlog_store_suffices(true, 5));
    assert!(!plain_unlog_store_suffices(true, 4));
    assert!(plain_unlog_store_suffices(true, 12));
}

#[test]
fn log_and_unlock_slot_with_narrow_lock_bits() {
    let mut mmtk = mmtk_with(filled(4), options(), plan());
    mmtk.heap = Heap::new(HEAP_START, false, 3, filled(4));
    let b = LXRFieldBarrierSemantics::new(&mmtk);
    assert!(b.attempt_to_lock_slot_bailout_if_logged(&mut mmtk.heap, slot(3)));
    assert_eq!(mmtk.heap.load_lock_bit(slot(2)), UNLOCKED_VALUE);
    b.log_and_unlock_slot(&mut mmtk.heap, slot(3));
    assert!(mmtk.heap.is_field_logged(slot(3)));
    assert_eq!(mmtk.heap.load_lock_bit(slot(3)), UNLOCKED_VALUE);
}

#[test]
fn array_copy_logs_every_destination_slot() {
    let mut mmtk = mmtk_with(filled(10), options(), plan());
    let mut b = LXRFieldBarrierSemantics::new(&mmtk);
    b.enqueue_node(&mut mmtk, None, slot(4), None);
    let src = MemorySlice { start: slot(0).0, len: 3 };
    let dst = MemorySlice { start: slot(3).0, len: 3 };
    b.memory_region_copy_slow(&mut mmtk, src, dst);
    for i in 3..6 {
        assert!(mmtk.heap.is_field_logged(slot(i)));
    }
    assert!(!mmtk.heap.is_field_logged(slot(6)));
    assert!(!mmtk.heap.is_field_logged(slot(2)));
    assert_eq!(b.incs(), &vec![slot(4), slot(3), slot(5)]);
    assert_eq!(
        b.decs(),
        &vec![ObjectReference(0x100040), ObjectReference(0x100030), ObjectReference(0x100050)]
    );
}

#[test]
fn empty_array_copy_does_nothing() {
    let mut mmtk = mmtk_with(filled(2), options(), plan());
    let mut b = LXRFieldBarrierSemantics::new(&mmtk);
    let s = MemorySlice { start: slot(2).0, len: 0 };
    b.memory_region_copy_slow(&mut mmtk, s, s);
    assert!(b.incs().is_empty());
    assert!(!mmtk.heap.is_field_logged(slot(0)));
}

#[test]
fn probable_write_logs_all_fields_of_object() {
    let mut mmtk = mmtk_with(filled(6), options(), plan());
    let mut b = LXRFieldBarrierSemantics::new(&mmtk);
    let fields = vec![slot(5), slot(1), slot(5)];
    b.object_probable_write_slow(&mut mmtk, ObjectReference(0x2220), &fields);
    assert_eq!(b.incs(), &vec![slot(5), slot(1)]);
    assert!(mmtk.heap.is_field_logged(slot(1)));
    assert!(mmtk.heap.is_field_logged(slot(5)));
}

#[test]
fn object_reference_write_slow_is_the_write_barrier() {
    let mut mmtk = mmtk_with(filled(2), options(), plan());
    let mut b = LXRFieldBarrierSemantics::new(&mmtk);
    b.object_reference_write_slow(&mut mmtk, Some(ObjectReference(0x10)), slot(1), None);
    b.object_reference_write_slow(&mut mmtk, Some(ObjectReference(0x10)), slot(1), None);
    assert_eq!(b.incs(), &vec![slot(1)]);
}

#[test]
fn weak_loads_kept_only_for_unmarked_objects_during_marking() {
    let mut p = plan();
    p.marked = vec![ObjectReference(0x30)];
    let mut mmtk = mmtk_with(vec![None], options(), p);
    let mut b = LXRFieldBarrierSemantics::new(&mmtk);
    b.load_reference(&mut mmtk, ObjectReference(0x20));
    assert!(b.refs().is_empty());
    mmtk.plan.cm_in_progress = true;
    mmtk.plan.cm_enabled = true;
    b.load_reference(&mut mmtk, ObjectReference(0x30));
    b.load_reference(&mut mmtk, ObjectReference(0x20));
    assert_eq!(b.refs(), &vec![ObjectReference(0x20)]);
}

#[test]
fn full_weak_reference_buffer_goes_to_the_mark() {
    let mut p = plan();
    p.cm_enabled = true;
    p.cm_in_progress = true;
    let mut mmtk = mmtk_with(vec![None], options(), p);
    let mut b = LXRFieldBarrierSemantics::new(&mmtk);
    for i in 0..VECTOR_QUEUE_CAPACITY + 1 {
        b.load_reference(&mut mmtk, ObjectReference(16 * (i + 1)));
    }
    let unconstrained = mmtk.scheduler.bucket(WorkBucketStage::Unconstrained);
    assert_eq!(unconstrained.len(), 1);
    let packet = satb_of(&unconstrained[0]);
    assert_eq!(packet.len(), VECTOR_QUEUE_CAPACITY);
    assert_eq!(packet[0], ObjectReference(16));
    assert_eq!(b.refs(), &vec![ObjectReference(16 * (VECTOR_QUEUE_CAPACITY + 1))]);
}

#[test]
fn flush_incs_counts_slots_with_wrapping() {
    let mut p = plan();
    p.inc_buffer_size = usize::MAX;
    let mut mmtk = mmtk_with(filled(3), options(), p);
    let mut b = LXRFieldBarrierSemantics::new(&mmtk);
    b.enqueue_node(&mut mmtk, None, slot(0), None);
    b.enqueue_node(&mut mmtk, None, slot(1), None);
    b.flush_incs(&mut mmtk);
    assert_eq!(mmtk.plan.inc_buffer_size, 1);
    assert!(b.incs().is_empty());
    assert_eq!(b.decs().len(), 2);
}

#[test]
fn flush_weak_refs_alone() {
    let mut p = plan();
    p.cm_enabled = true;
    p.cm_in_progress = true;
    let mut mmtk = mmtk_with(filled(1), options(), p);
    let mut b = LXRFieldBarrierSemantics::new(&mmtk);
    b.load_reference(&mut mmtk, ObjectReference(0x60));
    b.enqueue_node(&mut mmtk, None, slot(0), None);
    b.flush_weak_refs(&mut mmtk);
    assert!(b.refs().is_empty());
    assert_eq!(b.incs().len(), 1);
    let unconstrained = mmtk.scheduler.bucket(WorkBucketStage::Unconstrained);
    assert_eq!(satb_of(&unconstrained[0]), vec![ObjectReference(0x60)]);
}

#[test]
fn slow_path_records_given_old_referent() {
    let mut mmtk = mmtk_with(filled(2), options(), plan());
    let mut b = LXRFieldBarrierSemantics::new(&mmtk);
    b.slow(&mut mmtk, None, slot(1), Some(ObjectReference(0x4440)));
    b.slow(&mut mmtk, None, slot(0), None);
    assert_eq!(b.incs(), &vec![slot(1), slot(0)]);
    assert_eq!(b.decs(), &vec![ObjectReference(0x4440)]);
    // the slow path does not log
    assert!(!mmtk.heap.is_field_logged(slot(1)));
}

#[test]
fn logged_slot_with_held_lock_bit_returns_at_once() {
    let mut mmtk = mmtk_with(filled(16), options(), plan());
    let mut b = LXRFieldBarrierSemantics::new(&mmtk);
    assert!(b.enqueue_node(&mut mmtk, None, slot(9), None));
    // another barrier, logging neighbour slot 10, holds the lock bit of slots 8..16
    mmtk.heap.store_lock_bit(slot(10), LOCKED_VALUE, atomic::Ordering::Relaxed);
    assert!(!b.attempt_to_lock_slot_bailout_if_logged(&mut mmtk.heap, slot(9)));
    assert_eq!(b.log_slot_and_get_old_target(&mut mmtk.heap, slot(9)), Err(()));
    assert!(!b.enqueue_node(&mut mmtk, None, slot(9), None));
    b.object_reference_write_slow(&mut mmtk, None, slot(9), None);
    let dst = MemorySlice { start: slot(9).0, len: 1 };
    b.memory_region_copy_slow(&mut mmtk, dst, dst);
    b.object_probable_write_slow(&mut mmtk, ObjectReference(0x10), &vec![slot(9)]);
    assert_eq!(b.incs(), &vec![slot(9)]);
    assert_eq!(b.decs(), &vec![ObjectReference(0x100000 + 16 * 9)]);
    assert_eq!(mmtk.heap.load_lock_bit(slot(9)), LOCKED_VALUE);
    assert!(!mmtk.heap.is_field_logged(slot(10)));
}

#[test]
fn flush_hands_over_weak_refs_even_when_marking_has_ended() {
    let mut p = plan();
    p.cm_enabled = true;
    p.cm_in_progress = true;
    let mut mmtk = mmtk_with(filled(1), options(), p);
    let mut b = LXRFieldBarrierSemantics::new(&mmtk);
    b.load_reference(&mut mmtk, ObjectReference(0x70));
    mmtk.plan.cm_in_progress = false;
    mmtk.plan.cm_enabled = false;
    b.flush(&mut mmtk);
    assert!(b.refs().is_empty());
    let unconstrained = mmtk.scheduler.bucket(WorkBucketStage::Unconstrained);
    assert_eq!(satb_of(&unconstrained[0]), vec![ObjectReference(0x70)]);
}
