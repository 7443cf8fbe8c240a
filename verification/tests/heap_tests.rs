use atomic::Ordering;
use lxr_barrier::heap::{Heap, LOGGED_VALUE, UNLOGGED_VALUE};
use lxr_barrier::object::{ObjectReference, Slot};
use lxr_barrier::queue::VectorQueue;
use lxr_barrier::work::{GCWork, GCWorkScheduler, WorkBucketStage};

#[test]
fn compressed_heap_has_four_byte_slots() {
    let mut heap = Heap::new(0x2000, true, 4, vec![None, Some(ObjectReference(0x50)), None]);
    assert_eq!(heap.slot_bytes(), 4);
    assert!(heap.compressed_ptrs());
    assert_eq!(heap.log_bytes_per_lock_bit(), 4);
    assert!(heap.is_valid_slot(Slot(0x2004)));
    assert!(heap.is_valid_slot(Slot(0x2008)));
    assert!(!heap.is_valid_slot(Slot(0x200C)));
    assert!(!heap.is_valid_slot(Slot(0x2006)));
    assert!(!heap.is_valid_slot(Slot(0x1FFC)));
    assert_eq!(heap.load(Slot(0x2004)), Some(ObjectReference(0x50)));
    assert_eq!(heap.load_unlog_bit(Slot(0x2004)), UNLOGGED_VALUE);
    heap.log_field(Slot(0x2004));
    assert_eq!(heap.load_unlog_bit(Slot(0x2004)), LOGGED_VALUE);
    heap.unlog_field(Slot(0x2004));
    assert!(!heap.is_field_logged(Slot(0x2004)));
}

#[test]
fn lock_bit_compare_exchange() {
    let mut heap = Heap::new(0, false, 3, vec![None; 4]);
    assert_eq!(heap.compare_exchange_lock_bit(Slot(8), 0, 1, Ordering::Relaxed, Ordering::Relaxed), Ok(0));
    assert_eq!(heap.compare_exchange_lock_bit(Slot(8), 0, 1, Ordering::Relaxed, Ordering::Relaxed), Err(1));
    assert_eq!(heap.load_lock_bit(Slot(0)), 0);
    heap.store_lock_bit(Slot(8), 0, Ordering::SeqCst);
    assert_eq!(heap.load_lock_bit(Slot(8)), 0);
}

#[test]
fn store_writes_only_the_slot() {
    let mut heap = Heap::new(0x100, false, 9, vec![None, None]);
    heap.store(Slot(0x108), Some(ObjectReference(0x77)));
    assert_eq!(heap.load(Slot(0x108)), Some(ObjectReference(0x77)));
    assert_eq!(heap.load(Slot(0x100)), None);
    assert!(!heap.is_field_logged(Slot(0x108)));
}

#[test]
fn vector_queue_take_empties_in_order() {
    let mut q: VectorQueue<u32> = VectorQueue::new();
    assert!(q.is_empty());
    q.push(3);
    q.push(1);
    assert_eq!(q.len(), 2);
    assert!(!q.is_full());
    assert_eq!(q.take(), vec![3, 1]);
    assert!(q.is_empty());
}

#[test]
fn scheduler_buckets_keep_packets_in_order() {
    let mut s = GCWorkScheduler::new();
    s.add(WorkBucketStage::Unconstrained, GCWork::ProcessModBufSATB(vec![ObjectReference(1)]));
    s.add(WorkBucketStage::Unconstrained, GCWork::ProcessModBufSATB(vec![ObjectReference(2)]));
    s.postpone_prioritized(GCWork::ProcessDecs(vec![]));
    assert_eq!(s.bucket(WorkBucketStage::Unconstrained).len(), 2);
    assert!(matches!(&s.bucket(WorkBucketStage::Unconstrained)[1], GCWork::ProcessModBufSATB(v) if v == &vec![ObjectReference(2)]));
    assert_eq!(s.prioritized().len(), 1);
    assert!(s.bucket(WorkBucketStage::RCProcessIncs).is_empty());
}
