# lxr_barrier

The field write barrier of the LXR reference-counting garbage collector, as a
Verus library.

- `src/object.rs`: object references, slots, memory slices.
- `src/heap.rs`: a sequential heap of slots with its side metadata (one unlog
  bit per slot, one lock bit per `2^k` bytes) and its view `HeapView`.
- `src/queue.rs`: the barrier's bounded buffers.
- `src/work.rs`: work packets and the scheduler's buckets.
- `src/plan.rs`: the LXR plan state the barrier reads, and `Mmtk`, the global
  state a barrier works against.
- `src/barrier.rs`: `LXRFieldBarrierSemantics`, with each operation specified
  as a function from barrier and memory-manager state to the next state.
- `src/laws.rs`: properties across calls (a slot is logged once; every logged
  slot yields one increment and its old referent's decrement; flushing loses
  nothing).
- `src/gc_log.rs`: the per-thread log buffer.
- `app/`: the log file, the boot clock and the barrier's global counters.

Left out of the model: the `lxr_precise_incs_counter` statistics (they
classify slots by whether they lie in the large-object space, which the
heap model does not have), the `field_barrier_validation` debug check, the
lazy-sweeping job counter that each decrement packet registers, and the
debug-build assertion that weak references are flushed only while SATB
packets are due (the library follows release builds, which flush them).
