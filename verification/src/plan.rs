use vstd::prelude::*;
use crate::object::ObjectReference;
use crate::heap::{Heap, HeapView};
use crate::work::{GCWorkScheduler, SchedulerView};

verus! {

/// The kinds of stop-the-world pause of the LXR plan.
#[derive(Clone, Copy, Debug, PartialEq, Eq, Structural)]
pub enum Pause {
    RefCount,
    InitialMark,
    FinalMark,
    Full,
}

/// The state of the LXR plan that the barrier consults.
pub struct Lxr {
    /// Concurrent marking is enabled for this run.
    pub cm_enabled: bool,
    /// A concurrent mark is in progress.
    pub cm_in_progress: bool,
    /// The pause the collector is in, if any.
    pub current_pause: Option<Pause>,
    /// The objects the current mark has marked.
    pub marked: Vec<ObjectReference>,
    /// Total increments handed to the collector, counted in slots (wraps).
    pub inc_buffer_size: usize,
    /// Total decrements handed to the collector, counted when the decrement
    /// counter is enabled (wraps).
    pub barrier_decs: usize,
}

impl Lxr {
    /// The object is marked by the current mark.
    pub open spec fn marked_spec(&self, o: ObjectReference) -> bool {
        self.marked@.contains(o)
    }

    /// Whether the object is marked by the current mark.
    pub fn is_marked(&self, o: ObjectReference) -> (r: bool)
        ensures
            r == self.marked_spec(o),
    {
        let mut i: usize = 0;
        while i < self.marked.len()
            invariant
                0 <= i <= self.marked@.len(),
                forall|j: int| 0 <= j < i ==> self.marked@[j] != o,
            decreases self.marked@.len() - i,
        {
            if self.marked[i] == o {
                return true;
            }
            i = i + 1;
        }
        false
    }

    /// Adds `n` slots to the count of increments handed to the collector.
    pub fn increase_inc_buffer_size(&mut self, n: usize)
        ensures
            *final(self) == (Lxr {
                inc_buffer_size: vstd::wrapping::usize_specs::wrapping_add(
                    old(self).inc_buffer_size,
                    n,
                ),
                ..*old(self)
            }),
    {
        self.inc_buffer_size = self.inc_buffer_size.wrapping_add(n);
    }
}

/// Build-time choices that change what the barrier does.
#[derive(Clone, Copy, Debug, PartialEq, Eq, Structural)]
pub struct Options {
    /// Decrements are postponed as prioritized work instead of going to the
    /// stop-the-world decrement bucket.
    pub lazy_decrements: bool,
    /// Old referents already marked by the current mark get no decrement.
    pub no_decs: bool,
    /// The plan counts the decrements the barrier hands over.
    pub decs_counter: bool,
}

/// The global memory manager state that a barrier works against.
pub struct Mmtk {
    pub heap: Heap,
    pub plan: Lxr,
    pub scheduler: GCWorkScheduler,
    pub options: Options,
}

/// The memory manager with its heap and scheduler taken by their views.
pub struct MmtkView {
    pub heap: HeapView,
    pub plan: Lxr,
    pub scheduler: SchedulerView,
    pub options: Options,
}

impl View for Mmtk {
    type V = MmtkView;

    open spec fn view(&self) -> MmtkView {
        MmtkView {
            heap: self.heap@,
            plan: self.plan,
            scheduler: self.scheduler@,
            options: self.options,
        }
    }
}

} // verus!
