use vstd::prelude::*;
use crate::object::{ObjectReference, Slot};

verus! {

/// The scheduler's buckets that the barrier hands work to.
#[derive(Clone, Copy, Debug, PartialEq, Eq, Structural)]
pub enum WorkBucketStage {
    Unconstrained,
    RCProcessIncs,
    STWRCDecsAndSweep,
}

/// A work packet made from a barrier buffer.
pub enum GCWork {
    /// Increment the referents of these slots.
    ProcessIncs(Vec<Slot>),
    /// Trace these objects for the concurrent (snapshot-at-the-beginning) mark.
    ProcessModBufSATB(Vec<ObjectReference>),
    /// Decrement the reference counts of these objects.
    ProcessDecs(Vec<ObjectReference>),
}

/// A work packet with its buffer taken as a sequence.
pub enum GCWorkView {
    ProcessIncs(Seq<Slot>),
    ProcessModBufSATB(Seq<ObjectReference>),
    ProcessDecs(Seq<ObjectReference>),
}

impl View for GCWork {
    type V = GCWorkView;

    open spec fn view(&self) -> GCWorkView {
        match self {
            GCWork::ProcessIncs(v) => GCWorkView::ProcessIncs(v@),
            GCWork::ProcessModBufSATB(v) => GCWorkView::ProcessModBufSATB(v@),
            GCWork::ProcessDecs(v) => GCWorkView::ProcessDecs(v@),
        }
    }
}

/// The packets of a bucket, oldest first.
pub open spec fn packets_view(v: Seq<GCWork>) -> Seq<GCWorkView> {
    v.map_values(|w: GCWork| w@)
}

/// The scheduler's queues, each as the sequence of its packets.
pub struct SchedulerView {
    pub unconstrained: Seq<GCWorkView>,
    pub rc_process_incs: Seq<GCWorkView>,
    pub stw_rc_decs_and_sweep: Seq<GCWorkView>,
    pub prioritized: Seq<GCWorkView>,
}

impl SchedulerView {
    /// The scheduler after `w` is added to the bucket of `stage`.
    pub open spec fn add(self, stage: WorkBucketStage, w: GCWorkView) -> SchedulerView {
        match stage {
            WorkBucketStage::Unconstrained => SchedulerView {
                unconstrained: self.unconstrained.push(w),
                ..self
            },
            WorkBucketStage::RCProcessIncs => SchedulerView {
                rc_process_incs: self.rc_process_incs.push(w),
                ..self
            },
            WorkBucketStage::STWRCDecsAndSweep => SchedulerView {
                stw_rc_decs_and_sweep: self.stw_rc_decs_and_sweep.push(w),
                ..self
            },
        }
    }

    /// The scheduler after `w` is postponed as prioritized work.
    pub open spec fn postpone_prioritized(self, w: GCWorkView) -> SchedulerView {
        SchedulerView { prioritized: self.prioritized.push(w), ..self }
    }
}

/// The collector's work buckets, plus the prioritized work postponed to the
/// next pause.
pub struct GCWorkScheduler {
    unconstrained: Vec<GCWork>,
    rc_process_incs: Vec<GCWork>,
    stw_rc_decs_and_sweep: Vec<GCWork>,
    prioritized: Vec<GCWork>,
}

impl View for GCWorkScheduler {
    type V = SchedulerView;

    closed spec fn view(&self) -> SchedulerView {
        SchedulerView {
            unconstrained: packets_view(self.unconstrained@),
            rc_process_incs: packets_view(self.rc_process_incs@),
            stw_rc_decs_and_sweep: packets_view(self.stw_rc_decs_and_sweep@),
            prioritized: packets_view(self.prioritized@),
        }
    }
}

proof fn lemma_packets_view_push(v: Seq<GCWork>, w: GCWork)
    ensures
        packets_view(v.push(w)) == packets_view(v).push(w@),
{
    assert(packets_view(v.push(w)) =~= packets_view(v).push(w@));
}

impl GCWorkScheduler {
    /// A scheduler with every bucket empty.
    pub fn new() -> (s: Self)
        ensures
            s@.unconstrained == Seq::<GCWorkView>::empty(),
            s@.rc_process_incs == Seq::<GCWorkView>::empty(),
            s@.stw_rc_decs_and_sweep == Seq::<GCWorkView>::empty(),
            s@.prioritized == Seq::<GCWorkView>::empty(),
    {
        let s = GCWorkScheduler {
            unconstrained: Vec::new(),
            rc_process_incs: Vec::new(),
            stw_rc_decs_and_sweep: Vec::new(),
            prioritized: Vec::new(),
        };
        assert(s@.unconstrained =~= Seq::<GCWorkView>::empty());
        assert(s@.rc_process_incs =~= Seq::<GCWorkView>::empty());
        assert(s@.stw_rc_decs_and_sweep =~= Seq::<GCWorkView>::empty());
        assert(s@.prioritized =~= Seq::<GCWorkView>::empty());
        s
    }

    /// Adds `w` at the end of the bucket of `stage`.
    pub fn add(&mut self, stage: WorkBucketStage, w: GCWork)
        ensures
            final(self)@ == old(self)@.add(stage, w@),
    {
        proof {
            lemma_packets_view_push(self.unconstrained@, w);
            lemma_packets_view_push(self.rc_process_incs@, w);
            lemma_packets_view_push(self.stw_rc_decs_and_sweep@, w);
        }
        match stage {
            WorkBucketStage::Unconstrained => self.unconstrained.push(w),
            WorkBucketStage::RCProcessIncs => self.rc_process_incs.push(w),
            WorkBucketStage::STWRCDecsAndSweep => self.stw_rc_decs_and_sweep.push(w),
        }
    }

    /// Postpones `w` as prioritized work for the next pause.
    pub fn postpone_prioritized(&mut self, w: GCWork)
        ensures
            final(self)@ == old(self)@.postpone_prioritized(w@),
    {
        proof {
            lemma_packets_view_push(self.prioritized@, w);
        }
        self.prioritized.push(w);
    }

    /// The packets in the bucket of `stage`, oldest first.
    pub fn bucket(&self, stage: WorkBucketStage) -> (r: &Vec<GCWork>)
        ensures
            packets_view(r@) == match stage {
                WorkBucketStage::Unconstrained => self@.unconstrained,
                WorkBucketStage::RCProcessIncs => self@.rc_process_incs,
                WorkBucketStage::STWRCDecsAndSweep => self@.stw_rc_decs_and_sweep,
            },
    {
        match stage {
            WorkBucketStage::Unconstrained => &self.unconstrained,
            WorkBucketStage::RCProcessIncs => &self.rc_process_incs,
            WorkBucketStage::STWRCDecsAndSweep => &self.stw_rc_decs_and_sweep,
        }
    }

    /// The postponed prioritized packets, oldest first.
    pub fn prioritized(&self) -> (r: &Vec<GCWork>)
        ensures
            packets_view(r@) == self@.prioritized,
    {
        &self.prioritized
    }
}

} // verus!
