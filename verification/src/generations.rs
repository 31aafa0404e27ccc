//! Phases and reports of the young and old collectors, and the host-side
//! weak references and finalizers they process.

use vstd::prelude::*;

use crate::handle::HandleId;

verus! {

/// Whether a weak reference still names its target.
#[derive(Clone, Copy, Debug, PartialEq, Eq, Structural)]
pub enum WeakState {
    Live,
    Cleared,
}

/// A host weak reference.
#[derive(Clone, Copy, Debug, PartialEq, Eq, Structural)]
pub struct WeakRefEntry {
    pub id: u64,
    pub target: HandleId,
    pub state: WeakState,
}

/// A registered finalizer and its progress.
#[derive(Clone, Copy, Debug, PartialEq, Eq, Structural)]
pub struct FinalizerEntry {
    pub id: u64,
    pub target: HandleId,
    pub held: u64,
    pub scheduled: bool,
    pub ran: bool,
}

/// What host-root processing did in one cycle.
#[derive(Clone, Copy, Debug, Default, PartialEq, Eq, Structural)]
pub struct HostRootsReport {
    pub weak_cleared: usize,
    pub finalizers_scheduled: usize,
    pub finalizers_ran: usize,
    pub side_table_filtered: usize,
    pub cleanup_before_quarantine: bool,
    pub callbacks_after_publish: bool,
}

/// The phases of an old-generation cycle.
#[derive(Clone, Copy, Debug, PartialEq, Eq, Structural)]
pub enum OldPhase {
    Idle,
    ConcurrentMark,
    PauseMarkEnd,
    ConcurrentSelectRelocationSet,
    ConcurrentRelocate,
}

/// Totals of an old-generation cycle.
#[derive(Clone, Copy, Debug, Default, PartialEq, Eq, Structural)]
pub struct OldReport {
    pub marked: usize,
    pub young_cycles_spanned: usize,
    pub promotion_frontier: usize,
    pub young_to_old_roots: usize,
    pub pause_ns_max: u64,
    pub old_live_bytes: u64,
    pub mark_work_bytes: u64,
}

/// The phases of a young-generation cycle.
#[derive(Clone, Copy, Debug, PartialEq, Eq, Structural)]
pub enum YoungPhase {
    Idle,
    PauseMarkStart,
    ConcurrentMark,
    PauseMarkEnd,
    ConcurrentSelectRelocationSet,
    PauseRelocateStart,
    ConcurrentRelocate,
    EpochReclaim,
}

/// Totals of a young-generation cycle.
#[derive(Clone, Copy, Debug, Default, PartialEq, Eq, Structural)]
pub struct YoungReport {
    pub marked: usize,
    pub satb_drained: usize,
    pub remset_slots_scanned: usize,
    pub promoted: usize,
    pub relocated: usize,
    pub pause_ns_max: u64,
    pub concurrent_mark_ns: u64,
    pub black_allocations: usize,
}

} // verus!
