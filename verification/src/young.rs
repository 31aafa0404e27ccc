//! The concurrent young-generation collector: it marks from a root snapshot
//! while mutators keep running (SATB barrier records and black allocation
//! keep the snapshot's objects alive), promotes dense, humongous and aged
//! survivors in place, and hands the sparse ones to relocation.

use vstd::prelude::*;

use std::collections::{BTreeMap, BTreeSet, VecDeque};
use std::time::Duration;

use crate::barrier::{ring_after_push, ring_drained, BarrierEpoch, BarrierRecord, BarrierRing, RingState};
use crate::clock::{clock_now, duration_nanos, elapsed_since};
use crate::generations::{YoungPhase, YoungReport};
use crate::handle::{HandleGeneration, HandleId};
use crate::ordered::{increasing_u32, sorted_u32s};
use crate::remset::{spec_record_slot, PreciseRemset, RemsetView};

verus! {

broadcast use vstd::std_specs::btree::group_btree_axioms;

/// What the young collector knows of an object.
#[derive(Clone, Debug)]
struct YoungObjectMeta {
    generation: HandleGeneration,
    age: u8,
    references: Vec<Option<HandleId>>,
    bytes: u64,
    dense: bool,
    humongous: bool,
}

pub struct YoungMetaView {
    pub generation: HandleGeneration,
    pub age: u8,
    pub references: Seq<Option<HandleId>>,
    pub bytes: u64,
    pub dense: bool,
    pub humongous: bool,
}

impl View for YoungObjectMeta {
    type V = YoungMetaView;

    closed spec fn view(&self) -> YoungMetaView {
        YoungMetaView {
            generation: self.generation,
            age: self.age,
            references: self.references@,
            bytes: self.bytes,
            dense: self.dense,
            humongous: self.humongous,
        }
    }
}

/// The young collector. Handles are keyed by their raw number.
pub struct YoungController {
    phase: YoungPhase,
    epoch: BarrierEpoch,
    pending: VecDeque<u32>,
    marked: BTreeSet<u32>,
    objects: BTreeMap<u32, YoungObjectMeta>,
    satb: BarrierRing<HandleId>,
    remset_ring: BarrierRing<u64>,
    remset: PreciseRemset,
    report: YoungReport,
    page_scan: bool,
    object_copy: bool,
    black_alloc_enabled: bool,
    mark_epoch: u64,
    termination: bool,
}

pub struct YoungView {
    pub phase: YoungPhase,
    pub epoch: BarrierEpoch,
    /// Handles waiting to be scanned, first to be scanned first.
    pub pending: Seq<u32>,
    pub marked: Set<u32>,
    pub objects: Map<u32, YoungMetaView>,
    pub satb: RingState<HandleId>,
    pub remset_ring: RingState<u64>,
    pub remset: RemsetView,
    pub report: YoungReport,
    /// Whether a pause scanned pages or copied objects.
    pub pause_heavy_work: bool,
    pub black_alloc: bool,
    pub mark_epoch: u64,
    pub termination: bool,
}

impl View for YoungController {
    type V = YoungView;

    closed spec fn view(&self) -> YoungView {
        YoungView {
            phase: self.phase,
            epoch: self.epoch,
            pending: self.pending@,
            marked: self.marked@,
            objects: self.objects@.map_values(|m: YoungObjectMeta| m@),
            satb: self.satb@,
            remset_ring: self.remset_ring@,
            remset: self.remset@,
            report: self.report,
            pause_heavy_work: self.page_scan || self.object_copy,
            black_alloc: self.black_alloc_enabled,
            mark_epoch: self.mark_epoch,
            termination: self.termination,
        }
    }
}

pub open spec fn zero_young_report() -> YoungReport {
    YoungReport {
        marked: 0,
        satb_drained: 0,
        remset_slots_scanned: 0,
        promoted: 0,
        relocated: 0,
        pause_ns_max: 0,
        concurrent_mark_ns: 0,
        black_allocations: 0,
    }
}

fn empty_young_report() -> (r: YoungReport)
    ensures
        r == zero_young_report(),
{
    YoungReport {
        marked: 0,
        satb_drained: 0,
        remset_slots_scanned: 0,
        promoted: 0,
        relocated: 0,
        pause_ns_max: 0,
        concurrent_mark_ns: 0,
        black_allocations: 0,
    }
}

/// The object registered with these facts, not yet aged.
pub open spec fn new_young_meta(
    generation: HandleGeneration,
    references: Seq<Option<HandleId>>,
    bytes: u64,
    dense: bool,
    humongous: bool,
) -> YoungMetaView {
    YoungMetaView { generation, age: 0, references, bytes, dense, humongous }
}

/// `register_object`: the object is (re)registered; while black allocation
/// is on, a young object is marked as it is born.
pub open spec fn spec_young_register(s: YoungView, h: u32, meta: YoungMetaView) -> YoungView {
    let black = s.black_alloc && meta.generation == HandleGeneration::Young;
    YoungView {
        objects: s.objects.insert(h, meta),
        marked: if black {
            s.marked.insert(h)
        } else {
            s.marked
        },
        report: if black {
            YoungReport { black_allocations: (s.report.black_allocations + 1) as usize, ..s.report }
        } else {
            s.report
        },
        ..s
    }
}

/// The reference slots of an object after they are grown to hold `slot`.
pub open spec fn padded_refs(refs: Seq<Option<HandleId>>, slot: int) -> Seq<Option<HandleId>> {
    if slot < refs.len() {
        refs
    } else {
        refs + Seq::new((slot + 1 - refs.len()) as nat, |i: int| None::<HandleId>)
    }
}

/// The generation of the object `target` names, when it is registered.
pub open spec fn target_generation(
    objects: Map<u32, YoungMetaView>,
    target: Option<HandleId>,
) -> Option<HandleGeneration> {
    match target {
        Some(t) => if objects.contains_key(t.0) {
            Some(objects[t.0].generation)
        } else {
            None
        },
        None => None,
    }
}

/// Whether a store makes or breaks an old-to-young edge: the owner is old
/// and the new target is young, or the target is unknown (or none) and
/// the slot held a reference before.
pub open spec fn dirties_remembered_slot(
    owner_generation: HandleGeneration,
    target_generation: Option<HandleGeneration>,
    previous: Option<HandleId>,
) -> bool {
    owner_generation == HandleGeneration::Old && (target_generation == Some(HandleGeneration::Young) || (
    target_generation is None && previous is Some))
}

/// `write_reference` on a registered owner: the new state and the barrier
/// records, SATB first.
pub open spec fn spec_young_write(s: YoungView, owner: u32, slot: int, target: Option<HandleId>, slot_addr: u64) -> (
    YoungView,
    Seq<BarrierRecord>,
) {
    let meta = s.objects[owner];
    let padded = padded_refs(meta.references, slot);
    let previous = padded[slot];
    let objects = s.objects.insert(owner, YoungMetaView { references: padded.update(slot, target), ..meta });
    let satb_record = s.epoch.young_marking && previous is Some;
    let remember = dirties_remembered_slot(meta.generation, target_generation(objects, target), previous);
    let satb = if satb_record {
        ring_after_push(s.satb, previous.unwrap())
    } else {
        s.satb
    };
    let remset_ring = if remember {
        ring_after_push(s.remset_ring, slot_addr)
    } else {
        s.remset_ring
    };
    let remset = if remember {
        spec_record_slot(s.remset, slot_addr)
    } else {
        s.remset
    };
    let satb_part = if satb_record {
        seq![BarrierRecord::Satb(previous.unwrap())]
    } else {
        Seq::empty()
    };
    let remset_part = if remember {
        seq![BarrierRecord::RememberedSlot { slot_addr }]
    } else {
        Seq::empty()
    };
    (YoungView { objects, satb, remset_ring, remset, ..s }, satb_part + remset_part)
}


/// The set references of an object that are not in `marked`, in slot order:
/// what scanning the object queues.
pub open spec fn unmarked_refs(refs: Seq<Option<HandleId>>, marked: Set<u32>) -> Seq<u32>
    decreases refs.len(),
{
    if refs.len() == 0 {
        Seq::empty()
    } else {
        let rest = unmarked_refs(refs.drop_last(), marked);
        match refs.last() {
            Some(r) => if marked.contains(r.0) {
                rest
            } else {
                rest.push(r.0)
            },
            None => rest,
        }
    }
}

/// Where a young mark step stands: what is left to scan, what is marked,
/// how many handles it newly marked and how many objects it scanned.
pub struct YoungMarkCursor {
    pub pending: Seq<u32>,
    pub marked: Set<u32>,
    pub newly_marked: nat,
    pub worked: nat,
}

/// One turn of the young mark loop: the first pending handle is taken; an
/// unmarked one is marked, and a registered one is scanned, queueing its
/// unmarked references.
pub open spec fn young_mark_one(objects: Map<u32, YoungMetaView>, c: YoungMarkCursor) -> YoungMarkCursor {
    if c.pending.len() == 0 {
        c
    } else {
        let h = c.pending[0];
        let rest = c.pending.drop_first();
        if c.marked.contains(h) {
            YoungMarkCursor { pending: rest, ..c }
        } else {
            let marked = c.marked.insert(h);
            if objects.contains_key(h) {
                YoungMarkCursor {
                    pending: rest + unmarked_refs(objects[h].references, marked),
                    marked,
                    newly_marked: c.newly_marked + 1,
                    worked: c.worked + 1,
                }
            } else {
                YoungMarkCursor { pending: rest, marked, newly_marked: c.newly_marked + 1, worked: c.worked }
            }
        }
    }
}

/// `n` turns of the young mark loop.
pub open spec fn young_mark_run(objects: Map<u32, YoungMetaView>, c: YoungMarkCursor, n: nat) -> YoungMarkCursor
    decreases n,
{
    if n == 0 {
        c
    } else {
        young_mark_one(objects, young_mark_run(objects, c, (n - 1) as nat))
    }
}

/// The loop stops when nothing is pending or `budget` objects were scanned.
pub open spec fn young_mark_stops(c: YoungMarkCursor, budget: nat) -> bool {
    c.pending.len() == 0 || c.worked >= budget
}

/// `n` is the turn at which a step with `budget` stops: the first that
/// meets the stopping condition.
pub open spec fn young_mark_stops_at(objects: Map<u32, YoungMetaView>, c: YoungMarkCursor, budget: nat, n: nat) -> bool {
    &&& young_mark_stops(young_mark_run(objects, c, n), budget)
    &&& forall|m: nat| m < n ==> !young_mark_stops(#[trigger] young_mark_run(objects, c, m), budget)
}

/// The raw numbers of handles, in order.
pub open spec fn raw_handles(hs: Seq<HandleId>) -> Seq<u32> {
    hs.map_values(|h: HandleId| h.0)
}

/// `drain_satb`: the recorded SATB handles join the pending queue.
pub open spec fn spec_young_drain_satb(s: YoungView) -> YoungView {
    YoungView {
        pending: s.pending + raw_handles(s.satb.items),
        satb: ring_drained(s.satb),
        report: YoungReport {
            satb_drained: (s.report.satb_drained + s.satb.items.len()) as usize,
            ..s.report
        },
        ..s
    }
}

/// `drain_remset_ring`: the buffered remembered slots are counted as
/// scanned (the precise set already holds them).
pub open spec fn spec_young_drain_remset_ring(s: YoungView) -> YoungView {
    YoungView {
        remset_ring: ring_drained(s.remset_ring),
        report: YoungReport {
            remset_slots_scanned: (s.report.remset_slots_scanned + s.remset_ring.items.len()) as usize,
            ..s.report
        },
        ..s
    }
}

/// The cursor a mark step starts from in state `s`.
pub open spec fn young_cursor(s: YoungView) -> YoungMarkCursor {
    YoungMarkCursor { pending: s.pending, marked: s.marked, newly_marked: 0, worked: 0 }
}

/// Registered objects not yet marked: what a mark step can still scan.
pub open spec fn unscanned_objects(s: YoungView) -> Set<u32> {
    s.objects.dom().difference(s.marked)
}

/// The state after a mark step with `budget` that stopped at turn `n`,
/// but for the time it adds to the mark-time counter.
pub open spec fn young_after_mark(s: YoungView, budget: nat, n: nat, mark_ns: u64) -> YoungView {
    let c = young_mark_run(s.objects, young_cursor(s), n);
    YoungView {
        pending: c.pending,
        marked: c.marked,
        report: YoungReport {
            marked: (s.report.marked + c.newly_marked) as usize,
            concurrent_mark_ns: mark_ns,
            ..s.report
        },
        ..s
    }
}

/// A step's budget: at least one object.
pub open spec fn at_least_one(budget: usize) -> nat {
    if budget > 1 {
        budget as nat
    } else {
        1
    }
}

/// Scanning is closed: every set reference of a marked, registered object
/// is marked or still pending.
pub open spec fn young_scan_closed(objects: Map<u32, YoungMetaView>, marked: Set<u32>, pending: Seq<u32>) -> bool {
    forall|h: u32, i: int|
        #![trigger marked.contains(h), objects[h].references[i]]
        marked.contains(h) && objects.contains_key(h) && 0 <= i < objects[h].references.len()
            && objects[h].references[i] is Some ==> marked.contains(objects[h].references[i].unwrap().0)
            || pending.contains(objects[h].references[i].unwrap().0)
}

/// Every handle of `queue` is marked or pending in `c`.
pub open spec fn covers(c: YoungMarkCursor, queue: Seq<u32>) -> bool {
    forall|k: int| 0 <= k < queue.len() ==> c.marked.contains(#[trigger] queue[k]) || c.pending.contains(queue[k])
}

/// What marking from `d` to `f` keeps: marks stay, every handle pending in
/// `d` ends marked or still pending, and closed scanning stays closed.
pub open spec fn young_mark_keeps(d: YoungView, f: YoungView) -> bool {
    &&& d.marked.subset_of(f.marked)
    &&& forall|k: int| 0 <= k < d.pending.len() ==> f.marked.contains(#[trigger] d.pending[k]) || f.pending.contains(d.pending[k])
    &&& young_scan_closed(d.objects, d.marked, d.pending) ==> young_scan_closed(f.objects, f.marked, f.pending)
}

/// `mark_epoch` after one more cycle (the counter wraps).
pub open spec fn next_mark_epoch(e: u64) -> u64 {
    if e == u64::MAX {
        0
    } else {
        (e + 1) as u64
    }
}

/// `pause_mark_start(roots)`, but for the pause time it records: the young
/// and remembered colors flip, black allocation starts, the report and the
/// marks are cleared, the remembered set is flipped and the roots become
/// the pending queue.
pub open spec fn spec_young_pause_mark_start(s: YoungView, roots: Seq<u32>, pause_ns: u64) -> YoungView {
    YoungView {
        phase: YoungPhase::ConcurrentMark,
        epoch: s.epoch.flip_young_spec(),
        pending: roots,
        marked: Set::empty(),
        remset: RemsetView { active: Set::empty(), snapshot: s.remset.active, slot_bits: s.remset.slot_bits },
        report: YoungReport { pause_ns_max: pause_ns, ..zero_young_report() },
        pause_heavy_work: false,
        black_alloc: true,
        mark_epoch: next_mark_epoch(s.mark_epoch),
        termination: false,
        ..s
    }
}

/// Whether an object leaves the young generation in place: it is dense,
/// humongous or has survived before.
pub open spec fn promotes_in_place(m: YoungMetaView) -> bool {
    m.dense || m.humongous || m.age >= 1
}

/// A marked young object that `select_relocation_set` promotes in place.
pub open spec fn promotion_candidate(s: YoungView, h: u32) -> bool {
    s.marked.contains(h) && s.objects.contains_key(h) && s.objects[h].generation == HandleGeneration::Young
        && promotes_in_place(s.objects[h])
}

/// A marked young object that `select_relocation_set` hands to relocation.
pub open spec fn relocation_candidate(s: YoungView, h: u32) -> bool {
    s.marked.contains(h) && s.objects.contains_key(h) && s.objects[h].generation == HandleGeneration::Young
        && !promotes_in_place(s.objects[h])
}

/// An object after promotion in place: old, one cycle older.
pub open spec fn promoted_meta(m: YoungMetaView) -> YoungMetaView {
    YoungMetaView {
        generation: HandleGeneration::Old,
        age: if m.age == u8::MAX {
            u8::MAX
        } else {
            (m.age + 1) as u8
        },
        ..m
    }
}

/// The state `pause_mark_end` leaves after flushing `d`'s buffers: marking
/// done with `marked` and nothing pending, black allocation off, the young
/// mark color no longer active; only the mark counters and times are left
/// to the marking that happened.
pub open spec fn young_after_mark_end(d: YoungView, f: YoungView) -> bool {
    f == YoungView {
        phase: YoungPhase::ConcurrentSelectRelocationSet,
        epoch: d.epoch.end_young_spec(),
        pending: Seq::empty(),
        marked: f.marked,
        report: YoungReport {
            marked: f.report.marked,
            pause_ns_max: f.report.pause_ns_max,
            concurrent_mark_ns: f.report.concurrent_mark_ns,
            ..d.report
        },
        black_alloc: false,
        termination: true,
        ..d
    }
}

proof fn lemma_young_mark_keeps_trans(a: YoungView, b: YoungView, c: YoungView)
    requires
        young_mark_keeps(a, b),
        young_mark_keeps(b, c),
        a.objects == b.objects,
    ensures
        young_mark_keeps(a, c),
{
    assert forall|k: int| 0 <= k < a.pending.len() implies c.marked.contains(#[trigger] a.pending[k])
        || c.pending.contains(a.pending[k]) by {
        let x = a.pending[k];
        if b.pending.contains(x) {
            let j = choose|j: int| 0 <= j < b.pending.len() && b.pending[j] == x;
            assert(c.marked.contains(b.pending[j]) || c.pending.contains(b.pending[j]));
        }
    }
}

/// `promote_in_place(h)`: a registered object becomes old and ages.
pub open spec fn spec_young_promote(s: YoungView, h: u32) -> YoungView {
    if s.objects.contains_key(h) {
        YoungView {
            objects: s.objects.insert(h, promoted_meta(s.objects[h])),
            report: YoungReport { promoted: (s.report.promoted + 1) as usize, ..s.report },
            ..s
        }
    } else {
        s
    }
}

/// The marked young objects promoted in place at selection.
pub open spec fn promotion_candidates(s: YoungView) -> Set<u32> {
    s.marked.filter(|h: u32| promotion_candidate(s, h))
}

/// The marked young objects handed to relocation at selection.
pub open spec fn relocation_candidates(s: YoungView) -> Set<u32> {
    s.marked.filter(|h: u32| relocation_candidate(s, h))
}

/// The registered objects once the promotion candidates are promoted.
pub open spec fn after_promotion(s: YoungView) -> Map<u32, YoungMetaView> {
    Map::new(
        |h: u32| s.objects.contains_key(h),
        |h: u32|
            if promotion_candidate(s, h) {
                promoted_meta(s.objects[h])
            } else {
                s.objects[h]
            },
    )
}

pub(crate) proof fn lemma_unmarked_refs_queue(refs: Seq<Option<HandleId>>, marked: Set<u32>, i: int)
    requires
        0 <= i < refs.len(),
        refs[i] is Some,
        !marked.contains(refs[i].unwrap().0),
    ensures
        unmarked_refs(refs, marked).contains(refs[i].unwrap().0),
    decreases refs.len(),
{
    let rest = unmarked_refs(refs.drop_last(), marked);
    if i == refs.len() - 1 {
        assert(unmarked_refs(refs, marked) == rest.push(refs[i].unwrap().0));
        assert(unmarked_refs(refs, marked)[rest.len() as int] == refs[i].unwrap().0);
    } else {
        lemma_unmarked_refs_queue(refs.drop_last(), marked, i);
        let x = refs[i].unwrap().0;
        let k = choose|k: int| 0 <= k < rest.len() && rest[k] == x;
        match refs.last() {
            Some(r) => {
                if !marked.contains(r.0) {
                    assert(unmarked_refs(refs, marked)[k] == x);
                }
            },
            None => {},
        }
    }
}

proof fn lemma_young_mark_one_keeps(objects: Map<u32, YoungMetaView>, c: YoungMarkCursor, queue: Seq<u32>)
    requires
        covers(c, queue),
    ensures
        covers(young_mark_one(objects, c), queue),
        c.marked.subset_of(young_mark_one(objects, c).marked),
        young_scan_closed(objects, c.marked, c.pending) ==> young_scan_closed(
            objects,
            young_mark_one(objects, c).marked,
            young_mark_one(objects, c).pending,
        ),
{
    let c2 = young_mark_one(objects, c);
    if c.pending.len() > 0 {
        let h = c.pending[0];
        let rest = c.pending.drop_first();
        assert forall|x: u32| c.pending.contains(x) implies c2.marked.contains(x) || c2.pending.contains(x) by {
            let k = choose|k: int| 0 <= k < c.pending.len() && c.pending[k] == x;
            if k > 0 {
                assert(rest[k - 1] == x);
                if !c.marked.contains(h) && objects.contains_key(h) {
                    assert(c2.pending[k - 1] == x);
                }
            }
        }
        assert forall|k: int| 0 <= k < queue.len() implies c2.marked.contains(#[trigger] queue[k])
            || c2.pending.contains(queue[k]) by {
            if c.pending.contains(queue[k]) {
            }
        }
        if young_scan_closed(objects, c.marked, c.pending) {
            assert forall|g: u32, i: int|
                #![trigger c2.marked.contains(g), objects[g].references[i]]
                c2.marked.contains(g) && objects.contains_key(g) && 0 <= i < objects[g].references.len()
                    && objects[g].references[i] is Some implies c2.marked.contains(
                objects[g].references[i].unwrap().0,
            ) || c2.pending.contains(objects[g].references[i].unwrap().0) by {
                let x = objects[g].references[i].unwrap().0;
                if c.marked.contains(g) {
                    assert(c.marked.contains(x) || c.pending.contains(x));
                } else {
                    assert(g == h);
                    if !c2.marked.contains(x) {
                        lemma_unmarked_refs_queue(objects[h].references, c2.marked, i);
                        let u = unmarked_refs(objects[h].references, c2.marked);
                        let k = choose|k: int| 0 <= k < u.len() && u[k] == x;
                        assert(c2.pending[rest.len() + k] == x);
                    }
                }
            }
        }
    }
}

proof fn lemma_young_mark_run_keeps(objects: Map<u32, YoungMetaView>, c: YoungMarkCursor, queue: Seq<u32>, n: nat)
    requires
        covers(c, queue),
    ensures
        covers(young_mark_run(objects, c, n), queue),
        c.marked.subset_of(young_mark_run(objects, c, n).marked),
        young_scan_closed(objects, c.marked, c.pending) ==> young_scan_closed(
            objects,
            young_mark_run(objects, c, n).marked,
            young_mark_run(objects, c, n).pending,
        ),
    decreases n,
{
    if n > 0 {
        lemma_young_mark_run_keeps(objects, c, queue, (n - 1) as nat);
        lemma_young_mark_one_keeps(objects, young_mark_run(objects, c, (n - 1) as nat), queue);
    }
}

/// `path` follows references of registered objects: each handle's object
/// has a slot holding the next handle.
pub open spec fn young_reference_path(objects: Map<u32, YoungMetaView>, path: Seq<u32>) -> bool {
    &&& path.len() > 0
    &&& forall|k: int|
        0 <= k < path.len() - 1 ==> objects.contains_key(#[trigger] path[k]) && exists|i: int|
            0 <= i < objects[path[k]].references.len() && objects[path[k]].references[i] == Some(
                HandleId(path[k + 1]),
            )
}

/// Marking from a closed state reaches everything: when the mark of a
/// cycle ends, every object reachable through references from a handle
/// that was pending or marked when the buffers were flushed is marked.
pub proof fn law_young_mark_end_marks_reachable(d: YoungView, f: YoungView, path: Seq<u32>)
    requires
        young_scan_closed(d.objects, d.marked, d.pending),
        young_mark_keeps(d, f),
        young_after_mark_end(d, f),
        young_reference_path(d.objects, path),
        d.marked.contains(path[0]) || d.pending.contains(path[0]),
    ensures
        f.marked.contains(path[path.len() - 1]),
    decreases path.len(),
{
    assert(f.objects == d.objects);
    assert(f.pending.len() == 0);
    if path.len() == 1 {
        if d.pending.contains(path[0]) {
            let k = choose|k: int| 0 <= k < d.pending.len() && d.pending[k] == path[0];
            assert(f.marked.contains(d.pending[k]) || f.pending.contains(d.pending[k]));
        }
    } else {
        let prefix = path.drop_last();
        assert forall|k: int| 0 <= k < prefix.len() - 1 implies d.objects.contains_key(#[trigger] prefix[k])
            && exists|i: int|
            0 <= i < d.objects[prefix[k]].references.len() && d.objects[prefix[k]].references[i] == Some(
                HandleId(prefix[k + 1]),
            ) by {
            assert(prefix[k] == path[k] && prefix[k + 1] == path[k + 1]);
            assert(d.objects.contains_key(path[k]));
        }
        law_young_mark_end_marks_reachable(d, f, prefix);
        let g = path[path.len() - 2];
        assert(f.marked.contains(g));
        assert(d.objects.contains_key(path[path.len() - 2]));
        let i = choose|i: int|
            0 <= i < d.objects[g].references.len() && d.objects[g].references[i] == Some(HandleId(path[path.len() - 1]));
        assert(f.marked.contains(f.objects[g].references[i].unwrap().0) || f.pending.contains(
            f.objects[g].references[i].unwrap().0,
        ));
    }
}

/// Selection splits the marked young objects: each is promoted in place or
/// relocated, never both.
pub proof fn law_young_selection_partitions_marked(s: YoungView, h: u32)
    requires
        s.marked.contains(h),
        s.objects.contains_key(h),
        s.objects[h].generation == HandleGeneration::Young,
    ensures
        promotion_candidates(s).contains(h) != relocation_candidates(s).contains(h),
{
}

/// No handle of `path` but the last is in `avoid`.
pub open spec fn path_avoids(path: Seq<u32>, avoid: Set<u32>) -> bool {
    forall|k: int| 0 <= k < path.len() - 1 ==> !avoid.contains(#[trigger] path[k])
}

/// `x` is reachable from a handle of `sources` along references of
/// registered objects, passing through no handle of `avoid` (a marked
/// handle is not scanned again).
pub open spec fn young_reaches(objects: Map<u32, YoungMetaView>, sources: Seq<u32>, avoid: Set<u32>, x: u32) -> bool {
    exists|path: Seq<u32>|
        #[trigger] young_reference_path(objects, path) && sources.contains(path[0]) && path[path.len() - 1] == x
            && path_avoids(path, avoid)
}

/// What a mark from `d` reaches: the handles reachable from its pending
/// queue through objects not already marked.
pub open spec fn young_reach_set(d: YoungView) -> Set<u32> {
    Set::new(|x: u32| young_reaches(d.objects, d.pending, d.marked, x))
}

/// Scanning is closed for the handles marked since `exempt`: each set
/// reference of such a registered object is marked or pending.
pub open spec fn young_scan_closed_beyond(
    objects: Map<u32, YoungMetaView>,
    marked: Set<u32>,
    pending: Seq<u32>,
    exempt: Set<u32>,
) -> bool {
    forall|h: u32, i: int|
        #![trigger marked.contains(h), objects[h].references[i]]
        marked.contains(h) && !exempt.contains(h) && objects.contains_key(h) && 0 <= i < objects[h].references.len()
            && objects[h].references[i] is Some ==> marked.contains(objects[h].references[i].unwrap().0)
            || pending.contains(objects[h].references[i].unwrap().0)
}

/// Marking from `d` to `f` marked and queued only what is reachable from
/// `d`'s queue, scanned every object it marked, and counted each new mark.
pub open spec fn young_mark_bounded(d: YoungView, f: YoungView) -> bool {
    &&& forall|x: u32| #[trigger] f.pending.contains(x) ==> young_reaches(d.objects, d.pending, d.marked, x)
    &&& forall|x: u32| #[trigger] f.marked.contains(x) ==> d.marked.contains(x) || young_reaches(
        d.objects,
        d.pending,
        d.marked,
        x,
    )
    &&& young_scan_closed_beyond(f.objects, f.marked, f.pending, d.marked)
    &&& f.marked.finite()
    &&& f.report.marked == d.report.marked + f.marked.len() - d.marked.len()
}

proof fn lemma_reaches_source(objects: Map<u32, YoungMetaView>, sources: Seq<u32>, avoid: Set<u32>, x: u32)
    requires
        sources.contains(x),
    ensures
        young_reaches(objects, sources, avoid, x),
{
    let p = seq![x];
    assert(young_reference_path(objects, p));
    assert(path_avoids(p, avoid));
}

proof fn lemma_reaches_extend(
    objects: Map<u32, YoungMetaView>,
    sources: Seq<u32>,
    avoid: Set<u32>,
    h: u32,
    i: int,
    y: u32,
)
    requires
        young_reaches(objects, sources, avoid, h),
        !avoid.contains(h),
        objects.contains_key(h),
        0 <= i < objects[h].references.len(),
        objects[h].references[i] == Some(HandleId(y)),
    ensures
        young_reaches(objects, sources, avoid, y),
{
    let p = choose|p: Seq<u32>|
        #[trigger] young_reference_path(objects, p) && sources.contains(p[0]) && p[p.len() - 1] == h && path_avoids(
            p,
            avoid,
        );
    let q = p.push(y);
    assert forall|k: int| 0 <= k < q.len() - 1 implies objects.contains_key(#[trigger] q[k]) && exists|j: int|
        0 <= j < objects[q[k]].references.len() && objects[q[k]].references[j] == Some(HandleId(q[k + 1])) by {
        if k < p.len() - 1 {
            assert(q[k] == p[k] && q[k + 1] == p[k + 1]);
            assert(objects.contains_key(p[k]));
        } else {
            assert(q[k] == h && q[k + 1] == y);
        }
    }
    assert(young_reference_path(objects, q));
    assert(path_avoids(q, avoid)) by {
        assert forall|k: int| 0 <= k < q.len() - 1 implies !avoid.contains(#[trigger] q[k]) by {
            if k < p.len() - 1 {
                assert(q[k] == p[k]);
            }
        }
    }
    assert(q[0] == p[0]);
}

/// Reachability composes: what is reachable from handles that are each
/// reachable is reachable, when the later walk avoids more handles.
proof fn lemma_reaches_trans(
    objects: Map<u32, YoungMetaView>,
    d_src: Seq<u32>,
    d_avoid: Set<u32>,
    s_src: Seq<u32>,
    s_avoid: Set<u32>,
    path: Seq<u32>,
)
    requires
        forall|z: u32| #[trigger] s_src.contains(z) ==> young_reaches(objects, d_src, d_avoid, z),
        d_avoid.subset_of(s_avoid),
        young_reference_path(objects, path),
        s_src.contains(path[0]),
        path_avoids(path, s_avoid),
    ensures
        young_reaches(objects, d_src, d_avoid, path[path.len() - 1]),
    decreases path.len(),
{
    if path.len() > 1 {
        let prefix = path.drop_last();
        assert forall|k: int| 0 <= k < prefix.len() - 1 implies objects.contains_key(#[trigger] prefix[k])
            && exists|j: int|
            0 <= j < objects[prefix[k]].references.len() && objects[prefix[k]].references[j] == Some(
                HandleId(prefix[k + 1]),
            ) by {
            assert(prefix[k] == path[k] && prefix[k + 1] == path[k + 1]);
            assert(objects.contains_key(path[k]));
        }
        assert(path_avoids(prefix, s_avoid)) by {
            assert forall|k: int| 0 <= k < prefix.len() - 1 implies !s_avoid.contains(#[trigger] prefix[k]) by {
                assert(prefix[k] == path[k]);
            }
        }
        lemma_reaches_trans(objects, d_src, d_avoid, s_src, s_avoid, prefix);
        let h = path[path.len() - 2];
        assert(prefix[prefix.len() - 1] == h);
        assert(objects.contains_key(path[path.len() - 2]));
        assert(!s_avoid.contains(path[path.len() - 2]));
        let j = choose|j: int|
            0 <= j < objects[h].references.len() && objects[h].references[j] == Some(HandleId(path[path.len() - 1]));
        lemma_reaches_extend(objects, d_src, d_avoid, h, j, path[path.len() - 1]);
    }
}

proof fn lemma_unmarked_refs_are_refs(refs: Seq<Option<HandleId>>, marked: Set<u32>, k: int)
    requires
        0 <= k < unmarked_refs(refs, marked).len(),
    ensures
        exists|i: int| 0 <= i < refs.len() && refs[i] == Some(HandleId(unmarked_refs(refs, marked)[k])),
    decreases refs.len(),
{
    let rest = unmarked_refs(refs.drop_last(), marked);
    if k < rest.len() {
        match refs.last() {
            Some(r) => {
                if !marked.contains(r.0) {
                    assert(unmarked_refs(refs, marked)[k] == rest[k]);
                }
            },
            None => {},
        }
        lemma_unmarked_refs_are_refs(refs.drop_last(), marked, k);
        let i = choose|i: int| 0 <= i < refs.drop_last().len() && refs.drop_last()[i] == Some(HandleId(rest[k]));
        assert(refs[i] == refs.drop_last()[i]);
    } else {
        let r = refs.last();
        assert(refs[refs.len() - 1] == r);
        assert(r == Some(HandleId(r.unwrap().0)));
    }
}

/// The invariant of a mark run from `d`, at cursor `c`.
pub open spec fn young_run_bounded(d: YoungView, c: YoungMarkCursor) -> bool {
    &&& forall|x: u32| #[trigger] c.pending.contains(x) ==> young_reaches(d.objects, d.pending, d.marked, x)
    &&& forall|x: u32| #[trigger] c.marked.contains(x) ==> d.marked.contains(x) || young_reaches(
        d.objects,
        d.pending,
        d.marked,
        x,
    )
    &&& young_scan_closed_beyond(d.objects, c.marked, c.pending, d.marked)
    &&& d.marked.subset_of(c.marked)
    &&& c.marked.finite()
    &&& c.newly_marked + d.marked.len() == c.marked.len()
}

proof fn lemma_young_mark_one_bounded(d: YoungView, c: YoungMarkCursor)
    requires
        young_run_bounded(d, c),
    ensures
        young_run_bounded(d, young_mark_one(d.objects, c)),
{
    let objects = d.objects;
    let c2 = young_mark_one(objects, c);
    if c.pending.len() > 0 {
        let h = c.pending[0];
        let rest = c.pending.drop_first();
        assert(c.pending.contains(h));
        assert forall|x: u32| rest.contains(x) implies c.pending.contains(x) by {
            let k = choose|k: int| 0 <= k < rest.len() && rest[k] == x;
            assert(c.pending[k + 1] == x);
        }
        if !c.marked.contains(h) {
            assert(!d.marked.contains(h));
            assert(c2.marked.len() == c.marked.len() + 1);
        }
        assert forall|x: u32| #[trigger] c2.pending.contains(x) implies young_reaches(
            objects,
            d.pending,
            d.marked,
            x,
        ) by {
            if rest.contains(x) {
            } else {
                let u = unmarked_refs(objects[h].references, c2.marked);
                let k = choose|k: int| 0 <= k < c2.pending.len() && c2.pending[k] == x;
                if k < rest.len() {
                    assert(rest[k] == x);
                } else {
                    assert(u[k - rest.len()] == x);
                    lemma_unmarked_refs_are_refs(objects[h].references, c2.marked, k - rest.len());
                    let i = choose|i: int|
                        0 <= i < objects[h].references.len() && objects[h].references[i] == Some(HandleId(x));
                    lemma_reaches_extend(objects, d.pending, d.marked, h, i, x);
                }
            }
        }
        assert forall|g: u32, i: int|
            #![trigger c2.marked.contains(g), objects[g].references[i]]
            c2.marked.contains(g) && !d.marked.contains(g) && objects.contains_key(g) && 0 <= i
                < objects[g].references.len() && objects[g].references[i] is Some implies c2.marked.contains(
            objects[g].references[i].unwrap().0,
        ) || c2.pending.contains(objects[g].references[i].unwrap().0) by {
            let x = objects[g].references[i].unwrap().0;
            if c.marked.contains(g) {
                assert(c.marked.contains(x) || c.pending.contains(x));
                if c.pending.contains(x) && x != h {
                    let k = choose|k: int| 0 <= k < c.pending.len() && c.pending[k] == x;
                    assert(rest[k - 1] == x);
                    if !c.marked.contains(h) && objects.contains_key(h) {
                        assert(c2.pending[k - 1] == x);
                    }
                }
            } else {
                assert(g == h);
                if !c2.marked.contains(x) {
                    lemma_unmarked_refs_queue(objects[h].references, c2.marked, i);
                    let u = unmarked_refs(objects[h].references, c2.marked);
                    let k = choose|k: int| 0 <= k < u.len() && u[k] == x;
                    assert(c2.pending[rest.len() + k] == x);
                }
            }
        }
    }
}

proof fn lemma_young_mark_run_bounded(d: YoungView, n: nat)
    requires
        d.marked.finite(),
    ensures
        young_run_bounded(d, young_mark_run(d.objects, young_cursor(d), n)),
    decreases n,
{
    if n == 0 {
        let c = young_cursor(d);
        assert forall|x: u32| #[trigger] c.pending.contains(x) implies young_reaches(d.objects, d.pending, d.marked, x) by {
            lemma_reaches_source(d.objects, d.pending, d.marked, x);
        }
    } else {
        lemma_young_mark_run_bounded(d, (n - 1) as nat);
        lemma_young_mark_one_bounded(d, young_mark_run(d.objects, young_cursor(d), (n - 1) as nat));
    }
}

/// Bounded marking from `d` to `s` and then from `s` to `f` is bounded
/// marking from `d` to `f`.
proof fn lemma_young_mark_bounded_trans(d: YoungView, s: YoungView, f: YoungView)
    requires
        young_mark_bounded(d, s),
        young_mark_bounded(s, f),
        young_mark_keeps(s, f),
        d.objects == s.objects,
        s.objects == f.objects,
        d.marked.subset_of(s.marked),
        d.marked.finite(),
    ensures
        young_mark_bounded(d, f),
{
    let o = d.objects;
    assert forall|z: u32| #[trigger] s.pending.contains(z) implies young_reaches(o, d.pending, d.marked, z) by {}
    assert forall|x: u32| #[trigger] f.pending.contains(x) implies young_reaches(o, d.pending, d.marked, x) by {
        assert(young_reaches(o, s.pending, s.marked, x));
        let p = choose|p: Seq<u32>|
            #[trigger] young_reference_path(o, p) && s.pending.contains(p[0]) && p[p.len() - 1] == x && path_avoids(
                p,
                s.marked,
            );
        lemma_reaches_trans(o, d.pending, d.marked, s.pending, s.marked, p);
    }
    assert forall|x: u32| #[trigger] f.marked.contains(x) implies d.marked.contains(x) || young_reaches(
        o,
        d.pending,
        d.marked,
        x,
    ) by {
        if !s.marked.contains(x) {
            assert(young_reaches(o, s.pending, s.marked, x));
            let p = choose|p: Seq<u32>|
                #[trigger] young_reference_path(o, p) && s.pending.contains(p[0]) && p[p.len() - 1] == x
                    && path_avoids(p, s.marked);
            lemma_reaches_trans(o, d.pending, d.marked, s.pending, s.marked, p);
        }
    }
    assert forall|h: u32, i: int|
        #![trigger f.marked.contains(h), o[h].references[i]]
        f.marked.contains(h) && !d.marked.contains(h) && o.contains_key(h) && 0 <= i < o[h].references.len()
            && o[h].references[i] is Some implies f.marked.contains(o[h].references[i].unwrap().0) || f.pending.contains(
        o[h].references[i].unwrap().0,
    ) by {
        let x = o[h].references[i].unwrap().0;
        if s.marked.contains(h) {
            assert(s.marked.contains(x) || s.pending.contains(x));
            if s.pending.contains(x) {
                let k = choose|k: int| 0 <= k < s.pending.len() && s.pending[k] == x;
                assert(f.marked.contains(s.pending[k]) || f.pending.contains(s.pending[k]));
            }
        }
    }
}

/// With nothing left to scan, bounded marking from `d` marked exactly
/// `d`'s marks and what `d`'s queue reaches.
proof fn lemma_young_mark_bounded_exact(d: YoungView, f: YoungView)
    requires
        young_mark_bounded(d, f),
        young_mark_keeps(d, f),
        f.pending.len() == 0,
        f.objects == d.objects,
    ensures
        f.marked == d.marked.union(young_reach_set(d)),
{
    let o = d.objects;
    assert forall|x: u32| #[trigger] young_reach_set(d).contains(x) implies f.marked.contains(x) by {
        let p = choose|p: Seq<u32>|
            #[trigger] young_reference_path(o, p) && d.pending.contains(p[0]) && p[p.len() - 1] == x && path_avoids(
                p,
                d.marked,
            );
        lemma_young_path_marked(d, f, p);
    }
    assert(f.marked =~= d.marked.union(young_reach_set(d)));
}

proof fn lemma_young_path_marked(d: YoungView, f: YoungView, path: Seq<u32>)
    requires
        young_mark_bounded(d, f),
        young_mark_keeps(d, f),
        f.pending.len() == 0,
        f.objects == d.objects,
        young_reference_path(d.objects, path),
        d.pending.contains(path[0]),
        path_avoids(path, d.marked),
    ensures
        f.marked.contains(path[path.len() - 1]),
    decreases path.len(),
{
    let o = d.objects;
    if path.len() == 1 {
        let k = choose|k: int| 0 <= k < d.pending.len() && d.pending[k] == path[0];
        assert(f.marked.contains(d.pending[k]) || f.pending.contains(d.pending[k]));
    } else {
        let prefix = path.drop_last();
        assert forall|k: int| 0 <= k < prefix.len() - 1 implies o.contains_key(#[trigger] prefix[k]) && exists|j: int|
            0 <= j < o[prefix[k]].references.len() && o[prefix[k]].references[j] == Some(HandleId(prefix[k + 1])) by {
            assert(prefix[k] == path[k] && prefix[k + 1] == path[k + 1]);
            assert(o.contains_key(path[k]));
        }
        assert(path_avoids(prefix, d.marked)) by {
            assert forall|k: int| 0 <= k < prefix.len() - 1 implies !d.marked.contains(#[trigger] prefix[k]) by {
                assert(prefix[k] == path[k]);
            }
        }
        lemma_young_path_marked(d, f, prefix);
        let h = path[path.len() - 2];
        assert(prefix[prefix.len() - 1] == h);
        assert(o.contains_key(path[path.len() - 2]));
        assert(!d.marked.contains(path[path.len() - 2]));
        let j = choose|j: int| 0 <= j < o[h].references.len() && o[h].references[j] == Some(HandleId(path[path.len() - 1]));
        assert(f.marked.contains(o[h].references[j].unwrap().0) || f.pending.contains(o[h].references[j].unwrap().0));
    }
}

impl YoungController {
    /// The controller's invariant: both rings are well formed, no pause did
    /// heavy work, and the marked counter counts marked handles.
    pub closed spec fn wf(&self) -> bool {
        &&& self.satb.wf()
        &&& self.remset_ring.wf()
        &&& !self.page_scan
        &&& !self.object_copy
        &&& self.marked@.finite()
        &&& self.report.marked <= self.marked@.len()
    }

    /// A controller with rings of `ring_capacity` records.
    pub fn new(ring_capacity: usize) -> (r: YoungController)
        requires
            ring_capacity > 0,
        ensures
            r.wf(),
            r@.phase == YoungPhase::Idle,
            r@.epoch == (BarrierEpoch {
                young_mark: 1,
                old_mark: 1,
                remembered: 1,
                young_marking: false,
                old_marking: false,
            }),
            r@.pending == Seq::<u32>::empty(),
            r@.marked == Set::<u32>::empty(),
            r@.objects == Map::<u32, YoungMetaView>::empty(),
            r@.satb == (RingState::<HandleId> { items: Seq::empty(), capacity: ring_capacity as nat, flushes: 0 }),
            r@.remset_ring == (RingState::<u64> { items: Seq::empty(), capacity: ring_capacity as nat, flushes: 0 }),
            r@.remset.active == Set::<u64>::empty(),
            r@.remset.snapshot == Set::<u64>::empty(),
            r@.remset.slot_bits == Map::<u64, Set<u16>>::empty(),
            r@.report == zero_young_report(),
            !r@.pause_heavy_work,
            !r@.black_alloc,
            r@.mark_epoch == 0,
            !r@.termination,
    {
        let r = YoungController {
            phase: YoungPhase::Idle,
            epoch: BarrierEpoch::idle(),
            pending: VecDeque::new(),
            marked: BTreeSet::new(),
            objects: BTreeMap::new(),
            satb: BarrierRing::with_capacity(ring_capacity),
            remset_ring: BarrierRing::with_capacity(ring_capacity),
            remset: PreciseRemset::new(),
            report: empty_young_report(),
            page_scan: false,
            object_copy: false,
            black_alloc_enabled: false,
            mark_epoch: 0,
            termination: false,
        };
        proof {
            assert(r@.objects =~= Map::<u32, YoungMetaView>::empty());
        }
        r
    }

    pub fn phase(&self) -> (r: YoungPhase)
        ensures
            r == self@.phase,
    {
        self.phase
    }

    pub fn epoch(&self) -> (r: BarrierEpoch)
        ensures
            r == self@.epoch,
    {
        self.epoch
    }

    pub fn report(&self) -> (r: YoungReport)
        ensures
            r == self@.report,
    {
        self.report
    }

    pub fn remset(&self) -> (r: &PreciseRemset)
        ensures
            r@ == self@.remset,
    {
        &self.remset
    }

    /// Registers (or re-registers) an object with its reference slots.
    pub fn register_object(
        &mut self,
        handle: HandleId,
        generation: HandleGeneration,
        references: Vec<Option<HandleId>>,
        bytes: u64,
        dense: bool,
        humongous: bool,
    )
        requires
            old(self).wf(),
            old(self)@.black_alloc && generation == HandleGeneration::Young ==> old(self)@.report.black_allocations
                < usize::MAX,
        ensures
            final(self).wf(),
            final(self)@ == spec_young_register(
                old(self)@,
                handle.0,
                new_young_meta(generation, references@, bytes, dense, humongous),
            ),
    {
        let ghost refs = references@;
        self.objects.insert(
            handle.0,
            YoungObjectMeta { generation, age: 0, references, bytes, dense, humongous },
        );
        if self.black_alloc_enabled && generation == HandleGeneration::Young {
            self.marked.insert(handle.0);
            self.report.black_allocations = self.report.black_allocations + 1;
        }
        proof {
            let expected = spec_young_register(
                old(self)@,
                handle.0,
                new_young_meta(generation, refs, bytes, dense, humongous),
            );
            assert(self@.objects =~= expected.objects);
            assert(self.marked@.len() >= old(self).marked@.len()) by {
                if self.marked@ != old(self).marked@ {
                    assert(self.marked@ == old(self).marked@.insert(handle.0));
                }
            }
        }
    }

    /// Whether `handle` is marked in the current cycle.
    pub fn is_marked(&self, handle: HandleId) -> (r: bool)
        ensures
            r == self@.marked.contains(handle.0),
    {
        self.marked.contains(&handle.0)
    }

    /// The generation of a registered object.
    pub fn generation(&self, handle: HandleId) -> (r: Option<HandleGeneration>)
        ensures
            r == (if self@.objects.contains_key(handle.0) {
                Some(self@.objects[handle.0].generation)
            } else {
                None
            }),
    {
        match self.objects.get(&handle.0) {
            Some(meta) => Some(meta.generation),
            None => None,
        }
    }

    /// Whether a pause scanned pages or copied objects: never.
    pub fn pause_did_page_scan_or_copy(&self) -> (r: bool)
        requires
            self.wf(),
        ensures
            r == self@.pause_heavy_work,
            !r,
    {
        self.page_scan || self.object_copy
    }

    /// Stores `target` into reference slot `slot` of `owner` (growing its
    /// slots as needed) and runs the young store barrier: during a young
    /// mark the overwritten reference is kept for the snapshot, and a store
    /// that makes or breaks an old-to-young edge remembers `slot_addr`.
    /// An unregistered owner is left alone and yields no record.
    pub fn write_reference(
        &mut self,
        owner: HandleId,
        slot: usize,
        target: Option<HandleId>,
        slot_addr: u64,
    ) -> (r: Vec<BarrierRecord>)
        requires
            old(self).wf(),
            slot < usize::MAX,
        ensures
            final(self).wf(),
            !old(self)@.objects.contains_key(owner.0) ==> final(self)@ == old(self)@ && r@ == Seq::<
                BarrierRecord,
            >::empty(),
            old(self)@.objects.contains_key(owner.0) ==> (final(self)@, r@) == spec_young_write(
                old(self)@,
                owner.0,
                slot as int,
                target,
                slot_addr,
            ),
    {
        let ghost s0 = self@;
        let previous: Option<HandleId>;
        let owner_generation: HandleGeneration;
        match self.objects.remove(&owner.0) {
            None => {
                proof {
                    assert(self.objects@ =~= old(self).objects@);
                    assert(self@ == old(self)@);
                }
                return Vec::new();
            },
            Some(meta) => {
                let mut meta = meta;
                let ghost orig = meta@;
                let ghost refs0 = meta.references@;
                proof {
                    assert(orig == s0.objects[owner.0]);
                }
                while meta.references.len() <= slot
                    invariant
                        slot < usize::MAX,
                        meta.generation == orig.generation,
                        meta.age == orig.age,
                        meta.bytes == orig.bytes,
                        meta.dense == orig.dense,
                        meta.humongous == orig.humongous,
                        refs0.len() <= meta.references@.len(),
                        meta.references@.len() <= slot + 1 || meta.references@.len() == refs0.len(),
                        meta.references@.subrange(0, refs0.len() as int) == refs0,
                        forall|i: int|
                            refs0.len() <= i < meta.references@.len() ==> meta.references@[i] == None::<HandleId>,
                    decreases slot + 1 - meta.references@.len(),
                {
                    meta.references.push(None);
                }
                proof {
                    assert(meta.references@ =~= padded_refs(refs0, slot as int));
                }
                previous = meta.references[slot];
                meta.references.set(slot, target);
                owner_generation = meta.generation;
                proof {
                    assert(s0.objects[owner.0] == old(self).objects@[owner.0]@);
                    assert(meta@ == YoungMetaView {
                        references: padded_refs(s0.objects[owner.0].references, slot as int).update(
                            slot as int,
                            target,
                        ),
                        ..s0.objects[owner.0]
                    });
                }
                let ghost new_view = meta@;
                self.objects.insert(owner.0, meta);
                proof {
                    assert(self@.objects =~= s0.objects.insert(owner.0, new_view));
                }
            },
        }
        let target_generation: Option<HandleGeneration> = match target {
            Some(t) => match self.objects.get(&t.0) {
                Some(m) => Some(m.generation),
                None => None,
            },
            None => None,
        };
        let epoch = self.epoch;
        let mut records: Vec<BarrierRecord> = Vec::new();
        if epoch.young_marking {
            match previous {
                Some(old_handle) => {
                    let _ = self.satb.push_or_mark_full(old_handle);
                    records.push(BarrierRecord::Satb(old_handle));
                },
                None => {},
            }
        }
        let target_young = match target_generation {
            Some(HandleGeneration::Young) => true,
            _ => false,
        };
        let owner_old = match owner_generation {
            HandleGeneration::Old => true,
            HandleGeneration::Young => false,
        };
        if owner_old && (target_young || target_generation.is_none()) {
            if target_young || previous.is_some() {
                let _ = self.remset_ring.push_or_mark_full(slot_addr);
                self.remset.record_slot(slot_addr);
                records.push(BarrierRecord::RememberedSlot { slot_addr });
            }
        }
        proof {
            let (expected, recs) = spec_young_write(s0, owner.0, slot as int, target, slot_addr);
            assert(self@.objects =~= expected.objects);
            assert(records@ =~= recs);
        }
        records
    }

    /// Moves the recorded SATB handles to the pending queue.
    pub fn drain_satb(&mut self)
        requires
            old(self).wf(),
            old(self)@.report.satb_drained + old(self)@.satb.items.len() <= usize::MAX,
        ensures
            final(self).wf(),
            final(self)@ == spec_young_drain_satb(old(self)@),
    {
        let drained = self.satb.drain();
        if drained.len() == 0 {
            proof {
                assert(raw_handles(old(self)@.satb.items) =~= Seq::<u32>::empty());
                assert(self@.pending =~= old(self)@.pending + raw_handles(old(self)@.satb.items));
            }
            return;
        }
        self.report.satb_drained = self.report.satb_drained + drained.len();
        let mut i: usize = 0;
        while i < drained.len()
            invariant
                self.wf(),
                i <= drained@.len(),
                drained@ == old(self)@.satb.items,
                self.pending@ == old(self)@.pending + raw_handles(drained@.take(i as int)),
                self@ == (YoungView { pending: self@.pending, ..spec_young_drain_satb(old(self)@) }),
            decreases drained@.len() - i,
        {
            proof {
                assert(raw_handles(drained@.take(i + 1)) =~= raw_handles(drained@.take(i as int)).push(
                    drained@[i as int].0,
                ));
            }
            self.pending.push_back(drained[i].0);
            i += 1;
        }
        proof {
            assert(drained@.take(drained@.len() as int) =~= drained@);
        }
    }

    /// Empties the remembered-slot ring, counting its slots as scanned.
    pub fn drain_remset_ring(&mut self)
        requires
            old(self).wf(),
            old(self)@.report.remset_slots_scanned + old(self)@.remset_ring.items.len() <= usize::MAX,
        ensures
            final(self).wf(),
            final(self)@ == spec_young_drain_remset_ring(old(self)@),
    {
        let slots = self.remset_ring.drain();
        if slots.len() == 0 {
            return;
        }
        self.report.remset_slots_scanned = self.report.remset_slots_scanned + slots.len();
    }

    /// One step of the concurrent young mark: drains the SATB and
    /// remembered-slot buffers, then takes pending handles, marking and
    /// scanning them, until `max(work_budget, 1)` objects were scanned or
    /// nothing is pending. Returns whether marking work is left.
    pub fn concurrent_mark_step(&mut self, work_budget: usize) -> (r: bool)
        requires
            old(self).wf(),
            old(self)@.phase == YoungPhase::ConcurrentMark,
            old(self)@.report.satb_drained + old(self)@.satb.items.len() <= usize::MAX,
            old(self)@.report.remset_slots_scanned + old(self)@.remset_ring.items.len() <= usize::MAX,
        ensures
            final(self).wf(),
            ({
                let d = spec_young_drain_remset_ring(spec_young_drain_satb(old(self)@));
                exists|n: nat|
                    young_mark_stops_at(d.objects, young_cursor(d), at_least_one(work_budget), n) && final(self)@
                        == young_after_mark(d, at_least_one(work_budget), n, final(self)@.report.concurrent_mark_ns)
            }),
            final(self)@.report.concurrent_mark_ns >= old(self)@.report.concurrent_mark_ns,
            young_mark_keeps(spec_young_drain_remset_ring(spec_young_drain_satb(old(self)@)), final(self)@),
            young_mark_bounded(spec_young_drain_remset_ring(spec_young_drain_satb(old(self)@)), final(self)@),
            r == (final(self)@.pending.len() > 0),
            r ==> unscanned_objects(final(self)@).len() < unscanned_objects(old(self)@).len(),
    {
        let mark_started = clock_now();
        self.drain_satb();
        self.drain_remset_ring();
        let ghost d = self@;
        let budget: usize = if work_budget > 1 {
            work_budget
        } else {
            1
        };
        let mut worked: usize = 0;
        let ghost mut n: nat = 0;
        let ghost marked0: int = self.report.marked as int;
        proof {
            assert(young_mark_run(d.objects, young_cursor(d), 0) == young_cursor(d));
            assert(self.objects@.dom().finite());
            assert(d.objects.dom() =~= self.objects@.dom());
        }
        loop
            invariant
                self.wf(),
                d.objects.dom().finite(),
                budget as nat == at_least_one(work_budget),
                self.report.marked >= marked0,
                young_mark_run(d.objects, young_cursor(d), n) == (YoungMarkCursor {
                    pending: self@.pending,
                    marked: self@.marked,
                    newly_marked: (self.report.marked - marked0) as nat,
                    worked: worked as nat,
                }),
                forall|m: nat| m < n ==> !young_mark_stops(#[trigger] young_mark_run(d.objects, young_cursor(d), m), budget as nat),
                self@ == (YoungView {
                    pending: self@.pending,
                    marked: self@.marked,
                    report: YoungReport { marked: self@.report.marked, ..d.report },
                    ..d
                }),
                d.report.marked == marked0,
                unscanned_objects(self@).len() + worked <= unscanned_objects(d).len(),
            ensures
                young_mark_stops_at(d.objects, young_cursor(d), budget as nat, n),
                self.wf(),
                self.report.marked >= marked0,
                young_mark_run(d.objects, young_cursor(d), n) == (YoungMarkCursor {
                    pending: self@.pending,
                    marked: self@.marked,
                    newly_marked: (self.report.marked - marked0) as nat,
                    worked: worked as nat,
                }),
                self@ == (YoungView {
                    pending: self@.pending,
                    marked: self@.marked,
                    report: YoungReport { marked: self@.report.marked, ..d.report },
                    ..d
                }),
                unscanned_objects(self@).len() + worked <= unscanned_objects(d).len(),
            decreases unscanned_objects(self@).len(), self@.pending.len(),
        {
            if worked >= budget {
                break;
            }
            let ghost cur = young_mark_run(d.objects, young_cursor(d), n);
            let ghost unscanned_before = unscanned_objects(self@);
            let popped = self.pending.pop_front();
            match popped {
                None => {
                    break;
                },
                Some(h) => {
                    proof {
                        assert(young_mark_run(d.objects, young_cursor(d), n + 1) == young_mark_one(d.objects, cur));
                        assert(self@.pending =~= cur.pending.drop_first());
                        assert(!young_mark_stops(cur, budget as nat));
                    }
                    let ghost marked_before = self.marked@;
                    if !self.marked.insert(h) {
                        proof {
                            assert(self.marked@ =~= marked_before);
                            assert(young_mark_one(d.objects, cur) == (YoungMarkCursor {
                                pending: self@.pending,
                                marked: self@.marked,
                                newly_marked: (self.report.marked - marked0) as nat,
                                worked: worked as nat,
                            }));
                            assert(unscanned_objects(self@) =~= unscanned_before);
                            n = n + 1;
                            assert forall|m: nat| m < n implies !young_mark_stops(
                                #[trigger] young_mark_run(d.objects, young_cursor(d), m),
                                budget as nat,
                            ) by {
                                if m == n - 1 {
                                    assert(young_mark_run(d.objects, young_cursor(d), m) == cur);
                                }
                            }
                        }
                        continue;
                    }
                    proof {
                        assert(self.marked@ == marked_before.insert(h));
                        assert(!marked_before.contains(h));
                        assert(self.marked@.len() == marked_before.len() + 1);
                        assert(vstd::std_specs::btree::spec_btree_set_len(&self.marked) == self.marked@.len());
                    }
                    self.report.marked = self.report.marked + 1;
                    match self.objects.get(&h) {
                        None => {
                            proof {
                                assert(unscanned_objects(self@) =~= unscanned_before);
                                n = n + 1;
                            }
                            continue;
                        },
                        Some(meta) => {
                            proof {
                                assert(meta@ == d.objects[h]);
                            }
                            let ghost base = self@.pending;
                            let ghost rm = self.report.marked;
                            let mut i: usize = 0;
                            while i < meta.references.len()
                                invariant
                                    self.wf(),
                                    i <= meta.references@.len(),
                                    meta@ == d.objects[h],
                                    self.report.marked == rm,
                                    self@.marked == marked_before.insert(h),
                                    self@.pending == base + unmarked_refs(meta.references@.take(i as int), self@.marked),
                                    self@ == (YoungView {
                                        pending: self@.pending,
                                        marked: self@.marked,
                                        report: YoungReport { marked: self@.report.marked, ..d.report },
                                        ..d
                                    }),
                                decreases meta.references@.len() - i,
                            {
                                proof {
                                    assert(meta.references@.take(i + 1).drop_last() =~= meta.references@.take(i as int));
                                }
                                match meta.references[i] {
                                    Some(r) => {
                                        if !self.marked.contains(&r.0) {
                                            self.pending.push_back(r.0);
                                        }
                                    },
                                    None => {},
                                }
                                i += 1;
                            }
                            proof {
                                assert(meta.references@.take(meta.references@.len() as int) =~= meta.references@);
                                assert(unscanned_objects(self@) =~= unscanned_before.remove(h));
                            }
                            worked = worked + 1;
                            proof {
                                n = n + 1;
                            }
                        },
                    }
                },
            }
        }
        let elapsed = elapsed_since(&mark_started);
        let ns = duration_nanos(&elapsed) as u64;
        self.report.concurrent_mark_ns = self.report.concurrent_mark_ns.saturating_add(ns);
        proof {
            assert(self@ == young_after_mark(d, at_least_one(work_budget), n, self@.report.concurrent_mark_ns));
            assert(covers(young_cursor(d), d.pending)) by {
                assert forall|k: int| 0 <= k < d.pending.len() implies young_cursor(d).marked.contains(
                    #[trigger] d.pending[k],
                ) || young_cursor(d).pending.contains(d.pending[k]) by {
                    assert(young_cursor(d).pending[k] == d.pending[k]);
                }
            }
            lemma_young_mark_run_keeps(d.objects, young_cursor(d), d.pending, n);
            lemma_young_mark_run_bounded(d, n);
        }
        self.pending.len() > 0 || !self.satb.is_empty()
    }

    /// Keeps the longest pause seen, `ns` nanoseconds long.
    fn note_pause(&mut self, ns: u64)
        requires
            old(self).wf(),
        ensures
            final(self).wf(),
            final(self)@ == (YoungView {
                report: YoungReport { pause_ns_max: final(self)@.report.pause_ns_max, ..old(self)@.report },
                ..old(self)@
            }),
            final(self)@.report.pause_ns_max == if ns > old(self)@.report.pause_ns_max {
                ns
            } else {
                old(self)@.report.pause_ns_max
            },
    {
        if ns > self.report.pause_ns_max {
            self.report.pause_ns_max = ns;
        }
    }

    /// The pause that starts a young mark from `roots`; returns its length.
    pub fn pause_mark_start(&mut self, roots: &[u32]) -> (r: Duration)
        requires
            old(self).wf(),
        ensures
            final(self).wf(),
            final(self)@ == spec_young_pause_mark_start(old(self)@, roots@, final(self)@.report.pause_ns_max),
    {
        let started = clock_now();
        self.page_scan = false;
        self.object_copy = false;
        self.epoch = self.epoch.flip_young();
        self.black_alloc_enabled = true;
        self.termination = false;
        self.mark_epoch = self.mark_epoch.wrapping_add(1);
        self.report = empty_young_report();
        self.marked.clear();
        let _ = self.remset.snapshot_and_flip();
        self.pending.clear();
        let ghost pre = self@;
        let mut i: usize = 0;
        while i < roots.len()
            invariant
                self.wf(),
                self@ == (YoungView { pending: self@.pending, ..pre }),
                i <= roots@.len(),
                self.pending@ == roots@.take(i as int),
            decreases roots@.len() - i,
        {
            proof {
                assert(roots@.take(i + 1) =~= roots@.take(i as int).push(roots@[i as int]));
            }
            self.pending.push_back(roots[i]);
            i += 1;
        }
        proof {
            assert(roots@.take(roots@.len() as int) =~= roots@);
        }
        self.phase = YoungPhase::ConcurrentMark;
        let elapsed = elapsed_since(&started);
        self.note_pause(duration_nanos(&elapsed) as u64);
        elapsed
    }

    /// The pause that ends a young mark: the buffers are flushed and the
    /// marking of what they held runs to its fixed point (residual buffered
    /// work only, no page scan or copy), then black allocation stops and
    /// relocation-set selection may begin. Returns the pause's length.
    pub fn pause_mark_end(&mut self) -> (r: Duration)
        requires
            old(self).wf(),
            old(self)@.phase == YoungPhase::ConcurrentMark,
            old(self)@.report.satb_drained + old(self)@.satb.items.len() <= usize::MAX,
            old(self)@.report.remset_slots_scanned + old(self)@.remset_ring.items.len() <= usize::MAX,
        ensures
            final(self).wf(),
            young_mark_keeps(spec_young_drain_remset_ring(spec_young_drain_satb(old(self)@)), final(self)@),
            young_after_mark_end(spec_young_drain_remset_ring(spec_young_drain_satb(old(self)@)), final(self)@),
            ({
                let d = spec_young_drain_remset_ring(spec_young_drain_satb(old(self)@));
                &&& final(self)@.marked == d.marked.union(young_reach_set(d))
                &&& final(self)@.report.marked == d.report.marked + final(self)@.marked.len() - d.marked.len()
            }),
            final(self)@.report.pause_ns_max >= old(self)@.report.pause_ns_max,
            final(self)@.report.concurrent_mark_ns >= old(self)@.report.concurrent_mark_ns,
    {
        let started = clock_now();
        self.drain_satb();
        self.drain_remset_ring();
        let ghost d = self@;
        proof {
            assert forall|k: int| 0 <= k < d.pending.len() implies self@.marked.contains(#[trigger] d.pending[k])
                || self@.pending.contains(d.pending[k]) by {
                assert(self@.pending[k] == d.pending[k]);
            }
            assert forall|x: u32| #[trigger] d.pending.contains(x) implies young_reaches(
                d.objects,
                d.pending,
                d.marked,
                x,
            ) by {
                lemma_reaches_source(d.objects, d.pending, d.marked, x);
            }
        }
        loop
            invariant
                self.wf(),
                self@.phase == YoungPhase::ConcurrentMark,
                self@.satb.items.len() == 0,
                self@.remset_ring.items.len() == 0,
                young_mark_keeps(d, self@),
                young_mark_bounded(d, self@),
                d.marked.finite(),
                self@ == (YoungView {
                    pending: self@.pending,
                    marked: self@.marked,
                    report: YoungReport {
                        marked: self@.report.marked,
                        concurrent_mark_ns: self@.report.concurrent_mark_ns,
                        ..d.report
                    },
                    ..d
                }),
                self@.report.concurrent_mark_ns >= d.report.concurrent_mark_ns,
            ensures
                self.wf(),
                self@.pending.len() == 0,
                young_mark_keeps(d, self@),
                young_mark_bounded(d, self@),
                self@ == (YoungView {
                    pending: self@.pending,
                    marked: self@.marked,
                    report: YoungReport {
                        marked: self@.report.marked,
                        concurrent_mark_ns: self@.report.concurrent_mark_ns,
                        ..d.report
                    },
                    ..d
                }),
                self@.report.concurrent_mark_ns >= d.report.concurrent_mark_ns,
            decreases unscanned_objects(self@).len(),
        {
            let ghost before = self@;
            proof {
                assert(raw_handles(before.satb.items) =~= Seq::<u32>::empty());
                let dd = spec_young_drain_remset_ring(spec_young_drain_satb(before));
                assert(dd.pending =~= before.pending);
                assert(dd.satb.items =~= before.satb.items);
                assert(dd.remset_ring.items =~= before.remset_ring.items);
                assert(dd.satb == before.satb);
                assert(dd.remset_ring == before.remset_ring);
                assert(dd.report == before.report);
                assert(dd == before);
            }
            let more = self.concurrent_mark_step(usize::MAX);
            proof {
                lemma_young_mark_keeps_trans(d, before, self@);
                lemma_young_mark_bounded_trans(d, before, self@);
            }
            if !more {
                break;
            }
        }
        self.termination = true;
        self.phase = YoungPhase::ConcurrentSelectRelocationSet;
        self.epoch = self.epoch.end_young();
        self.black_alloc_enabled = false;
        let elapsed = elapsed_since(&started);
        self.note_pause(duration_nanos(&elapsed) as u64);
        proof {
            assert(self@.pending =~= Seq::<u32>::empty());
            lemma_young_mark_bounded_exact(d, self@);
        }
        elapsed
    }

    /// Promotes a registered object in place: it becomes old and ages.
    pub fn promote_in_place(&mut self, handle: HandleId)
        requires
            old(self).wf(),
            old(self)@.objects.contains_key(handle.0) ==> old(self)@.report.promoted < usize::MAX,
        ensures
            final(self).wf(),
            final(self)@ == spec_young_promote(old(self)@, handle.0),
    {
        match self.objects.remove(&handle.0) {
            None => {
                proof {
                    assert(self.objects@ =~= old(self).objects@);
                }
            },
            Some(meta) => {
                let mut meta = meta;
                proof {
                    assert(meta@ == old(self)@.objects[handle.0]);
                }
                meta.generation = HandleGeneration::Old;
                meta.age = meta.age.saturating_add(1);
                let ghost promoted = meta@;
                self.objects.insert(handle.0, meta);
                self.report.promoted = self.report.promoted + 1;
                proof {
                    assert(promoted == promoted_meta(old(self)@.objects[handle.0]));
                    assert(self@.objects =~= old(self)@.objects.insert(handle.0, promoted));
                }
            },
        }
    }

    /// Selects the relocation set from the marked young objects: dense,
    /// humongous and aged ones are promoted in place, the others are
    /// returned (in increasing handle order) to be relocated.
    pub fn select_relocation_set(&mut self) -> (r: Vec<HandleId>)
        requires
            old(self).wf(),
            old(self)@.phase == YoungPhase::ConcurrentSelectRelocationSet,
            old(self)@.report.promoted + promotion_candidates(old(self)@).len() <= usize::MAX,
        ensures
            final(self).wf(),
            final(self)@ == (YoungView {
                phase: YoungPhase::PauseRelocateStart,
                objects: after_promotion(old(self)@),
                report: YoungReport {
                    promoted: (old(self)@.report.promoted + promotion_candidates(old(self)@).len()) as usize,
                    ..old(self)@.report
                },
                ..old(self)@
            }),
            increasing_u32(raw_handles(r@)),
            raw_handles(r@).to_set() == relocation_candidates(old(self)@),
    {
        let ghost s0 = self@;
        let marked = sorted_u32s(&self.marked);
        let mut sparse: Vec<HandleId> = Vec::new();
        let mut promote: Vec<u32> = Vec::new();
        let mut i: usize = 0;
        while i < marked.len()
            invariant
                self@ == s0,
                i <= marked@.len(),
                marked@.to_set() == s0.marked,
                increasing_u32(marked@),
                increasing_u32(raw_handles(sparse@)),
                increasing_u32(promote@),
                forall|k: int| 0 <= k < sparse@.len() ==> marked@.take(i as int).contains(#[trigger] sparse@[k].0),
                forall|k: int| 0 <= k < promote@.len() ==> marked@.take(i as int).contains(#[trigger] promote@[k]),
                raw_handles(sparse@).to_set() == marked@.take(i as int).to_set().filter(
                    |h: u32| relocation_candidate(s0, h),
                ),
                promote@.to_set() == marked@.take(i as int).to_set().filter(|h: u32| promotion_candidate(s0, h)),
            decreases marked@.len() - i,
        {
            let h = marked[i];
            proof {
                assert(marked@.take(i + 1) =~= marked@.take(i as int).push(h));
                assert(s0.marked.contains(h)) by {
                    assert(marked@.contains(h));
                }
                assert forall|k: int| 0 <= k < sparse@.len() implies sparse@[k].0 < h by {
                    let j = choose|j: int| 0 <= j < i && marked@.take(i as int)[j] == sparse@[k].0;
                }
                assert forall|k: int| 0 <= k < promote@.len() implies promote@[k] < h by {
                    let j = choose|j: int| 0 <= j < i && marked@.take(i as int)[j] == promote@[k];
                }
            }
            let ghost old_sparse = sparse@;
            let ghost old_promote = promote@;
            match self.objects.get(&h) {
                None => {},
                Some(meta) => {
                    proof {
                        assert(meta@ == s0.objects[h]);
                    }
                    let young = match meta.generation {
                        HandleGeneration::Young => true,
                        HandleGeneration::Old => false,
                    };
                    if young {
                        if meta.dense || meta.humongous || meta.age >= 1 {
                            promote.push(h);
                        } else {
                            sparse.push(HandleId(h));
                        }
                    }
                },
            }
            proof {
                let before = marked@.take(i as int);
                let after = marked@.take(i + 1);
                before.lemma_push_to_set_commute(h);
                if relocation_candidate(s0, h) {
                    assert(sparse@ == old_sparse.push(HandleId(h)));
                    assert(raw_handles(sparse@) =~= raw_handles(old_sparse).push(h));
                    raw_handles(old_sparse).lemma_push_to_set_commute(h);
                } else {
                    assert(sparse@ == old_sparse);
                }
                if promotion_candidate(s0, h) {
                    assert(promote@ == old_promote.push(h));
                    old_promote.lemma_push_to_set_commute(h);
                } else {
                    assert(promote@ == old_promote);
                }
                assert(raw_handles(sparse@).to_set() =~= after.to_set().filter(|g: u32| relocation_candidate(s0, g)));
                assert(promote@.to_set() =~= after.to_set().filter(|g: u32| promotion_candidate(s0, g)));
                assert forall|k: int| 0 <= k < sparse@.len() implies after.contains(#[trigger] sparse@[k].0) by {
                    if k < sparse@.len() - 1 || !relocation_candidate(s0, h) {
                        assert(before.contains(sparse@[k].0));
                        let j = choose|j: int| 0 <= j < before.len() && before[j] == sparse@[k].0;
                        assert(after[j] == sparse@[k].0);
                    } else {
                        assert(after[i as int] == h);
                    }
                }
                assert forall|k: int| 0 <= k < promote@.len() implies after.contains(#[trigger] promote@[k]) by {
                    if k < promote@.len() - 1 || !promotion_candidate(s0, h) {
                        assert(before.contains(promote@[k]));
                        let j = choose|j: int| 0 <= j < before.len() && before[j] == promote@[k];
                        assert(after[j] == promote@[k]);
                    } else {
                        assert(after[i as int] == h);
                    }
                }
            }
            i += 1;
        }
        proof {
            assert(marked@.take(marked@.len() as int) =~= marked@);
            assert(promote@.to_set() =~= promotion_candidates(s0));
            assert(raw_handles(sparse@).to_set() =~= relocation_candidates(s0));
            assert(promote@.no_duplicates()) by {
                assert forall|a: int, b: int| 0 <= a < promote@.len() && 0 <= b < promote@.len() && a != b implies promote@[a]
                    != promote@[b] by {
                    if a < b {
                        assert(promote@[a] < promote@[b]);
                    } else {
                        assert(promote@[b] < promote@[a]);
                    }
                }
            }
            promote@.unique_seq_to_set();
        }
        let mut j: usize = 0;
        while j < promote.len()
            invariant
                self.wf(),
                j <= promote@.len(),
                promote@.no_duplicates(),
                promote@.to_set() == promotion_candidates(s0),
                self.report.promoted == s0.report.promoted + j,
                promote@.len() == promotion_candidates(s0).len(),
                s0.report.promoted + promotion_candidates(s0).len() <= usize::MAX,
                self@ == (YoungView {
                    objects: self@.objects,
                    report: YoungReport { promoted: self@.report.promoted, ..s0.report },
                    ..s0
                }),
                self@.objects == Map::new(
                    |h: u32| s0.objects.contains_key(h),
                    |h: u32|
                        if promote@.take(j as int).contains(h) {
                            promoted_meta(s0.objects[h])
                        } else {
                            s0.objects[h]
                        },
                ),
            decreases promote@.len() - j,
        {
            let h = promote[j];
            proof {
                assert(promote@.to_set().contains(h));
                assert(promotion_candidate(s0, h));
                assert(!promote@.take(j as int).contains(h)) by {
                    if promote@.take(j as int).contains(h) {
                        let k = choose|k: int| 0 <= k < j && promote@.take(j as int)[k] == h;
                        assert(promote@[k] == promote@[j as int]);
                    }
                }
                assert(promote@.take(j + 1) =~= promote@.take(j as int).push(h));
            }
            let ghost prev = self@.objects;
            proof {
                assert(prev.contains_key(h));
                assert(prev[h] == s0.objects[h]);
            }
            self.promote_in_place(HandleId(h));
            proof {
                assert(self@.objects == prev.insert(h, promoted_meta(s0.objects[h])));
                let t1 = promote@.take(j + 1);
                let t0 = promote@.take(j as int);
                assert forall|g: u32| #[trigger] t1.contains(g) == (t0.contains(g) || g == h) by {
                    if t1.contains(g) {
                        let k = choose|k: int| 0 <= k < t1.len() && #[trigger] t1[k] == g;
                        if k < j {
                            assert(t0[k] == g);
                        }
                    }
                    if t0.contains(g) {
                        let k = choose|k: int| 0 <= k < t0.len() && #[trigger] t0[k] == g;
                        assert(t1[k] == g);
                    }
                    if g == h {
                        assert(t1[j as int] == h);
                    }
                }
                assert(self@.objects =~= Map::new(
                    |g: u32| s0.objects.contains_key(g),
                    |g: u32|
                        if promote@.take(j + 1).contains(g) {
                            promoted_meta(s0.objects[g])
                        } else {
                            s0.objects[g]
                        },
                ));
            }
            j += 1;
        }
        proof {
            assert(promote@.take(promote@.len() as int) =~= promote@);
            assert forall|g: u32| #[trigger] promote@.contains(g) == promotion_candidate(s0, g) by {
                assert(promote@.to_set().contains(g) == promote@.contains(g));
            }
            assert(self@.objects =~= after_promotion(s0));
        }
        self.phase = YoungPhase::PauseRelocateStart;
        sparse
    }

    /// The pause that starts relocation; returns its length.
    pub fn pause_relocate_start(&mut self) -> (r: Duration)
        requires
            old(self).wf(),
        ensures
            final(self).wf(),
            final(self)@ == (YoungView {
                phase: YoungPhase::ConcurrentRelocate,
                report: YoungReport { pause_ns_max: final(self)@.report.pause_ns_max, ..old(self)@.report },
                ..old(self)@
            }),
            final(self)@.report.pause_ns_max >= old(self)@.report.pause_ns_max,
    {
        let started = clock_now();
        self.phase = YoungPhase::ConcurrentRelocate;
        let elapsed = elapsed_since(&started);
        self.note_pause(duration_nanos(&elapsed) as u64);
        elapsed
    }

    /// Counts `count` relocated objects.
    pub fn note_relocated(&mut self, count: usize)
        requires
            old(self).wf(),
            old(self)@.report.relocated + count <= usize::MAX,
        ensures
            final(self).wf(),
            final(self)@ == (YoungView {
                report: YoungReport { relocated: (old(self)@.report.relocated + count) as usize, ..old(self)@.report },
                ..old(self)@
            }),
    {
        self.report.relocated = self.report.relocated + count;
    }

    /// Ends the cycle once the grace period has passed: the collector goes
    /// idle and the remembered-set snapshot is dropped.
    pub fn finish_epoch_reclaim(&mut self)
        requires
            old(self).wf(),
        ensures
            final(self).wf(),
            final(self)@ == (YoungView {
                phase: YoungPhase::Idle,
                remset: RemsetView { snapshot: Set::empty(), ..old(self)@.remset },
                ..old(self)@
            }),
    {
        self.phase = YoungPhase::Idle;
        self.remset.clear_snapshot();
    }

    /// Whether marking has terminated: the end pause ran and nothing is
    /// pending or buffered.
    pub fn terminated(&self) -> (r: bool)
        requires
            self.wf(),
        ensures
            r == (self@.termination && self@.pending.len() == 0 && self@.satb.items.len() == 0),
    {
        self.termination && self.pending.len() == 0 && self.satb.is_empty()
    }

    /// The bound on a young cycle's work: the remembered slots and the
    /// marked objects, never the whole old generation.
    pub fn young_work_bound(&self) -> (r: usize)
        requires
            self.wf(),
            self@.remset.active.len() + self@.marked.len() <= usize::MAX,
        ensures
            r == self@.remset.active.len() + self@.marked.len(),
    {
        proof {
            assert(vstd::std_specs::btree::spec_btree_set_len(&self.marked) == self.marked@.len());
        }
        self.remset.active_len() + self.marked.len()
    }

    /// Records an SATB handle from a host write.
    pub fn record_satb(&mut self, handle: HandleId)
        requires
            old(self).wf(),
        ensures
            final(self).wf(),
            final(self)@ == (YoungView { satb: ring_after_push(old(self)@.satb, handle), ..old(self)@ }),
    {
        let _ = self.satb.push_or_mark_full(handle);
    }
}

} // verus!
