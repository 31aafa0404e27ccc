//! The concurrent old-generation mark. It is started by a young mark start
//! and may span several young cycles, absorbing the objects that young
//! cycles promote; its end pause only finishes residual buffered work.

use vstd::prelude::*;

use std::collections::{BTreeMap, BTreeSet, VecDeque};
use std::time::Duration;

use crate::barrier::BarrierEpoch;
use crate::clock::{clock_now, duration_nanos, elapsed_since};
use crate::generations::{OldPhase, OldReport};
use crate::handle::{HandleGeneration, HandleId};
use crate::ordered::{increasing_u32, sorted_keys};
use crate::young::{lemma_unmarked_refs_queue, next_mark_epoch, unmarked_refs, YoungController};

verus! {

broadcast use vstd::std_specs::btree::group_btree_axioms;

/// What the old collector knows of an object.
#[derive(Clone, Debug)]
struct OldObjectMeta {
    references: Vec<Option<HandleId>>,
    bytes: u64,
    generation: HandleGeneration,
}

pub struct OldMetaView {
    pub references: Seq<Option<HandleId>>,
    pub bytes: u64,
    pub generation: HandleGeneration,
}

impl View for OldObjectMeta {
    type V = OldMetaView;

    closed spec fn view(&self) -> OldMetaView {
        OldMetaView { references: self.references@, bytes: self.bytes, generation: self.generation }
    }
}

/// The old collector. Handles are keyed by their raw number.
pub struct OldController {
    phase: OldPhase,
    epoch: BarrierEpoch,
    pending: VecDeque<u32>,
    marked: BTreeSet<u32>,
    objects: BTreeMap<u32, OldObjectMeta>,
    promotion_frontier: Vec<HandleId>,
    report: OldReport,
    active: bool,
    young_cycles: usize,
    mark_epoch: u64,
}

pub struct OldView {
    pub phase: OldPhase,
    pub epoch: BarrierEpoch,
    pub pending: Seq<u32>,
    pub marked: Set<u32>,
    pub objects: Map<u32, OldMetaView>,
    /// Objects promoted by young cycles since the old mark last absorbed them.
    pub promotion_frontier: Seq<HandleId>,
    pub report: OldReport,
    pub active: bool,
    pub young_cycles: usize,
    pub mark_epoch: u64,
}

impl View for OldController {
    type V = OldView;

    closed spec fn view(&self) -> OldView {
        OldView {
            phase: self.phase,
            epoch: self.epoch,
            pending: self.pending@,
            marked: self.marked@,
            objects: self.objects@.map_values(|m: OldObjectMeta| m@),
            promotion_frontier: self.promotion_frontier@,
            report: self.report,
            active: self.active,
            young_cycles: self.young_cycles,
            mark_epoch: self.mark_epoch,
        }
    }
}

pub open spec fn zero_old_report() -> OldReport {
    OldReport {
        marked: 0,
        young_cycles_spanned: 0,
        promotion_frontier: 0,
        young_to_old_roots: 0,
        pause_ns_max: 0,
        old_live_bytes: 0,
        mark_work_bytes: 0,
    }
}

fn empty_old_report() -> (r: OldReport)
    ensures
        r == zero_old_report(),
{
    OldReport {
        marked: 0,
        young_cycles_spanned: 0,
        promotion_frontier: 0,
        young_to_old_roots: 0,
        pause_ns_max: 0,
        old_live_bytes: 0,
        mark_work_bytes: 0,
    }
}

/// Whether `h` names a registered old object.
pub open spec fn is_old_object(objects: Map<u32, OldMetaView>, h: u32) -> bool {
    objects.contains_key(h) && objects[h].generation == HandleGeneration::Old
}

/// The roots that point into the old generation, in root order.
pub open spec fn old_roots(objects: Map<u32, OldMetaView>, roots: Seq<u32>) -> Seq<u32> {
    roots.filter(|h: u32| is_old_object(objects, h))
}

/// `seed` lists the registered old objects, each once, in increasing order.
pub open spec fn lists_old_objects(objects: Map<u32, OldMetaView>, seed: Seq<u32>) -> bool {
    &&& increasing_u32(seed)
    &&& seed.to_set() == objects.dom().filter(|h: u32| is_old_object(objects, h))
}

/// The raw numbers of handles, in order.
pub open spec fn raw_ids(hs: Seq<HandleId>) -> Seq<u32> {
    hs.map_values(|h: HandleId| h.0)
}

/// Where an old mark step stands: what is left to scan, what is marked,
/// how many old objects it marked and how many bytes they hold.
pub struct OldMarkCursor {
    pub pending: Seq<u32>,
    pub marked: Set<u32>,
    pub marked_old: nat,
    pub bytes: nat,
}

/// One turn of the old mark loop: the first pending handle is taken and
/// marked; when it is new and names an old object, the object is counted
/// and its unmarked references are queued.
pub open spec fn old_mark_one(objects: Map<u32, OldMetaView>, c: OldMarkCursor) -> OldMarkCursor {
    if c.pending.len() == 0 {
        c
    } else {
        let h = c.pending[0];
        let rest = c.pending.drop_first();
        if c.marked.contains(h) {
            OldMarkCursor { pending: rest, ..c }
        } else {
            let marked = c.marked.insert(h);
            if is_old_object(objects, h) {
                OldMarkCursor {
                    pending: rest + unmarked_refs(objects[h].references, marked),
                    marked,
                    marked_old: c.marked_old + 1,
                    bytes: c.bytes + objects[h].bytes as nat,
                }
            } else {
                OldMarkCursor { pending: rest, marked, ..c }
            }
        }
    }
}

/// `n` turns of the old mark loop (turns on an empty queue change nothing).
pub open spec fn old_mark_run(objects: Map<u32, OldMetaView>, c: OldMarkCursor, n: nat) -> OldMarkCursor
    decreases n,
{
    if n == 0 {
        c
    } else {
        old_mark_one(objects, old_mark_run(objects, c, (n - 1) as nat))
    }
}

/// The cursor an old mark step starts from in state `s`.
pub open spec fn old_cursor(s: OldView) -> OldMarkCursor {
    OldMarkCursor { pending: s.pending, marked: s.marked, marked_old: 0, bytes: 0 }
}

/// A step's budget: at least one turn.
pub open spec fn at_least_one_turn(budget: usize) -> nat {
    if budget > 1 {
        budget as nat
    } else {
        1
    }
}

/// The state after `n` turns of old marking from `s`.
pub open spec fn old_after_mark(s: OldView, n: nat) -> OldView {
    let c = old_mark_run(s.objects, old_cursor(s), n);
    OldView {
        pending: c.pending,
        marked: c.marked,
        report: OldReport {
            marked: (s.report.marked + c.marked_old) as usize,
            old_live_bytes: (s.report.old_live_bytes + c.bytes) as u64,
            mark_work_bytes: (s.report.mark_work_bytes + c.bytes) as u64,
            ..s.report
        },
        ..s
    }
}

/// Whether `n` turns of old marking from `s` keep the byte counters in
/// range.
pub open spec fn old_mark_fits(s: OldView, n: nat) -> bool {
    let c = old_mark_run(s.objects, old_cursor(s), n);
    &&& s.report.old_live_bytes + c.bytes <= u64::MAX
    &&& s.report.mark_work_bytes + c.bytes <= u64::MAX
}

proof fn lemma_old_run_bytes_grow(objects: Map<u32, OldMetaView>, c: OldMarkCursor, n: nat)
    ensures
        old_mark_run(objects, c, n).bytes >= c.bytes,
        old_mark_run(objects, c, n).marked_old >= c.marked_old,
    decreases n,
{
    if n > 0 {
        lemma_old_run_bytes_grow(objects, c, (n - 1) as nat);
    }
}

proof fn lemma_old_run_monotone(objects: Map<u32, OldMetaView>, c: OldMarkCursor, t: nat, n: nat)
    requires
        t <= n,
    ensures
        old_mark_run(objects, c, n).bytes >= old_mark_run(objects, c, t).bytes,
    decreases n,
{
    if n > t {
        lemma_old_run_monotone(objects, c, t, (n - 1) as nat);
    }
}

proof fn lemma_old_run_idle(objects: Map<u32, OldMetaView>, c: OldMarkCursor, t: nat, n: nat)
    requires
        t <= n,
        old_mark_run(objects, c, t).pending.len() == 0,
    ensures
        old_mark_run(objects, c, n) == old_mark_run(objects, c, t),
    decreases n,
{
    if n > t {
        lemma_old_run_idle(objects, c, t, (n - 1) as nat);
    }
}

/// The state `coordinate_from_young_mark_start` leaves when it starts an
/// old mark, before the roots that point into the old generation are
/// queued: the old color flips, the young colors follow the young
/// collector's epoch, the report and marks are cleared and the roots and
/// then the old objects (`seed`) are queued.
pub open spec fn old_mark_started(s: OldView, young_epoch: BarrierEpoch, roots: Seq<u32>, seed: Seq<u32>) -> OldView {
    OldView {
        phase: OldPhase::ConcurrentMark,
        epoch: BarrierEpoch {
            young_mark: young_epoch.young_mark,
            remembered: young_epoch.remembered,
            young_marking: young_epoch.young_marking,
            ..s.epoch.flip_old_spec()
        },
        pending: roots + seed,
        marked: Set::empty(),
        report: zero_old_report(),
        active: true,
        mark_epoch: next_mark_epoch(s.mark_epoch),
        ..s
    }
}

/// The state an old mark under way reaches at a young mark start, before
/// the old-pointing roots are queued: one more young cycle spanned and the
/// promotion frontier absorbed into the queue.
pub open spec fn old_mark_absorbed(s: OldView) -> OldView {
    OldView {
        pending: s.pending + raw_ids(s.promotion_frontier),
        promotion_frontier: Seq::empty(),
        report: OldReport {
            young_cycles_spanned: (s.report.young_cycles_spanned + 1) as usize,
            promotion_frontier: (s.report.promotion_frontier + s.promotion_frontier.len()) as usize,
            ..s.report
        },
        young_cycles: if s.young_cycles == usize::MAX {
            0
        } else {
            (s.young_cycles + 1) as usize
        },
        ..s
    }
}

/// `s` with the roots that point into the old generation queued and
/// counted.
pub open spec fn old_roots_queued(s: OldView, roots: Seq<u32>) -> OldView {
    OldView {
        pending: s.pending + old_roots(s.objects, roots),
        report: OldReport {
            young_to_old_roots: (s.report.young_to_old_roots + old_roots(s.objects, roots).len()) as usize,
            ..s.report
        },
        ..s
    }
}

/// Old scanning is closed: every set reference of a marked old object is
/// marked or still pending.
pub open spec fn old_scan_closed(objects: Map<u32, OldMetaView>, marked: Set<u32>, pending: Seq<u32>) -> bool {
    forall|h: u32, i: int|
        #![trigger marked.contains(h), objects[h].references[i]]
        marked.contains(h) && is_old_object(objects, h) && 0 <= i < objects[h].references.len()
            && objects[h].references[i] is Some ==> marked.contains(objects[h].references[i].unwrap().0)
            || pending.contains(objects[h].references[i].unwrap().0)
}

/// Every handle of `queue` is marked or pending in `c`.
pub open spec fn old_covers(c: OldMarkCursor, queue: Seq<u32>) -> bool {
    forall|k: int| 0 <= k < queue.len() ==> c.marked.contains(#[trigger] queue[k]) || c.pending.contains(queue[k])
}

proof fn lemma_old_mark_one_keeps(objects: Map<u32, OldMetaView>, c: OldMarkCursor, queue: Seq<u32>)
    requires
        old_covers(c, queue),
    ensures
        old_covers(old_mark_one(objects, c), queue),
        c.marked.subset_of(old_mark_one(objects, c).marked),
        old_scan_closed(objects, c.marked, c.pending) ==> old_scan_closed(
            objects,
            old_mark_one(objects, c).marked,
            old_mark_one(objects, c).pending,
        ),
{
    let c2 = old_mark_one(objects, c);
    if c.pending.len() > 0 {
        let h = c.pending[0];
        let rest = c.pending.drop_first();
        assert forall|x: u32| c.pending.contains(x) implies c2.marked.contains(x) || c2.pending.contains(x) by {
            let k = choose|k: int| 0 <= k < c.pending.len() && c.pending[k] == x;
            if k > 0 {
                assert(rest[k - 1] == x);
                if !c.marked.contains(h) && is_old_object(objects, h) {
                    assert(c2.pending[k - 1] == x);
                }
            }
        }
        assert forall|k: int| 0 <= k < queue.len() implies c2.marked.contains(#[trigger] queue[k])
            || c2.pending.contains(queue[k]) by {
            if c.pending.contains(queue[k]) {
            }
        }
        if old_scan_closed(objects, c.marked, c.pending) {
            assert forall|g: u32, i: int|
                #![trigger c2.marked.contains(g), objects[g].references[i]]
                c2.marked.contains(g) && is_old_object(objects, g) && 0 <= i < objects[g].references.len()
                    && objects[g].references[i] is Some implies c2.marked.contains(
                objects[g].references[i].unwrap().0,
            ) || c2.pending.contains(objects[g].references[i].unwrap().0) by {
                let x = objects[g].references[i].unwrap().0;
                if c.marked.contains(g) {
                    assert(c.marked.contains(x) || c.pending.contains(x));
                } else {
                    assert(g == h);
                    if !c2.marked.contains(x) {
                        lemma_unmarked_refs_queue(objects[h].references, c2.marked, i);
                        let u = unmarked_refs(objects[h].references, c2.marked);
                        let k = choose|k: int| 0 <= k < u.len() && u[k] == x;
                        assert(c2.pending[rest.len() + k] == x);
                    }
                }
            }
        }
    }
}

proof fn lemma_old_mark_run_keeps(objects: Map<u32, OldMetaView>, c: OldMarkCursor, queue: Seq<u32>, n: nat)
    requires
        old_covers(c, queue),
    ensures
        old_covers(old_mark_run(objects, c, n), queue),
        c.marked.subset_of(old_mark_run(objects, c, n).marked),
        old_scan_closed(objects, c.marked, c.pending) ==> old_scan_closed(
            objects,
            old_mark_run(objects, c, n).marked,
            old_mark_run(objects, c, n).pending,
        ),
    decreases n,
{
    if n > 0 {
        lemma_old_mark_run_keeps(objects, c, queue, (n - 1) as nat);
        lemma_old_mark_one_keeps(objects, old_mark_run(objects, c, (n - 1) as nat), queue);
    }
}

/// `path` follows references out of registered old objects.
pub open spec fn old_reference_path(objects: Map<u32, OldMetaView>, path: Seq<u32>) -> bool {
    &&& path.len() > 0
    &&& forall|k: int|
        0 <= k < path.len() - 1 ==> is_old_object(objects, #[trigger] path[k]) && exists|i: int|
            0 <= i < objects[path[k]].references.len() && objects[path[k]].references[i] == Some(
                HandleId(path[k + 1]),
            )
}

/// Old marking reaches everything through old objects: when marking from
/// a closed state has nothing left to scan, every object reachable through
/// old objects from a handle that was pending or marked is marked.
pub proof fn law_old_mark_marks_reachable(s: OldView, n: nat, path: Seq<u32>)
    requires
        old_scan_closed(s.objects, s.marked, s.pending),
        old_after_mark(s, n).pending.len() == 0,
        old_reference_path(s.objects, path),
        s.marked.contains(path[0]) || s.pending.contains(path[0]),
    ensures
        old_after_mark(s, n).marked.contains(path[path.len() - 1]),
    decreases path.len(),
{
    let c0 = old_cursor(s);
    assert(old_covers(c0, s.pending)) by {
        assert forall|k: int| 0 <= k < s.pending.len() implies c0.marked.contains(#[trigger] s.pending[k])
            || c0.pending.contains(s.pending[k]) by {
            assert(c0.pending[k] == s.pending[k]);
        }
    }
    lemma_old_mark_run_keeps(s.objects, c0, s.pending, n);
    let f = old_mark_run(s.objects, c0, n);
    if path.len() == 1 {
        if s.pending.contains(path[0]) {
            let k = choose|k: int| 0 <= k < s.pending.len() && s.pending[k] == path[0];
            assert(f.marked.contains(s.pending[k]) || f.pending.contains(s.pending[k]));
        }
    } else {
        let prefix = path.drop_last();
        assert forall|k: int| 0 <= k < prefix.len() - 1 implies is_old_object(s.objects, #[trigger] prefix[k])
            && exists|i: int|
            0 <= i < s.objects[prefix[k]].references.len() && s.objects[prefix[k]].references[i] == Some(
                HandleId(prefix[k + 1]),
            ) by {
            assert(prefix[k] == path[k] && prefix[k + 1] == path[k + 1]);
            assert(is_old_object(s.objects, path[k]));
        }
        law_old_mark_marks_reachable(s, n, prefix);
        let g = path[path.len() - 2];
        assert(f.marked.contains(g));
        assert(is_old_object(s.objects, path[path.len() - 2]));
        let i = choose|i: int|
            0 <= i < s.objects[g].references.len() && s.objects[g].references[i] == Some(HandleId(path[path.len() - 1]));
        assert(f.marked.contains(s.objects[g].references[i].unwrap().0) || f.pending.contains(
            s.objects[g].references[i].unwrap().0,
        ));
    }
}

impl OldController {
    /// The controller's invariant: the marked counter counts marked handles.
    pub closed spec fn wf(&self) -> bool {
        &&& self.marked@.finite()
        &&& self.report.marked <= self.marked@.len()
    }

    pub fn new() -> (r: OldController)
        ensures
            r.wf(),
            r@.phase == OldPhase::Idle,
            r@.epoch == (BarrierEpoch {
                young_mark: 1,
                old_mark: 1,
                remembered: 1,
                young_marking: false,
                old_marking: false,
            }),
            r@.pending == Seq::<u32>::empty(),
            r@.marked == Set::<u32>::empty(),
            r@.objects == Map::<u32, OldMetaView>::empty(),
            r@.promotion_frontier == Seq::<HandleId>::empty(),
            r@.report == zero_old_report(),
            !r@.active,
            r@.young_cycles == 0,
            r@.mark_epoch == 0,
    {
        let r = OldController {
            phase: OldPhase::Idle,
            epoch: BarrierEpoch::idle(),
            pending: VecDeque::new(),
            marked: BTreeSet::new(),
            objects: BTreeMap::new(),
            promotion_frontier: Vec::new(),
            report: empty_old_report(),
            active: false,
            young_cycles: 0,
            mark_epoch: 0,
        };
        proof {
            assert(r@.objects =~= Map::<u32, OldMetaView>::empty());
        }
        r
    }

    pub fn phase(&self) -> (r: OldPhase)
        ensures
            r == self@.phase,
    {
        self.phase
    }

    pub fn report(&self) -> (r: OldReport)
        ensures
            r == self@.report,
    {
        self.report
    }

    /// Whether an old mark is under way.
    pub fn is_active(&self) -> (r: bool)
        ensures
            r == self@.active,
    {
        self.active
    }

    /// Whether `handle` is marked in the current old mark.
    pub fn is_marked(&self, handle: HandleId) -> (r: bool)
        ensures
            r == self@.marked.contains(handle.0),
    {
        self.marked.contains(&handle.0)
    }

    /// Registers (or re-registers) an object with its reference slots.
    pub fn register_object(
        &mut self,
        handle: HandleId,
        generation: HandleGeneration,
        references: Vec<Option<HandleId>>,
        bytes: u64,
    )
        requires
            old(self).wf(),
        ensures
            final(self).wf(),
            final(self)@ == (OldView {
                objects: old(self)@.objects.insert(
                    handle.0,
                    OldMetaView { references: references@, bytes, generation },
                ),
                ..old(self)@
            }),
    {
        let ghost refs = references@;
        self.objects.insert(handle.0, OldObjectMeta { references, bytes, generation });
        proof {
            assert(self@.objects =~= old(self)@.objects.insert(
                handle.0,
                OldMetaView { references: refs, bytes, generation },
            ));
        }
    }

    /// One step of the old mark: at most `max(work_budget, 1)` pending
    /// handles are taken and marked, old objects among them counted and
    /// scanned. Outside the concurrent mark phase nothing happens. Returns
    /// whether handles are left to scan.
    pub fn concurrent_mark_step(&mut self, work_budget: usize) -> (r: bool)
        requires
            old(self).wf(),
            old(self)@.phase == OldPhase::ConcurrentMark ==> old_mark_fits(old(self)@, at_least_one_turn(work_budget)),
        ensures
            final(self).wf(),
            old(self)@.phase != OldPhase::ConcurrentMark ==> final(self)@ == old(self)@ && !r,
            old(self)@.phase == OldPhase::ConcurrentMark ==> final(self)@ == old_after_mark(
                old(self)@,
                at_least_one_turn(work_budget),
            ) && r == (final(self)@.pending.len() > 0),
    {
        if self.phase != OldPhase::ConcurrentMark {
            return false;
        }
        let ghost s0 = self@;
        let budget: usize = if work_budget > 1 {
            work_budget
        } else {
            1
        };
        let ghost c0 = old_cursor(s0);
        let mut t: usize = 0;
        proof {
            assert(old_mark_run(s0.objects, c0, 0) == c0);
            lemma_old_run_bytes_grow(s0.objects, c0, budget as nat);
        }
        while t < budget
            invariant_except_break
                t <= budget,
                self.wf(),
                budget as nat == at_least_one_turn(work_budget),
                old_mark_fits(s0, budget as nat),
                c0 == old_cursor(s0),
                self@ == old_after_mark(s0, t as nat),
                self.report.marked == s0.report.marked + old_mark_run(s0.objects, c0, t as nat).marked_old,
                self.report.old_live_bytes == s0.report.old_live_bytes + old_mark_run(s0.objects, c0, t as nat).bytes,
                self.report.mark_work_bytes == s0.report.mark_work_bytes + old_mark_run(s0.objects, c0, t as nat).bytes,
            ensures
                self.wf(),
                self@ == old_after_mark(s0, budget as nat),
            decreases budget - t,
        {
            let ghost cur = old_mark_run(s0.objects, c0, t as nat);
            proof {
                assert(old_mark_run(s0.objects, c0, (t + 1) as nat) == old_mark_one(s0.objects, cur));
                lemma_old_run_monotone(s0.objects, c0, (t + 1) as nat, budget as nat);
                lemma_old_run_bytes_grow(s0.objects, c0, t as nat);
                assert(self.pending@ == cur.pending);
            }
            let popped = self.pending.pop_front();
            let h = match popped {
                None => {
                    proof {
                        lemma_old_run_idle(s0.objects, c0, t as nat, budget as nat);
                    }
                    break;
                },
                Some(h) => h,
            };
            proof {
                assert(self@.pending =~= cur.pending.drop_first());
            }
            let ghost marked_before = self.marked@;
            if !self.marked.insert(h) {
                proof {
                    assert(self.marked@ =~= marked_before);
                }
                t += 1;
                continue;
            }
            let is_old = match self.objects.get(&h) {
                None => false,
                Some(meta) => match meta.generation {
                    HandleGeneration::Old => true,
                    HandleGeneration::Young => false,
                },
            };
            if !is_old {
                t += 1;
                continue;
            }
            match self.objects.get(&h) {
                None => {},
                Some(meta) => {
                    proof {
                        assert(meta@ == s0.objects[h]);
                        assert(self.marked@ == marked_before.insert(h));
                        assert(self.marked@.len() == marked_before.len() + 1);
                        assert(vstd::std_specs::btree::spec_btree_set_len(&self.marked) == self.marked@.len());
                    }
                    self.report.marked = self.report.marked + 1;
                    self.report.old_live_bytes = self.report.old_live_bytes + meta.bytes;
                    self.report.mark_work_bytes = self.report.mark_work_bytes + meta.bytes;
                    proof {
                        let nxt = old_mark_run(s0.objects, c0, (t + 1) as nat);
                        assert(is_old_object(s0.objects, h));
                        assert(cur.marked == marked_before);
                        assert(nxt.marked == self.marked@);
                        assert(nxt.marked_old == cur.marked_old + 1);
                        assert(nxt.bytes == cur.bytes + s0.objects[h].bytes);
                    }
                    let ghost base = self@.pending;
                    let ghost rep = self.report;
                    let mut i: usize = 0;
                    while i < meta.references.len()
                        invariant
                            self.wf(),
                            i <= meta.references@.len(),
                            meta@ == s0.objects[h],
                            self.report == rep,
                            self@.marked == marked_before.insert(h),
                            self@.pending == base + unmarked_refs(meta.references@.take(i as int), self@.marked),
                            self@ == (OldView { pending: self@.pending, ..old_after_mark(s0, (t + 1) as nat) }),
                        decreases meta.references@.len() - i,
                    {
                        proof {
                            assert(meta.references@.take(i + 1).drop_last() =~= meta.references@.take(i as int));
                        }
                        match meta.references[i] {
                            Some(r) => {
                                if !self.marked.contains(&r.0) {
                                    self.pending.push_back(r.0);
                                }
                            },
                            None => {},
                        }
                        i += 1;
                    }
                    proof {
                        assert(meta.references@.take(meta.references@.len() as int) =~= meta.references@);
                    }
                },
            }
            t += 1;
        }
        self.pending.len() > 0
    }

    /// The pause that ends an old mark: a residual step of 16 turns; when
    /// nothing is left to scan the mark is over and relocation-set
    /// selection may begin. Returns the pause's length.
    pub fn pause_mark_end(&mut self) -> (r: Duration)
        requires
            old(self).wf(),
            old(self)@.phase == OldPhase::ConcurrentMark ==> old_mark_fits(old(self)@, 16),
        ensures
            final(self).wf(),
            ({
                let m = if old(self)@.phase == OldPhase::ConcurrentMark {
                    old_after_mark(old(self)@, 16)
                } else {
                    old(self)@
                };
                let done = if m.pending.len() == 0 {
                    OldView {
                        phase: OldPhase::ConcurrentSelectRelocationSet,
                        epoch: m.epoch.end_old_spec(),
                        active: false,
                        ..m
                    }
                } else {
                    m
                };
                final(self)@ == (OldView {
                    report: OldReport { pause_ns_max: final(self)@.report.pause_ns_max, ..done.report },
                    ..done
                })
            }),
            final(self)@.report.pause_ns_max >= old(self)@.report.pause_ns_max,
    {
        let started = clock_now();
        let _ = self.concurrent_mark_step(16);
        if self.pending.len() == 0 {
            self.phase = OldPhase::ConcurrentSelectRelocationSet;
            self.epoch = self.epoch.end_old();
            self.active = false;
        }
        let elapsed = elapsed_since(&started);
        let ns = duration_nanos(&elapsed) as u64;
        if ns > self.report.pause_ns_max {
            self.report.pause_ns_max = ns;
        }
        elapsed
    }

    /// Called at each young mark start. When no old mark is under way and
    /// `start_if_idle` holds, an old mark starts: the old color flips, the
    /// young colors follow `young`'s epoch, and the roots and then every
    /// old object are queued. When one is under way, it spans one more young
    /// cycle and absorbs the promotion frontier. Either way the roots that
    /// point into the old generation are then queued again and counted.
    pub fn coordinate_from_young_mark_start(&mut self, young: &YoungController, roots: &[u32], start_if_idle: bool)
        requires
            old(self).wf(),
            old(self)@.active ==> old(self)@.report.young_cycles_spanned < usize::MAX,
            old(self)@.active ==> old(self)@.report.promotion_frontier + old(self)@.promotion_frontier.len()
                <= usize::MAX,
            old(self)@.active ==> old(self)@.report.young_to_old_roots + old_roots(old(self)@.objects, roots@).len()
                <= usize::MAX,
        ensures
            final(self).wf(),
            !old(self)@.active && !start_if_idle ==> final(self)@ == old(self)@,
            !old(self)@.active && start_if_idle ==> exists|seed: Seq<u32>|
                lists_old_objects(old(self)@.objects, seed) && final(self)@ == old_roots_queued(
                    old_mark_started(old(self)@, young@.epoch, roots@, seed),
                    roots@,
                ),
            old(self)@.active ==> final(self)@ == old_roots_queued(old_mark_absorbed(old(self)@), roots@),
    {
        let ghost s0 = self@;
        let ghost mid: OldView;
        if !self.active {
            if !start_if_idle {
                return;
            }
            let young_epoch = young.epoch();
            let flipped = self.epoch.flip_old();
            self.epoch = BarrierEpoch {
                young_mark: young_epoch.young_mark,
                remembered: young_epoch.remembered,
                young_marking: young_epoch.young_marking,
                ..flipped
            };
            self.active = true;
            self.mark_epoch = self.mark_epoch.wrapping_add(1);
            self.report = empty_old_report();
            self.marked.clear();
            self.pending.clear();
            let ghost pre = self@;
            proof {
                assert(roots@.take(0) =~= Seq::<u32>::empty());
            }
            let mut i: usize = 0;
            while i < roots.len()
                invariant
                    self.wf(),
                    i <= roots@.len(),
                    self@ == (OldView { pending: roots@.take(i as int), ..pre }),
                decreases roots@.len() - i,
            {
                proof {
                    assert(roots@.take(i + 1) =~= roots@.take(i as int).push(roots@[i as int]));
                }
                self.pending.push_back(roots[i]);
                i += 1;
            }
            proof {
                assert(roots@.take(roots@.len() as int) =~= roots@);
            }
            let keys = sorted_keys(&self.objects);
            let ghost mut seed: Seq<u32> = Seq::empty();
            let mut k: usize = 0;
            while k < keys.len()
                invariant
                    self.wf(),
                    k <= keys@.len(),
                    keys@.to_set() == s0.objects.dom(),
                    increasing_u32(keys@),
                    increasing_u32(seed),
                    forall|j: int| 0 <= j < seed.len() ==> keys@.take(k as int).contains(#[trigger] seed[j]),
                    seed.to_set() == keys@.take(k as int).to_set().filter(|h: u32| is_old_object(s0.objects, h)),
                    self@ == (OldView { pending: roots@ + seed, ..pre }),
                    pre.objects == s0.objects,
                decreases keys@.len() - k,
            {
                let h = keys[k];
                proof {
                    assert(keys@.take(k + 1) =~= keys@.take(k as int).push(h));
                    assert forall|j: int| 0 <= j < seed.len() implies seed[j] < h by {
                        let q = choose|q: int| 0 <= q < k && keys@.take(k as int)[q] == seed[j];
                    }
                    keys@.take(k as int).lemma_push_to_set_commute(h);
                }
                let old_object = match self.objects.get(&h) {
                    Some(meta) => match meta.generation {
                        HandleGeneration::Old => true,
                        HandleGeneration::Young => false,
                    },
                    None => false,
                };
                let ghost before = seed;
                if old_object {
                    self.pending.push_back(h);
                    proof {
                        seed = seed.push(h);
                        before.lemma_push_to_set_commute(h);
                        assert((roots@ + before).push(h) =~= roots@ + seed);
                    }
                }
                proof {
                    assert(old_object == is_old_object(s0.objects, h));
                    let after = keys@.take(k + 1);
                    assert(seed.to_set() =~= after.to_set().filter(|g: u32| is_old_object(s0.objects, g)));
                    assert forall|j: int| 0 <= j < seed.len() implies after.contains(#[trigger] seed[j]) by {
                        if j < before.len() {
                            let q = choose|q: int| 0 <= q < k && keys@.take(k as int)[q] == seed[j];
                            assert(after[q] == seed[j]);
                        } else {
                            assert(after[k as int] == h);
                        }
                    }
                }
                k += 1;
            }
            proof {
                assert(keys@.take(keys@.len() as int) =~= keys@);
                assert(seed.to_set() =~= s0.objects.dom().filter(|h: u32| is_old_object(s0.objects, h)));
                assert(lists_old_objects(s0.objects, seed));
            }
            self.phase = OldPhase::ConcurrentMark;
            proof {
                mid = self@;
                assert(mid == old_mark_started(s0, young@.epoch, roots@, seed));
            }
        } else {
            self.young_cycles = self.young_cycles.wrapping_add(1);
            self.report.young_cycles_spanned = self.report.young_cycles_spanned + 1;
            let mut frontier: Vec<HandleId> = Vec::new();
            std::mem::swap(&mut frontier, &mut self.promotion_frontier);
            self.report.promotion_frontier = self.report.promotion_frontier + frontier.len();
            let ghost pre = self@;
            let mut i: usize = 0;
            while i < frontier.len()
                invariant
                    self.wf(),
                    i <= frontier@.len(),
                    self@ == (OldView { pending: pre.pending + raw_ids(frontier@.take(i as int)), ..pre }),
                decreases frontier@.len() - i,
            {
                proof {
                    assert(raw_ids(frontier@.take(i + 1)) =~= raw_ids(frontier@.take(i as int)).push(
                        frontier@[i as int].0,
                    ));
                }
                self.pending.push_back(frontier[i].0);
                i += 1;
            }
            proof {
                assert(frontier@.take(frontier@.len() as int) =~= frontier@);
                mid = self@;
                assert(mid == old_mark_absorbed(s0));
            }
        }
        let ghost pre = self@;
        let mut young_to_old: usize = 0;
        let mut i: usize = 0;
        proof {
            assert(roots@.take(0).filter(|h: u32| is_old_object(pre.objects, h)) =~= Seq::<u32>::empty()) by {
                reveal(Seq::filter);
            }
            assert(pre.pending + Seq::<u32>::empty() =~= pre.pending);
        }
        while i < roots.len()
            invariant
                self.wf(),
                i <= roots@.len(),
                young_to_old == old_roots(pre.objects, roots@.take(i as int)).len(),
                self@ == (OldView { pending: pre.pending + old_roots(pre.objects, roots@.take(i as int)), ..pre }),
            decreases roots@.len() - i,
        {
            let h = roots[i];
            proof {
                assert(roots@.take(i + 1) =~= roots@.take(i as int).push(h));
                roots@.take(i as int).lemma_filter_push(h, |g: u32| is_old_object(pre.objects, g));
            }
            let old_root = match self.objects.get(&h) {
                Some(meta) => match meta.generation {
                    HandleGeneration::Old => true,
                    HandleGeneration::Young => false,
                },
                None => false,
            };
            if old_root {
                proof {
                    roots@.take(i + 1).lemma_filter_len(|g: u32| is_old_object(pre.objects, g));
                }
                young_to_old = young_to_old + 1;
                self.pending.push_back(h);
                proof {
                    assert(pre.pending + old_roots(pre.objects, roots@.take(i + 1)) =~= (pre.pending + old_roots(
                        pre.objects,
                        roots@.take(i as int),
                    )).push(h));
                }
            }
            i += 1;
        }
        proof {
            assert(roots@.take(roots@.len() as int) =~= roots@);
            roots@.lemma_filter_len(|g: u32| is_old_object(pre.objects, g));
        }
        self.report.young_to_old_roots = self.report.young_to_old_roots + young_to_old;
    }

    /// Publishes an object a young cycle promoted: while an old mark is
    /// under way it joins the promotion frontier and is now old.
    pub fn note_promoted(&mut self, handle: HandleId)
        requires
            old(self).wf(),
        ensures
            final(self).wf(),
            final(self)@ == (if old(self)@.active {
                OldView {
                    promotion_frontier: old(self)@.promotion_frontier.push(handle),
                    objects: if old(self)@.objects.contains_key(handle.0) {
                        old(self)@.objects.insert(
                            handle.0,
                            OldMetaView { generation: HandleGeneration::Old, ..old(self)@.objects[handle.0] },
                        )
                    } else {
                        old(self)@.objects
                    },
                    ..old(self)@
                }
            } else {
                old(self)@
            }),
    {
        if self.active {
            self.promotion_frontier.push(handle);
            match self.objects.remove(&handle.0) {
                None => {
                    proof {
                        assert(self.objects@ =~= old(self).objects@);
                    }
                },
                Some(meta) => {
                    let mut meta = meta;
                    proof {
                        assert(meta@ == old(self)@.objects[handle.0]);
                    }
                    meta.generation = HandleGeneration::Old;
                    let ghost promoted = meta@;
                    self.objects.insert(handle.0, meta);
                    proof {
                        assert(self@.objects =~= old(self)@.objects.insert(handle.0, promoted));
                    }
                },
            }
        }
    }
}

} // verus!
