//! Host-side weak references, finalizers and side tables across a
//! concurrent cycle: cleanup against the cycle's live set happens before
//! dead handles are quarantined, and finalizer callbacks run only once the
//! cycle is published, each finalizer at most once.

use vstd::prelude::*;

use std::collections::{BTreeSet, VecDeque};

use crate::generations::{FinalizerEntry, HostRootsReport, WeakRefEntry, WeakState};
use crate::handle::HandleId;

verus! {

broadcast use vstd::std_specs::btree::group_btree_axioms;

/// How many entries are `true`.
pub open spec fn count_true(s: Seq<bool>) -> nat
    decreases s.len(),
{
    if s.len() == 0 {
        0
    } else {
        count_true(s.drop_last()) + if s.last() {
            1nat
        } else {
            0nat
        }
    }
}

proof fn lemma_count_true_bound(s: Seq<bool>)
    ensures
        count_true(s) <= s.len(),
    decreases s.len(),
{
    if s.len() > 0 {
        lemma_count_true_bound(s.drop_last());
    }
}

proof fn lemma_count_true_set(s: Seq<bool>, i: int)
    requires
        0 <= i < s.len(),
        !s[i],
    ensures
        count_true(s.update(i, true)) == count_true(s) + 1,
    decreases s.len(),
{
    let t = s.update(i, true);
    if i < s.len() - 1 {
        assert(t.drop_last() =~= s.drop_last().update(i, true));
        lemma_count_true_set(s.drop_last(), i);
    } else {
        assert(t.drop_last() =~= s.drop_last());
    }
}

proof fn lemma_count_true_push(s: Seq<bool>, b: bool)
    ensures
        count_true(s.push(b)) == count_true(s) + if b {
            1nat
        } else {
            0nat
        },
{
    assert(s.push(b).drop_last() =~= s);
}

/// Which weak references are cleared.
pub open spec fn cleared_flags(w: Seq<WeakRefEntry>) -> Seq<bool> {
    w.map_values(|e: WeakRefEntry| e.state == WeakState::Cleared)
}

/// Which finalizers are scheduled.
pub open spec fn scheduled_flags(f: Seq<FinalizerEntry>) -> Seq<bool> {
    f.map_values(|e: FinalizerEntry| e.scheduled)
}

/// Which finalizers ran.
pub open spec fn ran_flags(f: Seq<FinalizerEntry>) -> Seq<bool> {
    f.map_values(|e: FinalizerEntry| e.ran)
}

/// A side-table value and the handle it refers to.
#[derive(Clone, Copy, Debug, PartialEq, Eq, Structural)]
pub struct SideTableValue {
    pub value: i64,
    pub handle: HandleId,
}

/// The entries and the report of the host roots, as one cycle updates them.
struct HostRootsState {
    weak_refs: Vec<WeakRefEntry>,
    finalizers: Vec<FinalizerEntry>,
    side_table_values: Vec<SideTableValue>,
    pending_callbacks: VecDeque<u64>,
    report: HostRootsReport,
    cycle_published: bool,
}

pub struct HostRootsView {
    pub weak_refs: Seq<WeakRefEntry>,
    pub finalizers: Seq<FinalizerEntry>,
    pub side_table_values: Seq<SideTableValue>,
    /// Ids of finalizers scheduled and waiting for the cycle to publish.
    pub pending_callbacks: Seq<u64>,
    pub report: HostRootsReport,
    pub cycle_published: bool,
}

impl View for HostRootsState {
    type V = HostRootsView;

    closed spec fn view(&self) -> HostRootsView {
        HostRootsView {
            weak_refs: self.weak_refs@,
            finalizers: self.finalizers@,
            side_table_values: self.side_table_values@,
            pending_callbacks: self.pending_callbacks@,
            report: self.report,
            cycle_published: self.cycle_published,
        }
    }
}

/// The host roots' invariant: the report's counters count the cleared weak
/// references, the scheduled finalizers and the finalizers that ran.
pub open spec fn host_roots_inv(s: HostRootsView) -> bool {
    &&& s.report.weak_cleared == count_true(cleared_flags(s.weak_refs))
    &&& s.report.finalizers_scheduled == count_true(scheduled_flags(s.finalizers))
    &&& s.report.finalizers_ran == count_true(ran_flags(s.finalizers))
}

/// Whether a side-table value survives cleanup: its handle is live or a
/// conditional root.
pub open spec fn side_value_kept(live: Set<u32>, conditional: Set<u32>, v: SideTableValue) -> bool {
    live.contains(v.handle.0) || conditional.contains(v.handle.0)
}

/// Whether cleanup clears a weak reference: it is live and its target is not.
pub open spec fn weak_to_clear(live: Set<u32>, e: WeakRefEntry) -> bool {
    e.state == WeakState::Live && !live.contains(e.target.0)
}

/// Whether cleanup schedules a finalizer: it is not yet scheduled and its
/// target is dead.
pub open spec fn finalizer_to_schedule(live: Set<u32>, e: FinalizerEntry) -> bool {
    !e.scheduled && !live.contains(e.target.0)
}

/// `cleanup_before_quarantine(live, conditional)` on `s`.
pub open spec fn spec_cleanup(s: HostRootsView, live: Set<u32>, conditional: Set<u32>) -> HostRootsView {
    let kept = s.side_table_values.filter(|v: SideTableValue| side_value_kept(live, conditional, v));
    let weak = s.weak_refs.map_values(
        |e: WeakRefEntry|
            if weak_to_clear(live, e) {
                WeakRefEntry { state: WeakState::Cleared, ..e }
            } else {
                e
            },
    );
    let fins = s.finalizers.map_values(
        |e: FinalizerEntry|
            if finalizer_to_schedule(live, e) {
                FinalizerEntry { scheduled: true, ..e }
            } else {
                e
            },
    );
    let scheduled = s.finalizers.filter(|e: FinalizerEntry| finalizer_to_schedule(live, e)).map_values(
        |e: FinalizerEntry| e.id,
    );
    HostRootsView {
        weak_refs: weak,
        finalizers: fins,
        side_table_values: kept,
        pending_callbacks: s.pending_callbacks + scheduled,
        report: HostRootsReport {
            weak_cleared: count_true(cleared_flags(weak)) as usize,
            finalizers_scheduled: count_true(scheduled_flags(fins)) as usize,
            side_table_filtered: (s.report.side_table_filtered + (s.side_table_values.len() - kept.len())) as usize,
            cleanup_before_quarantine: true,
            ..s.report
        },
        ..s
    }
}

/// The targets of the weak references cleanup clears, in order.
pub open spec fn cleared_targets(s: HostRootsView, live: Set<u32>) -> Seq<HandleId> {
    s.weak_refs.filter(|e: WeakRefEntry| weak_to_clear(live, e)).map_values(|e: WeakRefEntry| e.target)
}

/// The index of the first finalizer registered with `id`.
pub open spec fn first_finalizer(f: Seq<FinalizerEntry>, id: u64) -> Option<int> {
    if exists|i: int| 0 <= i < f.len() && f[i].id == id && forall|j: int| 0 <= j < i ==> f[j].id != id {
        Some(choose|i: int| 0 <= i < f.len() && f[i].id == id && forall|j: int| 0 <= j < i ==> f[j].id != id)
    } else {
        None
    }
}

/// Running the callback of finalizer `id`: the first finalizer with that id
/// runs unless it already ran.
pub open spec fn run_callback(f: Seq<FinalizerEntry>, id: u64) -> Seq<FinalizerEntry> {
    match first_finalizer(f, id) {
        Some(i) => if f[i].ran {
            f
        } else {
            f.update(i, FinalizerEntry { ran: true, ..f[i] })
        },
        None => f,
    }
}

/// Running the callbacks of `queue`, first to last.
pub open spec fn run_callbacks(f: Seq<FinalizerEntry>, queue: Seq<u64>) -> Seq<FinalizerEntry>
    decreases queue.len(),
{
    if queue.len() == 0 {
        f
    } else {
        run_callbacks(run_callback(f, queue[0]), queue.drop_first())
    }
}

proof fn lemma_first_finalizer(f: Seq<FinalizerEntry>, id: u64, i: int)
    requires
        0 <= i < f.len(),
        f[i].id == id,
        forall|j: int| 0 <= j < i ==> f[j].id != id,
    ensures
        first_finalizer(f, id) == Some(i),
{
    let k = choose|k: int| 0 <= k < f.len() && f[k].id == id && forall|j: int| 0 <= j < k ==> f[j].id != id;
    if k < i {
        assert(f[k].id != id);
    }
    if i < k {
        assert(f[i].id != id);
    }
}

proof fn lemma_first_finalizer_none(f: Seq<FinalizerEntry>, id: u64)
    requires
        forall|j: int| 0 <= j < f.len() ==> f[j].id != id,
    ensures
        first_finalizer(f, id) is None,
{
}

/// Running a finalizer's callback a second time changes nothing: each
/// finalizer runs at most once.
pub proof fn law_finalizer_runs_at_most_once(f: Seq<FinalizerEntry>, id: u64)
    ensures
        run_callback(run_callback(f, id), id) == run_callback(f, id),
{
    let g = run_callback(f, id);
    match first_finalizer(f, id) {
        Some(i) => {
            assert(0 <= i < f.len() && f[i].id == id && forall|j: int| 0 <= j < i ==> f[j].id != id);
            if !f[i].ran {
                assert(g[i].id == id);
                assert forall|j: int| 0 <= j < i implies g[j].id != id by {
                    assert(g[j] == f[j]);
                }
                lemma_first_finalizer(g, id, i);
            }
        },
        None => {},
    }
}

/// Cleanup runs no callback: which finalizers ran is unchanged until the
/// cycle is published.
pub proof fn law_cleanup_runs_no_callback(s: HostRootsView, live: Set<u32>, conditional: Set<u32>)
    ensures
        ran_flags(spec_cleanup(s, live, conditional).finalizers) == ran_flags(s.finalizers),
{
    assert(ran_flags(spec_cleanup(s, live, conditional).finalizers) =~= ran_flags(s.finalizers));
}

/// The handles cleanup hands on for quarantine are dead: no cleared weak
/// reference names a live handle.
pub proof fn law_cleared_targets_are_dead(s: HostRootsView, live: Set<u32>, k: int)
    requires
        0 <= k < cleared_targets(s, live).len(),
    ensures
        !live.contains(cleared_targets(s, live)[k].0),
{
    let p = |e: WeakRefEntry| weak_to_clear(live, e);
    s.weak_refs.lemma_filter_pred(p, k);
}

impl HostRootsState {
    fn new() -> (r: HostRootsState)
        ensures
            host_roots_inv(r@),
            r@.weak_refs == Seq::<WeakRefEntry>::empty(),
            r@.finalizers == Seq::<FinalizerEntry>::empty(),
            r@.side_table_values == Seq::<SideTableValue>::empty(),
            r@.pending_callbacks == Seq::<u64>::empty(),
            r@.report == (HostRootsReport {
                weak_cleared: 0,
                finalizers_scheduled: 0,
                finalizers_ran: 0,
                side_table_filtered: 0,
                cleanup_before_quarantine: false,
                callbacks_after_publish: false,
            }),
            !r@.cycle_published,
    {
        let r = HostRootsState {
            weak_refs: Vec::new(),
            finalizers: Vec::new(),
            side_table_values: Vec::new(),
            pending_callbacks: VecDeque::new(),
            report: HostRootsReport {
                weak_cleared: 0,
                finalizers_scheduled: 0,
                finalizers_ran: 0,
                side_table_filtered: 0,
                cleanup_before_quarantine: false,
                callbacks_after_publish: false,
            },
            cycle_published: false,
        };
        proof {
            assert(cleared_flags(r@.weak_refs) =~= Seq::<bool>::empty());
            assert(scheduled_flags(r@.finalizers) =~= Seq::<bool>::empty());
            assert(ran_flags(r@.finalizers) =~= Seq::<bool>::empty());
        }
        r
    }

    fn report(&self) -> (r: HostRootsReport)
        ensures
            r == self@.report,
    {
        self.report
    }

    fn register_weak(&mut self, id: u64, target: HandleId)
        requires
            host_roots_inv(old(self)@),
        ensures
            host_roots_inv(final(self)@),
            final(self)@ == (HostRootsView {
                weak_refs: old(self)@.weak_refs.push(WeakRefEntry { id, target, state: WeakState::Live }),
                ..old(self)@
            }),
    {
        let ghost w0 = self.weak_refs@;
        self.weak_refs.push(WeakRefEntry { id, target, state: WeakState::Live });
        proof {
            assert(cleared_flags(self.weak_refs@) =~= cleared_flags(w0).push(false));
            lemma_count_true_push(cleared_flags(w0), false);
        }
    }

    fn register_finalizer(&mut self, id: u64, target: HandleId, held: u64)
        requires
            host_roots_inv(old(self)@),
        ensures
            host_roots_inv(final(self)@),
            final(self)@ == (HostRootsView {
                finalizers: old(self)@.finalizers.push(
                    FinalizerEntry { id, target, held, scheduled: false, ran: false },
                ),
                ..old(self)@
            }),
    {
        let ghost f0 = self.finalizers@;
        self.finalizers.push(FinalizerEntry { id, target, held, scheduled: false, ran: false });
        proof {
            assert(scheduled_flags(self.finalizers@) =~= scheduled_flags(f0).push(false));
            assert(ran_flags(self.finalizers@) =~= ran_flags(f0).push(false));
            lemma_count_true_push(scheduled_flags(f0), false);
            lemma_count_true_push(ran_flags(f0), false);
        }
    }

    fn push_side_table_value(&mut self, value: i64, handle: HandleId)
        requires
            host_roots_inv(old(self)@),
        ensures
            host_roots_inv(final(self)@),
            final(self)@ == (HostRootsView {
                side_table_values: old(self)@.side_table_values.push(SideTableValue { value, handle }),
                ..old(self)@
            }),
    {
        self.side_table_values.push(SideTableValue { value, handle });
    }

    fn weak_state(&self, id: u64) -> (r: Option<WeakState>)
        ensures
            r == (if exists|i: int| 0 <= i < self@.weak_refs.len() && self@.weak_refs[i].id == id {
                Some(
                    self@.weak_refs[choose|i: int|
                        0 <= i < self@.weak_refs.len() && self@.weak_refs[i].id == id && forall|j: int|
                            0 <= j < i ==> self@.weak_refs[j].id != id].state,
                )
            } else {
                None
            }),
    {
        let mut i: usize = 0;
        while i < self.weak_refs.len()
            invariant
                i <= self.weak_refs@.len(),
                forall|j: int| 0 <= j < i ==> self.weak_refs@[j].id != id,
            decreases self.weak_refs@.len() - i,
        {
            if self.weak_refs[i].id == id {
                proof {
                    let w = self.weak_refs@;
                    let k = choose|k: int| 0 <= k < w.len() && w[k].id == id && forall|j: int| 0 <= j < k ==> w[j].id != id;
                    if k < i {
                        assert(w[k].id != id);
                    }
                    if i < k {
                        assert(w[i as int].id != id);
                    }
                }
                return Some(self.weak_refs[i].state);
            }
            i += 1;
        }
        None
    }

    fn finalizer_ran_once(&self, id: u64) -> (r: bool)
        ensures
            r == (match first_finalizer(self@.finalizers, id) {
                Some(i) => self@.finalizers[i].ran && self@.finalizers[i].scheduled,
                None => false,
            }),
    {
        match self.find_finalizer(id) {
            Some(i) => self.finalizers[i].ran && self.finalizers[i].scheduled,
            None => false,
        }
    }

    fn cleanup_before_quarantine(&mut self, live: &BTreeSet<u32>, conditional_roots: &BTreeSet<u32>) -> (r: Vec<
        HandleId,
    >)
        requires
            host_roots_inv(old(self)@),
            old(self)@.report.side_table_filtered + (old(self)@.side_table_values.len()
                - old(self)@.side_table_values.filter(
                |v: SideTableValue| side_value_kept(live@, conditional_roots@, v),
            ).len()) <= usize::MAX,
        ensures
            host_roots_inv(final(self)@),
            final(self)@ == spec_cleanup(old(self)@, live@, conditional_roots@),
            r@ == cleared_targets(old(self)@, live@),
    {
        let ghost s0 = self@;
        let ghost keep = |v: SideTableValue| side_value_kept(live@, conditional_roots@, v);
        let ghost clear = |e: WeakRefEntry| weak_to_clear(live@, e);
        let ghost sched = |e: FinalizerEntry| finalizer_to_schedule(live@, e);
        self.report.cleanup_before_quarantine = true;

        let mut kept: Vec<SideTableValue> = Vec::new();
        let mut i: usize = 0;
        proof {
            assert(s0.side_table_values.take(0).filter(keep) =~= Seq::<SideTableValue>::empty()) by {
                reveal(Seq::filter);
            }
        }
        while i < self.side_table_values.len()
            invariant
                self@ == (HostRootsView {
                    report: HostRootsReport { cleanup_before_quarantine: true, ..s0.report },
                    ..s0
                }),
                i <= s0.side_table_values.len(),
                kept@ == s0.side_table_values.take(i as int).filter(keep),
                keep == (|v: SideTableValue| side_value_kept(live@, conditional_roots@, v)),
            decreases s0.side_table_values.len() - i,
        {
            let v = self.side_table_values[i];
            proof {
                assert(s0.side_table_values.take(i + 1) =~= s0.side_table_values.take(i as int).push(v));
                s0.side_table_values.take(i as int).lemma_filter_push(v, keep);
            }
            if live.contains(&v.handle.0) || conditional_roots.contains(&v.handle.0) {
                kept.push(v);
            }
            i += 1;
        }
        proof {
            assert(s0.side_table_values.take(s0.side_table_values.len() as int) =~= s0.side_table_values);
            s0.side_table_values.lemma_filter_len(keep);
        }
        let filtered = self.side_table_values.len() - kept.len();
        self.side_table_values = kept;
        self.report.side_table_filtered = self.report.side_table_filtered + filtered;

        let ghost s1 = self@;
        let mut cleared: Vec<HandleId> = Vec::new();
        let mut i: usize = 0;
        proof {
            assert(s0.weak_refs.take(0).filter(clear) =~= Seq::<WeakRefEntry>::empty()) by {
                reveal(Seq::filter);
            }
            assert(s0.weak_refs.take(0).filter(clear).map_values(|e: WeakRefEntry| e.target) =~= Seq::<
                HandleId,
            >::empty());
        }
        while i < self.weak_refs.len()
            invariant
                self@ == (HostRootsView {
                    weak_refs: self@.weak_refs,
                    report: HostRootsReport { weak_cleared: self@.report.weak_cleared, ..s1.report },
                    ..s1
                }),
                s1.weak_refs == s0.weak_refs,
                i <= s0.weak_refs.len(),
                self.weak_refs@.len() == s0.weak_refs.len(),
                forall|j: int|
                    0 <= j < i ==> self.weak_refs@[j] == (if weak_to_clear(live@, s0.weak_refs[j]) {
                        WeakRefEntry { state: WeakState::Cleared, ..s0.weak_refs[j] }
                    } else {
                        s0.weak_refs[j]
                    }),
                forall|j: int| i <= j < s0.weak_refs.len() ==> self.weak_refs@[j] == s0.weak_refs[j],
                self.report.weak_cleared == count_true(cleared_flags(self.weak_refs@)),
                cleared@ == s0.weak_refs.take(i as int).filter(clear).map_values(|e: WeakRefEntry| e.target),
                clear == (|e: WeakRefEntry| weak_to_clear(live@, e)),
            decreases s0.weak_refs.len() - i,
        {
            let e = self.weak_refs[i];
            proof {
                assert(s0.weak_refs.take(i + 1) =~= s0.weak_refs.take(i as int).push(e));
                s0.weak_refs.take(i as int).lemma_filter_push(e, clear);
            }
            let dead = match e.state {
                WeakState::Live => !live.contains(&e.target.0),
                WeakState::Cleared => false,
            };
            if dead {
                let ghost w = self.weak_refs@;
                self.weak_refs.set(i, WeakRefEntry { state: WeakState::Cleared, ..e });
                proof {
                    assert(cleared_flags(self.weak_refs@) =~= cleared_flags(w).update(i as int, true));
                    lemma_count_true_set(cleared_flags(w), i as int);
                    lemma_count_true_bound(cleared_flags(self.weak_refs@));
                }
                self.report.weak_cleared = self.report.weak_cleared + 1;
                cleared.push(e.target);
                proof {
                    assert(cleared@ =~= s0.weak_refs.take(i + 1).filter(clear).map_values(
                        |e: WeakRefEntry| e.target,
                    ));
                }
            } else {
                proof {
                    assert(s0.weak_refs.take(i + 1).filter(clear) == s0.weak_refs.take(i as int).filter(clear));
                }
            }
            i += 1;
        }
        proof {
            assert(s0.weak_refs.take(s0.weak_refs.len() as int) =~= s0.weak_refs);
        }

        let ghost s2 = self@;
        let mut i: usize = 0;
        proof {
            assert(s0.finalizers.take(0).filter(sched) =~= Seq::<FinalizerEntry>::empty()) by {
                reveal(Seq::filter);
            }
            assert(s0.pending_callbacks + s0.finalizers.take(0).filter(sched).map_values(|e: FinalizerEntry| e.id)
                =~= s0.pending_callbacks);
        }
        while i < self.finalizers.len()
            invariant
                self@ == (HostRootsView {
                    finalizers: self@.finalizers,
                    pending_callbacks: self@.pending_callbacks,
                    report: HostRootsReport { finalizers_scheduled: self@.report.finalizers_scheduled, ..s2.report },
                    ..s2
                }),
                s2.finalizers == s0.finalizers,
                s2.pending_callbacks == s0.pending_callbacks,
                i <= s0.finalizers.len(),
                self.finalizers@.len() == s0.finalizers.len(),
                forall|j: int|
                    0 <= j < i ==> self.finalizers@[j] == (if finalizer_to_schedule(live@, s0.finalizers[j]) {
                        FinalizerEntry { scheduled: true, ..s0.finalizers[j] }
                    } else {
                        s0.finalizers[j]
                    }),
                forall|j: int| i <= j < s0.finalizers.len() ==> self.finalizers@[j] == s0.finalizers[j],
                self.report.finalizers_scheduled == count_true(scheduled_flags(self.finalizers@)),
                self.report.finalizers_ran == count_true(ran_flags(self.finalizers@)),
                self.pending_callbacks@ == s0.pending_callbacks + s0.finalizers.take(i as int).filter(sched).map_values(
                    |e: FinalizerEntry| e.id,
                ),
                sched == (|e: FinalizerEntry| finalizer_to_schedule(live@, e)),
            decreases s0.finalizers.len() - i,
        {
            let e = self.finalizers[i];
            proof {
                assert(s0.finalizers.take(i + 1) =~= s0.finalizers.take(i as int).push(e));
                s0.finalizers.take(i as int).lemma_filter_push(e, sched);
            }
            if !e.scheduled && !live.contains(&e.target.0) {
                let ghost f = self.finalizers@;
                self.finalizers.set(i, FinalizerEntry { scheduled: true, ..e });
                proof {
                    assert(scheduled_flags(self.finalizers@) =~= scheduled_flags(f).update(i as int, true));
                    assert(ran_flags(self.finalizers@) =~= ran_flags(f));
                    lemma_count_true_set(scheduled_flags(f), i as int);
                    lemma_count_true_bound(scheduled_flags(self.finalizers@));
                }
                self.report.finalizers_scheduled = self.report.finalizers_scheduled + 1;
                self.pending_callbacks.push_back(e.id);
                proof {
                    assert(self.pending_callbacks@ =~= s0.pending_callbacks + s0.finalizers.take(i + 1).filter(
                        sched,
                    ).map_values(|e: FinalizerEntry| e.id));
                }
            } else {
                proof {
                    assert(s0.finalizers.take(i + 1).filter(sched) == s0.finalizers.take(i as int).filter(sched));
                }
            }
            i += 1;
        }
        proof {
            assert(s0.finalizers.take(s0.finalizers.len() as int) =~= s0.finalizers);
            let e = spec_cleanup(s0, live@, conditional_roots@);
            assert(self@.weak_refs =~= e.weak_refs);
            assert(self@.finalizers =~= e.finalizers);
            assert(self@.side_table_values =~= e.side_table_values);
            assert(self@.pending_callbacks =~= e.pending_callbacks);
        }
        cleared
    }

    fn publish_cycle_and_run_callbacks(&mut self)
        requires
            host_roots_inv(old(self)@),
        ensures
            host_roots_inv(final(self)@),
            final(self)@ == (HostRootsView {
                finalizers: run_callbacks(old(self)@.finalizers, old(self)@.pending_callbacks),
                pending_callbacks: Seq::empty(),
                report: HostRootsReport {
                    callbacks_after_publish: true,
                    finalizers_ran: count_true(
                        ran_flags(run_callbacks(old(self)@.finalizers, old(self)@.pending_callbacks)),
                    ) as usize,
                    ..old(self)@.report
                },
                cycle_published: true,
                ..old(self)@
            }),
    {
        let ghost s0 = self@;
        self.cycle_published = true;
        self.report.callbacks_after_publish = true;
        loop
            invariant
                host_roots_inv(self@),
                run_callbacks(self@.finalizers, self@.pending_callbacks) == run_callbacks(
                    s0.finalizers,
                    s0.pending_callbacks,
                ),
                self@ == (HostRootsView {
                    finalizers: self@.finalizers,
                    pending_callbacks: self@.pending_callbacks,
                    report: HostRootsReport {
                        callbacks_after_publish: true,
                        finalizers_ran: self@.report.finalizers_ran,
                        ..s0.report
                    },
                    cycle_published: true,
                    ..s0
                }),
            ensures
                host_roots_inv(self@),
                self@.finalizers == run_callbacks(s0.finalizers, s0.pending_callbacks),
                self@ == (HostRootsView {
                    finalizers: self@.finalizers,
                    pending_callbacks: Seq::empty(),
                    report: HostRootsReport {
                        callbacks_after_publish: true,
                        finalizers_ran: self@.report.finalizers_ran,
                        ..s0.report
                    },
                    cycle_published: true,
                    ..s0
                }),
            decreases self@.pending_callbacks.len(),
        {
            let ghost q = self@.pending_callbacks;
            let popped = self.pending_callbacks.pop_front();
            let id = match popped {
                None => {
                    proof {
                        assert(q.len() == 0);
                        assert(self@.pending_callbacks =~= Seq::<u64>::empty());
                    }
                    break;
                },
                Some(id) => id,
            };
            proof {
                assert(self@.pending_callbacks =~= q.drop_first());
            }
            match self.find_finalizer(id) {
                None => {},
                Some(i) => {
                    if !self.finalizers[i].ran {
                        let total = self.finalizers.len();
                        let entry = self.finalizers[i];
                        let ghost f = self.finalizers@;
                        self.finalizers.set(i, FinalizerEntry { ran: true, ..entry });
                        proof {
                            assert(ran_flags(self.finalizers@) =~= ran_flags(f).update(i as int, true));
                            assert(scheduled_flags(self.finalizers@) =~= scheduled_flags(f));
                            lemma_count_true_set(ran_flags(f), i as int);
                            lemma_count_true_bound(ran_flags(self.finalizers@));
                            assert(ran_flags(self.finalizers@).len() == total);
                        }
                        self.report.finalizers_ran = self.report.finalizers_ran + 1;
                    }
                },
            }
        }
    }

    fn realm_destroy_filter(&self, conditional_roots: &BTreeSet<u32>, live: &BTreeSet<u32>) -> (r: BTreeSet<u32>)
        ensures
            r@ == conditional_roots@.intersect(live@),
    {
        let items = crate::ordered::sorted_u32s(conditional_roots);
        let mut out: BTreeSet<u32> = BTreeSet::new();
        let mut i: usize = 0;
        while i < items.len()
            invariant
                i <= items@.len(),
                items@.to_set() == conditional_roots@,
                out@ == items@.take(i as int).to_set().intersect(live@),
            decreases items@.len() - i,
        {
            let h = items[i];
            proof {
                assert(items@.take(i + 1) =~= items@.take(i as int).push(h));
                items@.take(i as int).lemma_push_to_set_commute(h);
            }
            if live.contains(&h) {
                out.insert(h);
            }
            proof {
                assert(out@ =~= items@.take(i + 1).to_set().intersect(live@));
            }
            i += 1;
        }
        proof {
            assert(items@.take(items@.len() as int) =~= items@);
        }
        out
    }

    fn snapshot_restore_weak_cleanup(&mut self, restored_live: &BTreeSet<u32>)
        requires
            host_roots_inv(old(self)@),
            old(self)@.report.side_table_filtered + (old(self)@.side_table_values.len()
                - old(self)@.side_table_values.filter(
                |v: SideTableValue| side_value_kept(restored_live@, Set::<u32>::empty(), v),
            ).len()) <= usize::MAX,
        ensures
            host_roots_inv(final(self)@),
            ({
                let c = spec_cleanup(old(self)@, restored_live@, Set::empty());
                final(self)@ == (HostRootsView {
                    finalizers: run_callbacks(c.finalizers, c.pending_callbacks),
                    pending_callbacks: Seq::empty(),
                    report: HostRootsReport {
                        callbacks_after_publish: true,
                        finalizers_ran: count_true(ran_flags(run_callbacks(c.finalizers, c.pending_callbacks)))
                            as usize,
                        ..c.report
                    },
                    cycle_published: true,
                    ..c
                })
            }),
    {
        let empty: BTreeSet<u32> = BTreeSet::new();
        let _ = self.cleanup_before_quarantine(restored_live, &empty);
        self.publish_cycle_and_run_callbacks();
    }

    fn find_finalizer(&self, id: u64) -> (r: Option<usize>)
        ensures
            match r {
                Some(i) => first_finalizer(self@.finalizers, id) == Some(i as int),
                None => first_finalizer(self@.finalizers, id) is None,
            },
    {
        let mut i: usize = 0;
        while i < self.finalizers.len()
            invariant
                i <= self.finalizers@.len(),
                forall|j: int| 0 <= j < i ==> self.finalizers@[j].id != id,
            decreases self.finalizers@.len() - i,
        {
            if self.finalizers[i].id == id {
                proof {
                    lemma_first_finalizer(self.finalizers@, id, i as int);
                }
                return Some(i);
            }
            i += 1;
        }
        proof {
            lemma_first_finalizer_none(self.finalizers@, id);
        }
        None
    }
}


/// The host roots of a concurrent cycle. Their report always counts what
/// the entries show: the cleared weak references, the scheduled finalizers
/// and the finalizers that ran.
pub struct ConcurrentHostRoots {
    state: HostRootsState,
}

impl View for ConcurrentHostRoots {
    type V = HostRootsView;

    closed spec fn view(&self) -> HostRootsView {
        self.state@
    }
}

impl ConcurrentHostRoots {
    #[verifier::type_invariant]
    spec fn counts_agree(self) -> bool {
        host_roots_inv(self.state@)
    }

    pub fn new() -> (r: ConcurrentHostRoots)
        ensures
            host_roots_inv(r@),
            r@.weak_refs == Seq::<WeakRefEntry>::empty(),
            r@.finalizers == Seq::<FinalizerEntry>::empty(),
            r@.side_table_values == Seq::<SideTableValue>::empty(),
            r@.pending_callbacks == Seq::<u64>::empty(),
            r@.report == (HostRootsReport {
                weak_cleared: 0,
                finalizers_scheduled: 0,
                finalizers_ran: 0,
                side_table_filtered: 0,
                cleanup_before_quarantine: false,
                callbacks_after_publish: false,
            }),
            !r@.cycle_published,
    {
        ConcurrentHostRoots { state: HostRootsState::new() }
    }

    pub fn report(&self) -> (r: HostRootsReport)
        ensures
            r == self@.report,
    {
        self.state.report()
    }

    /// Registers a live weak reference `id` to `target`.
    pub fn register_weak(&mut self, id: u64, target: HandleId)
        ensures
            host_roots_inv(final(self)@),
            final(self)@ == (HostRootsView {
                weak_refs: old(self)@.weak_refs.push(WeakRefEntry { id, target, state: WeakState::Live }),
                ..old(self)@
            }),
    {
        proof {
            use_type_invariant(&*self);
        }
        let mut st = HostRootsState::new();
        std::mem::swap(&mut st, &mut self.state);
        st.register_weak(id, target);
        self.state = st;
    }

    /// Registers finalizer `id` for `target`, holding `held`.
    pub fn register_finalizer(&mut self, id: u64, target: HandleId, held: u64)
        ensures
            host_roots_inv(final(self)@),
            final(self)@ == (HostRootsView {
                finalizers: old(self)@.finalizers.push(
                    FinalizerEntry { id, target, held, scheduled: false, ran: false },
                ),
                ..old(self)@
            }),
    {
        proof {
            use_type_invariant(&*self);
        }
        let mut st = HostRootsState::new();
        std::mem::swap(&mut st, &mut self.state);
        st.register_finalizer(id, target, held);
        self.state = st;
    }

    /// Adds a side-table value that refers to `handle`; side tables never
    /// keep their objects alive by themselves.
    pub fn push_side_table_value(&mut self, value: i64, handle: HandleId)
        ensures
            host_roots_inv(final(self)@),
            final(self)@ == (HostRootsView {
                side_table_values: old(self)@.side_table_values.push(SideTableValue { value, handle }),
                ..old(self)@
            }),
    {
        proof {
            use_type_invariant(&*self);
        }
        let mut st = HostRootsState::new();
        std::mem::swap(&mut st, &mut self.state);
        st.push_side_table_value(value, handle);
        self.state = st;
    }

    /// The state of the first weak reference registered with `id`.
    pub fn weak_state(&self, id: u64) -> (r: Option<WeakState>)
        ensures
            r == (if exists|i: int| 0 <= i < self@.weak_refs.len() && self@.weak_refs[i].id == id {
                Some(
                    self@.weak_refs[choose|i: int|
                        0 <= i < self@.weak_refs.len() && self@.weak_refs[i].id == id && forall|j: int|
                            0 <= j < i ==> self@.weak_refs[j].id != id].state,
                )
            } else {
                None
            }),
    {
        self.state.weak_state(id)
    }

    /// Whether the first finalizer registered with `id` was scheduled and ran.
    pub fn finalizer_ran_once(&self, id: u64) -> (r: bool)
        ensures
            r == (match first_finalizer(self@.finalizers, id) {
                Some(i) => self@.finalizers[i].ran && self@.finalizers[i].scheduled,
                None => false,
            }),
    {
        self.state.finalizer_ran_once(id)
    }

    /// The cleanup at mark end, against the cycle's `live` handles and the
    /// `conditional_roots` the host keeps: side-table values of dead,
    /// unrooted handles are dropped, weak references to dead targets are
    /// cleared, finalizers of dead targets are scheduled. All of it happens
    /// before dead handles are quarantined; the targets of the cleared weak
    /// references are returned, in order.
    pub fn cleanup_before_quarantine(&mut self, live: &BTreeSet<u32>, conditional_roots: &BTreeSet<u32>) -> (r: Vec<
        HandleId,
    >)
        requires
            old(self)@.report.side_table_filtered + (old(self)@.side_table_values.len()
                - old(self)@.side_table_values.filter(
                |v: SideTableValue| side_value_kept(live@, conditional_roots@, v),
            ).len()) <= usize::MAX,
        ensures
            host_roots_inv(final(self)@),
            final(self)@ == spec_cleanup(old(self)@, live@, conditional_roots@),
            r@ == cleared_targets(old(self)@, live@),
    {
        proof {
            use_type_invariant(&*self);
        }
        let mut st = HostRootsState::new();
        std::mem::swap(&mut st, &mut self.state);
        let cleared = st.cleanup_before_quarantine(live, conditional_roots);
        self.state = st;
        cleared
    }

    /// Publishes the cycle, then runs the scheduled finalizer callbacks in
    /// order; a finalizer whose callback already ran is skipped.
    pub fn publish_cycle_and_run_callbacks(&mut self)
        ensures
            host_roots_inv(final(self)@),
            final(self)@ == (HostRootsView {
                finalizers: run_callbacks(old(self)@.finalizers, old(self)@.pending_callbacks),
                pending_callbacks: Seq::empty(),
                report: HostRootsReport {
                    callbacks_after_publish: true,
                    finalizers_ran: count_true(
                        ran_flags(run_callbacks(old(self)@.finalizers, old(self)@.pending_callbacks)),
                    ) as usize,
                    ..old(self)@.report
                },
                cycle_published: true,
                ..old(self)@
            }),
    {
        proof {
            use_type_invariant(&*self);
        }
        let mut st = HostRootsState::new();
        std::mem::swap(&mut st, &mut self.state);
        st.publish_cycle_and_run_callbacks();
        self.state = st;
    }

    /// The conditional roots that stay roots after a realm is destroyed
    /// while an old mark runs: those still live.
    pub fn realm_destroy_filter(&self, conditional_roots: &BTreeSet<u32>, live: &BTreeSet<u32>) -> (r: BTreeSet<u32>)
        ensures
            r@ == conditional_roots@.intersect(live@),
    {
        self.state.realm_destroy_filter(conditional_roots, live)
    }

    /// The first cycle after a snapshot restore: cleanup against the
    /// restored live set, with no conditional roots, then publish.
    pub fn snapshot_restore_weak_cleanup(&mut self, restored_live: &BTreeSet<u32>)
        requires
            old(self)@.report.side_table_filtered + (old(self)@.side_table_values.len()
                - old(self)@.side_table_values.filter(
                |v: SideTableValue| side_value_kept(restored_live@, Set::<u32>::empty(), v),
            ).len()) <= usize::MAX,
        ensures
            host_roots_inv(final(self)@),
            ({
                let c = spec_cleanup(old(self)@, restored_live@, Set::empty());
                final(self)@ == (HostRootsView {
                    finalizers: run_callbacks(c.finalizers, c.pending_callbacks),
                    pending_callbacks: Seq::empty(),
                    report: HostRootsReport {
                        callbacks_after_publish: true,
                        finalizers_ran: count_true(ran_flags(run_callbacks(c.finalizers, c.pending_callbacks)))
                            as usize,
                        ..c.report
                    },
                    cycle_published: true,
                    ..c
                })
            }),
    {
        proof {
            use_type_invariant(&*self);
        }
        let mut st = HostRootsState::new();
        std::mem::swap(&mut st, &mut self.state);
        st.snapshot_restore_weak_cleanup(restored_live);
        self.state = st;
    }
}

} // verus!
