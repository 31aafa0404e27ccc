//! Relocation descriptors of the concurrent collector: the copy of one
//! object is claimed by exactly one worker and is then marked done.

use vstd::prelude::*;

use std::collections::BTreeMap;
use std::time::Duration;

use crate::barrier::{HeaderField, HeaderFieldKind, HeaderLayout, is_mutable_kind};
use crate::clock::{clock_now, duration_nanos, elapsed_since};
use crate::handle::{ColoredHandleEntry, HandleGeneration, HandleId, HandleState};

verus! {

/// Where a page is in a relocation cycle.
#[derive(Clone, Copy, Debug, PartialEq, Eq, Structural)]
pub enum PageRelocationState {
    Marked,
    RelocationSelected,
    Relocating,
    Relocated,
}

/// Who holds the copy of an object.
#[derive(Clone, Copy, Debug, PartialEq, Eq, Structural)]
pub enum CopyState {
    Idle,
    Owned,
    Done,
}

/// One object to relocate: source, destination, size, and the claim on its
/// copy. The descriptor is shared between workers behind a lock; each
/// method is one atomic step of the claim protocol.
#[derive(Debug)]
pub struct RelocationDescriptor {
    pub handle: HandleId,
    pub source: u64,
    pub destination: u64,
    pub size: u64,
    pub generation: HandleGeneration,
    pub layout: HeaderLayout,
    copy_state: CopyState,
    owner: u64,
    done: bool,
}

/// The claim state of a descriptor.
pub struct ClaimView {
    pub copy_state: CopyState,
    pub owner: u64,
    pub done: bool,
}

pub struct DescriptorView {
    pub handle: HandleId,
    pub source: u64,
    pub destination: u64,
    pub size: u64,
    pub generation: HandleGeneration,
    pub layout: HeaderLayout,
    pub claim: ClaimView,
}

impl View for RelocationDescriptor {
    type V = DescriptorView;

    closed spec fn view(&self) -> DescriptorView {
        DescriptorView {
            handle: self.handle,
            source: self.source,
            destination: self.destination,
            size: self.size,
            generation: self.generation,
            layout: self.layout,
            claim: ClaimView { copy_state: self.copy_state, owner: self.owner, done: self.done },
        }
    }
}

impl RelocationDescriptor {
    /// A descriptor whose copy nobody has claimed.
    pub fn new(
        handle: HandleId,
        source: u64,
        destination: u64,
        size: u64,
        generation: HandleGeneration,
        layout: HeaderLayout,
    ) -> (r: RelocationDescriptor)
        ensures
            r@ == (DescriptorView {
                handle,
                source,
                destination,
                size,
                generation,
                layout,
                claim: ClaimView { copy_state: CopyState::Idle, owner: 0, done: false },
            }),
    {
        RelocationDescriptor {
            handle,
            source,
            destination,
            size,
            generation,
            layout,
            copy_state: CopyState::Idle,
            owner: 0,
            done: false,
        }
    }

    /// Claims the copy for `worker_id`; succeeds only while nobody holds it.
    pub fn try_claim_copy(&mut self, worker_id: u64) -> (r: bool)
        ensures
            r == spec_try_claim(old(self)@.claim, worker_id) is Some,
            final(self)@ == (DescriptorView {
                claim: match spec_try_claim(old(self)@.claim, worker_id) {
                    Some(c) => c,
                    None => old(self)@.claim,
                },
                ..old(self)@
            }),
    {
        if self.copy_state == CopyState::Idle {
            self.copy_state = CopyState::Owned;
            self.owner = worker_id;
            true
        } else {
            false
        }
    }

    /// The copy is finished.
    pub fn mark_done(&mut self)
        ensures
            final(self)@ == (DescriptorView {
                claim: ClaimView { copy_state: CopyState::Done, owner: old(self)@.claim.owner, done: true },
                ..old(self)@
            }),
    {
        self.copy_state = CopyState::Done;
        self.done = true;
    }

    pub fn is_done(&self) -> (r: bool)
        ensures
            r == self@.claim.done,
    {
        self.done
    }

    /// The worker that claimed the copy (0 before any claim).
    pub fn owner(&self) -> (r: u64)
        ensures
            r == self@.claim.owner,
    {
        self.owner
    }
}

/// Claim transition: `None` when the claim is refused.
pub open spec fn spec_try_claim(c: ClaimView, worker_id: u64) -> Option<ClaimView> {
    if c.copy_state == CopyState::Idle {
        Some(ClaimView { copy_state: CopyState::Owned, owner: worker_id, ..c })
    } else {
        None
    }
}

/// Claims by `workers` in turn, from `c`: the final claim state and each
/// claim's answer.
pub open spec fn claim_run(c: ClaimView, workers: Seq<u64>) -> (ClaimView, Seq<bool>)
    decreases workers.len(),
{
    if workers.len() == 0 {
        (c, Seq::empty())
    } else {
        let (c1, rs) = claim_run(c, workers.drop_last());
        match spec_try_claim(c1, workers.last()) {
            Some(c2) => (c2, rs.push(true)),
            None => (c1, rs.push(false)),
        }
    }
}

/// Of any number of claims on a copy nobody has claimed, exactly the first
/// succeeds and sets the owner; every later one is refused and leaves the
/// owner as it is.
pub proof fn law_exactly_one_claim_succeeds(c: ClaimView, workers: Seq<u64>)
    requires
        c.copy_state == CopyState::Idle,
        workers.len() > 0,
    ensures
        ({
            let (cf, rs) = claim_run(c, workers);
            &&& rs.len() == workers.len()
            &&& rs[0]
            &&& forall|i: int| 1 <= i < rs.len() ==> !#[trigger] rs[i]
            &&& cf.owner == workers[0]
            &&& cf.copy_state == CopyState::Owned
            &&& cf.done == c.done
        }),
    decreases workers.len(),
{
    if workers.len() > 1 {
        law_exactly_one_claim_succeeds(c, workers.drop_last());
        let (c1, rs) = claim_run(c, workers.drop_last());
        let (cf, rsf) = claim_run(c, workers);
        assert(rsf == rs.push(false));
        assert(workers.drop_last()[0] == workers[0]);
        assert forall|i: int| 1 <= i < rsf.len() implies !#[trigger] rsf[i] by {
            if i < rs.len() {
                assert(rsf[i] == rs[i]);
            }
        }
        assert(rsf[0] == rs[0]);
    } else {
        let (c0, rs0) = claim_run(c, workers.drop_last());
        assert(workers.drop_last().len() == 0);
        assert(c0 == c && rs0 == Seq::<bool>::empty());
        let (cf, rsf) = claim_run(c, workers);
        assert(rsf == rs0.push(true));
        assert(rsf[0]);
    }
}

/// A copy is claimed at most once: after one worker's claim succeeds, every
/// later claim fails and the owner stays the first claimer, also once the
/// copy is done.
pub proof fn law_copy_claimed_once(c: ClaimView, first: u64, second: u64)
    requires
        c.copy_state == CopyState::Idle,
    ensures
        spec_try_claim(c, first) is Some,
        spec_try_claim(spec_try_claim(c, first).unwrap(), second) is None,
        spec_try_claim(spec_try_claim(c, first).unwrap(), second) is None ==> spec_try_claim(c, first).unwrap().owner
            == first,
        spec_try_claim(
            ClaimView { copy_state: CopyState::Done, done: true, ..spec_try_claim(c, first).unwrap() },
            second,
        ) is None,
{
}

/// One access of an object copy, at the same offset of the source and the
/// destination.
#[derive(Clone, Copy, Debug, PartialEq, Eq, Structural)]
pub enum CopyStep {
    /// `len` bytes copied as they are.
    Bytes { offset: u64, len: u64 },
    /// One word loaded atomically from the source and stored atomically.
    Word { offset: u64 },
}

/// How a header field is copied: immutable bytes as bytes, a mutable word
/// or reference slot as an atomic word.
pub open spec fn field_step(f: HeaderField) -> CopyStep {
    if f.kind == HeaderFieldKind::ImmutableByteCopy {
        CopyStep::Bytes { offset: f.offset, len: 8 }
    } else {
        CopyStep::Word { offset: f.offset }
    }
}

/// The payload words after the 16-byte header that fit in `size` bytes.
pub open spec fn payload_words(size: u64) -> Seq<CopyStep> {
    let n: nat = if size >= 24 {
        ((size - 16) / 8) as nat
    } else {
        0
    };
    Seq::new(n, |k: int| CopyStep::Word { offset: (16 + 8 * k) as u64 })
}

/// The copy of an object of `size` bytes with header `layout`: a layout
/// with a mutable header is copied field by field and then word by word,
/// any other in one bulk copy.
pub open spec fn spec_copy_plan(layout: HeaderLayout, size: u64) -> Seq<CopyStep> {
    if exists|i: int| 0 <= i < layout.fields@.len() && is_mutable_kind(#[trigger] layout.fields@[i].kind) {
        layout.fields@.map_values(|f: HeaderField| field_step(f)) + payload_words(size)
    } else {
        seq![CopyStep::Bytes { offset: 0, len: size }]
    }
}

impl RelocationDescriptor {
    /// The steps of the atomic snapshot copy of this object: mutable header
    /// words are never copied in bulk.
    pub fn snapshot_copy_plan(&self) -> (r: Vec<CopyStep>)
        requires
            self@.size <= u64::MAX - 8,
        ensures
            r@ == spec_copy_plan(self@.layout, self@.size),
    {
        let mut steps: Vec<CopyStep> = Vec::new();
        if self.layout.rejects_bulk_copy_of_mutable_headers() {
            let fields = self.layout.fields;
            let mut i: usize = 0;
            while i < fields.len()
                invariant
                    fields == self.layout.fields,
                    i <= fields@.len(),
                    steps@ == fields@.take(i as int).map_values(|f: HeaderField| field_step(f)),
                decreases fields@.len() - i,
            {
                let f = fields[i];
                proof {
                    assert(fields@.take(i + 1).map_values(|f: HeaderField| field_step(f)) =~= fields@.take(
                        i as int,
                    ).map_values(|f: HeaderField| field_step(f)).push(field_step(f)));
                }
                match f.kind {
                    HeaderFieldKind::ImmutableByteCopy => {
                        steps.push(CopyStep::Bytes { offset: f.offset, len: 8 });
                    },
                    HeaderFieldKind::MutableAtomicWord | HeaderFieldKind::ReferenceSlot => {
                        steps.push(CopyStep::Word { offset: f.offset });
                    },
                }
                i += 1;
            }
            proof {
                assert(fields@.take(fields@.len() as int) =~= fields@);
            }
            let ghost head = steps@;
            let size = self.size;
            let mut offset: u64 = 16;
            let ghost mut k: nat = 0;
            while offset + 8 <= size
                invariant
                    size == self@.size,
                    size <= u64::MAX - 8,
                    offset == 16 + 8 * k,
                    k > 0 ==> offset <= size,
                    k <= payload_words(size).len(),
                    steps@ == head + payload_words(size).take(k as int),
                decreases size + 8 - offset,
            {
                proof {
                    assert(k < payload_words(size).len()) by (nonlinear_arith)
                        requires
                            offset == 16 + 8 * k,
                            offset + 8 <= size,
                            payload_words(size).len() == (if size >= 24 {
                                ((size - 16) / 8) as nat
                            } else {
                                0
                            }),
                    ;
                    assert(payload_words(size).take((k + 1) as int) =~= payload_words(size).take(k as int).push(
                        CopyStep::Word { offset },
                    ));
                }
                steps.push(CopyStep::Word { offset });
                offset = offset + 8;
                proof {
                    k = k + 1;
                }
            }
            proof {
                assert(k == payload_words(size).len()) by (nonlinear_arith)
                    requires
                        offset == 16 + 8 * k,
                        offset + 8 > size,
                        k <= payload_words(size).len(),
                        payload_words(size).len() == (if size >= 24 {
                            ((size - 16) / 8) as nat
                        } else {
                            0
                        }),
                ;
                assert(payload_words(size).take(k as int) =~= payload_words(size));
            }
        } else {
            steps.push(CopyStep::Bytes { offset: 0, len: self.size });
            proof {
                assert(steps@ =~= seq![CopyStep::Bytes { offset: 0, len: self@.size }]);
            }
        }
        steps
    }
}

/// Totals of a concurrent relocation phase.
#[derive(Clone, Copy, Debug, Default, PartialEq, Eq)]
pub struct RelocationReport {
    pub relocated: usize,
    pub assisted: usize,
    pub reclaimed_pages: usize,
    pub pause_ns_max: u64,
    pub lost_source_writes: usize,
}

/// The relocation coordinator: page selection, the relocate-start
/// handshake (young and old relocation exclude each other), the installed
/// descriptors, and reclamation after the grace period.
pub struct ConcurrentRelocator {
    pages: BTreeMap<u64, PageRelocationState>,
    descriptors: BTreeMap<u32, RelocationDescriptor>,
    access_epoch: u64,
    report: RelocationReport,
    young_relocating: bool,
    old_relocating: bool,
}

pub struct RelocatorView {
    pub pages: Map<u64, PageRelocationState>,
    pub descriptors: Map<u32, DescriptorView>,
    pub access_epoch: u64,
    pub report: RelocationReport,
    pub young_relocating: bool,
    pub old_relocating: bool,
}

impl View for ConcurrentRelocator {
    type V = RelocatorView;

    closed spec fn view(&self) -> RelocatorView {
        RelocatorView {
            pages: self.pages@,
            descriptors: self.descriptors@.map_values(|d: RelocationDescriptor| d@),
            access_epoch: self.access_epoch,
            report: self.report,
            young_relocating: self.young_relocating,
            old_relocating: self.old_relocating,
        }
    }
}

/// Whether `select_page` can select a page: it is marked, or not known yet
/// (a page is marked when first seen).
pub open spec fn page_selectable(pages: Map<u64, PageRelocationState>, page_id: u64) -> bool {
    !pages.contains_key(page_id) || pages[page_id] == PageRelocationState::Marked
}

/// The access epoch after one more relocate start (the counter wraps).
pub open spec fn next_access_epoch(e: u64) -> u64 {
    if e == u64::MAX {
        0
    } else {
        (e + 1) as u64
    }
}

/// Whether the other generation is relocating, which refuses a relocate
/// start of `generation`.
pub open spec fn relocation_excluded(s: RelocatorView, generation: HandleGeneration) -> bool {
    match generation {
        HandleGeneration::Young => s.old_relocating,
        HandleGeneration::Old => s.young_relocating,
    }
}

impl ConcurrentRelocator {
    pub fn new() -> (r: ConcurrentRelocator)
        ensures
            r@.pages == Map::<u64, PageRelocationState>::empty(),
            r@.descriptors == Map::<u32, DescriptorView>::empty(),
            r@.access_epoch == 0,
            r@.report == (RelocationReport {
                relocated: 0,
                assisted: 0,
                reclaimed_pages: 0,
                pause_ns_max: 0,
                lost_source_writes: 0,
            }),
            !r@.young_relocating,
            !r@.old_relocating,
    {
        let r = ConcurrentRelocator {
            pages: BTreeMap::new(),
            descriptors: BTreeMap::new(),
            access_epoch: 0,
            report: RelocationReport {
                relocated: 0,
                assisted: 0,
                reclaimed_pages: 0,
                pause_ns_max: 0,
                lost_source_writes: 0,
            },
            young_relocating: false,
            old_relocating: false,
        };
        proof {
            assert(r@.descriptors =~= Map::<u32, DescriptorView>::empty());
        }
        r
    }

    pub fn report(&self) -> (r: RelocationReport)
        ensures
            r == self@.report,
    {
        self.report
    }

    pub fn access_epoch(&self) -> (r: u64)
        ensures
            r == self@.access_epoch,
    {
        self.access_epoch
    }

    /// Moves a page from marked to selected for relocation; a page seen for
    /// the first time counts as marked. Returns whether it was selected now.
    pub fn select_page(&mut self, page_id: u64) -> (r: bool)
        ensures
            r == page_selectable(old(self)@.pages, page_id),
            final(self)@ == (RelocatorView {
                pages: if r {
                    old(self)@.pages.insert(page_id, PageRelocationState::RelocationSelected)
                } else {
                    old(self)@.pages
                },
                ..old(self)@
            }),
    {
        let selectable = match self.pages.get(&page_id) {
            None => true,
            Some(state) => match state {
                PageRelocationState::Marked => true,
                _ => false,
            },
        };
        if selectable {
            self.pages.insert(page_id, PageRelocationState::RelocationSelected);
        }
        selectable
    }

    /// The relocate-start handshake for `generation`: refused while the
    /// other generation relocates; otherwise the generation is relocating
    /// and a new access epoch is published. Returns the pause's length.
    pub fn pause_relocate_start(&mut self, generation: HandleGeneration) -> (r: Result<Duration, String>)
        ensures
            relocation_excluded(old(self)@, generation) ==> final(self)@ == old(self)@ && r is Err && r->Err_0@
                == "young/old relocation mutual exclusion violated"@,
            !relocation_excluded(old(self)@, generation) ==> r is Ok && final(self)@ == (RelocatorView {
                young_relocating: old(self)@.young_relocating || generation == HandleGeneration::Young,
                old_relocating: old(self)@.old_relocating || generation == HandleGeneration::Old,
                access_epoch: next_access_epoch(old(self)@.access_epoch),
                report: RelocationReport { pause_ns_max: final(self)@.report.pause_ns_max, ..old(self)@.report },
                ..old(self)@
            }) && final(self)@.report.pause_ns_max >= old(self)@.report.pause_ns_max,
    {
        let started = clock_now();
        match generation {
            HandleGeneration::Young => {
                if self.old_relocating {
                    return Err(String::from_str("young/old relocation mutual exclusion violated"));
                }
                self.young_relocating = true;
            },
            HandleGeneration::Old => {
                if self.young_relocating {
                    return Err(String::from_str("young/old relocation mutual exclusion violated"));
                }
                self.old_relocating = true;
            },
        }
        self.access_epoch = self.access_epoch.wrapping_add(1);
        let elapsed = elapsed_since(&started);
        let ns = duration_nanos(&elapsed) as u64;
        if ns > self.report.pause_ns_max {
            self.report.pause_ns_max = ns;
        }
        Ok(elapsed)
    }

    /// Installs the descriptor of an object to relocate, replacing any
    /// earlier one for the same handle.
    pub fn install_descriptor(&mut self, descriptor: RelocationDescriptor)
        ensures
            final(self)@ == (RelocatorView {
                descriptors: old(self)@.descriptors.insert(descriptor@.handle.0, descriptor@),
                ..old(self)@
            }),
    {
        let ghost d = descriptor@;
        let handle = descriptor.handle;
        self.descriptors.insert(handle.0, descriptor);
        proof {
            assert(self@.descriptors =~= old(self)@.descriptors.insert(d.handle.0, d));
        }
    }

    /// The descriptor installed for `handle`.
    pub fn descriptor(&self, handle: HandleId) -> (r: Option<&RelocationDescriptor>)
        ensures
            match r {
                Some(d) => self@.descriptors.contains_key(handle.0) && d@ == self@.descriptors[handle.0],
                None => !self@.descriptors.contains_key(handle.0),
            },
    {
        self.descriptors.get(&handle.0)
    }

    /// A mutator must not write the source of an object being relocated:
    /// the write is refused while the resolved entry is relocating.
    pub fn reject_source_write_if_relocating(&self, entry: Option<ColoredHandleEntry>) -> (r: Result<(), String>)
        ensures
            (match entry {
                Some(e) => e.state == HandleState::RelocatingYoung || e.state == HandleState::RelocatingOld,
                None => false,
            }) ==> r is Err && r->Err_0@ == "source write rejected while relocating"@,
            !(match entry {
                Some(e) => e.state == HandleState::RelocatingYoung || e.state == HandleState::RelocatingOld,
                None => false,
            }) ==> r is Ok,
    {
        match entry {
            Some(e) => match e.state {
                HandleState::RelocatingYoung | HandleState::RelocatingOld => {
                    return Err(String::from_str("source write rejected while relocating"));
                },
                _ => {},
            },
            None => {},
        }
        Ok(())
    }

    /// Reclamation after the grace period, given how many quarantined
    /// handles the handle table reclaimed: they are counted, relocation ends
    /// for both generations and the descriptors are dropped.
    pub fn epoch_reclaim(&mut self, reclaimed: usize) -> (r: usize)
        requires
            old(self)@.report.reclaimed_pages + reclaimed <= usize::MAX,
        ensures
            r == reclaimed,
            final(self)@ == (RelocatorView {
                descriptors: Map::empty(),
                report: RelocationReport {
                    reclaimed_pages: (old(self)@.report.reclaimed_pages + reclaimed) as usize,
                    ..old(self)@.report
                },
                young_relocating: false,
                old_relocating: false,
                ..old(self)@
            }),
    {
        self.report.reclaimed_pages = self.report.reclaimed_pages + reclaimed;
        self.young_relocating = false;
        self.old_relocating = false;
        self.descriptors.clear();
        proof {
            assert(self@.descriptors =~= Map::<u32, DescriptorView>::empty());
        }
        reclaimed
    }
}

/// Young and old relocation exclude each other: after a start of one
/// generation succeeds, a start of the other is refused until reclamation.
pub proof fn law_relocation_generations_exclude(s: RelocatorView, generation: HandleGeneration, t: RelocatorView)
    requires
        !relocation_excluded(s, generation),
        t == (RelocatorView {
            young_relocating: s.young_relocating || generation == HandleGeneration::Young,
            old_relocating: s.old_relocating || generation == HandleGeneration::Old,
            access_epoch: next_access_epoch(s.access_epoch),
            report: RelocationReport { pause_ns_max: t.report.pause_ns_max, ..s.report },
            ..s
        }),
    ensures
        relocation_excluded(
            t,
            match generation {
                HandleGeneration::Young => HandleGeneration::Old,
                HandleGeneration::Old => HandleGeneration::Young,
            },
        ),
{
}

} // verus!
