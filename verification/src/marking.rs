//! The incremental ZGC marker: mark bitmap, worklist and SATB buffer over
//! the object table.
//!
//! Marking works on a [`MarkHeap`], the plain values it reads from linear
//! memory: the object-table words (which it repairs in place), the handles
//! each object references, and each object's size.

use vstd::prelude::*;

use std::time::Instant;

use crate::clock::deadline_passed;
use crate::color::{ZColor, ZEntry, is_mark_color, spec_entry_from_raw, spec_repair_bad_non_relocating, word_color, word_ptr, entry_word_wf, lemma_from_raw_roundtrip, lemma_repair_bad_non_relocating};
use crate::mark::{Handle, MarkBitmap, MarkObject, CleanupPlanView, build_cleanup_plan, spec_cleanup_plan, object_survives, spec_is_marked};
use crate::page::{ZPageKind, ZPageMeta, ZPageSpace, ZPageSpaceView, fresh_page, is_dead_page, indices_where, lemma_indices_where_ext};

verus! {

/// What marking reads from the heap: the object-table words, the handles
/// each object references, and each object's size (`None` when its header
/// cannot be read).
#[derive(Debug)]
pub struct MarkHeap {
    pub entries: Vec<u32>,
    pub children: Vec<Vec<Handle>>,
    pub sizes: Vec<Option<usize>>,
    pub gc_epoch: u64,
}

pub struct MarkHeapView {
    pub entries: Seq<u32>,
    pub children: Seq<Seq<Handle>>,
    pub sizes: Seq<Option<usize>>,
    pub gc_epoch: u64,
}

impl View for MarkHeap {
    type V = MarkHeapView;

    open spec fn view(&self) -> MarkHeapView {
        MarkHeapView {
            entries: self.entries@,
            children: self.children@.map_values(|v: Vec<Handle>| v@),
            sizes: self.sizes@,
            gc_epoch: self.gc_epoch,
        }
    }
}

impl MarkHeapView {
    /// One children list and one size per object-table entry, and every
    /// word a well-formed entry.
    pub open spec fn wf(self) -> bool {
        &&& self.children.len() == self.entries.len()
        &&& self.sizes.len() == self.entries.len()
        &&& self.entries.len() <= 0x1_0000_0000
        &&& forall|h: int| 0 <= h < self.entries.len() ==> entry_word_wf(#[trigger] self.entries[h])
    }

    /// `h` names a nonempty object-table entry.
    pub open spec fn is_live(self, h: int) -> bool {
        0 <= h < self.entries.len() && self.entries[h] != 0
    }
}

/// The heap after marking has rewritten some entries: the same objects and
/// references, and the same entries emptied or not.
pub open spec fn same_objects(a: MarkHeapView, b: MarkHeapView) -> bool {
    &&& a.entries.len() == b.entries.len()
    &&& a.children == b.children
    &&& a.sizes == b.sizes
    &&& forall|h: int| 0 <= h < a.entries.len() ==> (#[trigger] a.entries[h] != 0) == (b.entries[h] != 0)
    &&& forall|h: int| 0 <= h < a.entries.len() ==> word_ptr(#[trigger] a.entries[h]) == word_ptr(b.entries[h])
}

/// Reads and decodes the entry of `h`; `None` past the table.
pub fn read_entry(heap: &MarkHeap, h: Handle) -> (r: Option<(usize, ZEntry)>)
    ensures
        (h as int) < heap@.entries.len() ==> (r matches Some((slot, e)) && slot == h && e@
            == spec_entry_from_raw(heap@.entries[h as int])),
        (h as int) >= heap@.entries.len() ==> r is None,
{
    let i = h as usize;
    if i < heap.entries.len() {
        Some((i, ZEntry::from_raw(heap.entries[i])))
    } else {
        None
    }
}

/// Stores `entry` in `slot`; a slot past the table is ignored.
pub fn write_entry(heap: &mut MarkHeap, slot: usize, entry: ZEntry)
    ensures
        final(heap)@ == (MarkHeapView {
            entries: if slot < old(heap)@.entries.len() {
                old(heap)@.entries.update(slot as int, entry@)
            } else {
                old(heap)@.entries
            },
            ..old(heap)@
        }),
{
    if slot < heap.entries.len() {
        heap.entries.set(slot, entry.raw());
    }
    proof {
        assert(heap@.children =~= old(heap)@.children);
    }
}

/// The word `h` holds after a repair to `good`.
pub open spec fn repaired_word(raw: u32, good: ZColor) -> u32 {
    spec_repair_bad_non_relocating(raw, good)
}

/// Repairs the entry of `h` to the good color; returns whether `h` names a
/// nonempty entry. A rewrite bumps the GC epoch so that mutators reload.
fn repair_entry_to_good(entries: &mut Vec<u32>, gc_epoch: &mut u64, h: Handle, good: ZColor) -> (r: bool)
    requires
        forall|k: int| 0 <= k < old(entries)@.len() ==> entry_word_wf(#[trigger] old(entries)@[k]),
        is_mark_color(good),
    ensures
        r == ((h as int) < old(entries)@.len() && old(entries)@[h as int] != 0),
        final(entries)@ == if r {
            old(entries)@.update(h as int, repaired_word(old(entries)@[h as int], good))
        } else {
            old(entries)@
        },
        r ==> word_color(final(entries)@[h as int]) == good,
        *final(gc_epoch) == if r && repaired_word(old(entries)@[h as int], good) != old(entries)@[h as int] {
            old(gc_epoch).wrapping_add(1)
        } else {
            *old(gc_epoch)
        },
{
    let i = h as usize;
    if i >= entries.len() {
        return false;
    }
    let raw = entries[i];
    proof {
        lemma_from_raw_roundtrip(raw);
        lemma_repair_bad_non_relocating(raw, good);
    }
    let entry = ZEntry::from_raw(raw);
    if entry.is_empty() {
        return false;
    }
    let repaired = entry.repair_bad_non_relocating(good);
    if repaired.raw() != entry.raw() {
        entries.set(i, repaired.raw());
        *gc_epoch = gc_epoch.wrapping_add(1);
    }
    true
}

/// The incremental marker of one cycle.
#[derive(Debug)]
pub struct ZMarkState {
    mark_bits: MarkBitmap,
    worklist: Vec<Handle>,
    satb_handles: Vec<Handle>,
    active: bool,
    barrier_events: usize,
    satb_flushes: usize,
}

pub struct ZMarkView {
    pub bits: Seq<bool>,
    pub worklist: Seq<Handle>,
    pub satb: Seq<Handle>,
    pub active: bool,
    pub barrier_events: usize,
    pub satb_flushes: usize,
}

impl View for ZMarkState {
    type V = ZMarkView;

    closed spec fn view(&self) -> ZMarkView {
        ZMarkView {
            bits: self.mark_bits@,
            worklist: self.worklist@,
            satb: self.satb_handles@,
            active: self.active,
            barrier_events: self.barrier_events,
            satb_flushes: self.satb_flushes,
        }
    }
}

/// Every marked handle that is off the worklist has all its live children
/// marked: no edge leads from a scanned object to an unmarked live one.
pub open spec fn marked_closed(bits: Seq<bool>, worklist: Seq<Handle>, heap: MarkHeapView) -> bool {
    forall|h: int, i: int|
        #![trigger bits[h], heap.children[h][i]]
        0 <= h < bits.len() && bits[h] && !worklist.contains(h as Handle) && 0 <= i
            < heap.children[h].len() && heap.is_live(heap.children[h][i] as int) ==> spec_is_marked(
            bits,
            heap.children[h][i],
        )
}

/// The marker's invariant against the heap it marks with color `good`:
/// the worklist holds marked handles once each, every marked handle names a
/// live entry already repaired to `good`, and scanned objects reach only
/// marked objects.
pub open spec fn marking_inv(s: ZMarkView, heap: MarkHeapView, good: ZColor) -> bool {
    &&& heap.wf()
    &&& is_mark_color(good)
    &&& s.bits.len() == heap.entries.len()
    &&& s.worklist.no_duplicates()
    &&& forall|k: int| 0 <= k < s.worklist.len() ==> spec_is_marked(s.bits, #[trigger] s.worklist[k])
    &&& forall|h: int|
        0 <= h < s.bits.len() && #[trigger] s.bits[h] ==> h <= u32::MAX && heap.entries[h] != 0
            && word_color(heap.entries[h]) == good
    &&& marked_closed(s.bits, s.worklist, heap)
}

/// `b` is further along than `a`: more handles marked, or as many marked
/// and fewer left to scan.
pub open spec fn mark_progress(a_bits: Seq<bool>, a_len: nat, b_bits: Seq<bool>, b_len: nat) -> bool {
    spec_marked_count(b_bits) > spec_marked_count(a_bits) || (spec_marked_count(b_bits)
        == spec_marked_count(a_bits) && b_len < a_len)
}

/// Marking is complete: nothing is left to scan and the marked set is
/// closed under the references of its objects.
pub open spec fn marking_complete(s: ZMarkView, heap: MarkHeapView) -> bool {
    &&& s.worklist.len() == 0
    &&& forall|h: int, i: int|
        #![trigger s.bits[h], heap.children[h][i]]
        0 <= h < s.bits.len() && s.bits[h] && 0 <= i < heap.children[h].len() && heap.is_live(
            heap.children[h][i] as int,
        ) ==> spec_is_marked(s.bits, heap.children[h][i])
}

proof fn lemma_repaired_entries(entries: Seq<u32>, h: int, good: ZColor)
    requires
        0 <= h < entries.len(),
        entry_word_wf(entries[h]),
        is_mark_color(good),
    ensures
        (repaired_word(entries[h], good) != 0) == (entries[h] != 0),
        word_ptr(repaired_word(entries[h], good)) == word_ptr(entries[h]),
        entry_word_wf(repaired_word(entries[h], good)),
{
    lemma_repair_bad_non_relocating(entries[h], good);
    lemma_from_raw_roundtrip(entries[h]);
    let raw = entries[h];
    assert(raw & 0xFFFF_FFFCu32 <= 0xFFFF_FFFCu32) by (bit_vector);
    if raw != 0 {
        assert(word_ptr(raw) != 0);
    }
}

impl ZMarkState {
    pub fn new() -> (r: ZMarkState)
        ensures
            r@.bits.len() == 0,
            r@.worklist.len() == 0,
            r@.satb.len() == 0,
            !r@.active,
            r@.barrier_events == 0,
            r@.satb_flushes == 0,
    {
        ZMarkState {
            mark_bits: MarkBitmap::new(),
            worklist: Vec::new(),
            satb_handles: Vec::new(),
            active: false,
            barrier_events: 0,
            satb_flushes: 0,
        }
    }

    pub fn is_active(&self) -> (r: bool)
        ensures
            r == self@.active,
    {
        self.active
    }

    pub fn is_marked(&self, h: Handle) -> (r: bool)
        ensures
            r == spec_is_marked(self@.bits, h),
    {
        self.mark_bits.is_marked(h)
    }

    pub fn worklist_len(&self) -> (r: usize)
        ensures
            r == self@.worklist.len(),
    {
        self.worklist.len()
    }

    /// Repairs the entry of `h` to `good` and, when `h` is live and not yet
    /// marked, marks it and queues it for scanning.
    fn push_handle(&mut self, heap: &mut MarkHeap, h: Handle, good: ZColor)
        requires
            marking_inv(old(self)@, old(heap)@, good),
        ensures
            marking_inv(final(self)@, final(heap)@, good),
            same_objects(old(heap)@, final(heap)@),
            final(self)@.bits == if old(heap)@.is_live(h as int) {
                old(self)@.bits.update(h as int, true)
            } else {
                old(self)@.bits
            },
            final(self)@.worklist == if old(heap)@.is_live(h as int) && !old(self)@.bits[h as int] {
                old(self)@.worklist.push(h)
            } else {
                old(self)@.worklist
            },
            final(self)@.satb == old(self)@.satb,
            final(self)@.active == old(self)@.active,
            final(self)@.barrier_events == old(self)@.barrier_events,
            final(self)@.satb_flushes == old(self)@.satb_flushes,
            final(heap)@.entries == if old(heap)@.is_live(h as int) {
                old(heap)@.entries.update(h as int, repaired_word(old(heap)@.entries[h as int], good))
            } else {
                old(heap)@.entries
            },
    {
        let ghost s0 = self@;
        let ghost heap0 = heap@;
        let live = repair_entry_to_good(&mut heap.entries, &mut heap.gc_epoch, h, good);
        proof {
            if live {
                lemma_repaired_entries(heap0.entries, h as int, good);
            }
            assert(heap@.children == heap0.children);
            assert forall|k: int| 0 <= k < heap@.entries.len() implies entry_word_wf(
                #[trigger] heap@.entries[k],
            ) by {
                if live && k == h {
                } else {
                    assert(heap@.entries[k] == heap0.entries[k]);
                }
            }
        }
        if !live {
            return;
        }
        if self.mark_bits.mark_if_new(h) {
            self.worklist.push(h);
        }
        proof {
            let s1 = self@;
            let heap1 = heap@;
            assert forall|k: int| 0 <= k < heap1.entries.len() implies (#[trigger] heap0.entries[k] != 0)
                == (heap1.entries[k] != 0) && word_ptr(heap0.entries[k]) == word_ptr(heap1.entries[k]) by {
                if k != h {
                    assert(heap1.entries[k] == heap0.entries[k]);
                }
            }
            assert(same_objects(heap0, heap1));
            assert forall|k: int| 0 <= k < s1.worklist.len() implies spec_is_marked(
                s1.bits,
                #[trigger] s1.worklist[k],
            ) by {
                if k < s0.worklist.len() {
                    assert(s1.worklist[k] == s0.worklist[k]);
                    assert(spec_is_marked(s0.bits, s0.worklist[k]));
                }
            }
            assert forall|g: int| 0 <= g < s1.bits.len() && #[trigger] s1.bits[g] implies heap1.entries[g]
                != 0 && word_color(heap1.entries[g]) == good by {
                if g != h {
                    assert(s0.bits[g]);
                    assert(heap1.entries[g] == heap0.entries[g]);
                }
            }
            assert forall|g: int, i: int|
                0 <= g < s1.bits.len() && #[trigger] s1.bits[g] && !s1.worklist.contains(g as Handle) && 0
                    <= i < heap1.children[g].len() && heap1.is_live(
                    #[trigger] heap1.children[g][i] as int,
                ) implies spec_is_marked(s1.bits, heap1.children[g][i]) by {
                let c = heap1.children[g][i];
                assert(heap0.is_live(c as int));
                if g == h as int {
                    if !s0.bits[h as int] {
                        assert(s1.worklist[s1.worklist.len() - 1] == h);
                        assert(s1.worklist.contains(g as Handle));
                    }
                }
                assert(s0.bits[g]);
                if s0.worklist.contains(g as Handle) {
                    let k = choose|k: int| 0 <= k < s0.worklist.len() && s0.worklist[k] == g as Handle;
                    assert(s1.worklist[k] == s0.worklist[k]);
                }
                assert(spec_is_marked(s0.bits, heap0.children[g][i]));
            }
            if !s0.bits[h as int] {
                assert(s1.worklist.no_duplicates()) by {
                    assert forall|a: int, b: int|
                        0 <= a < s1.worklist.len() && 0 <= b < s1.worklist.len() && a != b implies s1.worklist[a]
                        != s1.worklist[b] by {
                        if a < s0.worklist.len() && b < s0.worklist.len() {
                        } else if a < s0.worklist.len() {
                            assert(spec_is_marked(s0.bits, s0.worklist[a]));
                        } else {
                            assert(spec_is_marked(s0.bits, s0.worklist[b]));
                        }
                    }
                }
            }
        }
    }

    /// Pushes each handle below `obj_table_count` through `push_handle`.
    fn push_handles(&mut self, heap: &mut MarkHeap, obj_table_count: usize, good: ZColor, handles: &Vec<Handle>)
        requires
            marking_inv(old(self)@, old(heap)@, good),
        ensures
            marking_inv(final(self)@, final(heap)@, good),
            same_objects(old(heap)@, final(heap)@),
            final(self)@.bits.len() == old(self)@.bits.len(),
            forall|g: int| 0 <= g < old(self)@.bits.len() && #[trigger] old(self)@.bits[g] ==> final(self)@.bits[g],
            forall|k: int|
                0 <= k < handles@.len() && (handles@[k] as int) < obj_table_count && old(heap)@.is_live(
                    #[trigger] handles@[k] as int,
                ) ==> spec_is_marked(final(self)@.bits, handles@[k]),
            old(self)@.worklist.is_prefix_of(final(self)@.worklist),
            final(self)@.satb == old(self)@.satb,
            final(self)@.active == old(self)@.active,
            final(self)@.barrier_events == old(self)@.barrier_events,
            final(self)@.satb_flushes == old(self)@.satb_flushes,
    {
        let ghost s0 = self@;
        let ghost heap0 = heap@;
        let mut i: usize = 0;
        while i < handles.len()
            invariant
                i <= handles@.len(),
                marking_inv(self@, heap@, good),
                same_objects(heap0, heap@),
                self@.bits.len() == s0.bits.len(),
                forall|g: int| 0 <= g < s0.bits.len() && #[trigger] s0.bits[g] ==> self@.bits[g],
                forall|k: int|
                    0 <= k < i && (handles@[k] as int) < obj_table_count && heap0.is_live(
                        #[trigger] handles@[k] as int,
                    ) ==> spec_is_marked(self@.bits, handles@[k]),
                s0.worklist.is_prefix_of(self@.worklist),
                self@.satb == s0.satb,
                self@.active == s0.active,
                self@.barrier_events == s0.barrier_events,
                self@.satb_flushes == s0.satb_flushes,
            decreases handles@.len() - i,
        {
            let h = handles[i];
            let ghost before = self@;
            let ghost heap_before = heap@;
            if (h as usize) < obj_table_count {
                self.push_handle(heap, h, good);
                proof {
                    assert(same_objects(heap0, heap@)) by {
                        assert forall|k: int| 0 <= k < heap0.entries.len() implies (#[trigger] heap0.entries[k]
                            != 0) == (heap@.entries[k] != 0) && word_ptr(heap0.entries[k]) == word_ptr(
                            heap@.entries[k],
                        ) by {
                            assert(heap_before.entries[k] == heap_before.entries[k]);
                        }
                    }
                }
            }
            proof {
                assert forall|k: int|
                    0 <= k < i + 1 && (handles@[k] as int) < obj_table_count && heap0.is_live(
                        #[trigger] handles@[k] as int,
                    ) implies spec_is_marked(self@.bits, handles@[k]) by {
                    if k < i {
                        assert(spec_is_marked(before.bits, handles@[k]));
                    } else {
                        assert(heap_before.is_live(h as int));
                    }
                }
                assert(s0.worklist.is_prefix_of(self@.worklist)) by {
                    assert(before.worklist.is_prefix_of(self@.worklist));
                }
            }
            i += 1;
        }
    }

    /// Scans queued objects, marking their live children, until the worklist
    /// is empty, the scanned bytes reach `work_bytes`, or `deadline` passes.
    pub fn drain_budget(
        &mut self,
        heap: &mut MarkHeap,
        good: ZColor,
        work_bytes: usize,
        deadline: Option<&Instant>,
    )
        requires
            marking_inv(old(self)@, old(heap)@, good),
        ensures
            marking_inv(final(self)@, final(heap)@, good),
            same_objects(old(heap)@, final(heap)@),
            final(self)@.bits.len() == old(self)@.bits.len(),
            forall|g: int| 0 <= g < old(self)@.bits.len() && #[trigger] old(self)@.bits[g] ==> final(self)@.bits[g],
            old(self)@.worklist.len() > 0 ==> mark_progress(
                old(self)@.bits,
                old(self)@.worklist.len(),
                final(self)@.bits,
                final(self)@.worklist.len(),
            ),
            final(self)@.satb == old(self)@.satb,
            final(self)@.active == old(self)@.active,
            final(self)@.barrier_events == old(self)@.barrier_events,
            final(self)@.satb_flushes == old(self)@.satb_flushes,
    {
        let ghost s0 = self@;
        let ghost heap0 = heap@;
        let obj_table_count = heap.entries.len();
        let mut processed: usize = 0;
        let ghost mut progressed = false;
        proof {
            lemma_marked_count_bound(s0.bits);
        }
        loop
            invariant_except_break
                marking_inv(self@, heap@, good),
                same_objects(heap0, heap@),
                obj_table_count == heap@.entries.len(),
                self@.bits.len() == s0.bits.len(),
                forall|g: int| 0 <= g < s0.bits.len() && #[trigger] s0.bits[g] ==> self@.bits[g],
                self@.satb == s0.satb,
                self@.active == s0.active,
                self@.barrier_events == s0.barrier_events,
                self@.satb_flushes == s0.satb_flushes,
                spec_marked_count(s0.bits) <= spec_marked_count(self@.bits) <= s0.bits.len(),
                progressed ==> mark_progress(s0.bits, s0.worklist.len(), self@.bits, self@.worklist.len()),
                !progressed ==> self@ == s0,
            ensures
                marking_inv(self@, heap@, good),
                same_objects(heap0, heap@),
                self@.bits.len() == s0.bits.len(),
                forall|g: int| 0 <= g < s0.bits.len() && #[trigger] s0.bits[g] ==> self@.bits[g],
                s0.worklist.len() > 0 ==> mark_progress(
                    s0.bits,
                    s0.worklist.len(),
                    self@.bits,
                    self@.worklist.len(),
                ),
                self@.satb == s0.satb,
                self@.active == s0.active,
                self@.barrier_events == s0.barrier_events,
                self@.satb_flushes == s0.satb_flushes,
            decreases s0.bits.len() - spec_marked_count(self@.bits), self@.worklist.len(),
        {
            let len = self.worklist.len();
            if len == 0 {
                break;
            }
            let idx = len - 1;
            let h = self.worklist[idx];
            let hi = h as usize;
            let ghost s1 = self@;
            let ghost heap1 = heap@;
            proof {
                assert(spec_is_marked(s1.bits, s1.worklist[idx as int]));
            }
            let kids = copy_handles(&heap.children[hi]);
            let size = match heap.sizes[hi] {
                Some(size) => size,
                None => 1,
            };
            let mut i: usize = 0;
            while i < kids.len()
                invariant
                    kids@ == heap1.children[hi as int],
                    i <= kids@.len(),
                    0 <= idx < self@.worklist.len(),
                    self@.worklist[idx as int] == h,
                    s1.worklist.is_prefix_of(self@.worklist),
                    (hi as int) < self@.bits.len(),
                    marking_inv(self@, heap@, good),
                    same_objects(heap1, heap@),
                    self@.bits.len() == s1.bits.len(),
                    forall|g: int| 0 <= g < s1.bits.len() && #[trigger] s1.bits[g] ==> self@.bits[g],
                    forall|j: int|
                        0 <= j < i && heap1.is_live(#[trigger] kids@[j] as int) ==> spec_is_marked(
                            self@.bits,
                            kids@[j],
                        ),
                    spec_marked_count(s1.bits) <= spec_marked_count(self@.bits),
                    self@.worklist.len() == s1.worklist.len() || spec_marked_count(self@.bits)
                        > spec_marked_count(s1.bits),
                    self@.satb == s0.satb,
                    self@.active == s0.active,
                    self@.barrier_events == s0.barrier_events,
                    self@.satb_flushes == s0.satb_flushes,
                decreases kids@.len() - i,
            {
                let ghost before = self@;
                let ghost heap_before = heap@;
                self.push_handle(heap, kids[i], good);
                proof {
                    lemma_marked_count_monotone(before.bits, self@.bits);
                    if self@.worklist.len() > before.worklist.len() {
                        assert(!before.bits[kids@[i as int] as int] && self@.bits[kids@[i as int] as int]);
                    }
                    assert(self@.worklist[idx as int] == before.worklist[idx as int]);
                    assert(s1.worklist.is_prefix_of(self@.worklist)) by {
                        assert forall|k: int| 0 <= k < s1.worklist.len() implies self@.worklist[k]
                            == s1.worklist[k] by {
                            assert(before.worklist[k] == s1.worklist[k]);
                        }
                    }
                    assert(same_objects(heap1, heap@)) by {
                        assert forall|k: int| 0 <= k < heap1.entries.len() implies (#[trigger] heap1.entries[k]
                            != 0) == (heap@.entries[k] != 0) && word_ptr(heap1.entries[k]) == word_ptr(
                            heap@.entries[k],
                        ) by {
                            assert(heap_before.entries[k] == heap_before.entries[k]);
                        }
                    }
                    assert forall|j: int|
                        0 <= j < i + 1 && heap1.is_live(#[trigger] kids@[j] as int) implies spec_is_marked(
                            self@.bits,
                            kids@[j],
                        ) by {
                        if j < i {
                            assert(spec_is_marked(before.bits, kids@[j]));
                        } else {
                            assert(heap_before.is_live(kids@[j] as int));
                        }
                    }
                }
                i += 1;
            }
            let ghost s2 = self@;
            self.worklist.remove(idx);
            proof {
                let s3 = self@;
                lemma_remove_no_duplicates(s2.worklist, idx as int);
                assert forall|k: int| 0 <= k < s3.worklist.len() implies spec_is_marked(
                    s3.bits,
                    #[trigger] s3.worklist[k],
                ) by {
                    if k < idx {
                        assert(s3.worklist[k] == s2.worklist[k]);
                    } else {
                        assert(s3.worklist[k] == s2.worklist[k + 1]);
                    }
                    assert(spec_is_marked(s2.bits, s2.worklist[if k < idx { k } else { k + 1 }]));
                }
                assert forall|g: int, j: int|
                    0 <= g < s3.bits.len() && #[trigger] s3.bits[g] && !s3.worklist.contains(g as Handle) && 0
                        <= j < heap@.children[g].len() && heap@.is_live(
                        #[trigger] heap@.children[g][j] as int,
                    ) implies spec_is_marked(s3.bits, heap@.children[g][j]) by {
                    if g == hi as int {
                        assert(heap@.children[g] == kids@);
                        assert(heap1.is_live(kids@[j] as int));
                    } else {
                        if s2.worklist.contains(g as Handle) {
                            let k = choose|k: int| 0 <= k < s2.worklist.len() && s2.worklist[k] == g as Handle;
                            assert(k != idx);
                            if k < idx {
                                assert(s3.worklist[k] == g as Handle);
                            } else {
                                assert(s3.worklist[k - 1] == g as Handle);
                            }
                        }
                    }
                }
                lemma_marked_count_monotone(s1.bits, s3.bits);
                lemma_marked_count_bound(s3.bits);
                assert(mark_progress(s1.bits, s1.worklist.len(), s3.bits, s3.worklist.len()));
                progressed = true;
            }
            processed = processed.saturating_add(if size > 1 { size } else { 1 });
            if processed >= work_bytes {
                break;
            }
            match deadline {
                Some(d) => {
                    if deadline_passed(d) {
                        break;
                    }
                },
                None => {},
            }
        }
    }

    /// Scans until the worklist is empty.
    pub fn drain_all(&mut self, heap: &mut MarkHeap, good: ZColor)
        requires
            marking_inv(old(self)@, old(heap)@, good),
        ensures
            marking_inv(final(self)@, final(heap)@, good),
            same_objects(old(heap)@, final(heap)@),
            final(self)@.bits.len() == old(self)@.bits.len(),
            forall|g: int| 0 <= g < old(self)@.bits.len() && #[trigger] old(self)@.bits[g] ==> final(self)@.bits[g],
            marking_complete(final(self)@, final(heap)@),
            final(self)@.satb == old(self)@.satb,
            final(self)@.active == old(self)@.active,
            final(self)@.barrier_events == old(self)@.barrier_events,
            final(self)@.satb_flushes == old(self)@.satb_flushes,
    {
        let ghost s0 = self@;
        let ghost heap0 = heap@;
        proof {
            lemma_marked_count_bound(s0.bits);
        }
        while self.worklist.len() > 0
            invariant
                marking_inv(self@, heap@, good),
                same_objects(heap0, heap@),
                self@.bits.len() == s0.bits.len(),
                forall|g: int| 0 <= g < s0.bits.len() && #[trigger] s0.bits[g] ==> self@.bits[g],
                spec_marked_count(self@.bits) <= s0.bits.len(),
                self@.satb == s0.satb,
                self@.active == s0.active,
                self@.barrier_events == s0.barrier_events,
                self@.satb_flushes == s0.satb_flushes,
            decreases s0.bits.len() - spec_marked_count(self@.bits), self@.worklist.len(),
        {
            let ghost heap_before = heap@;
            self.drain_budget(heap, good, usize::MAX, None);
            proof {
                lemma_marked_count_bound(self@.bits);
                assert(same_objects(heap0, heap@)) by {
                    assert forall|k: int| 0 <= k < heap0.entries.len() implies (#[trigger] heap0.entries[k]
                        != 0) == (heap@.entries[k] != 0) && word_ptr(heap0.entries[k]) == word_ptr(
                        heap@.entries[k],
                    ) by {
                        assert(heap_before.entries[k] == heap_before.entries[k]);
                    }
                }
            }
        }
    }

    /// Starts a cycle: clears the bitmap (sized for the object table), the
    /// worklist, the SATB buffer and the counters, zeroes the pages' live
    /// bytes, and marks everything reachable from `roots`.
    pub fn start_cycle(&mut self, heap: &mut MarkHeap, pages: &mut ZPageSpace, roots: &Vec<Handle>, good: ZColor)
        requires
            old(heap)@.wf(),
            is_mark_color(good),
        ensures
            marking_inv(final(self)@, final(heap)@, good),
            marking_complete(final(self)@, final(heap)@),
            same_objects(old(heap)@, final(heap)@),
            final(self)@.active,
            final(self)@.satb.len() == 0,
            final(self)@.barrier_events == 0,
            final(self)@.satb_flushes == 0,
            forall|k: int|
                0 <= k < roots@.len() && old(heap)@.is_live(#[trigger] roots@[k] as int)
                    ==> spec_is_marked(final(self)@.bits, roots@[k]),
            final(pages)@.dynamic_start == old(pages)@.dynamic_start,
            final(pages)@.pages.len() == old(pages)@.pages.len(),
            forall|j: int|
                0 <= j < old(pages)@.pages.len() ==> #[trigger] final(pages)@.pages[j] == (ZPageMeta {
                    live_bytes: 0,
                    ..old(pages)@.pages[j]
                }),
    {
        self.active = true;
        self.mark_bits.reset(heap.entries.len());
        self.worklist.clear();
        self.satb_handles.clear();
        self.barrier_events = 0;
        self.satb_flushes = 0;
        pages.reset_live_bytes();
        let count = heap.entries.len();
        let ghost heap0 = heap@;
        self.push_handles(heap, count, good, roots);
        let ghost heap1 = heap@;
        let ghost s1 = self@;
        self.drain_all(heap, good);
        proof {
            assert(same_objects(heap0, heap@)) by {
                assert forall|k: int| 0 <= k < heap0.entries.len() implies (#[trigger] heap0.entries[k]
                    != 0) == (heap@.entries[k] != 0) && word_ptr(heap0.entries[k]) == word_ptr(
                    heap@.entries[k],
                ) by {
                    assert(heap1.entries[k] == heap1.entries[k]);
                }
            }
            assert forall|k: int|
                0 <= k < roots@.len() && heap0.is_live(#[trigger] roots@[k] as int) implies spec_is_marked(
                self@.bits,
                roots@[k],
            ) by {
                assert(spec_is_marked(s1.bits, roots@[k]));
            }
        }
    }

    /// One round of root marking: marks what `roots` reach; returns whether
    /// any handle was newly marked. The caller repeats rounds with the roots
    /// that its tables report for the current marks until none is new.
    pub fn mark_roots_round(&mut self, heap: &mut MarkHeap, roots: &Vec<Handle>, good: ZColor) -> (changed: bool)
        requires
            marking_inv(old(self)@, old(heap)@, good),
        ensures
            marking_inv(final(self)@, final(heap)@, good),
            marking_complete(final(self)@, final(heap)@),
            same_objects(old(heap)@, final(heap)@),
            final(self)@.bits.len() == old(self)@.bits.len(),
            forall|g: int| 0 <= g < old(self)@.bits.len() && #[trigger] old(self)@.bits[g] ==> final(self)@.bits[g],
            forall|k: int|
                0 <= k < roots@.len() && old(heap)@.is_live(#[trigger] roots@[k] as int)
                    ==> spec_is_marked(final(self)@.bits, roots@[k]),
            changed == (final(self)@.bits != old(self)@.bits),
            final(self)@.satb == old(self)@.satb,
            final(self)@.active == old(self)@.active,
            final(self)@.barrier_events == old(self)@.barrier_events,
            final(self)@.satb_flushes == old(self)@.satb_flushes,
    {
        let ghost s0 = self@;
        let ghost heap0 = heap@;
        let before = self.mark_bits.popcount();
        let count = heap.entries.len();
        self.push_handles(heap, count, good, roots);
        let ghost heap1 = heap@;
        let ghost s1 = self@;
        self.drain_all(heap, good);
        let after = self.mark_bits.popcount();
        proof {
            lemma_popcount_is_marked_count(s0.bits);
            lemma_popcount_is_marked_count(self@.bits);
            lemma_marked_count_monotone(s0.bits, self@.bits);
            if self@.bits != s0.bits {
                let g = choose|g: int| 0 <= g < s0.bits.len() && self@.bits[g] != s0.bits[g];
                if !(0 <= g < s0.bits.len() && self@.bits[g] != s0.bits[g]) {
                    assert(self@.bits =~= s0.bits);
                }
                assert(!s0.bits[g] && self@.bits[g]);
            }
            assert(same_objects(heap0, heap@)) by {
                assert forall|k: int| 0 <= k < heap0.entries.len() implies (#[trigger] heap0.entries[k]
                    != 0) == (heap@.entries[k] != 0) && word_ptr(heap0.entries[k]) == word_ptr(
                    heap@.entries[k],
                ) by {
                    assert(heap1.entries[k] == heap1.entries[k]);
                }
            }
            assert forall|k: int|
                0 <= k < roots@.len() && heap0.is_live(#[trigger] roots@[k] as int) implies spec_is_marked(
                self@.bits,
                roots@[k],
            ) by {
                assert(spec_is_marked(s1.bits, roots@[k]));
            }
        }
        after != before
    }

    /// The load barrier found `h`: repairs its entry to `good`, marks it and
    /// queues it when new, and returns the entry's repaired word (0 when `h`
    /// names no live entry).
    pub fn mark_from_load_barrier(&mut self, heap: &mut MarkHeap, h: Handle, good: ZColor) -> (r: u32)
        requires
            marking_inv(old(self)@, old(heap)@, good),
        ensures
            marking_inv(final(self)@, final(heap)@, good),
            same_objects(old(heap)@, final(heap)@),
            r == if old(heap)@.is_live(h as int) {
                repaired_word(old(heap)@.entries[h as int], good)
            } else {
                0
            },
            old(heap)@.is_live(h as int) ==> spec_is_marked(final(self)@.bits, h),
            final(self)@.bits.len() == old(self)@.bits.len(),
            forall|g: int| 0 <= g < old(self)@.bits.len() && #[trigger] old(self)@.bits[g] ==> final(self)@.bits[g],
            final(self)@.satb == old(self)@.satb,
            final(self)@.active == old(self)@.active,
    {
        let ghost heap0 = heap@;
        self.push_handle(heap, h, good);
        let i = h as usize;
        if i < heap.entries.len() && heap.entries[i] != 0 {
            heap.entries[i]
        } else {
            0
        }
    }

    /// Adds handles that a mutator's store overwrote to the SATB buffer.
    pub fn record_satb_handles(&mut self, handles: &Vec<Handle>)
        ensures
            final(self)@ == (ZMarkView { satb: old(self)@.satb + handles@, ..old(self)@ }),
    {
        let mut i: usize = 0;
        let ghost s0 = self@;
        while i < handles.len()
            invariant
                i <= handles@.len(),
                self@ == (ZMarkView { satb: s0.satb + handles@.subrange(0, i as int), ..s0 }),
            decreases handles@.len() - i,
        {
            self.satb_handles.push(handles[i]);
            i += 1;
            proof {
                assert(s0.satb + handles@.subrange(0, i as int) =~= (s0.satb + handles@.subrange(
                    0,
                    i - 1,
                )).push(handles@[i - 1]));
            }
        }
        proof {
            assert(handles@.subrange(0, handles@.len() as int) =~= handles@);
        }
    }

    /// A host store overwrote a value that referenced `old_handles`: while
    /// marking, counts one barrier event and keeps them for SATB.
    pub fn record_host_write(&mut self, old_handles: &Vec<Handle>)
        ensures
            old(self)@.active ==> final(self)@ == (ZMarkView {
                satb: old(self)@.satb + old_handles@,
                barrier_events: sat_inc(old(self)@.barrier_events, 1),
                ..old(self)@
            }),
            !old(self)@.active ==> final(self)@ == old(self)@,
    {
        if self.active {
            self.barrier_events = self.barrier_events.saturating_add(1);
            self.record_satb_handles(old_handles);
        }
    }

    /// The compiled code's barrier buffer held `event_count` SATB events
    /// whose old values referenced `old_handles`: while marking, counts them
    /// and keeps the handles for SATB.
    pub fn record_barrier_events(&mut self, event_count: usize, old_handles: &Vec<Handle>)
        ensures
            old(self)@.active ==> final(self)@ == (ZMarkView {
                satb: old(self)@.satb + old_handles@,
                barrier_events: sat_inc(old(self)@.barrier_events, event_count),
                ..old(self)@
            }),
            !old(self)@.active ==> final(self)@ == old(self)@,
    {
        if self.active {
            if event_count != 0 {
                self.barrier_events = self.barrier_events.saturating_add(event_count);
            }
            self.record_satb_handles(old_handles);
        }
    }

    /// Marks the buffered SATB handles (those inside the object table) and
    /// empties the buffer; an empty buffer is left alone.
    pub fn absorb_satb(&mut self, heap: &mut MarkHeap, good: ZColor)
        requires
            marking_inv(old(self)@, old(heap)@, good),
        ensures
            marking_inv(final(self)@, final(heap)@, good),
            same_objects(old(heap)@, final(heap)@),
            final(self)@.satb.len() == 0,
            forall|k: int|
                0 <= k < old(self)@.satb.len() && old(heap)@.is_live(#[trigger] old(self)@.satb[k] as int)
                    ==> spec_is_marked(final(self)@.bits, old(self)@.satb[k]),
            final(self)@.bits.len() == old(self)@.bits.len(),
            forall|g: int| 0 <= g < old(self)@.bits.len() && #[trigger] old(self)@.bits[g] ==> final(self)@.bits[g],
            final(self)@.satb_flushes == if old(self)@.satb.len() == 0 {
                old(self)@.satb_flushes
            } else {
                sat_inc(old(self)@.satb_flushes, 1)
            },
            final(self)@.active == old(self)@.active,
            final(self)@.barrier_events == old(self)@.barrier_events,
    {
        if self.satb_handles.len() == 0 {
            return;
        }
        self.satb_flushes = self.satb_flushes.saturating_add(1);
        let count = heap.entries.len();
        let mut handles: Vec<Handle> = Vec::new();
        std::mem::swap(&mut handles, &mut self.satb_handles);
        self.push_handles(heap, count, good, &handles);
    }

    /// One incremental marking step: marks the SATB handles, then scans
    /// within the budget.
    pub fn drain_incremental(
        &mut self,
        heap: &mut MarkHeap,
        good: ZColor,
        work_bytes: usize,
        deadline: &Instant,
    ) -> (r: MarkStep)
        requires
            marking_inv(old(self)@, old(heap)@, good),
        ensures
            marking_inv(final(self)@, final(heap)@, good),
            same_objects(old(heap)@, final(heap)@),
            final(self)@.satb.len() == 0,
            final(self)@.bits.len() == old(self)@.bits.len(),
            forall|g: int| 0 <= g < old(self)@.bits.len() && #[trigger] old(self)@.bits[g] ==> final(self)@.bits[g],
            r == if final(self)@.worklist.len() == 0 {
                MarkStep::ReadyForMarkEnd
            } else {
                MarkStep::Progress {
                    remaining_estimate: sat_mul(final(self)@.worklist.len() as usize, 64),
                }
            },
    {
        let ghost heap0 = heap@;
        self.absorb_satb(heap, good);
        let ghost heap1 = heap@;
        self.drain_budget(heap, good, work_bytes, Some(deadline));
        proof {
            assert(same_objects(heap0, heap@)) by {
                assert forall|k: int| 0 <= k < heap0.entries.len() implies (#[trigger] heap0.entries[k]
                    != 0) == (heap@.entries[k] != 0) && word_ptr(heap0.entries[k]) == word_ptr(
                    heap@.entries[k],
                ) by {
                    assert(heap1.entries[k] == heap1.entries[k]);
                }
            }
        }
        if self.worklist.len() == 0 {
            MarkStep::ReadyForMarkEnd
        } else {
            let estimate = match self.worklist.len().checked_mul(64) {
                Some(v) => v,
                None => usize::MAX,
            };
            MarkStep::Progress { remaining_estimate: estimate }
        }
    }

} // ZMarkState

/// What an incremental marking step leaves.
#[derive(Debug, Clone, Copy, PartialEq, Eq, Structural)]
pub enum MarkStep {
    Progress { remaining_estimate: usize },
    ReadyForMarkEnd,
}

pub open spec fn sat_inc(a: usize, b: usize) -> usize {
    if a + b > usize::MAX {
        usize::MAX
    } else {
        (a + b) as usize
    }
}

pub open spec fn sat_mul(a: usize, b: usize) -> usize {
    if a * b > usize::MAX {
        usize::MAX
    } else {
        (a * b) as usize
    }
}

proof fn lemma_popcount_is_marked_count(bits: Seq<bool>)
    ensures
        crate::mark::spec_popcount(bits, bits.len()) == spec_marked_count(bits),
{
    lemma_popcount_prefix(bits, bits.len());
    assert(bits.subrange(0, bits.len() as int) =~= bits);
}

proof fn lemma_popcount_prefix(bits: Seq<bool>, n: nat)
    requires
        n <= bits.len(),
    ensures
        crate::mark::spec_popcount(bits, n) == spec_marked_count(bits.subrange(0, n as int)),
    decreases n,
{
    if n > 0 {
        lemma_popcount_prefix(bits, (n - 1) as nat);
        assert(bits.subrange(0, n as int).drop_last() =~= bits.subrange(0, n - 1));
    }
    else {
        assert(bits.subrange(0, 0) =~= Seq::<bool>::empty());
    }
}

/// Number of set bits.
pub open spec fn spec_marked_count(bits: Seq<bool>) -> nat
    decreases bits.len(),
{
    if bits.len() == 0 {
        0
    } else {
        spec_marked_count(bits.drop_last()) + if bits.last() {
            1nat
        } else {
            0nat
        }
    }
}

proof fn lemma_marked_count_bound(bits: Seq<bool>)
    ensures
        spec_marked_count(bits) <= bits.len(),
    decreases bits.len(),
{
    if bits.len() > 0 {
        lemma_marked_count_bound(bits.drop_last());
    }
}

/// Setting bits never lowers the count, and setting a clear bit raises it.
proof fn lemma_marked_count_monotone(a: Seq<bool>, b: Seq<bool>)
    requires
        a.len() == b.len(),
        forall|g: int| 0 <= g < a.len() && #[trigger] a[g] ==> b[g],
    ensures
        spec_marked_count(a) <= spec_marked_count(b),
        (exists|g: int| 0 <= g < a.len() && !a[g] && b[g]) ==> spec_marked_count(a) < spec_marked_count(b),
    decreases a.len(),
{
    if a.len() > 0 {
        lemma_marked_count_monotone(a.drop_last(), b.drop_last());
        if exists|g: int| 0 <= g < a.len() && !a[g] && b[g] {
            let g = choose|g: int| 0 <= g < a.len() && !a[g] && b[g];
            if g < a.len() - 1 {
                assert(!a.drop_last()[g] && b.drop_last()[g]);
            }
        }
    }
}

proof fn lemma_remove_no_duplicates(w: Seq<Handle>, idx: int)
    requires
        w.no_duplicates(),
        0 <= idx < w.len(),
    ensures
        w.remove(idx).no_duplicates(),
        !w.remove(idx).contains(w[idx]),
{
    let r = w.remove(idx);
    assert forall|a: int, b: int| 0 <= a < r.len() && 0 <= b < r.len() && a != b implies r[a] != r[b] by {
        let a0 = if a < idx { a } else { a + 1 };
        let b0 = if b < idx { b } else { b + 1 };
        assert(r[a] == w[a0] && r[b] == w[b0]);
    }
    if r.contains(w[idx]) {
        let k = choose|k: int| 0 <= k < r.len() && r[k] == w[idx];
        let k0 = if k < idx { k } else { k + 1 };
        assert(r[k] == w[k0]);
    }
}

/// A copy of a handle list.
fn copy_handles(v: &Vec<Handle>) -> (r: Vec<Handle>)
    ensures
        r@ == v@,
{
    let mut r: Vec<Handle> = Vec::new();
    let mut i: usize = 0;
    while i < v.len()
        invariant
            i <= v@.len(),
            r@ == v@.subrange(0, i as int),
        decreases v@.len() - i,
    {
        r.push(v[i]);
        i += 1;
        proof {
            assert(r@ =~= v@.subrange(0, i as int));
        }
    }
    proof {
        assert(r@ =~= v@);
    }
    r
}

/// The live objects at mark end, in handle order: every nonempty entry
/// among the first `n` whose address lies in the paged heap and whose size
/// is known.
pub open spec fn spec_mark_objects(heap: MarkHeapView, start: usize, n: nat) -> Seq<MarkObject>
    decreases n,
{
    if n == 0 {
        Seq::empty()
    } else {
        let prev = spec_mark_objects(heap, start, (n - 1) as nat);
        let h = n - 1;
        let e = spec_entry_from_raw(heap.entries[h]);
        if e == 0 || (word_ptr(e) as usize) < start || heap.sizes[h] is None {
            prev
        } else {
            prev.push(
                MarkObject {
                    handle: h as Handle,
                    ptr: word_ptr(e) as usize,
                    size: heap.sizes[h].unwrap(),
                    color: word_color(e),
                },
            )
        }
    }
}

/// Reads the live objects out of the object table.
pub fn collect_mark_objects(heap: &MarkHeap, pages: &ZPageSpace) -> (r: Vec<MarkObject>)
    requires
        heap@.wf(),
    ensures
        r@ == spec_mark_objects(heap@, pages@.dynamic_start, heap@.entries.len()),
{
    let mut out: Vec<MarkObject> = Vec::new();
    let n = heap.entries.len();
    let mut i: usize = 0;
    while i < n
        invariant
            heap@.wf(),
            n == heap@.entries.len(),
            i <= n,
            out@ == spec_mark_objects(heap@, pages@.dynamic_start, i as nat),
        decreases n - i,
    {
        let entry = ZEntry::from_raw(heap.entries[i]);
        if !entry.is_empty() {
            let ptr = entry.ptr() as usize;
            if pages.page_index(ptr).is_some() {
                match heap.sizes[i] {
                    Some(size) => {
                        out.push(MarkObject { handle: i as Handle, ptr, size, color: entry.color() });
                    },
                    None => {},
                }
            }
        }
        i += 1;
    }
    out
}

/// A page's metadata once mark end has stored its live bytes.
pub open spec fn page_with_live(p: ZPageMeta, bytes: usize) -> ZPageMeta {
    ZPageMeta {
        live_bytes: bytes,
        kind: if bytes != 0 && p.kind == ZPageKind::Free {
            ZPageKind::Active
        } else {
            p.kind
        },
        ..p
    }
}

/// A page at the end of mark end: its live bytes stored, then reclaimed
/// when it holds none.
pub open spec fn page_after_cleanup(p: ZPageMeta, bytes: usize) -> ZPageMeta {
    let q = page_with_live(p, bytes);
    if is_dead_page(q) {
        fresh_page(ZPageKind::Free)
    } else {
        q
    }
}

/// What mark end reports.
#[derive(Debug)]
pub struct MarkSummary {
    /// Handles that stay live.
    pub marked: usize,
    /// Handles released, in increasing order; published for reuse last.
    pub dead_handles: Vec<Handle>,
    pub freed_bytes: usize,
    /// Pages that held no live byte and were returned to the free pool.
    pub reclaimed_pages: Vec<usize>,
    pub satb_flushes: usize,
    pub barrier_events: usize,
}

/// Mark end from the heap `heap`, the pages `v` and the mark bits `bits`
/// left `r`, `heap2` and `v2`: the summary, heap and pages of the mark-end
/// plan (dead handles emptied, live bytes recounted, dead pages reclaimed,
/// and the epoch advanced when anything was released).
pub open spec fn mark_end_outcome(
    heap: MarkHeapView,
    v: ZPageSpaceView,
    bits: Seq<bool>,
    good: ZColor,
    r: MarkSummary,
    heap2: MarkHeapView,
    v2: ZPageSpaceView,
) -> bool {
    let plan = mark_end_plan(heap, v, bits, good);
    &&& r.dead_handles@ == plan.dead_handles
    &&& r.freed_bytes == plan.freed_bytes
    &&& r.marked == plan.live_handles
    &&& heap2.entries == entries_without(heap.entries, plan.dead_handles)
    &&& heap2.children == heap.children
    &&& heap2.sizes == heap.sizes
    &&& heap2.gc_epoch == if r.dead_handles@.len() > 0 || r.reclaimed_pages@.len() > 0 {
        heap.gc_epoch.wrapping_add(1)
    } else {
        heap.gc_epoch
    }
    &&& v2.dynamic_start == v.dynamic_start
    &&& v2.pages.len() == v.pages.len()
    &&& forall|j: int|
        0 <= j < v.pages.len() ==> #[trigger] v2.pages[j] == page_after_cleanup(v.pages[j], plan.live_by_page[j])
    &&& r.reclaimed_pages@ == indices_where(
        v.pages.len(),
        |j: int| is_dead_page(page_with_live(v.pages[j], plan.live_by_page[j])),
    )
}

/// `heap1` and `bits` are what draining the marker `s` over `heap` leaves:
/// the same objects, the old marks and the live SATB handles kept, the
/// marker's invariant holding with nothing left to scan, and the marked set
/// closed under references.
pub open spec fn drained_for_mark_end(
    s: ZMarkView,
    heap: MarkHeapView,
    bits: Seq<bool>,
    heap1: MarkHeapView,
    good: ZColor,
) -> bool {
    let d = ZMarkView { bits, worklist: Seq::empty(), satb: Seq::empty(), ..s };
    &&& same_objects(heap, heap1)
    &&& bits.len() == s.bits.len()
    &&& forall|g: int| 0 <= g < s.bits.len() && #[trigger] s.bits[g] ==> bits[g]
    &&& forall|k: int|
        0 <= k < s.satb.len() && heap.is_live(#[trigger] s.satb[k] as int) ==> spec_is_marked(bits, s.satb[k])
    &&& marking_inv(d, heap1, good)
    &&& marking_complete(d, heap1)
}

/// The entries with every handle of `dead` emptied.
pub open spec fn entries_without(entries: Seq<u32>, dead: Seq<Handle>) -> Seq<u32> {
    Seq::new(entries.len(), |h: int| if dead.contains(h as Handle) { 0u32 } else { entries[h] })
}

/// Empties the object-table slots of the dead handles.
fn clear_dead_slots(heap: &mut MarkHeap, dead: &Vec<Handle>)
    requires
        old(heap)@.wf(),
    ensures
        final(heap)@ == (MarkHeapView { entries: entries_without(old(heap)@.entries, dead@), ..old(heap)@ }),
{
    let ghost heap0 = heap@;
    let mut k: usize = 0;
    proof {
        assert(entries_without(heap0.entries, dead@.subrange(0, 0)) =~= heap0.entries);
    }
    while k < dead.len()
        invariant
            heap0.wf(),
            k <= dead@.len(),
            heap@ == (MarkHeapView { entries: entries_without(heap0.entries, dead@.subrange(0, k as int)), ..heap0 }),
        decreases dead@.len() - k,
    {
        let h = dead[k] as usize;
        if h < heap.entries.len() {
            heap.entries.set(h, 0);
        }
        k += 1;
        proof {
            let pre = dead@.subrange(0, k - 1);
            let post = dead@.subrange(0, k as int);
            assert forall|g: int| 0 <= g < heap0.entries.len() implies #[trigger] post.contains(g as Handle)
                == (pre.contains(g as Handle) || g as Handle == dead@[k - 1]) by {
                if post.contains(g as Handle) {
                    let j = choose|j: int| 0 <= j < post.len() && post[j] == g as Handle;
                    if j < k - 1 {
                        assert(pre[j] == g as Handle);
                    }
                }
                if pre.contains(g as Handle) {
                    let j = choose|j: int| 0 <= j < pre.len() && pre[j] == g as Handle;
                    assert(post[j] == g as Handle);
                }
                if g as Handle == dead@[k - 1] {
                    assert(post[k - 1] == g as Handle);
                }
            }
            assert forall|g: int| 0 <= g < heap0.entries.len() implies #[trigger] heap@.entries[g]
                == entries_without(heap0.entries, post)[g] by {
                assert(heap0.entries.len() <= 0x1_0000_0000);
                assert((g as Handle == dead@[k - 1]) == (g == h));
            }
            assert(heap@.entries =~= entries_without(heap0.entries, post));
            assert(heap@.children =~= heap0.children);
        }
    }
    proof {
        assert(dead@.subrange(0, dead@.len() as int) =~= dead@);
    }
}

/// The cleanup plan of mark end: the live objects of `heap` split by the
/// marks `bits` and the good color.
pub open spec fn mark_end_plan(heap: MarkHeapView, pages: ZPageSpaceView, bits: Seq<bool>, good: ZColor) -> CleanupPlanView {
    let objs = spec_mark_objects(heap, pages.dynamic_start, heap.entries.len());
    spec_cleanup_plan(objs, objs.len(), pages, bits, good)
}

proof fn lemma_plan_pages_len(objs: Seq<MarkObject>, n: nat, v: ZPageSpaceView, bits: Seq<bool>, good: ZColor)
    requires
        n <= objs.len(),
    ensures
        spec_cleanup_plan(objs, n, v, bits, good).live_by_page.len() == v.pages.len(),
    decreases n,
{
    if n > 0 {
        lemma_plan_pages_len(objs, (n - 1) as nat, v, bits, good);
    }
}

impl ZMarkState {
    /// Mark end: splits the live objects into survivors (marked, or already
    /// of the good color) and dead handles, stores each page's live bytes and
    /// reclaims the pages left empty, empties the dead handles' slots, and
    /// ends the cycle. The caller then cleans the tables that may still name
    /// the dead handles and publishes them for reuse last.
    pub fn cleanup(&mut self, heap: &mut MarkHeap, pages: &mut ZPageSpace, good: ZColor) -> (r: MarkSummary)
        requires
            old(heap)@.wf(),
        ensures
            r.dead_handles@ == mark_end_plan(old(heap)@, old(pages)@, old(self)@.bits, good).dead_handles,
            r.freed_bytes == mark_end_plan(old(heap)@, old(pages)@, old(self)@.bits, good).freed_bytes,
            r.marked == mark_end_plan(old(heap)@, old(pages)@, old(self)@.bits, good).live_handles,
            final(heap)@.entries == entries_without(
                old(heap)@.entries,
                mark_end_plan(old(heap)@, old(pages)@, old(self)@.bits, good).dead_handles,
            ),
            final(heap)@.children == old(heap)@.children,
            final(heap)@.sizes == old(heap)@.sizes,
            final(heap)@.gc_epoch == if r.dead_handles@.len() > 0 || r.reclaimed_pages@.len() > 0 {
                old(heap)@.gc_epoch.wrapping_add(1)
            } else {
                old(heap)@.gc_epoch
            },
            final(pages)@.dynamic_start == old(pages)@.dynamic_start,
            final(pages)@.pages.len() == old(pages)@.pages.len(),
            forall|j: int|
                0 <= j < old(pages)@.pages.len() ==> #[trigger] final(pages)@.pages[j] == page_after_cleanup(
                    old(pages)@.pages[j],
                    mark_end_plan(old(heap)@, old(pages)@, old(self)@.bits, good).live_by_page[j],
                ),
            r.reclaimed_pages@ == indices_where(
                old(pages)@.pages.len(),
                |j: int|
                    is_dead_page(
                        page_with_live(
                            old(pages)@.pages[j],
                            mark_end_plan(old(heap)@, old(pages)@, old(self)@.bits, good).live_by_page[j],
                        ),
                    ),
            ),
            r.satb_flushes == old(self)@.satb_flushes,
            r.barrier_events == old(self)@.barrier_events,
            final(self)@ == (ZMarkView { active: false, worklist: Seq::empty(), satb: Seq::empty(), ..old(self)@ }),
            mark_end_outcome(old(heap)@, old(pages)@, old(self)@.bits, good, r, final(heap)@, final(pages)@),
    {
        let ghost plan_spec = mark_end_plan(heap@, pages@, self@.bits, good);
        let ghost pages0 = pages@;
        let objects = collect_mark_objects(heap, pages);
        let plan = build_cleanup_plan(objects.as_slice(), pages, &self.mark_bits, good);
        proof {
            lemma_plan_pages_len(objects@, objects@.len(), pages0, self@.bits, good);
        }
        pages.reset_live_bytes();
        let live = plan.live_by_page;
        let mut idx: usize = 0;
        while idx < live.len()
            invariant
                live@ == plan_spec.live_by_page,
                live@.len() == pages0.pages.len(),
                idx <= live@.len(),
                pages@.dynamic_start == pages0.dynamic_start,
                pages@.pages.len() == pages0.pages.len(),
                forall|j: int|
                    0 <= j < pages0.pages.len() ==> #[trigger] pages@.pages[j] == if j < idx {
                        page_with_live(pages0.pages[j], live@[j])
                    } else {
                        ZPageMeta { live_bytes: 0, ..pages0.pages[j] }
                    },
            decreases live@.len() - idx,
        {
            pages.set_live_bytes(idx, live[idx]);
            idx += 1;
        }
        let ghost mid = pages@;
        let reclaimed = pages.reclaim_dead_pages();
        proof {
            assert forall|j: int| 0 <= j < pages0.pages.len() implies #[trigger] mid.pages[j] == page_with_live(
                pages0.pages[j],
                live@[j],
            ) by {}
            assert(reclaimed@ =~= indices_where(
                pages0.pages.len(),
                |j: int| is_dead_page(page_with_live(pages0.pages[j], plan_spec.live_by_page[j])),
            )) by {
                lemma_indices_where_ext(
                    pages0.pages.len(),
                    |j: int| is_dead_page(mid.pages[j]),
                    |j: int| is_dead_page(page_with_live(pages0.pages[j], plan_spec.live_by_page[j])),
                );
            }
        }
        let dead = plan.dead_handles;
        clear_dead_slots(heap, &dead);
        if dead.len() > 0 || reclaimed.len() > 0 {
            heap.gc_epoch = heap.gc_epoch.wrapping_add(1);
        }
        self.active = false;
        self.worklist.clear();
        self.satb_handles.clear();
        MarkSummary {
            marked: plan.live_handles,
            dead_handles: dead,
            freed_bytes: plan.freed_bytes,
            reclaimed_pages: reclaimed,
            satb_flushes: self.satb_flushes,
            barrier_events: self.barrier_events,
        }
    }

    /// The end of marking as the final pause runs it: the barrier buffer
    /// (read by `barrier_flush` as its event count and the handles its old
    /// values reference) is flushed and marked; `roots` are marked, then the
    /// host-table roots that `host_roots` reports for the current marks,
    /// round after round until a round marks nothing new; the buffer is
    /// flushed once more, and marking finishes with
    /// `finish_after_barrier_flush`.
    pub fn finish_marking<H, B>(
        &mut self,
        heap: &mut MarkHeap,
        pages: &mut ZPageSpace,
        good: ZColor,
        roots: &Vec<Handle>,
        host_roots: &H,
        barrier_flush: &B,
    ) -> (r: MarkSummary) where H: Fn(&ZMarkState) -> Vec<Handle>, B: Fn() -> (usize, Vec<Handle>)
        requires
            marking_inv(old(self)@, old(heap)@, good),
            forall|s: &ZMarkState| #[trigger] host_roots.requires((s,)),
            barrier_flush.requires(()),
        ensures
            !final(self)@.active,
            final(self)@.worklist.len() == 0,
            final(self)@.satb.len() == 0,
            forall|g: int| 0 <= g < old(self)@.bits.len() && #[trigger] old(self)@.bits[g] ==> final(self)@.bits[g],
            forall|k: int|
                0 <= k < roots@.len() && old(heap)@.is_live(#[trigger] roots@[k] as int) ==> spec_is_marked(
                    final(self)@.bits,
                    roots@[k],
                ),
            forall|k: int|
                0 <= k < old(self)@.satb.len() && old(heap)@.is_live(#[trigger] old(self)@.satb[k] as int)
                    ==> spec_is_marked(final(self)@.bits, old(self)@.satb[k]),
            forall|k: int| 0 <= k < r.dead_handles@.len() ==> !spec_is_marked(final(self)@.bits, #[trigger] r.dead_handles@[k]),
            exists|m: ZMarkView, hm: MarkHeapView, heap1: MarkHeapView|
                {
                    &&& same_objects(old(heap)@, hm)
                    &&& marking_inv(m, hm, good)
                    &&& forall|g: int| 0 <= g < old(self)@.bits.len() && #[trigger] old(self)@.bits[g] ==> m.bits[g]
                    &&& #[trigger] drained_for_mark_end(m, hm, final(self)@.bits, heap1, good)
                    &&& mark_end_outcome(heap1, old(pages)@, final(self)@.bits, good, r, final(heap)@, final(pages)@)
                },
            final(pages)@.dynamic_start == old(pages)@.dynamic_start,
            final(pages)@.pages.len() == old(pages)@.pages.len(),
    {
        let ghost s0 = self@;
        let ghost heap0 = heap@;
        let (events, handles) = barrier_flush();
        self.record_barrier_events(events, &handles);
        let ghost sat1 = self@.satb;
        let ghost heap_r = heap@;
        self.absorb_satb(heap, good);
        let ghost bits1 = self@.bits;
        let ghost heap_s = heap@;
        proof {
            assert forall|k: int|
                0 <= k < s0.satb.len() && heap0.is_live(#[trigger] s0.satb[k] as int) implies spec_is_marked(
                bits1,
                s0.satb[k],
            ) by {
                assert(sat1[k] == s0.satb[k]);
            }
        }
        self.drain_all(heap, good);
        let ghost heap_a = heap@;
        proof {
            lemma_same_objects_trans(heap0, heap_s, heap_a);
        }
        self.mark_roots_round(heap, roots, good);
        proof {
            lemma_same_objects_trans(heap0, heap_a, heap@);
        }
        loop
            invariant
                marking_inv(self@, heap@, good),
                same_objects(heap0, heap@),
                self@.bits.len() == s0.bits.len(),
                forall|g: int| 0 <= g < s0.bits.len() && #[trigger] s0.bits[g] ==> self@.bits[g],
                forall|k: int|
                    0 <= k < roots@.len() && heap0.is_live(#[trigger] roots@[k] as int) ==> spec_is_marked(
                        self@.bits,
                        roots@[k],
                    ),
                forall|k: int|
                    0 <= k < s0.satb.len() && heap0.is_live(#[trigger] s0.satb[k] as int) ==> spec_is_marked(
                        self@.bits,
                        s0.satb[k],
                    ),
                forall|s: &ZMarkState| #[trigger] host_roots.requires((s,)),
                barrier_flush.requires(()),
            decreases self@.bits.len() - spec_marked_count(self@.bits),
        {
            let extra = host_roots(&*self);
            let ghost before = self@.bits;
            let ghost heap_b = heap@;
            proof {
                lemma_marked_count_bound(before);
            }
            let changed = self.mark_roots_round(heap, &extra, good);
            proof {
                lemma_same_objects_trans(heap0, heap_b, heap@);
                lemma_marked_count_bound(self@.bits);
                if changed {
                    let g = choose|g: int| 0 <= g < before.len() && self@.bits[g] != before[g];
                    if !(0 <= g < before.len() && self@.bits[g] != before[g]) {
                        assert(self@.bits =~= before);
                    }
                    assert(!before[g] && self@.bits[g]);
                }
                lemma_marked_count_monotone(before, self@.bits);
            }
            if !changed {
                break;
            }
        }
        let (events2, handles2) = barrier_flush();
        self.record_barrier_events(events2, &handles2);
        let ghost m = self@;
        let ghost hm = heap@;
        let r = self.finish_after_barrier_flush(heap, pages, good);
        proof {
            let heap1 = choose|heap1: MarkHeapView|
                #[trigger] drained_for_mark_end(m, hm, self@.bits, heap1, good) && mark_end_outcome(
                    heap1,
                    old(pages)@,
                    self@.bits,
                    good,
                    r,
                    heap@,
                    pages@,
                );
            assert(drained_for_mark_end(m, hm, self@.bits, heap1, good));
        }
        r
    }

    /// The end of marking once the barrier buffer was flushed: marks the
    /// remaining SATB handles, scans to completion, then runs mark end
    /// (`cleanup`). The summary, heap and pages are those of mark end from
    /// the drained state.
    pub fn finish_after_barrier_flush(&mut self, heap: &mut MarkHeap, pages: &mut ZPageSpace, good: ZColor) -> (r: MarkSummary)
        requires
            marking_inv(old(self)@, old(heap)@, good),
        ensures
            !final(self)@.active,
            final(self)@.worklist.len() == 0,
            final(self)@.satb.len() == 0,
            final(self)@.barrier_events == old(self)@.barrier_events,
            final(self)@.satb_flushes == if old(self)@.satb.len() == 0 {
                old(self)@.satb_flushes
            } else {
                sat_inc(old(self)@.satb_flushes, 1)
            },
            r.satb_flushes == final(self)@.satb_flushes,
            r.barrier_events == final(self)@.barrier_events,
            exists|heap1: MarkHeapView|
                #[trigger] drained_for_mark_end(old(self)@, old(heap)@, final(self)@.bits, heap1, good)
                    && mark_end_outcome(heap1, old(pages)@, final(self)@.bits, good, r, final(heap)@, final(pages)@),
            forall|k: int|
                0 <= k < old(self)@.satb.len() && old(heap)@.is_live(#[trigger] old(self)@.satb[k] as int)
                    ==> spec_is_marked(final(self)@.bits, old(self)@.satb[k]),
            forall|g: int| 0 <= g < old(self)@.bits.len() && #[trigger] old(self)@.bits[g] ==> final(self)@.bits[g],
            forall|k: int| 0 <= k < r.dead_handles@.len() ==> !spec_is_marked(final(self)@.bits, #[trigger] r.dead_handles@[k]),
            final(pages)@.dynamic_start == old(pages)@.dynamic_start,
            final(pages)@.pages.len() == old(pages)@.pages.len(),
    {
        let ghost s0 = self@;
        let ghost heap0 = heap@;
        self.absorb_satb(heap, good);
        let ghost heap_a = heap@;
        self.drain_all(heap, good);
        let ghost bits = self@.bits;
        let ghost heap1 = heap@;
        let ghost pages1 = pages@;
        proof {
            assert(same_objects(heap0, heap1)) by {
                assert forall|k: int| 0 <= k < heap0.entries.len() implies (#[trigger] heap0.entries[k]
                    != 0) == (heap1.entries[k] != 0) && word_ptr(heap0.entries[k]) == word_ptr(
                    heap1.entries[k],
                ) by {
                    assert(heap_a.entries[k] == heap_a.entries[k]);
                }
            }
            assert(self@.worklist =~= Seq::<Handle>::empty());
            assert(self@.satb =~= Seq::<Handle>::empty());
            assert(drained_for_mark_end(s0, heap0, bits, heap1, good));
        }
        let r = self.cleanup(heap, pages, good);
        proof {
            let objs = spec_mark_objects(heap1, pages1.dynamic_start, heap1.entries.len());
            law_released_handles_are_unmarked(objs, objs.len(), pages1, bits, good);
            assert(drained_for_mark_end(s0, heap0, self@.bits, heap1, good));
        }
        r
    }
}

proof fn lemma_same_objects_trans(a: MarkHeapView, b: MarkHeapView, c: MarkHeapView)
    requires
        same_objects(a, b),
        same_objects(b, c),
    ensures
        same_objects(a, c),
{
    assert forall|k: int| 0 <= k < a.entries.len() implies (#[trigger] a.entries[k] != 0) == (c.entries[k] != 0)
        && word_ptr(a.entries[k]) == word_ptr(c.entries[k]) by {
        assert(b.entries[k] == b.entries[k]);
    }
}

/// Handle `h` belongs to one of the first `n` objects, and that object is
/// unmarked and of a bad color.
pub open spec fn released_object(objs: Seq<MarkObject>, n: nat, bits: Seq<bool>, good: ZColor, h: Handle) -> bool {
    exists|i: int| 0 <= i < n && objs[i].handle == h && !object_survives(bits, good, #[trigger] objs[i])
}

/// No marked handle is released at mark end, and neither is one already
/// of the good color: every dead handle belongs to an unmarked object of a
/// bad color.
pub proof fn law_released_handles_are_unmarked(
    objs: Seq<MarkObject>,
    n: nat,
    v: ZPageSpaceView,
    bits: Seq<bool>,
    good: ZColor,
)
    requires
        n <= objs.len(),
    ensures
        forall|k: int|
            0 <= k < spec_cleanup_plan(objs, n, v, bits, good).dead_handles.len() ==> released_object(
                objs,
                n,
                bits,
                good,
                #[trigger] spec_cleanup_plan(objs, n, v, bits, good).dead_handles[k],
            ),
        forall|k: int|
            0 <= k < spec_cleanup_plan(objs, n, v, bits, good).dead_handles.len() ==> !spec_is_marked(
                bits,
                #[trigger] spec_cleanup_plan(objs, n, v, bits, good).dead_handles[k],
            ),
    decreases n,
{
    if n > 0 {
        law_released_handles_are_unmarked(objs, (n - 1) as nat, v, bits, good);
        let prev = spec_cleanup_plan(objs, (n - 1) as nat, v, bits, good);
        let cur = spec_cleanup_plan(objs, n, v, bits, good);
        assert forall|k: int| 0 <= k < cur.dead_handles.len() implies released_object(
            objs,
            n,
            bits,
            good,
            #[trigger] cur.dead_handles[k],
        ) by {
            if k < prev.dead_handles.len() {
                assert(cur.dead_handles[k] == prev.dead_handles[k]);
                assert(released_object(objs, (n - 1) as nat, bits, good, prev.dead_handles[k]));
                let i = choose|i: int|
                    0 <= i < n - 1 && objs[i].handle == prev.dead_handles[k] && !object_survives(
                        bits,
                        good,
                        #[trigger] objs[i],
                    );
                assert(0 <= i < n && objs[i].handle == cur.dead_handles[k]);
            } else {
                assert(cur.dead_handles[k] == objs[n - 1].handle);
                assert(!object_survives(bits, good, objs[n - 1]));
            }
        }
        assert forall|k: int| 0 <= k < cur.dead_handles.len() implies !spec_is_marked(
            bits,
            #[trigger] cur.dead_handles[k],
        ) by {
            assert(released_object(objs, n, bits, good, cur.dead_handles[k]));
            let i = choose|i: int|
                0 <= i < n && objs[i].handle == cur.dead_handles[k] && !object_survives(
                    bits,
                    good,
                    #[trigger] objs[i],
                );
        }
    }
}

/// Every unmarked object of a bad color among the first `n` is released:
/// its handle is in the dead-handle list.
pub proof fn law_unmarked_bad_objects_are_released(
    objs: Seq<MarkObject>,
    n: nat,
    v: ZPageSpaceView,
    bits: Seq<bool>,
    good: ZColor,
)
    requires
        n <= objs.len(),
    ensures
        forall|i: int|
            0 <= i < n && !object_survives(bits, good, #[trigger] objs[i]) ==> spec_cleanup_plan(
                objs,
                n,
                v,
                bits,
                good,
            ).dead_handles.contains(objs[i].handle),
    decreases n,
{
    if n > 0 {
        law_unmarked_bad_objects_are_released(objs, (n - 1) as nat, v, bits, good);
        let prev = spec_cleanup_plan(objs, (n - 1) as nat, v, bits, good);
        let cur = spec_cleanup_plan(objs, n, v, bits, good);
        assert forall|i: int| 0 <= i < n && !object_survives(bits, good, #[trigger] objs[i]) implies cur.dead_handles.contains(
            objs[i].handle,
        ) by {
            if i < n - 1 {
                let k = choose|k: int| 0 <= k < prev.dead_handles.len() && prev.dead_handles[k] == objs[i].handle;
                assert(cur.dead_handles[k] == prev.dead_handles[k]);
            } else {
                assert(cur.dead_handles[prev.dead_handles.len() as int] == objs[i].handle);
            }
        }
    }
}

/// `path` follows references: each handle after the first is a child of
/// the one before it, and names a live entry.
pub open spec fn is_reference_path(heap: MarkHeapView, path: Seq<Handle>) -> bool {
    forall|k: int|
        1 <= k < path.len() ==> heap.is_live(#[trigger] path[k] as int) && 0 <= path[k - 1]
            < heap.children.len() && heap.children[path[k - 1] as int].contains(path[k])
}

/// Once marking is complete, everything reachable from a marked handle is
/// marked: the end of any reference path that starts at a marked handle is
/// marked.
pub proof fn law_reachable_objects_are_marked(s: ZMarkView, heap: MarkHeapView, path: Seq<Handle>)
    requires
        marking_complete(s, heap),
        s.bits.len() == heap.entries.len(),
        path.len() > 0,
        spec_is_marked(s.bits, path[0]),
        is_reference_path(heap, path),
    ensures
        spec_is_marked(s.bits, path[path.len() - 1]),
    decreases path.len(),
{
    if path.len() > 1 {
        let prefix = path.drop_last();
        assert forall|k: int| 1 <= k < prefix.len() implies heap.is_live(#[trigger] prefix[k] as int) && 0
            <= prefix[k - 1] < heap.children.len() && heap.children[prefix[k - 1] as int].contains(prefix[k]) by {
            assert(prefix[k - 1] == path[k - 1] && prefix[k] == path[k]);
        }
        law_reachable_objects_are_marked(s, heap, prefix);
        let n = path.len();
        let h = path[n - 2];
        let c = path[n - 1];
        assert(heap.is_live(path[n - 1] as int));
        assert(heap.children[h as int].contains(c));
        let i = choose|i: int| 0 <= i < heap.children[h as int].len() && heap.children[h as int][i] == c;
        assert(s.bits[h as int]);
        assert(heap.is_live(heap.children[h as int][i] as int));
    }
}

} // verus!
