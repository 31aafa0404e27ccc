//! Mark-end bookkeeping of the ZGC: the mark bitmap, the cleanup plan that
//! splits the object table into live and dead handles, the per-page
//! live-byte accounting of the live objects, and the decoding of the
//! overwritten words the store barrier leaves in its buffer.

use vstd::prelude::*;

use crate::color::{ZColor, ZEntry, spec_entry_from_raw};
use crate::page::{ZPAGE_SIZE, ZPageSpace, ZPageSpaceView, range_bytes_on_page, sat_add, page_lo, page_hi, overlap, lemma_page_of, lemma_chunk_step, range_end};

verus! {

/// Index of an object-table entry.
pub type Handle = u32;

/// One mark bit per object-table handle.
#[derive(Debug, Clone)]
pub struct MarkBitmap {
    bits: Vec<bool>,
}

impl View for MarkBitmap {
    type V = Seq<bool>;

    closed spec fn view(&self) -> Seq<bool> {
        self.bits@
    }
}

pub open spec fn spec_is_marked(bits: Seq<bool>, h: Handle) -> bool {
    (h as int) < bits.len() && bits[h as int]
}

/// Number of set bits among the first `n`.
pub open spec fn spec_popcount(bits: Seq<bool>, n: nat) -> nat
    decreases n,
{
    if n == 0 {
        0
    } else {
        spec_popcount(bits, (n - 1) as nat) + if bits[n - 1] {
            1nat
        } else {
            0nat
        }
    }
}

impl MarkBitmap {
    pub fn new() -> (r: MarkBitmap)
        ensures
            r@ == Seq::<bool>::empty(),
    {
        MarkBitmap { bits: Vec::new() }
    }

    /// Clears the bitmap and sizes it for `count` handles.
    pub fn reset(&mut self, count: usize)
        ensures
            final(self)@ == Seq::new(count as nat, |i: int| false),
    {
        let mut bits: Vec<bool> = Vec::new();
        let mut i: usize = 0;
        while i < count
            invariant
                i <= count,
                bits@ == Seq::new(i as nat, |k: int| false),
            decreases count - i,
        {
            bits.push(false);
            i += 1;
            proof {
                assert(bits@ =~= Seq::new(i as nat, |k: int| false));
            }
        }
        self.bits = bits;
    }

    /// Sets the bit of `h`; a handle past the bitmap is ignored.
    pub fn mark(&mut self, h: Handle)
        ensures
            final(self)@ == if (h as int) < old(self)@.len() {
                old(self)@.update(h as int, true)
            } else {
                old(self)@
            },
    {
        let i = h as usize;
        if i < self.bits.len() {
            self.bits.set(i, true);
        }
    }

    pub fn is_marked(&self, h: Handle) -> (r: bool)
        ensures
            r == spec_is_marked(self@, h),
    {
        let i = h as usize;
        i < self.bits.len() && self.bits[i]
    }

    /// Sets the bit of `h` and reports whether it was clear before; a
    /// handle past the bitmap is never newly marked.
    pub fn mark_if_new(&mut self, h: Handle) -> (r: bool)
        ensures
            r == ((h as int) < old(self)@.len() && !old(self)@[h as int]),
            final(self)@ == if (h as int) < old(self)@.len() {
                old(self)@.update(h as int, true)
            } else {
                old(self)@
            },
    {
        let i = h as usize;
        if i >= self.bits.len() {
            return false;
        }
        let was = self.bits[i];
        self.bits.set(i, true);
        !was
    }

    pub fn popcount(&self) -> (r: usize)
        ensures
            r == spec_popcount(self@, self@.len()),
    {
        let mut n: usize = 0;
        let mut i: usize = 0;
        while i < self.bits.len()
            invariant
                i <= self.bits.len(),
                n == spec_popcount(self@, i as nat),
                n <= i,
            decreases self.bits.len() - i,
        {
            if self.bits[i] {
                n += 1;
            }
            i += 1;
        }
        n
    }
}

/// A live object-table entry as seen at mark end.
#[derive(Debug, Clone, Copy, PartialEq, Eq, Structural)]
pub struct MarkObject {
    pub handle: Handle,
    pub ptr: usize,
    pub size: usize,
    pub color: ZColor,
}

/// What mark end does with the object table: bytes that stay live on each
/// page, handles that die, and totals.
#[derive(Debug, Clone)]
pub struct CleanupPlan {
    pub live_by_page: Vec<usize>,
    pub dead_handles: Vec<Handle>,
    pub freed_bytes: usize,
    pub live_handles: usize,
}

pub struct CleanupPlanView {
    pub live_by_page: Seq<usize>,
    pub dead_handles: Seq<Handle>,
    pub freed_bytes: int,
    pub live_handles: int,
}

impl View for CleanupPlan {
    type V = CleanupPlanView;

    open spec fn view(&self) -> CleanupPlanView {
        CleanupPlanView {
            live_by_page: self.live_by_page@,
            dead_handles: self.dead_handles@,
            freed_bytes: self.freed_bytes as int,
            live_handles: self.live_handles as int,
        }
    }
}

/// An object survives the cycle when it was marked or already has the good
/// color.
pub open spec fn object_survives(bits: Seq<bool>, good: ZColor, o: MarkObject) -> bool {
    spec_is_marked(bits, o.handle) || o.color == good
}

/// Per-page live bytes after adding the object range `[ptr, ptr + size)`.
pub open spec fn with_live_range(out: Seq<usize>, start: usize, ptr: usize, size: usize) -> Seq<usize> {
    Seq::new(
        out.len(),
        |j: int| sat_add(out[j] as int, range_bytes_on_page(start, ptr, size, j)) as usize,
    )
}

/// The cleanup plan of the first `n` objects.
pub open spec fn spec_cleanup_plan(
    objects: Seq<MarkObject>,
    n: nat,
    v: ZPageSpaceView,
    bits: Seq<bool>,
    good: ZColor,
) -> CleanupPlanView
    decreases n,
{
    if n == 0 {
        CleanupPlanView {
            live_by_page: Seq::new(v.pages.len(), |j: int| 0usize),
            dead_handles: Seq::empty(),
            freed_bytes: 0,
            live_handles: 0,
        }
    } else {
        let prev = spec_cleanup_plan(objects, (n - 1) as nat, v, bits, good);
        let o = objects[n - 1];
        if object_survives(bits, good, o) {
            CleanupPlanView {
                live_by_page: with_live_range(prev.live_by_page, v.dynamic_start, o.ptr, o.size),
                live_handles: sat_add(prev.live_handles, 1),
                ..prev
            }
        } else {
            CleanupPlanView {
                dead_handles: prev.dead_handles.push(o.handle),
                freed_bytes: sat_add(prev.freed_bytes, o.size as int),
                ..prev
            }
        }
    }
}

/// Splits the objects into survivors and dead handles and counts the
/// survivors' bytes on each page.
pub fn build_cleanup_plan(
    objects: &[MarkObject],
    pages: &ZPageSpace,
    mark_bits: &MarkBitmap,
    good: ZColor,
) -> (r: CleanupPlan)
    ensures
        r@ == spec_cleanup_plan(objects@, objects@.len(), pages@, mark_bits@, good),
{
    let mut live_by_page: Vec<usize> = Vec::new();
    let n = pages.page_count();
    let mut k: usize = 0;
    while k < n
        invariant
            k <= n,
            n == pages@.pages.len(),
            live_by_page@ == Seq::new(k as nat, |j: int| 0usize),
        decreases n - k,
    {
        live_by_page.push(0);
        k += 1;
        proof {
            assert(live_by_page@ =~= Seq::new(k as nat, |j: int| 0usize));
        }
    }
    let mut plan = CleanupPlan { live_by_page, dead_handles: Vec::new(), freed_bytes: 0, live_handles: 0 };
    let mut i: usize = 0;
    while i < objects.len()
        invariant
            i <= objects@.len(),
            plan@ == spec_cleanup_plan(objects@, i as nat, pages@, mark_bits@, good),
            plan@.live_by_page.len() == pages@.pages.len(),
        decreases objects.len() - i,
    {
        let object = objects[i];
        let live = mark_bits.is_marked(object.handle) || object.color == good;
        if live {
            plan.live_handles = plan.live_handles.saturating_add(1);
            add_live_bytes(&mut plan.live_by_page, pages, object.ptr, object.size);
        } else {
            plan.dead_handles.push(object.handle);
            plan.freed_bytes = plan.freed_bytes.saturating_add(object.size);
        }
        proof {
            assert(plan@.live_by_page =~= spec_cleanup_plan(objects@, (i + 1) as nat, pages@, mark_bits@, good).live_by_page);
            assert(plan@.dead_handles =~= spec_cleanup_plan(objects@, (i + 1) as nat, pages@, mark_bits@, good).dead_handles);
        }
        i += 1;
    }
    plan
}

/// Adds the bytes of `[ptr, ptr + size)` that fall on each page to that
/// page's counter in `out` (saturating); pages past `out` are ignored.
pub fn add_live_bytes(out: &mut Vec<usize>, pages: &ZPageSpace, ptr: usize, size: usize)
    ensures
        final(out)@ == with_live_range(old(out)@, pages@.dynamic_start, ptr, size),
{
    let ghost start = pages@.dynamic_start;
    let ghost len = out@.len();
    let mut cursor = ptr;
    let mut remaining = size;
    loop
        invariant_except_break
            start == pages@.dynamic_start,
            len == old(out)@.len(),
            out@.len() == len,
            ptr <= cursor,
            cursor + remaining == ptr + size,
            ptr < start ==> cursor == ptr && out@ == old(out)@,
            remaining != 0 ==> (cursor == ptr || cursor == usize::MAX || (cursor >= start && cursor
                == page_lo(start as int, (cursor - start) / (ZPAGE_SIZE as int)))),
            ptr >= start ==> forall|j: int|
                0 <= j < len ==> #[trigger] out@[j] == sat_add(
                    old(out)@[j] as int,
                    overlap(ptr as int, cursor as int, page_lo(start as int, j), page_hi(start as int, j)),
                ),
        ensures
            out@ =~= with_live_range(old(out)@, start, ptr, size),
        decreases remaining,
    {
        if remaining == 0 {
            proof {
                assert(range_end(ptr, size) == cursor as int);
            }
            break;
        }
        let idx = match pages.page_index(cursor) {
            Some(idx) => idx,
            None => {
                break;
            },
        };
        let page_start = match pages.page_start(idx) {
            Some(s) => s,
            None => {
                proof {
                    lemma_page_of(start as int, cursor as int);
                }
                break;
            },
        };
        let page_end = page_start.saturating_add(ZPAGE_SIZE);
        let room = page_end.saturating_sub(cursor);
        let chunk = if remaining < room {
            remaining
        } else {
            room
        };
        if chunk == 0 {
            break;
        }
        proof {
            lemma_page_of(start as int, cursor as int);
            assert forall|j: int| 0 <= j < len implies overlap(
                ptr as int,
                (cursor + chunk) as int,
                page_lo(start as int, j),
                page_hi(start as int, j),
            ) == overlap(ptr as int, cursor as int, page_lo(start as int, j), page_hi(start as int, j))
                + if j == idx { chunk as int } else { 0 } && (j >= idx ==> overlap(
                ptr as int,
                cursor as int,
                page_lo(start as int, j),
                page_hi(start as int, j),
            ) == 0) by {
                lemma_chunk_step(start as int, ptr as int, cursor as int, chunk as int, idx as int, j);
            }
        }
        if idx < out.len() {
            let cur = out[idx];
            out.set(idx, cur.saturating_add(chunk));
        }
        cursor = cursor + chunk;
        remaining -= chunk;
        proof {
            if remaining != 0 && cursor != usize::MAX {
                assert(cursor == page_lo(start as int, idx + 1));
                assert((cursor - start) / (ZPAGE_SIZE as int) == idx + 1);
            }
        }
    }
}

/// Decodes an object-table word.
pub fn zentry_from_raw(raw: u32) -> (r: ZEntry)
    ensures
        r@ == spec_entry_from_raw(raw),
{
    ZEntry::from_raw(raw)
}

#[derive(Clone, Copy, Debug, PartialEq, Eq, Structural)]
pub enum MarkCleanupStage {
    ClearObjTableSlots,
    ReclaimOwnerSideTables,
    ProcessWeakRefs,
    CleanupStreamTables,
    PublishHandles,
}

/// The order in which mark end disposes of dead handles: the handles are
/// published for reuse last, after every table that could still name them
/// has been cleaned.
pub fn mark_cleanup_order() -> (r: [MarkCleanupStage; 5])
    ensures
        r@ == seq![
            MarkCleanupStage::ClearObjTableSlots,
            MarkCleanupStage::ReclaimOwnerSideTables,
            MarkCleanupStage::ProcessWeakRefs,
            MarkCleanupStage::CleanupStreamTables,
            MarkCleanupStage::PublishHandles,
        ],
{
    [
        MarkCleanupStage::ClearObjTableSlots,
        MarkCleanupStage::ReclaimOwnerSideTables,
        MarkCleanupStage::ProcessWeakRefs,
        MarkCleanupStage::CleanupStreamTables,
        MarkCleanupStage::PublishHandles,
    ]
}

/// The word a barrier event stores at bytes 8..16, little-endian.
pub open spec fn event_old_word(event: Seq<u8>) -> i64 {
    (event[8] + 0x100 * event[9] + 0x1_0000 * event[10] + 0x100_0000 * event[11]
        + 0x1_0000_0000 * event[12] + 0x100_0000_0000 * event[13] + 0x1_0000_0000_0000 * event[14]
        + 0x100_0000_0000_0000 * event[15]) as u64 as i64
}

/// Bit 0 of an event's little-endian flags word marks a snapshot event.
pub open spec fn event_is_satb(event: Seq<u8>) -> bool {
    event[0] % 2 == 1
}

/// The overwritten words of the snapshot events in a barrier buffer cut into
/// events of `event_size` bytes; a trailing partial event is ignored.
pub open spec fn spec_buffer_old_values(input: Seq<u8>, event_size: nat) -> Seq<i64>
    decreases input.len(),
{
    if event_size == 0 || input.len() < event_size {
        Seq::empty()
    } else {
        let rest = spec_buffer_old_values(input.subrange(event_size as int, input.len() as int), event_size);
        if event_is_satb(input) {
            seq![event_old_word(input)] + rest
        } else {
            rest
        }
    }
}

/// The overwritten words the barrier buffer holds for the snapshot, in
/// order. Which of them need a root is the caller's to decide by the word's
/// tag.
pub fn decode_buffer_old_values(input: &[u8], event_size: usize) -> (r: Vec<i64>)
    requires
        event_size >= 16,
    ensures
        r@ == spec_buffer_old_values(input@, event_size as nat),
{
    let mut out: Vec<i64> = Vec::new();
    let mut off: usize = 0;
    proof {
        assert(input@.subrange(0, input@.len() as int) =~= input@);
        assert(out@ + spec_buffer_old_values(input@, event_size as nat)
            =~= spec_buffer_old_values(input@, event_size as nat));
    }
    while off <= input.len() && input.len() - off >= event_size
        invariant
            event_size >= 16,
            off <= input@.len(),
            out@ + spec_buffer_old_values(input@.subrange(off as int, input@.len() as int), event_size as nat)
                == spec_buffer_old_values(input@, event_size as nat),
        decreases input@.len() - off,
    {
        let ghost rest = input@.subrange(off as int, input@.len() as int);
        proof {
            assert(rest.subrange(event_size as int, rest.len() as int)
                =~= input@.subrange(off + event_size, input@.len() as int));
        }
        let b0 = input[off];
        if b0 & 1 == 1 {
            let b8 = input[off + 8];
            let b9 = input[off + 9];
            let b10 = input[off + 10];
            let b11 = input[off + 11];
            let b12 = input[off + 12];
            let b13 = input[off + 13];
            let b14 = input[off + 14];
            let b15 = input[off + 15];
            let word: u64 = (b8 as u64) | ((b9 as u64) << 8u64) | ((b10 as u64) << 16u64) | ((b11 as u64)
                << 24u64) | ((b12 as u64) << 32u64) | ((b13 as u64) << 40u64) | ((b14 as u64) << 48u64)
                | ((b15 as u64) << 56u64);
            proof {
                assert(b0 & 1 == 1 ==> b0 % 2 == 1) by (bit_vector);
                assert(word == b8 + 0x100 * b9 + 0x1_0000 * b10 + 0x100_0000 * b11 + 0x1_0000_0000 * b12
                    + 0x100_0000_0000 * b13 + 0x1_0000_0000_0000 * b14 + 0x100_0000_0000_0000 * b15)
                    by (bit_vector)
                    requires
                        word == (b8 as u64) | ((b9 as u64) << 8u64) | ((b10 as u64) << 16u64) | ((b11 as u64)
                            << 24u64) | ((b12 as u64) << 32u64) | ((b13 as u64) << 40u64) | ((b14 as u64)
                            << 48u64) | ((b15 as u64) << 56u64);
                assert(rest[8] == b8 && rest[9] == b9 && rest[10] == b10 && rest[11] == b11);
                assert(rest[12] == b12 && rest[13] == b13 && rest[14] == b14 && rest[15] == b15);
                assert(rest[0] == b0);
            }
            out.push(#[verifier::truncate] (word as i64));
            proof {
                assert(out@ + spec_buffer_old_values(input@.subrange(off + event_size, input@.len() as int), event_size as nat)
                    =~= spec_buffer_old_values(input@, event_size as nat));
            }
        } else {
            proof {
                assert(b0 & 1 != 1 ==> b0 % 2 != 1) by (bit_vector);
                assert(rest[0] == b0);
            }
        }
        off = off + event_size;
    }
    proof {
        assert(spec_buffer_old_values(input@.subrange(off as int, input@.len() as int), event_size as nat)
            == Seq::<i64>::empty());
        assert(out@ + Seq::<i64>::empty() =~= out@);
    }
    out
}

} // verus!
