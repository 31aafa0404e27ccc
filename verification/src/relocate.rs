//! Relocation bookkeeping of the ZGC: choosing and marking the relocation
//! set, bump allocation of copy targets, raw object copies, and releasing
//! source pages once their last live bytes have moved.

use vstd::prelude::*;

use std::time::Instant;

use crate::clock::deadline_passed;
use crate::color::{PTR_MASK, ZColor, ZEntry, entry_word, entry_word_wf, lemma_from_raw_roundtrip, spec_entry_from_raw, word_color, word_ptr};
use crate::page::{ZPAGE_SIZE, spec_page_index, spec_page_start, all_free, is_free_window, spec_extend_for_committed_end, 
    ZPageKind, ZPageMeta, ZPageSpace, ZPageSpaceView, candidate_pair, emptied_by, fresh_page, greedy_from,
    indices_where, lemma_indices_where_bounds, page_with_added, page_with_subtracted, range_bytes_on_page, sat_add,
    sorted_by_live, spec_cleared,
};

verus! {

/// Totals of one relocation cycle.
#[derive(Debug, Clone, Copy, Default, PartialEq, Eq)]
pub struct RelocateResult {
    pub relocated_objects: usize,
    pub relocated_bytes: usize,
    pub released_pages: usize,
}

impl RelocateResult {
    /// Adds another result field by field, saturating.
    pub fn add(&mut self, other: RelocateResult)
        ensures
            final(self).relocated_objects == sat_add(
                old(self).relocated_objects as int,
                other.relocated_objects as int,
            ),
            final(self).relocated_bytes == sat_add(old(self).relocated_bytes as int, other.relocated_bytes as int),
            final(self).released_pages == sat_add(old(self).released_pages as int, other.released_pages as int),
    {
        self.relocated_objects = self.relocated_objects.saturating_add(other.relocated_objects);
        self.relocated_bytes = self.relocated_bytes.saturating_add(other.relocated_bytes);
        self.released_pages = self.released_pages.saturating_add(other.released_pages);
    }
}

/// An object found in the relocation set.
#[derive(Clone, Copy, Debug, PartialEq, Eq)]
pub struct RelocationCandidate {
    pub handle: u32,
    pub slot: usize,
    pub ptr: usize,
    pub size: usize,
}

/// The page the relocation allocator bumps through.
#[derive(Debug, Clone, Copy, PartialEq, Eq)]
pub struct BumpPage {
    pub cursor: usize,
    pub end: usize,
}

/// Takes `size` bytes from the bump page when they fit.
pub fn bump(page: &mut BumpPage, size: usize) -> (r: Option<usize>)
    ensures
        old(page).cursor + size <= old(page).end ==> r == Some(old(page).cursor) && *final(page) == (BumpPage {
            cursor: (old(page).cursor + size) as usize,
            end: old(page).end,
        }),
        old(page).cursor + size > old(page).end ==> r.is_none() && *final(page) == *old(page),
{
    let end = match page.cursor.checked_add(size) {
        Some(e) => e,
        None => return None,
    };
    if end > page.end {
        return None;
    }
    let ptr = page.cursor;
    page.cursor = end;
    Some(ptr)
}

#[derive(Debug, Default)]
pub struct RelocationAllocator {
    pub current: Option<BumpPage>,
}

impl RelocationAllocator {
    pub fn reset(&mut self)
        ensures
            final(self).current.is_none(),
    {
        self.current = None;
    }
}

/// `[a_start, a_end)` and `[b_start, b_end)` intersect.
pub fn ranges_overlap(a_start: usize, a_end: usize, b_start: usize, b_end: usize) -> (r: bool)
    ensures
        r == (a_start < b_end && b_start < a_end),
{
    a_start < b_end && b_start < a_end
}

/// The least multiple of `align` at or above `value`.
pub open spec fn spec_align_up(value: int, align: int) -> int {
    if value % align == 0 {
        value
    } else {
        value - value % align + align
    }
}

/// A multiple of `align` in `[value, value + align)` is `spec_align_up`.
proof fn lemma_align_up_unique(value: int, align: int, a: int)
    requires
        align > 0,
        value >= 0,
        value <= a < value + align,
        a % align == 0,
    ensures
        a == spec_align_up(value, align),
{
    let q = value / align;
    let r = value % align;
    let k = a / align;
    assert(value == q * align + r && 0 <= r < align) by (nonlinear_arith)
        requires align > 0, q == value / align, r == value % align;
    assert(a == k * align) by (nonlinear_arith)
        requires align > 0, k == a / align, a % align == 0;
    if r == 0 {
        assert(k == q) by (nonlinear_arith)
            requires align > 0, value == q * align, a == k * align, value <= a < value + align;
    } else {
        assert(k == q + 1) by (nonlinear_arith)
            requires align > 0, value == q * align + r, 0 < r < align, a == k * align, value <= a < value + align;
        assert(a == q * align + align) by (nonlinear_arith)
            requires k == q + 1, a == k * align;
    }
}

/// Rounds `value` up to a multiple of the power of two `align`; `None`
/// when that overflows.
pub fn align_up(value: usize, align: usize) -> (r: Option<usize>)
    requires
        align > 0,
        align & (align - 1) as usize == 0,
    ensures
        value + align - 1 > usize::MAX ==> r.is_none(),
        value + align - 1 <= usize::MAX ==> r.is_some() && {
            let a = r.unwrap();
            &&& value <= a < value + align
            &&& a % align == 0
            &&& a == spec_align_up(value as int, align as int)
        },
{
    match value.checked_add(align - 1) {
        Some(v) => {
            let a = v - v % align;
            proof {
                assert(a % align == 0 && v - align < a <= v) by (nonlinear_arith)
                    requires a == v - v % align, align > 0;
                lemma_align_up_unique(value as int, align as int, a as int);
            }
            Some(a)
        },
        None => None,
    }
}

/// Copies `size` bytes from `src` to `dest` through `scratch`; `false`,
/// with `data` untouched, when either range leaves `data`.
pub fn copy_raw_object(data: &mut [u8], src: usize, dest: usize, size: usize, scratch: &mut Vec<u8>) -> (r:
    bool)
    ensures
        r == (src + size <= old(data)@.len() && dest + size <= old(data)@.len()),
        r ==> final(data)@ == old(data)@.take(dest as int) + old(data)@.subrange(src as int, src + size)
            + old(data)@.skip(dest + size),
        !r ==> final(data)@ == old(data)@,
{
    scratch.clear();
    let len = data.len();
    if src > len || len - src < size {
        return false;
    }
    let mut i: usize = 0;
    while i < size
        invariant
            i <= size,
            src + size <= len,
            len == data@.len(),
            data@ == old(data)@,
            scratch@ == old(data)@.subrange(src as int, src + i),
        decreases size - i,
    {
        scratch.push(data[src + i]);
        i += 1;
        proof {
            assert(scratch@ =~= old(data)@.subrange(src as int, src + i));
        }
    }
    if scratch.len() != size {
        return false;
    }
    if dest > len || len - dest < size {
        return false;
    }
    let mut k: usize = 0;
    while k < size
        invariant
            k <= size,
            dest + size <= len,
            len == data@.len(),
            len == old(data)@.len(),
            scratch@.len() == size,
            scratch@ == old(data)@.subrange(src as int, src + size),
            data@ =~= old(data)@.take(dest as int) + scratch@.take(k as int) + old(data)@.skip(dest + k),
        decreases size - k,
    {
        let ghost prev = data@;
        data[dest + k] = scratch[k];
        proof {
            let target = old(data)@.take(dest as int) + scratch@.take(k + 1) + old(data)@.skip(dest + k + 1);
            assert(data@ == prev.update(dest + k, scratch@[k as int]));
            let a = old(data)@.take(dest as int);
            let b = scratch@.take(k as int);
            let c = old(data)@.skip(dest + k);
            assert(prev == a + b + c);
            assert(a.len() == dest && b.len() == k);
            assert forall|i: int| 0 <= i < len implies data@[i] == target[i] by {
                if i < dest {
                    assert(prev[i] == (a + b + c)[i]);
                } else if i < dest + k {
                    assert(prev[i] == (a + b + c)[i]);
                    assert((a + b + c)[i] == b[i - dest]);
                } else if i == dest + k {
                } else {
                    assert(prev[i] == (a + b + c)[i]);
                    assert((a + b + c)[i] == c[i - dest - k]);
                }
            }
            assert(data@ =~= target);
        }
        k += 1;
    }
    proof {
        assert(scratch@.take(size as int) =~= scratch@);
    }
    true
}

/// Releases the source pages of a moved object: its bytes leave the pages
/// it covered, and each relocation-set page left without live bytes is
/// freed. Returns how many pages were freed.
pub fn release_empty_source_pages(pages: &mut ZPageSpace, ptr: usize, size: usize) -> (r: usize)
    ensures
        final(pages)@.dynamic_start == old(pages)@.dynamic_start,
        final(pages)@.pages.len() == old(pages)@.pages.len(),
        forall|j: int|
            0 <= j < old(pages)@.pages.len() ==> #[trigger] final(pages)@.pages[j] == if released_source_page(
                old(pages)@,
                ptr,
                size,
                j,
            ) {
                fresh_page(ZPageKind::Free)
            } else {
                page_with_subtracted(
                    old(pages)@.pages[j],
                    range_bytes_on_page(old(pages)@.dynamic_start, ptr, size, j),
                )
            },
        r == indices_where(
            old(pages)@.pages.len(),
            |j: int| released_source_page(old(pages)@, ptr, size, j),
        ).len(),
{
    let ghost v = pages@;
    let ghost len = v.pages.len();
    let _n = pages.page_count();
    let emptied = pages.subtract_live_bytes_range(ptr, size);
    let ghost f = |j: int| emptied_by(v.pages[j], range_bytes_on_page(v.dynamic_start, ptr, size, j));
    let ghost g = |j: int| released_source_page(v, ptr, size, j);
    let ghost sub = pages@;
    proof {
        lemma_indices_where_bounds(len, f);
    }
    let mut released: usize = 0;
    let mut k: usize = 0;
    proof {
        crate::page::lemma_indices_where_ext(
            len,
            |j: int| g(j) && (exists|a: int| 0 <= a < 0 && emptied@[a] == j),
            |j: int| false,
        );
        crate::page::lemma_indices_where_none(len);
    }
    while k < emptied.len()
        invariant
            k <= emptied@.len(),
            len == v.pages.len(),
            len <= usize::MAX,
            emptied@ == indices_where(len, f),
            f == (|j: int| emptied_by(v.pages[j], range_bytes_on_page(v.dynamic_start, ptr, size, j))),
            g == (|j: int| released_source_page(v, ptr, size, j)),
            forall|a: int| 0 <= a < emptied@.len() ==> #[trigger] emptied@[a] < len && f(emptied@[a] as int),
            forall|a: int, b: int| 0 <= a < b < emptied@.len() ==> emptied@[a] < emptied@[b],
            sub.dynamic_start == v.dynamic_start,
            sub.pages.len() == len,
            forall|j: int|
                0 <= j < len ==> #[trigger] sub.pages[j] == page_with_subtracted(
                    v.pages[j],
                    range_bytes_on_page(v.dynamic_start, ptr, size, j),
                ),
            pages@.dynamic_start == v.dynamic_start,
            pages@.pages.len() == len,
            forall|j: int|
                0 <= j < len ==> #[trigger] pages@.pages[j] == if g(j) && (exists|a: int|
                    0 <= a < k && emptied@[a] == j) {
                    fresh_page(ZPageKind::Free)
                } else {
                    sub.pages[j]
                },
            released == indices_where(len, |j: int| g(j) && (exists|a: int| 0 <= a < k && emptied@[a] == j)).len(),
            released <= k,
        decreases emptied.len() - k,
    {
        let idx = emptied[k];
        let ghost h0 = |j: int| g(j) && (exists|a: int| 0 <= a < k && emptied@[a] == j);
        let ghost h1 = |j: int| g(j) && (exists|a: int| 0 <= a < k + 1 && emptied@[a] == j);
        proof {
            assert(h1(idx as int) == g(idx as int)) by {
                assert(emptied@[k as int] == idx);
            }
            assert forall|j: int| 0 <= j < len && j != idx implies #[trigger] h0(j) == h1(j) by {
                if h1(j) {
                    let a = choose|a: int| 0 <= a < k + 1 && emptied@[a] == j;
                    assert(a != k);
                }
            }
            assert forall|j: int| idx <= j < len implies !#[trigger] h0(j) by {
                if h0(j) {
                    let a = choose|a: int| 0 <= a < k && emptied@[a] == j;
                    assert(emptied@[a] < emptied@[k as int]);
                }
            }
            assert forall|j: int| idx < j < len implies !#[trigger] h1(j) by {
                if h1(j) {
                    let a = choose|a: int| 0 <= a < k + 1 && emptied@[a] == j;
                    if a < k {
                        assert(emptied@[a] < emptied@[k as int]);
                    }
                }
            }
            crate::page::lemma_indices_where_extend(len, h0, h1, idx as int);
        }
        let ghost before = pages@;
        if pages.is_relocation_set(idx) && pages.release(idx) {
            released += 1;
        }
        proof {
            assert(f(idx as int));
            assert(before.pages[idx as int] == sub.pages[idx as int]);
            assert(g(idx as int) == before.is_relocation_set(idx as int));
            assert forall|j: int| 0 <= j < len implies #[trigger] pages@.pages[j] == if h1(j) {
                fresh_page(ZPageKind::Free)
            } else {
                sub.pages[j]
            } by {
                if j != idx {
                    assert(h0(j) == h1(j));
                }
            }
        }
        k += 1;
    }
    proof {
        let hk = |j: int| g(j) && (exists|a: int| 0 <= a < k && emptied@[a] == j);
        assert forall|j: int| 0 <= j < len implies #[trigger] hk(j) == g(j) by {
            if g(j) {
                assert(f(j));
                crate::page::lemma_indices_where_bounds(len, f);
                assert(emptied@.contains(j as usize));
                let a = choose|a: int| 0 <= a < emptied@.len() && emptied@[a] == j as usize;
                assert(emptied@[a] == j);
            }
        }
        crate::page::lemma_indices_where_ext(len, hk, g);
        assert forall|j: int| 0 <= j < len implies #[trigger] pages@.pages[j] == if g(j) {
            fresh_page(ZPageKind::Free)
        } else {
            sub.pages[j]
        } by {
            assert(hk(j) == g(j));
        }
    }
    released
}

/// Page `j` is a relocation-set page that the object `[ptr, ptr + size)`
/// leaves without live bytes.
pub open spec fn released_source_page(v: ZPageSpaceView, ptr: usize, size: usize, j: int) -> bool {
    emptied_by(v.pages[j], range_bytes_on_page(v.dynamic_start, ptr, size, j)) && v.is_relocation_set(j)
}

/// A page after it joins the relocation set.
pub open spec fn joined_relocation_set(p: ZPageMeta) -> ZPageMeta {
    ZPageMeta { kind: ZPageKind::Relocating, relocation_set: true, ..p }
}

/// The page space with the relocation set emptied.
pub open spec fn cleared_view(v: ZPageSpaceView) -> ZPageSpaceView {
    ZPageSpaceView {
        dynamic_start: v.dynamic_start,
        pages: Seq::new(v.pages.len(), |j: int| spec_cleared(v.pages[j])),
    }
}

/// Some entry of `s` names page `idx`.
pub open spec fn names_entry_of(s: Seq<(usize, usize)>, idx: usize) -> bool {
    exists|c: (usize, usize)| #[trigger] s.contains(c) && c.0 == idx
}

/// Every page the greedy selection takes comes from the sorted sequence.
pub proof fn lemma_greedy_from_members(s: Seq<(usize, usize)>, acc: int, budget: int)
    ensures
        forall|t: int|
            0 <= t < greedy_from(s, acc, budget).len() ==> names_entry_of(s, #[trigger] greedy_from(s, acc, budget)[t]),
    decreases s.len(),
{
    if s.len() > 0 {
        let next = sat_add(acc, s[0].1 as int);
        if next <= budget {
            let rest = s.drop_first();
            lemma_greedy_from_members(rest, next, budget);
            let g = greedy_from(s, acc, budget);
            assert forall|t: int| 0 <= t < g.len() implies names_entry_of(s, #[trigger] g[t]) by {
                if t == 0 {
                    assert(s.contains(s[0]));
                } else {
                    assert(names_entry_of(rest, greedy_from(rest, next, budget)[t - 1]));
                    let c = choose|c: (usize, usize)| #[trigger] rest.contains(c) && c.0 == greedy_from(rest, next, budget)[t - 1];
                    let m = choose|m: int| 0 <= m < rest.len() && rest[m] == c;
                    assert(s[m + 1] == c);
                    assert(s.contains(c));
                }
            }
        }
    }
}

/// The relocation state machine of one cycle.
#[derive(Debug, Default)]
pub struct ZRelocateState {
    active: bool,
    allocator: RelocationAllocator,
    scratch: Vec<u8>,
    candidates: Vec<RelocationCandidate>,
    cursor: usize,
    cycle_result: RelocateResult,
}

impl ZRelocateState {
    pub fn new() -> (r: ZRelocateState)
        ensures
            !r.spec_active(),
            r.spec_candidates().len() == 0,
            r.spec_cursor() == 0,
            r.spec_result() == (RelocateResult { relocated_objects: 0, relocated_bytes: 0, released_pages: 0 }),
            r.spec_current_page().is_none(),
    {
        ZRelocateState {
            active: false,
            allocator: RelocationAllocator { current: None },
            scratch: Vec::new(),
            candidates: Vec::new(),
            cursor: 0,
            cycle_result: RelocateResult { relocated_objects: 0, relocated_bytes: 0, released_pages: 0 },
        }
    }

    pub closed spec fn spec_active(&self) -> bool {
        self.active
    }

    pub fn is_active(&self) -> (r: bool)
        ensures
            r == self.spec_active(),
    {
        self.active
    }

    /// Starts a relocation cycle: the previous relocation set is cleared,
    /// the new one is selected (sparing `excluded_page`) and its pages are
    /// marked. The cycle is active when the new set is not empty.
    pub fn start_cycle_excluding(
        &mut self,
        pages: &mut ZPageSpace,
        copy_budget: usize,
        excluded_page: Option<usize>,
    ) -> (r: bool)
        ensures
            final(self).spec_active() == r,
            final(pages)@.dynamic_start == old(pages)@.dynamic_start,
            final(pages)@.pages.len() == old(pages)@.pages.len(),
            exists|s: Seq<(usize, usize)>|
                #![trigger sorted_by_live(s)]
                {
                    let sel = greedy_from(s, 0, copy_budget as int);
                    &&& sorted_by_live(s)
                    &&& (forall|c: (usize, usize)| #[trigger]
                        s.contains(c) <==> candidate_pair(cleared_view(old(pages)@), excluded_page, c))
                    &&& r == (sel.len() > 0)
                    &&& forall|j: int|
                        0 <= j < old(pages)@.pages.len() ==> #[trigger] final(pages)@.pages[j] == if r
                            && sel.contains(j as usize) {
                            joined_relocation_set(spec_cleared(old(pages)@.pages[j]))
                        } else {
                            spec_cleared(old(pages)@.pages[j])
                        }
                },
    {
        self.active = false;
        self.allocator.reset();
        self.candidates.clear();
        self.cursor = 0;
        self.cycle_result = RelocateResult { relocated_objects: 0, relocated_bytes: 0, released_pages: 0 };
        pages.clear_relocation_set();
        let ghost cleared = pages@;
        let _n = pages.page_count();
        proof {
            assert(cleared =~= cleared_view(old(pages)@));
        }
        let selected = pages.select_relocation_set_excluding(copy_budget, excluded_page);
        let ghost s = choose|s: Seq<(usize, usize)>|
            {
                &&& sorted_by_live(s)
                &&& (forall|c: (usize, usize)| #[trigger]
                    s.contains(c) <==> candidate_pair(cleared, excluded_page, c))
                &&& selected@ == greedy_from(s, 0, copy_budget as int)
            };
        proof {
            lemma_greedy_from_members(s, 0, copy_budget as int);
        }
        let mut k: usize = 0;
        while k < selected.len()
            invariant
                k <= selected@.len(),
                selected@ == greedy_from(s, 0, copy_budget as int),
                forall|t: int| 0 <= t < selected@.len() ==> names_entry_of(s, #[trigger] selected@[t]),
                forall|c: (usize, usize)| #[trigger] s.contains(c) <==> candidate_pair(cleared, excluded_page, c),
                pages@.dynamic_start == cleared.dynamic_start,
                pages@.pages.len() == cleared.pages.len(),
                cleared.pages.len() <= usize::MAX,
                forall|j: int|
                    0 <= j < cleared.pages.len() ==> #[trigger] pages@.pages[j] == if selected@.take(
                        k as int,
                    ).contains(j as usize) {
                        joined_relocation_set(cleared.pages[j])
                    } else {
                        cleared.pages[j]
                    },
            decreases selected.len() - k,
        {
            let idx = selected[k];
            proof {
                assert(names_entry_of(s, selected@[k as int]));
                let c = choose|c: (usize, usize)| #[trigger] s.contains(c) && c.0 == selected@[k as int];
                assert(candidate_pair(cleared, excluded_page, c));
                assert(selected@.take(k + 1) =~= selected@.take(k as int).push(idx));
            }
            pages.mark_relocation_set(idx);
            proof {
                assert forall|j: int| 0 <= j < cleared.pages.len() implies #[trigger] pages@.pages[j]
                    == if selected@.take(k + 1).contains(j as usize) {
                    joined_relocation_set(cleared.pages[j])
                } else {
                    cleared.pages[j]
                } by {
                    let t1 = selected@.take(k + 1);
                    let t0 = selected@.take(k as int);
                    assert(t1[k as int] == idx);
                    if j != idx {
                        if t1.contains(j as usize) {
                            let m = choose|m: int| 0 <= m < t1.len() && t1[m] == j as usize;
                            assert(t0[m] == j as usize);
                        }
                        if t0.contains(j as usize) {
                            let m = choose|m: int| 0 <= m < t0.len() && t0[m] == j as usize;
                            assert(t1[m] == j as usize);
                        }
                    } else {
                        assert(t1[k as int] == idx);
                    }
                }
            }
            k += 1;
        }
        self.active = selected.len() > 0;
        if !self.active {
            pages.clear_relocation_set();
        }
        proof {
            assert(selected@.take(selected@.len() as int) =~= selected@);
            assert forall|j: int| 0 <= j < old(pages)@.pages.len() implies #[trigger] pages@.pages[j] == if self.active
                && selected@.contains(j as usize) {
                joined_relocation_set(spec_cleared(old(pages)@.pages[j]))
            } else {
                spec_cleared(old(pages)@.pages[j])
            } by {
                assert(cleared.pages[j] == spec_cleared(old(pages)@.pages[j]));
            }
        }
        self.active
    }

    /// Starts a relocation cycle with no page excluded.
    pub fn start_cycle(&mut self, pages: &mut ZPageSpace, copy_budget: usize) -> (r: bool)
        ensures
            final(self).spec_active() == r,
            final(pages)@.dynamic_start == old(pages)@.dynamic_start,
            final(pages)@.pages.len() == old(pages)@.pages.len(),
            exists|s: Seq<(usize, usize)>|
                #![trigger sorted_by_live(s)]
                {
                    let sel = greedy_from(s, 0, copy_budget as int);
                    &&& sorted_by_live(s)
                    &&& (forall|c: (usize, usize)| #[trigger]
                        s.contains(c) <==> candidate_pair(cleared_view(old(pages)@), None, c))
                    &&& r == (sel.len() > 0)
                    &&& forall|j: int|
                        0 <= j < old(pages)@.pages.len() ==> #[trigger] final(pages)@.pages[j] == if r
                            && sel.contains(j as usize) {
                            joined_relocation_set(spec_cleared(old(pages)@.pages[j]))
                        } else {
                            spec_cleared(old(pages)@.pages[j])
                        }
                },
    {
        self.start_cycle_excluding(pages, copy_budget, None)
    }
}

/// What relocation reads and writes, as plain values: linear memory, the
/// object-table words, each object's size (`None` when its header cannot be
/// read), and the heap's allocation registers.
#[derive(Debug)]
pub struct RelocHeap {
    pub memory: Vec<u8>,
    pub entries: Vec<u32>,
    pub sizes: Vec<Option<usize>>,
    /// End of the bump-allocated heap.
    pub heap_ptr: usize,
    /// The heap may not grow past this address.
    pub heap_limit: usize,
    /// Linear memory may not grow past this many bytes.
    pub memory_limit: usize,
    /// The mutators' allocation window.
    pub alloc_ptr: usize,
    pub alloc_end: usize,
    /// Allocation granularity, a power of two.
    pub alignment: usize,
    pub gc_epoch: u64,
}

pub struct RelocHeapView {
    pub memory: Seq<u8>,
    pub entries: Seq<u32>,
    pub sizes: Seq<Option<usize>>,
    pub heap_ptr: usize,
    pub heap_limit: usize,
    pub memory_limit: usize,
    pub alloc_ptr: usize,
    pub alloc_end: usize,
    pub alignment: usize,
    pub gc_epoch: u64,
}

impl View for RelocHeap {
    type V = RelocHeapView;

    open spec fn view(&self) -> RelocHeapView {
        RelocHeapView {
            memory: self.memory@,
            entries: self.entries@,
            sizes: self.sizes@,
            heap_ptr: self.heap_ptr,
            heap_limit: self.heap_limit,
            memory_limit: self.memory_limit,
            alloc_ptr: self.alloc_ptr,
            alloc_end: self.alloc_end,
            alignment: self.alignment,
            gc_epoch: self.gc_epoch,
        }
    }
}

impl RelocHeapView {
    pub open spec fn wf(self) -> bool {
        &&& self.sizes.len() == self.entries.len()
        &&& self.entries.len() <= 0x1_0000_0000
        &&& self.alignment > 0
        &&& self.alignment & (self.alignment - 1) as usize == 0
        &&& self.memory_limit <= u32::MAX
        &&& self.memory.len() <= self.memory_limit
        &&& forall|h: int| 0 <= h < self.entries.len() ==> entry_word_wf(#[trigger] self.entries[h])
    }

    pub open spec fn is_live(self, h: int) -> bool {
        0 <= h < self.entries.len() && self.entries[h] != 0
    }
}

/// A nonempty entry after relocation has touched it: a well-formed word
/// that is `Remapped` unless the new address masked to zero.
pub open spec fn remapped_word(w: u32) -> bool {
    entry_word_wf(w) && (w != 0 ==> word_color(w) == ZColor::Remapped)
}

/// Relocation changed the heap only as relocation may: the table keeps its
/// size and sizes, an entry keeps its word or (when nonempty) takes a
/// remapped word, an empty entry stays empty, and memory only grows.
pub open spec fn relocation_step(a: RelocHeapView, b: RelocHeapView) -> bool {
    &&& b.entries.len() == a.entries.len()
    &&& b.sizes == a.sizes
    &&& b.alignment == a.alignment
    &&& b.heap_limit == a.heap_limit
    &&& b.memory_limit == a.memory_limit
    &&& b.memory.len() >= a.memory.len()
    &&& forall|h: int|
        0 <= h < a.entries.len() ==> #[trigger] b.entries[h] == a.entries[h] || (a.entries[h] != 0
            && remapped_word(b.entries[h]))
}

proof fn lemma_relocation_step_trans(a: RelocHeapView, b: RelocHeapView, c: RelocHeapView)
    requires
        relocation_step(a, b),
        relocation_step(b, c),
    ensures
        relocation_step(a, c),
{
    assert forall|h: int| 0 <= h < a.entries.len() implies #[trigger] c.entries[h] == a.entries[h] || (a.entries[h]
        != 0 && remapped_word(c.entries[h])) by {
        assert(b.entries[h] == b.entries[h]);
    }
}

/// Grows linear memory, zero-filled, to `end` bytes when the memory limit
/// allows; returns whether memory now reaches `end`.
fn grow_memory(heap: &mut RelocHeap, end: usize) -> (r: bool)
    ensures
        old(heap)@.wf() ==> final(heap)@.wf(),
        r == (end <= old(heap)@.memory.len() || end <= old(heap)@.memory_limit),
        final(heap)@.memory.len() == if r && end > old(heap)@.memory.len() {
            end as nat
        } else {
            old(heap)@.memory.len()
        },
        final(heap)@.memory.subrange(0, old(heap)@.memory.len() as int) == old(heap)@.memory,
        final(heap)@ == (RelocHeapView { memory: final(heap)@.memory, ..old(heap)@ }),
        final(heap)@.memory == if r {
            grown_memory(old(heap)@.memory, end as int)
        } else {
            old(heap)@.memory
        },
{
    if end <= heap.memory.len() {
        proof {
            assert(heap@.memory.subrange(0, heap@.memory.len() as int) =~= heap@.memory);
        }
        return true;
    }
    if end > heap.memory_limit {
        proof {
            assert(heap@.memory.subrange(0, heap@.memory.len() as int) =~= heap@.memory);
        }
        return false;
    }
    let ghost m0 = heap@.memory;
    while heap.memory.len() < end
        invariant
            m0.len() <= heap@.memory.len() <= end,
            heap@.memory.subrange(0, m0.len() as int) == m0,
            heap@.memory == m0 + Seq::new((heap@.memory.len() - m0.len()) as nat, |i: int| 0u8),
            heap@ == (RelocHeapView { memory: heap@.memory, ..old(heap)@ }),
        decreases end - heap@.memory.len(),
    {
        let ghost before = heap@.memory;
        heap.memory.push(0u8);
        proof {
            assert(heap@.memory.subrange(0, m0.len() as int) =~= before.subrange(0, m0.len() as int));
            assert(heap@.memory =~= m0 + Seq::new((heap@.memory.len() - m0.len()) as nat, |i: int| 0u8));
        }
    }
    proof {
        assert(heap@.memory =~= grown_memory(m0, end as int));
    }
    true
}

/// What a page reservation leaves: the heap, the page space, and the
/// address of the first reserved page (`None` when nothing was reserved).
pub struct Reservation {
    pub heap: RelocHeapView,
    pub pages: ZPageSpaceView,
    pub start: Option<usize>,
}

/// The page space with pages `[s, s + count)` activated.
pub open spec fn pages_activated(v: ZPageSpaceView, s: int, count: int) -> ZPageSpaceView {
    ZPageSpaceView {
        dynamic_start: v.dynamic_start,
        pages: Seq::new(
            v.pages.len(),
            |j: int|
                if s <= j < s + count {
                    fresh_page(ZPageKind::Active)
                } else {
                    v.pages[j]
                },
        ),
    }
}

/// Where reserved pages may start: the heap end, or the start of the page
/// space when that is further.
pub open spec fn reservation_floor(heap: RelocHeapView, v: ZPageSpaceView) -> usize {
    if heap.heap_ptr > v.dynamic_start {
        heap.heap_ptr
    } else {
        v.dynamic_start
    }
}

/// The first page boundary at or past the reservation floor.
pub open spec fn new_pages_start(heap: RelocHeapView, v: ZPageSpaceView) -> int {
    spec_align_up(reservation_floor(heap, v) as int, ZPAGE_SIZE as int)
}

/// The end of `count` new pages.
pub open spec fn new_pages_end(heap: RelocHeapView, v: ZPageSpaceView, count: usize) -> int {
    new_pages_start(heap, v) + count * ZPAGE_SIZE
}

/// `count` new pages fit: the arithmetic stays in `usize`, they end within
/// the heap limit, and memory reaches their end or may grow to it.
pub open spec fn new_pages_fit(heap: RelocHeapView, v: ZPageSpaceView, count: usize) -> bool {
    let end = new_pages_end(heap, v, count);
    &&& reservation_floor(heap, v) + ZPAGE_SIZE - 1 <= usize::MAX
    &&& count * ZPAGE_SIZE <= usize::MAX
    &&& end <= heap.heap_limit
    &&& (end <= heap.memory.len() || end <= heap.memory_limit)
}

/// `mem` grown with zero bytes to `end` bytes, when it is shorter.
pub open spec fn grown_memory(mem: Seq<u8>, end: int) -> Seq<u8> {
    if end > mem.len() {
        mem + Seq::new((end - mem.len()) as nat, |i: int| 0u8)
    } else {
        mem
    }
}

/// The heap once its end moved to `end`: memory grown to cover it, and the
/// mutators' allocation window restarting there.
pub open spec fn heap_extended_to(heap: RelocHeapView, end: int) -> RelocHeapView {
    let mem = grown_memory(heap.memory, end);
    RelocHeapView {
        memory: mem,
        heap_ptr: end as usize,
        alloc_ptr: end as usize,
        alloc_end: if mem.len() < heap.heap_limit {
            mem.len() as usize
        } else {
            heap.heap_limit
        },
        ..heap
    }
}

/// Reserving `count` pages past the heap end. When they do not fit nothing
/// changes. Otherwise the heap end moves past them and the page space
/// covers the new allocation window; the pages are activated and their
/// start returned when there are any and all of them are free.
pub open spec fn spec_reserve_new_pages(heap: RelocHeapView, v: ZPageSpaceView, count: usize) -> Reservation {
    if !new_pages_fit(heap, v, count) {
        Reservation { heap, pages: v, start: None }
    } else {
        let start = new_pages_start(heap, v);
        let heap2 = heap_extended_to(heap, new_pages_end(heap, v, count));
        let ext = spec_extend_for_committed_end(v, heap2.alloc_end);
        let idx = (start - v.dynamic_start) / (ZPAGE_SIZE as int);
        if count != 0 && idx + count <= ext.pages.len() && all_free(ext.pages, idx, count as int) {
            Reservation { heap: heap2, pages: pages_activated(ext, idx, count as int), start: Some(start as usize) }
        } else {
            Reservation { heap: heap2, pages: ext, start: None }
        }
    }
}

/// A reservation keeps what relocation must not touch: the heap changes
/// only as relocation may, its entries and the bytes it had stay, and the
/// page space keeps its start.
pub open spec fn reservation_keeps(heap: RelocHeapView, v: ZPageSpaceView, res: Reservation) -> bool {
    &&& (heap.wf() ==> res.heap.wf())
    &&& relocation_step(heap, res.heap)
    &&& res.heap.entries == heap.entries
    &&& res.heap.memory.len() >= heap.memory.len()
    &&& res.heap.memory.subrange(0, heap.memory.len() as int) == heap.memory
    &&& res.pages.dynamic_start == v.dynamic_start
}

proof fn lemma_reserve_new_pages_keeps(heap: RelocHeapView, v: ZPageSpaceView, count: usize)
    ensures
        reservation_keeps(heap, v, spec_reserve_new_pages(heap, v, count)),
{
    let res = spec_reserve_new_pages(heap, v, count);
    assert(heap.memory.subrange(0, heap.memory.len() as int) =~= heap.memory);
    if new_pages_fit(heap, v, count) {
        let end = new_pages_end(heap, v, count);
        let mem = grown_memory(heap.memory, end);
        assert(mem.subrange(0, heap.memory.len() as int) =~= heap.memory);
    }
}

/// Reserves `count` fresh pages past the heap's end, growing memory when
/// needed, and returns the first page's address. The heap end moves past
/// them, the mutators' allocation window restarts there, and the page space
/// covers the committed memory.
pub fn reserve_new_pages(heap: &mut RelocHeap, pages: &mut ZPageSpace, count: usize) -> (r: Option<usize>)
    ensures
        final(heap)@ == spec_reserve_new_pages(old(heap)@, old(pages)@, count).heap,
        final(pages)@ == spec_reserve_new_pages(old(heap)@, old(pages)@, count).pages,
        r == spec_reserve_new_pages(old(heap)@, old(pages)@, count).start,
        reservation_keeps(old(heap)@, old(pages)@, spec_reserve_new_pages(old(heap)@, old(pages)@, count)),
        r matches Some(start) ==> {
            &&& start % ZPAGE_SIZE == 0
            &&& start >= old(pages)@.dynamic_start
            &&& start + count * ZPAGE_SIZE <= final(heap)@.memory.len()
            &&& start + count * ZPAGE_SIZE <= old(heap)@.heap_limit
            &&& final(heap)@.heap_ptr == start + count * ZPAGE_SIZE
        },
{
    proof {
        lemma_reserve_new_pages_keeps(heap@, pages@, count);
    }
    let ghost heap0 = heap@;
    let ghost v0 = pages@;
    let heap_ptr = if heap.heap_ptr > pages.dynamic_start() {
        heap.heap_ptr
    } else {
        pages.dynamic_start()
    };
    proof {
        assert(0x10000usize & (0x10000usize - 1) as usize == 0) by (bit_vector);
    }
    let start = match align_up(heap_ptr, ZPAGE_SIZE) {
        Some(s) => s,
        None => {
            return None;
        },
    };
    let bytes = match count.checked_mul(ZPAGE_SIZE) {
        Some(b) => b,
        None => {
            return None;
        },
    };
    let end = match start.checked_add(bytes) {
        Some(e) => e,
        None => {
            return None;
        },
    };
    if end > heap.heap_limit {
        return None;
    }
    if end > heap.memory.len() {
        if !grow_memory(heap, end) {
            return None;
        }
    }
    proof {
        assert(heap@.memory =~= grown_memory(heap0.memory, end as int));
    }
    heap.heap_ptr = end;
    let mem_size = heap.memory.len();
    let alloc_end = if mem_size < heap.heap_limit {
        mem_size
    } else {
        heap.heap_limit
    };
    heap.alloc_ptr = end;
    heap.alloc_end = alloc_end;
    proof {
        assert(heap@ == heap_extended_to(heap0, end as int));
    }
    pages.extend_for_committed_end(alloc_end);
    let ghost ext = pages@;
    let start_idx = match pages.page_index(start) {
        Some(i) => i,
        None => return None,
    };
    proof {
        assert(start_idx * ZPAGE_SIZE <= start) by (nonlinear_arith)
            requires
                start_idx == (start - v0.dynamic_start) / (ZPAGE_SIZE as int),
                start >= v0.dynamic_start,
        ;
        assert(start_idx + count <= usize::MAX) by (nonlinear_arith)
            requires
                start_idx * ZPAGE_SIZE <= start,
                count * ZPAGE_SIZE <= usize::MAX,
                start <= usize::MAX,
        ;
    }
    if pages.activate_page_range(start_idx, count) {
        proof {
            assert(pages@ =~= pages_activated(ext, start_idx as int, count as int));
        }
        Some(start)
    } else {
        None
    }
}

/// `count` pages are asked for and some run of `count` free pages exists.
pub open spec fn has_free_window(pages: Seq<ZPageMeta>, count: usize) -> bool {
    count != 0 && exists|s: int| is_free_window(pages, s, count as int)
}

/// `s` is the first run of `count` free pages.
pub open spec fn is_first_free_window(pages: Seq<ZPageMeta>, s: int, count: usize) -> bool {
    &&& is_free_window(pages, s, count as int)
    &&& forall|s2: int| 0 <= s2 < s ==> !#[trigger] is_free_window(pages, s2, count as int)
}

/// The first run of `count` free pages.
pub open spec fn first_free_window(pages: Seq<ZPageMeta>, count: usize) -> int {
    choose|s: int| is_first_free_window(pages, s, count)
}

/// Taking the first run of `count` free pages from the page space: the run
/// is activated and its address returned (`None` when the address leaves
/// `usize`); with no such run nothing changes.
pub open spec fn spec_take_free_pages(heap: RelocHeapView, v: ZPageSpaceView, count: usize) -> Reservation {
    if has_free_window(v.pages, count) {
        let s = first_free_window(v.pages, count);
        Reservation {
            heap,
            pages: pages_activated(v, s, count as int),
            start: spec_page_start(v.dynamic_start, s as usize),
        }
    } else {
        Reservation { heap, pages: v, start: None }
    }
}

/// Reserving `count` pages: the first run of free pages when there is one,
/// else new pages past the heap end.
pub open spec fn spec_reserve_pages(heap: RelocHeapView, v: ZPageSpaceView, count: usize) -> Reservation {
    let taken = spec_take_free_pages(heap, v, count);
    if taken.start is Some {
        taken
    } else {
        spec_reserve_new_pages(heap, taken.pages, count)
    }
}

/// A run with no free run before it is the first one.
proof fn lemma_first_free_window(pages: Seq<ZPageMeta>, s: int, count: usize)
    requires
        is_first_free_window(pages, s, count),
    ensures
        has_free_window(pages, count) || count == 0,
        first_free_window(pages, count) == s,
{
    let t = first_free_window(pages, count);
    assert(is_first_free_window(pages, t, count));
    if t < s {
        assert(!is_free_window(pages, t, count as int));
    } else if s < t {
        assert(!is_free_window(pages, s, count as int));
    }
}

proof fn lemma_reserve_pages_keeps(heap: RelocHeapView, v: ZPageSpaceView, count: usize)
    ensures
        reservation_keeps(heap, v, spec_reserve_pages(heap, v, count)),
{
    let taken = spec_take_free_pages(heap, v, count);
    assert(heap.memory.subrange(0, heap.memory.len() as int) =~= heap.memory);
    lemma_reserve_new_pages_keeps(heap, taken.pages, count);
}

/// Takes `count` contiguous free pages, or reserves new ones past the heap.
pub fn reserve_pages(heap: &mut RelocHeap, pages: &mut ZPageSpace, count: usize) -> (r: Option<usize>)
    ensures
        final(heap)@ == spec_reserve_pages(old(heap)@, old(pages)@, count).heap,
        final(pages)@ == spec_reserve_pages(old(heap)@, old(pages)@, count).pages,
        r == spec_reserve_pages(old(heap)@, old(pages)@, count).start,
        reservation_keeps(old(heap)@, old(pages)@, spec_reserve_pages(old(heap)@, old(pages)@, count)),
{
    proof {
        lemma_reserve_pages_keeps(heap@, pages@, count);
    }
    let ghost v0 = pages@;
    let taken = pages.take_contiguous_free_pages(count);
    proof {
        if has_free_window(v0.pages, count) {
            let s = choose|s: int|
                {
                    &&& is_free_window(v0.pages, s, count as int)
                    &&& (forall|s2: int| 0 <= s2 < s ==> !#[trigger] is_free_window(v0.pages, s2, count as int))
                    &&& taken == spec_page_start(v0.dynamic_start, s as usize)
                    &&& forall|j: int|
                        0 <= j < v0.pages.len() ==> #[trigger] pages@.pages[j] == if s <= j < s + count {
                            fresh_page(ZPageKind::Active)
                        } else {
                            v0.pages[j]
                        }
                };
            lemma_first_free_window(v0.pages, s, count);
            assert(pages@ =~= pages_activated(v0, s, count as int));
        } else {
            assert(pages@ =~= v0);
        }
    }
    match taken {
        Some(start) => Some(start),
        None => reserve_new_pages(heap, pages, count),
    }
}

/// What an allocation leaves: the allocator's current page, the heap, the
/// page space, and the address handed out (`None` when it failed).
pub struct Allocation {
    pub current: Option<BumpPage>,
    pub heap: RelocHeapView,
    pub pages: ZPageSpaceView,
    pub addr: Option<usize>,
}

/// Pages needed for an object of `aligned` bytes.
pub open spec fn large_page_count(aligned: usize) -> usize {
    (aligned / ZPAGE_SIZE + if aligned % ZPAGE_SIZE == 0 {
        0usize
    } else {
        1usize
    }) as usize
}

/// Allocating a copy target of `size` bytes with the allocator's current
/// page `current`. The size is rounded up to the heap's alignment (nothing
/// changes when that overflows). An object larger than a page gets pages of
/// its own and the current page is dropped; a smaller one is bumped from the
/// current page when it fits there, else from a newly reserved page, which
/// becomes the current page.
pub open spec fn spec_allocate(
    current: Option<BumpPage>,
    heap: RelocHeapView,
    v: ZPageSpaceView,
    size: usize,
) -> Allocation {
    if size + heap.alignment - 1 > usize::MAX {
        Allocation { current, heap, pages: v, addr: None }
    } else {
        let aligned = spec_align_up(size as int, heap.alignment as int);
        if aligned > ZPAGE_SIZE {
            let res = spec_reserve_pages(heap, v, large_page_count(aligned as usize));
            Allocation { current: None, heap: res.heap, pages: res.pages, addr: res.start }
        } else if current is Some && current.unwrap().cursor + aligned <= current.unwrap().end {
            let p = current.unwrap();
            Allocation {
                current: Some(BumpPage { cursor: (p.cursor + aligned) as usize, end: p.end }),
                heap,
                pages: v,
                addr: Some(p.cursor),
            }
        } else {
            let res = spec_reserve_pages(heap, v, 1);
            match res.start {
                Some(start) => if start + ZPAGE_SIZE > usize::MAX {
                    Allocation { current, heap: res.heap, pages: res.pages, addr: None }
                } else {
                    Allocation {
                        current: Some(BumpPage { cursor: (start + aligned) as usize, end: (start + ZPAGE_SIZE) as usize }),
                        heap: res.heap,
                        pages: res.pages,
                        addr: Some(start),
                    }
                },
                None => Allocation { current, heap: res.heap, pages: res.pages, addr: None },
            }
        }
    }
}

proof fn lemma_allocate_keeps(current: Option<BumpPage>, heap: RelocHeapView, v: ZPageSpaceView, size: usize)
    ensures
        ({
            let a = spec_allocate(current, heap, v, size);
            reservation_keeps(heap, v, Reservation { heap: a.heap, pages: a.pages, start: a.addr })
        }),
{
    assert(heap.memory.subrange(0, heap.memory.len() as int) =~= heap.memory);
    if size + heap.alignment - 1 <= usize::MAX {
        let aligned = spec_align_up(size as int, heap.alignment as int);
        if aligned > ZPAGE_SIZE {
            lemma_reserve_pages_keeps(heap, v, large_page_count(aligned as usize));
        } else {
            lemma_reserve_pages_keeps(heap, v, 1);
        }
    }
}

impl RelocationAllocator {
    /// A copy target of `size` bytes (rounded up to the allocation
    /// granularity): bumped from the current page, or from a newly reserved
    /// page; an object larger than a page gets pages of its own.
    pub fn allocate(&mut self, heap: &mut RelocHeap, pages: &mut ZPageSpace, size: usize) -> (r: Option<usize>)
        requires
            old(heap)@.wf(),
        ensures
            final(self).current == spec_allocate(old(self).current, old(heap)@, old(pages)@, size).current,
            final(heap)@ == spec_allocate(old(self).current, old(heap)@, old(pages)@, size).heap,
            final(pages)@ == spec_allocate(old(self).current, old(heap)@, old(pages)@, size).pages,
            r == spec_allocate(old(self).current, old(heap)@, old(pages)@, size).addr,
            final(heap)@.wf(),
            relocation_step(old(heap)@, final(heap)@),
            final(heap)@.entries == old(heap)@.entries,
            final(heap)@.memory.len() >= old(heap)@.memory.len(),
            final(heap)@.memory.subrange(0, old(heap)@.memory.len() as int) == old(heap)@.memory,
            final(pages)@.dynamic_start == old(pages)@.dynamic_start,
    {
        proof {
            lemma_allocate_keeps(self.current, heap@, pages@, size);
        }
        let aligned = match align_up(size, heap.alignment) {
            Some(a) => a,
            None => {
                return None;
            },
        };
        if aligned > ZPAGE_SIZE {
            self.current = None;
            return self.allocate_large(heap, pages, aligned);
        }
        match &mut self.current {
            Some(page) => {
                match bump(page, aligned) {
                    Some(ptr) => {
                        return Some(ptr);
                    },
                    None => {},
                }
            },
            None => {},
        }
        let start = match reserve_pages(heap, pages, 1) {
            Some(s) => s,
            None => return None,
        };
        if start > usize::MAX - ZPAGE_SIZE {
            return None;
        }
        let mut page = BumpPage { cursor: start, end: start + ZPAGE_SIZE };
        let r = bump(&mut page, aligned);
        self.current = Some(page);
        r
    }

    /// Pages of its own for an object of `aligned` bytes.
    pub fn allocate_large(&mut self, heap: &mut RelocHeap, pages: &mut ZPageSpace, aligned: usize) -> (r: Option<usize>)
        ensures
            *final(self) == *old(self),
            final(heap)@ == spec_reserve_pages(old(heap)@, old(pages)@, large_page_count(aligned)).heap,
            final(pages)@ == spec_reserve_pages(old(heap)@, old(pages)@, large_page_count(aligned)).pages,
            r == spec_reserve_pages(old(heap)@, old(pages)@, large_page_count(aligned)).start,
            reservation_keeps(
                old(heap)@,
                old(pages)@,
                spec_reserve_pages(old(heap)@, old(pages)@, large_page_count(aligned)),
            ),
    {
        let page_count = aligned / ZPAGE_SIZE + if aligned % ZPAGE_SIZE == 0 { 0 } else { 1 };
        reserve_pages(heap, pages, page_count)
    }
}

/// The entry word of an object moved to `dest`: the address as a 32-bit
/// word with the color bits masked off, colored `Remapped`.
pub open spec fn moved_word(dest: usize) -> u32 {
    entry_word(((dest as u32) & PTR_MASK) as u32, ZColor::Remapped)
}

/// The object `[ptr, ptr + size)` was copied to `dest` and the entry in
/// `slot` points at the copy: `mem` is memory after any growth and before
/// the copy.
pub open spec fn object_moved(
    a: RelocHeapView,
    b: RelocHeapView,
    slot: int,
    ptr: usize,
    size: usize,
    dest: usize,
    mem: Seq<u8>,
) -> bool {
    &&& mem.len() >= a.memory.len()
    &&& mem.subrange(0, a.memory.len() as int) == a.memory
    &&& ptr + size <= mem.len()
    &&& dest + size <= mem.len()
    &&& b.memory == copied_memory(mem, ptr, dest, size)
    &&& b.entries == a.entries.update(slot, moved_word(dest))
}

/// Memory after copying `[src, src + size)` of `mem` to `dest`.
pub open spec fn copied_memory(mem: Seq<u8>, src: usize, dest: usize, size: usize) -> Seq<u8> {
    mem.take(dest as int) + mem.subrange(src as int, src + size) + mem.skip(dest + size)
}

proof fn lemma_moved_word(dest: usize)
    ensures
        remapped_word(moved_word(dest)),
        moved_word(dest) != 0 ==> word_ptr(moved_word(dest)) == ((dest as u32) & PTR_MASK),
{
    let x = dest as u32;
    let p = (x & 0xFFFF_FFFCu32) as u32;
    assert(p & 0xFFFF_FFFCu32 == p) by (bit_vector)
        requires p == x & 0xFFFF_FFFCu32;
    assert(p & 3 == 0) by (bit_vector)
        requires p == x & 0xFFFF_FFFCu32;
    if p != 0 {
        assert(p <= 0xFFFF_FFFC) by (bit_vector)
            requires p & 3 == 0;
        assert(((p + 3) as u32) & 0xFFFF_FFFCu32 == p && ((p + 3) as u32) & 3 == 3) by (bit_vector)
            requires p & 3 == 0, p <= 0xFFFF_FFFC;
    }
}

/// The page space after `[ptr, ptr + size)` was counted as live.
pub open spec fn live_bytes_added(v: ZPageSpaceView, ptr: usize, size: usize) -> ZPageSpaceView {
    ZPageSpaceView {
        dynamic_start: v.dynamic_start,
        pages: Seq::new(
            v.pages.len(),
            |j: int| page_with_added(v.pages[j], range_bytes_on_page(v.dynamic_start, ptr, size, j)),
        ),
    }
}

/// The page space after the object `[ptr, ptr + size)` left its source
/// pages: its bytes are subtracted and the relocation-set pages it leaves
/// empty are freed.
pub open spec fn source_pages_released(v: ZPageSpaceView, ptr: usize, size: usize) -> ZPageSpaceView {
    ZPageSpaceView {
        dynamic_start: v.dynamic_start,
        pages: Seq::new(
            v.pages.len(),
            |j: int|
                if released_source_page(v, ptr, size, j) {
                    fresh_page(ZPageKind::Free)
                } else {
                    page_with_subtracted(v.pages[j], range_bytes_on_page(v.dynamic_start, ptr, size, j))
                },
        ),
    }
}

/// How many source pages the object `[ptr, ptr + size)` frees.
pub open spec fn released_page_count(v: ZPageSpaceView, ptr: usize, size: usize) -> usize {
    indices_where(v.pages.len(), |j: int| released_source_page(v, ptr, size, j)).len() as usize
}

/// The epoch after one more change, wrapping.
pub open spec fn next_epoch(e: u64) -> u64 {
    if e == u64::MAX {
        0
    } else {
        (e + 1) as u64
    }
}

/// What moving `candidate` leaves: the allocator's current page, the heap,
/// the page space, and the totals (`None` when it was not moved).
pub struct Relocation {
    pub current: Option<BumpPage>,
    pub heap: RelocHeapView,
    pub pages: ZPageSpaceView,
    pub result: Option<RelocateResult>,
}

/// Moving `candidate`: a copy target is allocated; when that succeeds and
/// both the object and the target lie in memory, the bytes are copied, the
/// entry points at the copy (colored `Remapped`), the heap epoch advances,
/// the target pages gain the bytes and the source pages lose them. Otherwise
/// the allocation's effects alone remain.
#[verifier::opaque]
pub open spec fn spec_relocate_candidate(
    current: Option<BumpPage>,
    heap: RelocHeapView,
    v: ZPageSpaceView,
    candidate: RelocationCandidate,
) -> Relocation {
    let a = spec_allocate(current, heap, v, candidate.size);
    let mem = a.heap.memory;
    match a.addr {
        Some(dest) => if candidate.ptr + candidate.size <= mem.len() && dest + candidate.size <= mem.len() {
            let added = live_bytes_added(a.pages, dest, candidate.size);
            Relocation {
                current: a.current,
                heap: RelocHeapView {
                    memory: copied_memory(mem, candidate.ptr, dest, candidate.size),
                    entries: a.heap.entries.update(candidate.slot as int, moved_word(dest)),
                    gc_epoch: next_epoch(a.heap.gc_epoch),
                    ..a.heap
                },
                pages: source_pages_released(added, candidate.ptr, candidate.size),
                result: Some(
                    RelocateResult {
                        relocated_objects: 1,
                        relocated_bytes: candidate.size,
                        released_pages: released_page_count(added, candidate.ptr, candidate.size),
                    },
                ),
            }
        } else {
            Relocation { current: a.current, heap: a.heap, pages: a.pages, result: None }
        },
        None => Relocation { current: a.current, heap: a.heap, pages: a.pages, result: None },
    }
}

/// Moves one candidate: allocates a target, copies the object's bytes,
/// points its entry at the copy (colored `Remapped`), accounts the bytes
/// on the target pages and releases the source pages it leaves empty.
/// `None` when no target could be allocated or the copy would leave memory.
pub fn relocate_candidate(
    heap: &mut RelocHeap,
    pages: &mut ZPageSpace,
    allocator: &mut RelocationAllocator,
    scratch: &mut Vec<u8>,
    candidate: RelocationCandidate,
) -> (r: Option<RelocateResult>)
    requires
        old(heap)@.wf(),
        (candidate.slot as int) < old(heap)@.entries.len(),
        old(heap)@.entries[candidate.slot as int] != 0,
    ensures
        final(allocator).current == spec_relocate_candidate(old(allocator).current, old(heap)@, old(pages)@, candidate).current,
        final(heap)@ == spec_relocate_candidate(old(allocator).current, old(heap)@, old(pages)@, candidate).heap,
        final(pages)@ == spec_relocate_candidate(old(allocator).current, old(heap)@, old(pages)@, candidate).pages,
        r == spec_relocate_candidate(old(allocator).current, old(heap)@, old(pages)@, candidate).result,
        final(heap)@.wf(),
        relocation_step(old(heap)@, final(heap)@),
        final(pages)@.dynamic_start == old(pages)@.dynamic_start,
        r is None ==> final(heap)@.entries == old(heap)@.entries,
        r matches Some(res) ==> {
            &&& res.relocated_objects == 1
            &&& res.relocated_bytes == candidate.size
            &&& exists|dest: usize, mem: Seq<u8>|
                #[trigger] object_moved(old(heap)@, final(heap)@, candidate.slot as int, candidate.ptr, candidate.size, dest, mem)
        },
{
    proof {
        reveal(spec_relocate_candidate);
    }
    let ghost heap0 = heap@;
    let dest = match allocator.allocate(heap, pages, candidate.size) {
        Some(d) => d,
        None => return None,
    };
    let ghost mem = heap@.memory;
    let ghost v1 = pages@;
    let copied = copy_raw_object(heap.memory.as_mut_slice(), candidate.ptr, dest, candidate.size, scratch);
    if !copied {
        return None;
    }
    let masked: u32 = (dest as u32) & PTR_MASK;
    proof {
        assert(masked & 3 == 0) by (bit_vector)
            requires masked == (dest as u32) & 0xFFFF_FFFCu32;
        lemma_moved_word(dest);
    }
    let entry = ZEntry::new(masked, ZColor::Remapped);
    heap.entries.set(candidate.slot, entry.raw());
    pages.add_live_bytes_range(dest, candidate.size);
    proof {
        assert(pages@ =~= live_bytes_added(v1, dest, candidate.size));
    }
    let ghost v2 = pages@;
    heap.gc_epoch = heap.gc_epoch.wrapping_add(1);
    let released_pages = release_empty_source_pages(pages, candidate.ptr, candidate.size);
    proof {
        assert(pages@ =~= source_pages_released(v2, candidate.ptr, candidate.size));
        assert(entry@ == moved_word(dest));
        assert(heap@.memory == copied_memory(mem, candidate.ptr, dest, candidate.size));
        assert(object_moved(heap0, heap@, candidate.slot as int, candidate.ptr, candidate.size, dest, mem));
        assert forall|h: int| 0 <= h < heap0.entries.len() implies #[trigger] heap@.entries[h] == heap0.entries[h] || (
        heap0.entries[h] != 0 && remapped_word(heap@.entries[h])) by {
            if h == candidate.slot as int {
                assert(heap0.entries[h] != 0);
            }
        }
    }
    Some(RelocateResult { relocated_objects: 1, relocated_bytes: candidate.size, released_pages })
}

/// The objects the relocation set holds among the first `n` handles, in
/// handle order: nonempty entries on relocation-set pages with a known size.
pub open spec fn spec_relocation_candidates(heap: RelocHeapView, v: ZPageSpaceView, n: nat) -> Seq<RelocationCandidate>
    decreases n,
{
    if n == 0 {
        Seq::empty()
    } else {
        let prev = spec_relocation_candidates(heap, v, (n - 1) as nat);
        let h = n - 1;
        let e = spec_entry_from_raw(heap.entries[h]);
        if e == 0 || !v.addr_in_relocation_set(word_ptr(e) as usize) || heap.sizes[h] is None {
            prev
        } else {
            prev.push(
                RelocationCandidate {
                    handle: h as u32,
                    slot: h as usize,
                    ptr: word_ptr(e) as usize,
                    size: heap.sizes[h].unwrap(),
                },
            )
        }
    }
}

/// Lists the objects in the relocation set.
pub fn collect_relocation_candidates(heap: &RelocHeap, pages: &ZPageSpace) -> (r: Vec<RelocationCandidate>)
    requires
        heap@.wf(),
    ensures
        r@ == spec_relocation_candidates(heap@, pages@, heap@.entries.len()),
{
    let mut out: Vec<RelocationCandidate> = Vec::new();
    let n = heap.entries.len();
    let mut i: usize = 0;
    while i < n
        invariant
            heap@.wf(),
            n == heap@.entries.len(),
            i <= n,
            out@ == spec_relocation_candidates(heap@, pages@, i as nat),
        decreases n - i,
    {
        let entry = ZEntry::from_raw(heap.entries[i]);
        if !entry.is_empty() {
            let ptr = entry.ptr() as usize;
            if pages.addr_in_relocation_set(ptr) {
                match heap.sizes[i] {
                    Some(size) => {
                        out.push(RelocationCandidate { handle: i as u32, slot: i, ptr, size });
                    },
                    None => {},
                }
            }
        }
        i += 1;
    }
    out
}

/// The word an entry still on a relocation-set page takes when relocation
/// gives up: the same address, colored `Remapped`.
pub open spec fn remap_in_place(raw: u32) -> u32 {
    if raw == 0 {
        0
    } else {
        entry_word(word_ptr(raw), ZColor::Remapped)
    }
}

/// The table after every entry left on a relocation-set page is remapped in
/// place.
pub open spec fn remapped_rs_entries(entries: Seq<u32>, v: ZPageSpaceView) -> Seq<u32> {
    Seq::new(
        entries.len(),
        |h: int|
            if entries[h] != 0 && v.addr_in_relocation_set(word_ptr(entries[h]) as usize) {
                remap_in_place(entries[h])
            } else {
                entries[h]
            },
    )
}

proof fn lemma_remap_in_place(raw: u32)
    requires
        entry_word_wf(raw),
    ensures
        raw != 0 ==> remapped_word(remap_in_place(raw)) && remap_in_place(raw) != 0 && word_ptr(
            remap_in_place(raw),
        ) == word_ptr(raw),
        spec_entry_from_raw(raw) == raw,
{
    lemma_from_raw_roundtrip(raw);
    if raw != 0 {
        let p = raw & 0xFFFF_FFFCu32;
        assert(p != 0);
        assert(p & 3 == 0 && p <= 0xFFFF_FFFC) by (bit_vector)
            requires p == raw & 0xFFFF_FFFCu32;
        assert(((p + 3) as u32) & 0xFFFF_FFFCu32 == p && ((p + 3) as u32) & 3 == 3) by (bit_vector)
            requires p & 3 == 0, p <= 0xFFFF_FFFC;
    }
}

/// Some entry on a relocation-set page takes a new word when remapped in
/// place.
pub open spec fn remap_changes(entries: Seq<u32>, v: ZPageSpaceView) -> bool {
    exists|h: int| 0 <= h < entries.len() && #[trigger] remapped_rs_entries(entries, v)[h] != entries[h]
}

/// The heap after the entries left on relocation-set pages were remapped
/// in place; the epoch advances when an entry changed.
pub open spec fn spec_remap_remaining(heap: RelocHeapView, v: ZPageSpaceView) -> RelocHeapView {
    RelocHeapView {
        entries: remapped_rs_entries(heap.entries, v),
        gc_epoch: if remap_changes(heap.entries, v) {
            next_epoch(heap.gc_epoch)
        } else {
            heap.gc_epoch
        },
        ..heap
    }
}

/// When relocation cannot go on, every entry still on a relocation-set page
/// is remapped in place so that no entry keeps a stale color.
pub fn remap_remaining_rs_entries(heap: &mut RelocHeap, pages: &ZPageSpace)
    requires
        old(heap)@.wf(),
    ensures
        final(heap)@.wf(),
        relocation_step(old(heap)@, final(heap)@),
        final(heap)@.entries == remapped_rs_entries(old(heap)@.entries, pages@),
        final(heap)@.memory == old(heap)@.memory,
        final(heap)@ == spec_remap_remaining(old(heap)@, pages@),
{
    let ghost heap0 = heap@;
    let ghost remapped = remapped_rs_entries(heap0.entries, pages@);
    let n = heap.entries.len();
    let mut changed = false;
    let mut i: usize = 0;
    while i < n
        invariant
            n == heap0.entries.len(),
            heap0.wf(),
            i <= n,
            remapped == remapped_rs_entries(heap0.entries, pages@),
            changed == exists|h: int| 0 <= h < i && #[trigger] remapped[h] != heap0.entries[h],
            heap@ == (RelocHeapView { entries: heap@.entries, gc_epoch: heap0.gc_epoch, ..heap0 }),
            heap@.entries.len() == n,
            forall|h: int| 0 <= h < n ==> #[trigger] heap@.entries[h] == if h < i {
                remapped_rs_entries(heap0.entries, pages@)[h]
            } else {
                heap0.entries[h]
            },
        decreases n - i,
    {
        let raw = heap.entries[i];
        proof {
            lemma_remap_in_place(raw);
        }
        let ghost changed0 = changed;
        let entry = ZEntry::from_raw(raw);
        if !entry.is_empty() && pages.addr_in_relocation_set(entry.ptr() as usize) {
            let repaired = entry.repair_relocate_non_rs();
            if repaired.raw() != entry.raw() {
                heap.entries.set(i, repaired.raw());
                changed = true;
            }
        }
        proof {
            assert(heap@.entries[i as int] == remapped[i as int]);
            assert(changed == (changed0 || remapped[i as int] != heap0.entries[i as int]));
            if remapped[i as int] != heap0.entries[i as int] {
                assert(exists|h: int| 0 <= h < i + 1 && #[trigger] remapped[h] != heap0.entries[h]);
            }
        }
        i += 1;
    }
    if changed {
        heap.gc_epoch = heap.gc_epoch.wrapping_add(1);
    }
    proof {
        assert(heap@.entries =~= remapped_rs_entries(heap0.entries, pages@));
        assert(heap@ == spec_remap_remaining(heap0, pages@));
        assert forall|h: int| 0 <= h < heap0.entries.len() implies entry_word_wf(#[trigger] heap@.entries[h]) && (heap@.entries[h]
            == heap0.entries[h] || (heap0.entries[h] != 0 && remapped_word(heap@.entries[h]))) by {
            lemma_remap_in_place(heap0.entries[h]);
        }
    }
}

/// Some live object's bytes overlap page `page_idx`.
pub open spec fn spec_page_has_live_object(heap: RelocHeapView, v: ZPageSpaceView, page_idx: usize) -> bool {
    match crate::page::spec_page_start(v.dynamic_start, page_idx) {
        None => false,
        Some(page_start) => exists|h: int|
            0 <= h < heap.entries.len() && heap.entries[h] != 0 && #[trigger] heap.sizes[h] is Some && {
                let ptr = word_ptr(heap.entries[h]) as usize;
                let end = crate::page::sat_add(ptr as int, heap.sizes[h].unwrap() as int);
                ptr < crate::page::sat_add(page_start as int, ZPAGE_SIZE as int) && page_start < end
            },
    }
}

/// Whether any live object still overlaps page `page_idx`.
pub fn page_has_live_object(heap: &RelocHeap, pages: &ZPageSpace, page_idx: usize) -> (r: bool)
    requires
        heap@.wf(),
    ensures
        r == spec_page_has_live_object(heap@, pages@, page_idx),
{
    let page_start = match pages.page_start(page_idx) {
        Some(s) => s,
        None => return false,
    };
    let page_end = page_start.saturating_add(ZPAGE_SIZE);
    let n = heap.entries.len();
    let mut h: usize = 0;
    while h < n
        invariant
            heap@.wf(),
            n == heap@.entries.len(),
            h <= n,
            crate::page::spec_page_start(pages@.dynamic_start, page_idx) == Some(page_start),
            page_end == crate::page::sat_add(page_start as int, ZPAGE_SIZE as int),
            forall|g: int|
                0 <= g < h ==> !(heap@.entries[g] != 0 && #[trigger] heap@.sizes[g] is Some && {
                    let ptr = word_ptr(heap@.entries[g]) as usize;
                    let end = crate::page::sat_add(ptr as int, heap@.sizes[g].unwrap() as int);
                    ptr < page_end && page_start < end
                }),
        decreases n - h,
    {
        let raw = heap.entries[h];
        proof {
            lemma_from_raw_roundtrip(raw);
        }
        let entry = ZEntry::from_raw(raw);
        if !entry.is_empty() {
            let ptr = entry.ptr() as usize;
            match heap.sizes[h] {
                Some(size) => {
                    if ranges_overlap(ptr, ptr.saturating_add(size), page_start, page_end) {
                        return true;
                    }
                },
                None => {},
            }
        }
        h += 1;
    }
    false
}

/// Candidate `c` still stands: its handle names a nonempty entry in its
/// own slot that points at `c.ptr`, on a page still in the relocation set.
pub open spec fn candidate_stands(heap: RelocHeapView, v: ZPageSpaceView, c: RelocationCandidate) -> bool {
    &&& (c.handle as int) < heap.entries.len()
    &&& c.slot == c.handle as usize
    &&& heap.entries[c.handle as int] != 0
    &&& word_ptr(heap.entries[c.handle as int]) as usize == c.ptr
    &&& v.addr_in_relocation_set(c.ptr)
}

/// The heap after the entry in slot `h` was remapped in place; the epoch
/// advances when the word changed.
pub open spec fn remapped_in_place_at(heap: RelocHeapView, h: int) -> RelocHeapView {
    let w = remap_in_place(heap.entries[h]);
    if w != heap.entries[h] {
        RelocHeapView { entries: heap.entries.update(h, w), gc_epoch: next_epoch(heap.gc_epoch), ..heap }
    } else {
        heap
    }
}

/// What the load barrier leaves when it meets handle `h` during
/// relocation: the word it returns, the heap, the page space, the
/// allocator's current page, and the totals of a move (`None` when
/// nothing moved).
pub struct BarrierRelocation {
    pub word: u32,
    pub heap: RelocHeapView,
    pub pages: ZPageSpaceView,
    pub current: Option<BumpPage>,
    pub moved: Option<RelocateResult>,
}

/// The load barrier meeting handle `h` during relocation. An unknown or
/// empty handle gives 0 and changes nothing. While relocation is active an
/// object on a relocation-set page with a known size is moved, and the
/// barrier returns its new entry; when it cannot be moved (or its size is
/// unknown, in which case the entry stays as it is and is returned) the
/// entry is remapped in place. Any other entry is remapped in place and the
/// remapped word returned.
pub open spec fn spec_relocate_or_remap(
    active: bool,
    current: Option<BumpPage>,
    heap: RelocHeapView,
    v: ZPageSpaceView,
    h: u32,
) -> BarrierRelocation {
    let unchanged = BarrierRelocation { word: 0, heap, pages: v, current, moved: None };
    if !heap.is_live(h as int) {
        unchanged
    } else {
        let raw = heap.entries[h as int];
        let ptr = word_ptr(raw) as usize;
        if active && v.addr_in_relocation_set(ptr) {
            match heap.sizes[h as int] {
                None => BarrierRelocation { word: raw, ..unchanged },
                Some(size) => {
                    let rel = spec_relocate_candidate(
                        current,
                        heap,
                        v,
                        RelocationCandidate { handle: h, slot: h as usize, ptr, size },
                    );
                    match rel.result {
                        Some(res) => BarrierRelocation {
                            word: rel.heap.entries[h as int],
                            heap: rel.heap,
                            pages: rel.pages,
                            current: rel.current,
                            moved: Some(res),
                        },
                        None => BarrierRelocation {
                            word: remap_in_place(raw),
                            heap: remapped_in_place_at(rel.heap, h as int),
                            pages: rel.pages,
                            current: rel.current,
                            moved: None,
                        },
                    }
                },
            }
        } else {
            BarrierRelocation { word: remap_in_place(raw), heap: remapped_in_place_at(heap, h as int), ..unchanged }
        }
    }
}

/// What one relocation step leaves.
#[derive(Debug, Clone, Copy, PartialEq, Eq)]
pub enum RelocateStep {
    Idle,
    Progress { remaining_estimate: usize },
    Complete { result: RelocateResult },
}

/// The sum of the sizes of `cs`, saturating.
pub open spec fn sizes_sum(cs: Seq<RelocationCandidate>) -> usize
    decreases cs.len(),
{
    if cs.len() == 0 {
        0
    } else {
        sat_add(sizes_sum(cs.drop_last()) as int, cs.last().size as int) as usize
    }
}

/// The relocation loop's state between two candidates: the allocator's
/// current page, the cursor into the candidates, the cycle's totals, the
/// heap and the page space.
pub struct DrainView {
    pub current: Option<BumpPage>,
    pub cursor: usize,
    pub result: RelocateResult,
    pub heap: RelocHeapView,
    pub pages: ZPageSpaceView,
}

/// `k` is the first candidate at or after `from` that still stands.
pub open spec fn is_next_standing(
    cs: Seq<RelocationCandidate>,
    from: int,
    heap: RelocHeapView,
    v: ZPageSpaceView,
    k: int,
) -> bool {
    &&& from <= k < cs.len()
    &&& candidate_stands(heap, v, cs[k])
    &&& forall|i: int| from <= i < k ==> !#[trigger] candidate_stands(heap, v, cs[i])
}

/// Some candidate at or after `from` still stands.
pub open spec fn has_next_standing(cs: Seq<RelocationCandidate>, from: int, heap: RelocHeapView, v: ZPageSpaceView) -> bool {
    exists|k: int| is_next_standing(cs, from, heap, v, k)
}

/// The first candidate at or after `from` that still stands.
pub open spec fn next_standing(cs: Seq<RelocationCandidate>, from: int, heap: RelocHeapView, v: ZPageSpaceView) -> int {
    choose|k: int| is_next_standing(cs, from, heap, v, k)
}

proof fn lemma_next_standing(cs: Seq<RelocationCandidate>, from: int, heap: RelocHeapView, v: ZPageSpaceView, k: int)
    requires
        is_next_standing(cs, from, heap, v, k),
    ensures
        has_next_standing(cs, from, heap, v),
        next_standing(cs, from, heap, v) == k,
{
    let t = next_standing(cs, from, heap, v);
    assert(is_next_standing(cs, from, heap, v, t));
    if t < k {
        assert(!candidate_stands(heap, v, cs[t]));
    } else if k < t {
        assert(!candidate_stands(heap, v, cs[k]));
    }
}

/// Two totals added field by field, saturating.
pub open spec fn result_plus(a: RelocateResult, b: RelocateResult) -> RelocateResult {
    RelocateResult {
        relocated_objects: sat_add(a.relocated_objects as int, b.relocated_objects as int) as usize,
        relocated_bytes: sat_add(a.relocated_bytes as int, b.relocated_bytes as int) as usize,
        released_pages: sat_add(a.released_pages as int, b.released_pages as int) as usize,
    }
}

/// The relocation of the next standing candidate from `s`.
pub open spec fn drain_relocation(cs: Seq<RelocationCandidate>, s: DrainView) -> Relocation {
    spec_relocate_candidate(s.current, s.heap, s.pages, cs[next_standing(cs, s.cursor as int, s.heap, s.pages)])
}

/// From `s` the loop moves a candidate: one still stands and moving it
/// succeeds.
pub open spec fn drain_step_moves(cs: Seq<RelocationCandidate>, s: DrainView) -> bool {
    has_next_standing(cs, s.cursor as int, s.heap, s.pages) && drain_relocation(cs, s).result is Some
}

/// The loop's state after it moved the next standing candidate from `s`.
pub open spec fn drain_step(cs: Seq<RelocationCandidate>, s: DrainView) -> DrainView {
    let rel = drain_relocation(cs, s);
    DrainView {
        current: rel.current,
        cursor: (next_standing(cs, s.cursor as int, s.heap, s.pages) + 1) as usize,
        result: result_plus(s.result, rel.result.unwrap()),
        heap: rel.heap,
        pages: rel.pages,
    }
}

/// The loop's state after `n` candidates were moved from `s0`.
pub open spec fn drain_after(cs: Seq<RelocationCandidate>, s0: DrainView, n: nat) -> DrainView
    decreases n,
{
    if n == 0 {
        s0
    } else {
        drain_step(cs, drain_after(cs, s0, (n - 1) as nat))
    }
}

/// The first `n` steps from `s0` each moved a candidate.
pub open spec fn drain_moves(cs: Seq<RelocationCandidate>, s0: DrainView, n: nat) -> bool {
    forall|m: nat| m < n ==> drain_step_moves(cs, #[trigger] drain_after(cs, s0, m))
}

/// The work a candidate counts for: its size, and at least one byte.
pub open spec fn copy_weight(c: RelocationCandidate) -> usize {
    if c.size > 1 {
        c.size
    } else {
        1
    }
}

/// The work counted for the first `n` candidates moved from `s0`,
/// saturating.
pub open spec fn drain_work(cs: Seq<RelocationCandidate>, s0: DrainView, n: nat) -> usize
    decreases n,
{
    if n == 0 {
        0
    } else {
        let s = drain_after(cs, s0, (n - 1) as nat);
        sat_add(
            drain_work(cs, s0, (n - 1) as nat) as int,
            copy_weight(cs[next_standing(cs, s.cursor as int, s.heap, s.pages)]) as int,
        ) as usize
    }
}

/// How a step that worked from `s0` through `cs` ended after moving `n`
/// candidates: with `Progress` the state is the one reached; with
/// `Complete` either no candidate stood any more, or the next one could not
/// be moved and what was left in the relocation set was remapped in place,
/// and either way the relocation set was cleared.
pub open spec fn drain_ended(
    cs: Seq<RelocationCandidate>,
    s0: DrainView,
    n: nat,
    r: RelocateStep,
    heap: RelocHeapView,
    v: ZPageSpaceView,
) -> bool {
    let s = drain_after(cs, s0, n);
    match r {
        RelocateStep::Progress { remaining_estimate } => {
            &&& heap == s.heap
            &&& v == s.pages
            &&& remaining_estimate == sizes_sum(
                cs.skip(
                    if s.cursor < cs.len() {
                        s.cursor as int
                    } else {
                        cs.len() as int
                    },
                ),
            )
        },
        RelocateStep::Complete { result } => {
            &&& result == s.result
            &&& if !has_next_standing(cs, s.cursor as int, s.heap, s.pages) {
                heap == s.heap && v == cleared_view(s.pages)
            } else {
                let rel = drain_relocation(cs, s);
                &&& rel.result is None
                &&& heap == spec_remap_remaining(rel.heap, rel.pages)
                &&& v == cleared_view(rel.pages)
            }
        },
        RelocateStep::Idle => false,
    }
}

/// The bytes a step may copy: `work_bytes`, and at least one.
pub open spec fn step_budget(work_bytes: usize) -> usize {
    if work_bytes > 1 {
        work_bytes
    } else {
        1
    }
}

/// A step that worked from `s0` through `cs` with a budget of `budget`
/// bytes and returned `r`, leaving `heap` and `v`: it moved `n` candidates,
/// each while less than the budget had been copied, and then ended as
/// `drain_ended` says.
pub open spec fn drain_explains(
    cs: Seq<RelocationCandidate>,
    s0: DrainView,
    budget: usize,
    n: nat,
    r: RelocateStep,
    heap: RelocHeapView,
    v: ZPageSpaceView,
) -> bool {
    &&& drain_moves(cs, s0, n)
    &&& forall|m: nat| m < n ==> #[trigger] drain_work(cs, s0, m) < budget
    &&& drain_ended(cs, s0, n, r, heap, v)
}

impl ZRelocateState {
    pub closed spec fn spec_candidates(&self) -> Seq<RelocationCandidate> {
        self.candidates@
    }

    pub closed spec fn spec_cursor(&self) -> usize {
        self.cursor
    }

    pub closed spec fn spec_result(&self) -> RelocateResult {
        self.cycle_result
    }

    /// The page the cycle's copy targets are bumped from.
    pub closed spec fn spec_current_page(&self) -> Option<BumpPage> {
        self.allocator.current
    }

    /// Bytes of the candidates not yet visited.
    pub fn remaining_candidate_bytes(&self) -> (r: usize)
        ensures
            r == sizes_sum(
                self.spec_candidates().skip(
                    if self.spec_cursor() < self.spec_candidates().len() {
                        self.spec_cursor() as int
                    } else {
                        self.spec_candidates().len() as int
                    },
                ),
            ),
    {
        let n = self.candidates.len();
        let start = if self.cursor < n {
            self.cursor
        } else {
            n
        };
        let ghost rest = self.candidates@.skip(start as int);
        let mut total: usize = 0;
        let mut i: usize = start;
        while i < n
            invariant
                start <= i <= n,
                n == self.candidates@.len(),
                rest == self.candidates@.skip(start as int),
                total == sizes_sum(rest.take(i - start)),
            decreases n - i,
        {
            proof {
                assert(rest.take(i - start + 1).drop_last() =~= rest.take(i - start));
                assert(rest.take(i - start + 1).last() == self.candidates@[i as int]);
            }
            total = total.saturating_add(self.candidates[i].size);
            i += 1;
        }
        proof {
            assert(rest.take(n - start) =~= rest);
        }
        total
    }

    /// The next unvisited candidate whose entry still points where it was
    /// found, on a page still in the relocation set.
    fn next_relocation_candidate(&mut self, heap: &RelocHeap, pages: &ZPageSpace) -> (r: Option<RelocationCandidate>)
        requires
            heap@.wf(),
        ensures
            final(self).spec_candidates() == old(self).spec_candidates(),
            final(self).spec_active() == old(self).spec_active(),
            final(self).spec_result() == old(self).spec_result(),
            final(self).spec_current_page() == old(self).spec_current_page(),
            final(self).spec_cursor() >= old(self).spec_cursor(),
            final(self).spec_cursor() <= old(self).spec_candidates().len() || final(self).spec_cursor()
                == old(self).spec_cursor(),
            forall|i: int|
                old(self).spec_cursor() <= i < final(self).spec_cursor() - (if r is Some { 1int } else { 0int })
                    ==> !#[trigger] candidate_stands(heap@, pages@, old(self).spec_candidates()[i]),
            r matches Some(c) ==> {
                &&& final(self).spec_cursor() > old(self).spec_cursor()
                &&& c == old(self).spec_candidates()[final(self).spec_cursor() - 1]
                &&& candidate_stands(heap@, pages@, c)
            },
            r is None ==> final(self).spec_cursor() == if old(self).spec_cursor() < old(self).spec_candidates().len() {
                old(self).spec_candidates().len() as int
            } else {
                old(self).spec_cursor() as int
            },
    {
        while self.cursor < self.candidates.len()
            invariant
                heap@.wf(),
                self.candidates@ == old(self).candidates@,
                self.active == old(self).active,
                self.cycle_result == old(self).cycle_result,
                self.allocator == old(self).allocator,
                old(self).cursor <= self.cursor,
                self.cursor <= self.candidates@.len() || self.cursor == old(self).cursor,
                forall|i: int|
                    old(self).cursor <= i < self.cursor ==> !#[trigger] candidate_stands(
                        heap@,
                        pages@,
                        old(self).candidates@[i],
                    ),
            decreases self.candidates@.len() - self.cursor,
        {
            let candidate = self.candidates[self.cursor];
            self.cursor += 1;
            let h = candidate.handle as usize;
            if h >= heap.entries.len() || candidate.slot != h {
                continue;
            }
            let raw = heap.entries[h];
            proof {
                lemma_from_raw_roundtrip(raw);
            }
            let entry = ZEntry::from_raw(raw);
            if entry.is_empty() || entry.ptr() as usize != candidate.ptr {
                continue;
            }
            if pages.addr_in_relocation_set(candidate.ptr) {
                return Some(candidate);
            }
        }
        None
    }

    /// The load barrier met handle `h` during relocation. An object on a
    /// relocation-set page is moved and its entry points at the copy;
    /// otherwise the entry is remapped in place. Returns the entry's new word
    /// (0 for an empty or unknown handle).
    pub fn relocate_or_remap_handle(&mut self, heap: &mut RelocHeap, pages: &mut ZPageSpace, h: u32) -> (r: u32)
        requires
            old(heap)@.wf(),
        ensures
            ({
                let o = spec_relocate_or_remap(
                    old(self).spec_active(),
                    old(self).spec_current_page(),
                    old(heap)@,
                    old(pages)@,
                    h,
                );
                &&& r == o.word
                &&& final(heap)@ == o.heap
                &&& final(pages)@ == o.pages
                &&& final(self).spec_current_page() == o.current
                &&& final(self).spec_result() == match o.moved {
                    Some(res) => result_plus(old(self).spec_result(), res),
                    None => old(self).spec_result(),
                }
            }),
            final(heap)@.wf(),
            relocation_step(old(heap)@, final(heap)@),
            final(pages)@.dynamic_start == old(pages)@.dynamic_start,
            !old(heap)@.is_live(h as int) ==> r == 0 && final(heap)@.entries == old(heap)@.entries,
            old(heap)@.is_live(h as int) ==> r == final(heap)@.entries[h as int],
            final(self).spec_candidates() == old(self).spec_candidates(),
            final(self).spec_cursor() == old(self).spec_cursor(),
            final(self).spec_active() == old(self).spec_active(),
    {
        proof {
            reveal(spec_relocate_candidate);
        }
        let ghost heap0 = heap@;
        let hi = h as usize;
        if hi >= heap.entries.len() {
            return 0;
        }
        let raw = heap.entries[hi];
        proof {
            lemma_remap_in_place(raw);
        }
        let entry = ZEntry::from_raw(raw);
        if entry.is_empty() {
            return 0;
        }
        let ptr = entry.ptr() as usize;
        if self.active && pages.addr_in_relocation_set(ptr) {
            let size = match heap.sizes[hi] {
                Some(size) => size,
                None => {
                    return entry.raw();
                },
            };
            let candidate = RelocationCandidate { handle: h, slot: hi, ptr, size };
            match relocate_candidate(heap, pages, &mut self.allocator, &mut self.scratch, candidate) {
                Some(relocated) => {
                    self.cycle_result.add(relocated);
                    return heap.entries[hi];
                },
                None => {},
            }
            let ghost mid = heap@;
            let repaired = entry.repair_relocate_non_rs();
            if repaired.raw() != heap.entries[hi] {
                heap.entries.set(hi, repaired.raw());
                heap.gc_epoch = heap.gc_epoch.wrapping_add(1);
            }
            proof {
                assert(mid.entries == heap0.entries);
                assert(heap@ == remapped_in_place_at(mid, hi as int));
                assert(heap@.entries =~= heap0.entries.update(hi as int, remap_in_place(raw)));
                assert forall|g: int| 0 <= g < heap0.entries.len() implies entry_word_wf(#[trigger] heap@.entries[g])
                    && (heap@.entries[g] == heap0.entries[g] || (heap0.entries[g] != 0 && remapped_word(
                    heap@.entries[g],
                ))) by {}
            }
            return repaired.raw();
        }
        let repaired = entry.repair_relocate_non_rs();
        if repaired.raw() != entry.raw() {
            heap.entries.set(hi, repaired.raw());
            heap.gc_epoch = heap.gc_epoch.wrapping_add(1);
        }
        proof {
            assert(heap@ == remapped_in_place_at(heap0, hi as int));
            assert(heap@.entries =~= heap0.entries.update(hi as int, remap_in_place(raw)));
            assert forall|g: int| 0 <= g < heap0.entries.len() implies entry_word_wf(#[trigger] heap@.entries[g])
                && (heap@.entries[g] == heap0.entries[g] || (heap0.entries[g] != 0 && remapped_word(heap@.entries[g]))) by {}
        }
        repaired.raw()
    }

    /// Ends the cycle: the relocation set is cleared and the cycle's totals
    /// are handed back.
    fn finish(&mut self, pages: &mut ZPageSpace) -> (r: RelocateStep)
        ensures
            r == (RelocateStep::Complete { result: old(self).spec_result() }),
            !final(self).spec_active(),
            final(self).spec_candidates().len() == 0,
            final(self).spec_cursor() == 0,
            final(self).spec_result() == (RelocateResult { relocated_objects: 0, relocated_bytes: 0, released_pages: 0 }),
            final(self).spec_current_page().is_none(),
            final(pages)@ == cleared_view(old(pages)@),
    {
        self.active = false;
        self.allocator.reset();
        self.candidates.clear();
        self.cursor = 0;
        pages.clear_relocation_set();
        proof {
            assert(pages@.pages =~= cleared_view(old(pages)@).pages);
        }
        let result = self.cycle_result;
        self.cycle_result = RelocateResult { relocated_objects: 0, relocated_bytes: 0, released_pages: 0 };
        RelocateStep::Complete { result }
    }

    /// The candidates a step works through: those of the cycle, or, when
    /// none are listed yet, those the relocation set holds now.
    pub open spec fn drain_candidates(&self, heap: RelocHeapView, v: ZPageSpaceView) -> Seq<RelocationCandidate> {
        if self.spec_candidates().len() > 0 {
            self.spec_candidates()
        } else {
            spec_relocation_candidates(heap, v, heap.entries.len())
        }
    }

    /// The loop state a step starts from.
    pub open spec fn drain_start(&self, heap: RelocHeapView, v: ZPageSpaceView) -> DrainView {
        DrainView {
            current: self.spec_current_page(),
            cursor: if self.spec_candidates().len() > 0 {
                self.spec_cursor()
            } else {
                0
            },
            result: self.spec_result(),
            heap,
            pages: v,
        }
    }

    /// The relocator holds the loop state `s`.
    pub open spec fn holds_drain_state(&self, s: DrainView) -> bool {
        &&& self.spec_current_page() == s.current
        &&& self.spec_cursor() == s.cursor
        &&& self.spec_result() == s.result
    }

    /// One incremental relocation step: moves candidates until `work_bytes`
    /// (at least one byte) have been copied or `deadline` passes. The cycle
    /// completes when no candidate is left, and gives up (remapping what is
    /// left in place) when no copy target can be allocated.
    pub fn drain_incremental(
        &mut self,
        heap: &mut RelocHeap,
        pages: &mut ZPageSpace,
        work_bytes: usize,
        deadline: &Instant,
    ) -> (r: RelocateStep)
        requires
            old(heap)@.wf(),
        ensures
            final(heap)@.wf(),
            relocation_step(old(heap)@, final(heap)@),
            !old(self).spec_active() ==> {
                &&& r == RelocateStep::Idle
                &&& final(heap)@ == old(heap)@
                &&& final(pages)@ == old(pages)@
                &&& *final(self) == *old(self)
            },
            old(self).spec_active() ==> exists|n: nat|
                {
                    &&& #[trigger] drain_explains(
                        old(self).drain_candidates(old(heap)@, old(pages)@),
                        old(self).drain_start(old(heap)@, old(pages)@),
                        step_budget(work_bytes),
                        n,
                        r,
                        final(heap)@,
                        final(pages)@,
                    )
                    &&& r is Progress ==> final(self).holds_drain_state(
                        drain_after(
                            old(self).drain_candidates(old(heap)@, old(pages)@),
                            old(self).drain_start(old(heap)@, old(pages)@),
                            n,
                        ),
                    )
                },
            r is Progress ==> final(self).spec_active() && final(self).spec_candidates() == old(self).drain_candidates(
                old(heap)@,
                old(pages)@,
            ),
            r is Complete ==> {
                &&& !final(self).spec_active()
                &&& final(self).spec_candidates().len() == 0
                &&& final(self).spec_cursor() == 0
                &&& final(self).spec_result() == (RelocateResult {
                    relocated_objects: 0,
                    relocated_bytes: 0,
                    released_pages: 0,
                })
                &&& final(self).spec_current_page().is_none()
            },
    {
        if !self.active {
            return RelocateStep::Idle;
        }
        let ghost heap0 = heap@;
        let ghost cs = self.drain_candidates(heap@, pages@);
        let ghost s0 = self.drain_start(heap@, pages@);
        if self.candidates.len() == 0 {
            self.candidates = collect_relocation_candidates(heap, pages);
            self.cursor = 0;
            self.active = self.candidates.len() > 0;
            if !self.active {
                let r = self.finish(pages);
                proof {
                    assert(drain_explains(cs, s0, step_budget(work_bytes), 0, r, heap@, pages@));
                }
                return r;
            }
        }
        let budget_bytes = if work_bytes > 1 {
            work_bytes
        } else {
            1
        };
        let mut copied: usize = 0;
        let ghost mut n: nat = 0;
        loop
            invariant
                heap@.wf(),
                heap0 == old(heap)@,
                old(self).active,
                relocation_step(heap0, heap@),
                self.active,
                cs == old(self).drain_candidates(old(heap)@, old(pages)@),
                s0 == old(self).drain_start(old(heap)@, old(pages)@),
                budget_bytes == step_budget(work_bytes),
                self.candidates@ == cs,
                drain_moves(cs, s0, n),
                forall|m: nat| m < n ==> #[trigger] drain_work(cs, s0, m) < budget_bytes,
                copied == drain_work(cs, s0, n),
                self.holds_drain_state(drain_after(cs, s0, n)),
                heap@ == drain_after(cs, s0, n).heap,
                pages@ == drain_after(cs, s0, n).pages,
            decreases self.candidates@.len() - self.cursor,
        {
            if copied >= budget_bytes || deadline_passed(deadline) {
                let r = RelocateStep::Progress { remaining_estimate: self.remaining_candidate_bytes() };
                proof {
                    assert(drain_explains(cs, s0, budget_bytes, n, r, heap@, pages@));
                }
                return r;
            }
            let ghost sn = drain_after(cs, s0, n);
            let ghost cursor0 = self.cursor;
            let candidate = match self.next_relocation_candidate(heap, pages) {
                Some(c) => c,
                None => {
                    proof {
                        assert(!has_next_standing(cs, sn.cursor as int, sn.heap, sn.pages));
                    }
                    let r = self.finish(pages);
                    proof {
                        assert(drain_explains(cs, s0, budget_bytes, n, r, heap@, pages@));
                    }
                    return r;
                },
            };
            proof {
                lemma_next_standing(cs, cursor0 as int, heap@, pages@, self.cursor - 1);
            }
            let ghost before = heap@;
            match relocate_candidate(heap, pages, &mut self.allocator, &mut self.scratch, candidate) {
                Some(relocated) => {
                    proof {
                        lemma_relocation_step_trans(heap0, before, heap@);
                    }
                    copied = copied.saturating_add(if candidate.size > 1 { candidate.size } else { 1 });
                    self.cycle_result.add(relocated);
                    proof {
                        assert(drain_step_moves(cs, sn));
                        assert(drain_after(cs, s0, n + 1) == drain_step(cs, sn));
                        assert forall|m: nat| m < n + 1 implies drain_step_moves(cs, #[trigger] drain_after(cs, s0, m)) by {
                            if m < n {
                                assert(drain_step_moves(cs, drain_after(cs, s0, m)));
                            }
                        }
                        assert forall|m: nat| m < n + 1 implies #[trigger] drain_work(cs, s0, m) < budget_bytes by {
                            if m < n {
                                assert(drain_work(cs, s0, m) < budget_bytes);
                            }
                        }
                        n = n + 1;
                    }
                },
                None => {
                    proof {
                        lemma_relocation_step_trans(heap0, before, heap@);
                    }
                    let ghost mid = heap@;
                    remap_remaining_rs_entries(heap, pages);
                    proof {
                        lemma_relocation_step_trans(heap0, mid, heap@);
                    }
                    let r = self.finish(pages);
                    proof {
                        assert(drain_explains(cs, s0, budget_bytes, n, r, heap@, pages@));
                    }
                    return r;
                },
            }
        }
    }
}


} // verus!
