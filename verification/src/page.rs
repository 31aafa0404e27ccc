//! Host-side page metadata of the ZGC heap: one entry per 64 KiB page of
//! the dynamic heap, with its kind, live bytes and relocation-set bit.

use vstd::prelude::*;

use crate::color::{ZColor, ZEntry, entry_word, spec_entry_from_raw, word_ptr};
use crate::words::{le_word, put_le_word, lemma_put_le_word, read_le_word, write_le_word};

verus! {

pub const ZPAGE_SIZE: usize = 65536;

pub const RELOCATION_FRAGMENTATION_PERCENT: usize = 25;

#[derive(Debug, Clone, Copy, PartialEq, Eq, Structural)]
pub enum ZPageKind {
    Free,
    Active,
    Relocating,
}

#[derive(Debug, Clone, Copy, PartialEq, Eq, Structural)]
pub struct ZPageMeta {
    pub kind: ZPageKind,
    pub live_bytes: usize,
    pub relocation_set: bool,
    pub age: u8,
}

/// A page as it is when it is created, released or reclaimed.
pub open spec fn fresh_page(kind: ZPageKind) -> ZPageMeta {
    ZPageMeta { kind, live_bytes: 0, relocation_set: false, age: 0 }
}

impl ZPageMeta {
    fn new(kind: ZPageKind) -> (r: ZPageMeta)
        ensures
            r == fresh_page(kind),
    {
        ZPageMeta { kind, live_bytes: 0, relocation_set: false, age: 0 }
    }
}

#[derive(Debug, Clone, Copy, PartialEq, Eq, Structural)]
pub enum DeadHandleCleanupStage {
    WeakAndSideTables,
    PublishHandles,
}

/// Dead handles are published for reuse only after weak references and side
/// tables have forgotten them.
pub fn dead_handle_cleanup_order() -> (r: [DeadHandleCleanupStage; 2])
    ensures
        r@ == seq![DeadHandleCleanupStage::WeakAndSideTables, DeadHandleCleanupStage::PublishHandles],
{
    [DeadHandleCleanupStage::WeakAndSideTables, DeadHandleCleanupStage::PublishHandles]
}

// ---------------------------------------------------------------------------
// Address arithmetic

pub open spec fn page_lo(start: int, j: int) -> int {
    start + j * (ZPAGE_SIZE as int)
}

pub open spec fn page_hi(start: int, j: int) -> int {
    start + (j + 1) * (ZPAGE_SIZE as int)
}

/// Length of the intersection of `[lo, hi)` and `[a, b)`.
pub open spec fn overlap(lo: int, hi: int, a: int, b: int) -> int {
    let l = if lo > a { lo } else { a };
    let h = if hi < b { hi } else { b };
    if h > l {
        h - l
    } else {
        0
    }
}

/// End of the byte range `[ptr, ptr + size)` clipped to the address space.
pub open spec fn range_end(ptr: usize, size: usize) -> int {
    if ptr + size > usize::MAX {
        usize::MAX as int
    } else {
        ptr + size
    }
}

/// Bytes of the range `[ptr, ptr + size)` that fall on page `j`; a range
/// that begins below the dynamic heap touches no page.
pub open spec fn range_bytes_on_page(start: usize, ptr: usize, size: usize, j: int) -> int {
    if ptr < start {
        0
    } else {
        overlap(ptr as int, range_end(ptr, size), page_lo(start as int, j), page_hi(start as int, j))
    }
}

pub open spec fn sat_add(a: int, b: int) -> int {
    if a + b > usize::MAX {
        usize::MAX as int
    } else {
        a + b
    }
}

pub open spec fn sat_sub(a: int, b: int) -> int {
    if a - b < 0 {
        0
    } else {
        a - b
    }
}

/// A page after `bytes` of live data were counted on it.
pub open spec fn page_with_added(p: ZPageMeta, bytes: int) -> ZPageMeta {
    if bytes > 0 {
        ZPageMeta { kind: ZPageKind::Active, live_bytes: sat_add(p.live_bytes as int, bytes) as usize, ..p }
    } else {
        p
    }
}

/// A page after `bytes` of live data left it.
pub open spec fn page_with_subtracted(p: ZPageMeta, bytes: int) -> ZPageMeta {
    if bytes > 0 {
        ZPageMeta { live_bytes: sat_sub(p.live_bytes as int, bytes) as usize, ..p }
    } else {
        p
    }
}

/// The indices `j < n` for which `f(j)` holds, ascending.
pub open spec fn indices_where(n: nat, f: spec_fn(int) -> bool) -> Seq<usize>
    decreases n,
{
    if n == 0 {
        Seq::empty()
    } else {
        let rest = indices_where((n - 1) as nat, f);
        if f(n - 1) {
            rest.push((n - 1) as usize)
        } else {
            rest
        }
    }
}

pub proof fn lemma_indices_where_bounds(n: nat, f: spec_fn(int) -> bool)
    requires
        n <= usize::MAX,
    ensures
        forall|k: int| 0 <= k < indices_where(n, f).len() ==> {
            &&& #[trigger] indices_where(n, f)[k] < n
            &&& f(indices_where(n, f)[k] as int)
        },
        forall|k1: int, k2: int|
            0 <= k1 < k2 < indices_where(n, f).len() ==> indices_where(n, f)[k1] < indices_where(n, f)[k2],
        forall|j: int| 0 <= j < n && #[trigger] f(j) ==> indices_where(n, f).contains(j as usize),
    decreases n,
{
    if n > 0 {
        lemma_indices_where_bounds((n - 1) as nat, f);
        let rest = indices_where((n - 1) as nat, f);
        let all = indices_where(n, f);
        if f(n - 1) {
            assert(all == rest.push((n - 1) as usize));
            assert forall|k: int| 0 <= k < all.len() implies {
                &&& #[trigger] all[k] < n
                &&& f(all[k] as int)
            } by {
                if k < rest.len() {
                    assert(all[k] == rest[k]);
                }
            }
            assert forall|k1: int, k2: int| 0 <= k1 < k2 < all.len() implies all[k1] < all[k2] by {
                assert(all[k1] == rest[k1]);
                if k2 < rest.len() {
                    assert(all[k2] == rest[k2]);
                }
            }
            assert forall|j: int| 0 <= j < n && #[trigger] f(j) implies all.contains(j as usize) by {
                if j < n - 1 {
                    let k = choose|k: int| 0 <= k < rest.len() && rest[k] == j as usize;
                    assert(all[k] == j as usize);
                } else {
                    assert(all[rest.len() as int] == j as usize);
                }
            }
        } else {
            assert(all == rest);
        }
    }
}

/// Two predicates that agree below `n` select the same indices.
pub proof fn lemma_indices_where_ext(n: nat, f: spec_fn(int) -> bool, g: spec_fn(int) -> bool)
    requires
        forall|j: int| 0 <= j < n ==> #[trigger] f(j) == g(j),
    ensures
        indices_where(n, f) == indices_where(n, g),
    decreases n,
{
    if n > 0 {
        lemma_indices_where_ext((n - 1) as nat, f, g);
    }
}

/// Turning on the predicate at one index `idx` beyond which nothing was
/// selected appends `idx` to the selection.
pub proof fn lemma_indices_where_extend(
    n: nat,
    f: spec_fn(int) -> bool,
    g: spec_fn(int) -> bool,
    idx: int,
)
    requires
        forall|j: int| 0 <= j < n && j != idx ==> #[trigger] f(j) == g(j),
        forall|j: int| idx <= j < n ==> !#[trigger] f(j),
        forall|j: int| idx < j < n ==> !#[trigger] g(j),
        0 <= idx,
    ensures
        indices_where(n, g) == if idx < n && g(idx) {
            indices_where(n, f).push(idx as usize)
        } else {
            indices_where(n, f)
        },
    decreases n,
{
    if n > 0 {
        if n - 1 > idx {
            lemma_indices_where_extend((n - 1) as nat, f, g, idx);
        } else if n - 1 == idx {
            lemma_indices_where_ext((n - 1) as nat, f, g);
        } else {
            lemma_indices_where_ext(n, f, g);
        }
    }
}

pub proof fn lemma_indices_where_none(n: nat)
    ensures
        indices_where(n, |j: int| false) == Seq::<usize>::empty(),
    decreases n,
{
    if n > 0 {
        lemma_indices_where_none((n - 1) as nat);
    }
}

/// Every address at or above the heap start lies on the page its offset
/// names.
pub proof fn lemma_page_of(start: int, addr: int)
    requires
        start <= addr,
    ensures
        (addr - start) / (ZPAGE_SIZE as int) >= 0,
        page_lo(start, (addr - start) / (ZPAGE_SIZE as int)) <= addr,
        addr < page_hi(start, (addr - start) / (ZPAGE_SIZE as int)),
{
    let d = addr - start;
    let q = d / 65536;
    assert(q * 65536 <= d < q * 65536 + 65536) by (nonlinear_arith)
        requires
            d >= 0,
            q == d / 65536,
    ;
}

/// Pages are 64 KiB from the heap start: an address below the start is on
/// no page; any other lies on the page whose range holds it; a page starts
/// `idx` pages after the heap start (when that fits in an address), and
/// every address inside it maps back to it.
pub proof fn law_page_index_and_start(start: usize, addr: usize, idx: usize, off: int)
    ensures
        addr < start ==> spec_page_index(start, addr) is None,
        start <= addr ==> (spec_page_index(start, addr) matches Some(i) && start + i * 65536 <= addr && addr < start
            + (i + 1) * 65536),
        spec_page_start(start, idx) matches Some(a) ==> a == start + idx * 65536,
        start + idx * 65536 > usize::MAX ==> spec_page_start(start, idx) is None,
        spec_page_start(start, idx) matches Some(a) ==> (0 <= off < 65536 && a + off <= usize::MAX
            ==> spec_page_index(start, (a + off) as usize) == Some(idx)),
{
    if start <= addr {
        let d = addr - start;
        let q = d / 65536;
        assert(q * 65536 <= d < q * 65536 + 65536) by (nonlinear_arith)
            requires
                d >= 0,
                q == d / 65536,
        ;
    }
    if spec_page_start(start, idx) is Some && 0 <= off < 65536 {
        let d = idx * 65536 + off;
        assert(d / 65536 == idx) by (nonlinear_arith)
            requires
                d == idx * 65536 + off,
                0 <= off < 65536,
                idx >= 0,
        ;
    }
}

/// Moving the cursor by `chunk` bytes inside page `idx` adds the chunk to
/// that page's overlap and leaves every other page's overlap alone.
pub proof fn lemma_chunk_step(start: int, ptr: int, cursor: int, chunk: int, idx: int, j: int)
    requires
        idx >= 0,
        j >= 0,
        page_lo(start, idx) <= cursor,
        cursor == ptr || cursor == page_lo(start, idx),
        ptr <= cursor,
        chunk > 0,
        cursor + chunk <= page_hi(start, idx),
    ensures
        j >= idx ==> overlap(ptr, cursor, page_lo(start, j), page_hi(start, j)) == 0,
        j > idx ==> overlap(ptr, cursor + chunk, page_lo(start, j), page_hi(start, j)) == 0,
        overlap(ptr, cursor + chunk, page_lo(start, j), page_hi(start, j)) == overlap(
            ptr,
            cursor,
            page_lo(start, j),
            page_hi(start, j),
        ) + if j == idx {
            chunk
        } else {
            0
        },
{
    if j < idx {
        assert(page_hi(start, j) <= page_lo(start, idx));
    } else if j > idx {
        assert(page_lo(start, j) >= page_hi(start, idx));
    }
}

// ---------------------------------------------------------------------------
// The page space

#[derive(Debug, Clone)]
pub struct ZPageSpace {
    dynamic_start: usize,
    pages: Vec<ZPageMeta>,
}

#[verifier::ext_equal]
pub struct ZPageSpaceView {
    pub dynamic_start: usize,
    pub pages: Seq<ZPageMeta>,
}

impl View for ZPageSpace {
    type V = ZPageSpaceView;

    closed spec fn view(&self) -> ZPageSpaceView {
        ZPageSpaceView { dynamic_start: self.dynamic_start, pages: self.pages@ }
    }
}

/// The pages after the metadata is resized to `n` entries: truncated, or
/// extended with free pages.
pub open spec fn resized_pages(pages: Seq<ZPageMeta>, n: nat) -> Seq<ZPageMeta> {
    if n <= pages.len() {
        pages.take(n as int)
    } else {
        pages + Seq::new((n - pages.len()) as nat, |i: int| fresh_page(ZPageKind::Free))
    }
}

/// Number of pages needed to cover `[dynamic_start, committed_end)`.
pub open spec fn pages_needed(dynamic_start: usize, committed_end: usize) -> nat {
    let d = committed_end - dynamic_start;
    (if d % (ZPAGE_SIZE as int) == 0 {
        d / (ZPAGE_SIZE as int)
    } else {
        d / (ZPAGE_SIZE as int) + 1
    }) as nat
}

pub open spec fn spec_extend_for_committed_end(
    v: ZPageSpaceView,
    committed_end: usize,
) -> ZPageSpaceView {
    if committed_end <= v.dynamic_start {
        v
    } else {
        ZPageSpaceView {
            dynamic_start: v.dynamic_start,
            pages: resized_pages(v.pages, pages_needed(v.dynamic_start, committed_end)),
        }
    }
}

pub open spec fn spec_page_index(start: usize, addr: usize) -> Option<usize> {
    if addr < start {
        None
    } else {
        Some(((addr - start) / (ZPAGE_SIZE as int)) as usize)
    }
}

pub open spec fn spec_page_start(start: usize, idx: usize) -> Option<usize> {
    if start + idx * (ZPAGE_SIZE as int) > usize::MAX {
        None
    } else {
        Some((start + idx * (ZPAGE_SIZE as int)) as usize)
    }
}

impl ZPageSpaceView {
    pub open spec fn is_relocation_set(self, idx: int) -> bool {
        0 <= idx < self.pages.len() && self.pages[idx].relocation_set
            && self.pages[idx].kind == ZPageKind::Relocating
    }

    pub open spec fn addr_in_relocation_set(self, addr: usize) -> bool {
        match spec_page_index(self.dynamic_start, addr) {
            Some(idx) => self.is_relocation_set(idx as int),
            None => false,
        }
    }

    /// Pages the relocation set may take: active or relocating, neither
    /// empty nor full, and with more than a quarter of the page garbage.
    pub open spec fn is_candidate(self, idx: int) -> bool {
        &&& 0 <= idx < self.pages.len()
        &&& (self.pages[idx].kind == ZPageKind::Active || self.pages[idx].kind
            == ZPageKind::Relocating)
        &&& self.pages[idx].live_bytes != 0
        &&& self.pages[idx].live_bytes < ZPAGE_SIZE
        &&& (ZPAGE_SIZE - self.pages[idx].live_bytes) * 100 > ZPAGE_SIZE
            * RELOCATION_FRAGMENTATION_PERCENT
    }
}

pub open spec fn is_free_page(p: ZPageMeta) -> bool {
    p.kind == ZPageKind::Free
}

pub open spec fn all_free(pages: Seq<ZPageMeta>, start: int, count: int) -> bool {
    forall|j: int| start <= j < start + count ==> #[trigger] is_free_page(pages[j])
}

impl Default for ZPageSpace {
    fn default() -> (r: ZPageSpace)
        ensures
            r@.dynamic_start == 0,
            r@.pages == Seq::<ZPageMeta>::empty(),
    {
        ZPageSpace { dynamic_start: 0, pages: Vec::new() }
    }
}

impl ZPageSpace {
    pub fn attach(&mut self, dynamic_start: usize, committed_end: usize)
        ensures
            final(self)@ == spec_extend_for_committed_end(
                ZPageSpaceView { dynamic_start, pages: old(self)@.pages },
                committed_end,
            ),
    {
        self.dynamic_start = dynamic_start;
        self.extend_for_committed_end(committed_end);
    }

    pub fn dynamic_start(&self) -> (r: usize)
        ensures
            r == self@.dynamic_start,
    {
        self.dynamic_start
    }

    pub fn page_count(&self) -> (r: usize)
        ensures
            r == self@.pages.len(),
    {
        self.pages.len()
    }

    /// Host memory the metadata occupies: one `ZPageMeta` per page. The
    /// product always fits, since the pages occupy that much memory; the
    /// result saturates should it not.
    pub fn metadata_bytes(&self) -> (r: usize)
        ensures
            r == if self@.pages.len() * vstd::layout::size_of::<ZPageMeta>() <= usize::MAX {
                self@.pages.len() * vstd::layout::size_of::<ZPageMeta>()
            } else {
                usize::MAX as nat
            },
    {
        let n = self.pages.len();
        let size = core::mem::size_of::<ZPageMeta>();
        if size != 0 && n > usize::MAX / size {
            proof {
                assert(n * size > usize::MAX) by (nonlinear_arith)
                    requires size > 0, n > usize::MAX / size;
            }
            usize::MAX
        } else {
            proof {
                if size != 0 {
                    assert(n * size <= usize::MAX) by (nonlinear_arith)
                        requires size > 0, n <= usize::MAX / size;
                }
            }
            n * size
        }
    }

    pub fn page(&self, idx: usize) -> (r: Option<&ZPageMeta>)
        ensures
            r.is_some() == (idx < self@.pages.len()),
            r matches Some(p) ==> *p == self@.pages[idx as int],
    {
        if idx < self.pages.len() {
            Some(&self.pages[idx])
        } else {
            None
        }
    }

    pub fn is_relocation_set(&self, idx: usize) -> (r: bool)
        ensures
            r == self@.is_relocation_set(idx as int),
    {
        if idx < self.pages.len() {
            let page = &self.pages[idx];
            page.relocation_set && page.kind == ZPageKind::Relocating
        } else {
            false
        }
    }

    pub fn addr_in_relocation_set(&self, addr: usize) -> (r: bool)
        ensures
            r == self@.addr_in_relocation_set(addr),
    {
        match self.page_index(addr) {
            Some(idx) => self.is_relocation_set(idx),
            None => false,
        }
    }

    pub fn page_index(&self, addr: usize) -> (r: Option<usize>)
        ensures
            r == spec_page_index(self@.dynamic_start, addr),
    {
        match addr.checked_sub(self.dynamic_start) {
            Some(offset) => Some(offset / ZPAGE_SIZE),
            None => None,
        }
    }

    pub fn page_start(&self, idx: usize) -> (r: Option<usize>)
        ensures
            r == spec_page_start(self@.dynamic_start, idx),
    {
        match idx.checked_mul(ZPAGE_SIZE) {
            Some(off) => self.dynamic_start.checked_add(off),
            None => None,
        }
    }

    /// Grows (or trims) the metadata to cover the heap up to `committed_end`.
    pub fn extend_for_committed_end(&mut self, committed_end: usize)
        ensures
            final(self)@ == spec_extend_for_committed_end(old(self)@, committed_end),
    {
        if committed_end <= self.dynamic_start {
            return;
        }
        let d = committed_end - self.dynamic_start;
        let needed = if d % ZPAGE_SIZE == 0 {
            d / ZPAGE_SIZE
        } else {
            d / ZPAGE_SIZE + 1
        };
        if needed <= self.pages.len() {
            self.pages.truncate(needed);
            proof {
                assert(self.pages@ =~= old(self)@.pages.take(needed as int));
                assert(self.pages@ =~= resized_pages(old(self)@.pages, needed as nat));
            }
        } else {
            let ghost old_pages = self.pages@;
            let old_len = self.pages.len();
            while self.pages.len() < needed
                invariant
                    self.dynamic_start == old(self)@.dynamic_start,
                    old_pages == old(self)@.pages,
                    old_len == old_pages.len(),
                    old_len <= self.pages.len() <= needed,
                    self.pages@ =~= old_pages + Seq::new(
                        (self.pages.len() - old_len) as nat,
                        |i: int| fresh_page(ZPageKind::Free),
                    ),
                decreases needed - self.pages.len(),
            {
                self.pages.push(ZPageMeta::new(ZPageKind::Free));
            }
            proof {
                assert(self.pages@ =~= resized_pages(old_pages, needed as nat));
            }
        }
        proof {
            let dd = committed_end - old(self)@.dynamic_start;
            assert(dd == d);
            assert(pages_needed(old(self)@.dynamic_start, committed_end) == needed);
            assert(self@.pages =~= resized_pages(old(self)@.pages, needed as nat));
            let sp = spec_extend_for_committed_end(old(self)@, committed_end);
            assert(!(committed_end <= old(self)@.dynamic_start));
            assert(sp.pages == resized_pages(old(self)@.pages, pages_needed(old(self)@.dynamic_start, committed_end)));
            assert(self@.dynamic_start == sp.dynamic_start);
            assert(self@ =~= sp);
        }
    }

    pub fn reset_live_bytes(&mut self)
        ensures
            final(self)@.dynamic_start == old(self)@.dynamic_start,
            final(self)@.pages.len() == old(self)@.pages.len(),
            forall|j: int|
                0 <= j < old(self)@.pages.len() ==> #[trigger] final(self)@.pages[j] == (ZPageMeta {
                    live_bytes: 0,
                    ..old(self)@.pages[j]
                }),
    {
        let mut i: usize = 0;
        while i < self.pages.len()
            invariant
                i <= self.pages.len(),
                self.dynamic_start == old(self)@.dynamic_start,
                self.pages@.len() == old(self)@.pages.len(),
                forall|j: int|
                    0 <= j < i ==> #[trigger] self.pages@[j] == (ZPageMeta {
                        live_bytes: 0,
                        ..old(self)@.pages[j]
                    }),
                forall|j: int| i <= j < self.pages@.len() ==> #[trigger] self.pages@[j] == old(self)@.pages[j],
            decreases self.pages.len() - i,
        {
            let mut p = self.pages[i];
            p.live_bytes = 0;
            self.pages.set(i, p);
            i += 1;
        }
    }

    /// Sets the live bytes of page `idx`; a free page that gets live bytes
    /// becomes active. An index past the metadata changes nothing.
    pub fn set_live_bytes(&mut self, idx: usize, bytes: usize)
        ensures
            final(self)@.dynamic_start == old(self)@.dynamic_start,
            final(self)@.pages == if idx < old(self)@.pages.len() {
                old(self)@.pages.update(
                    idx as int,
                    ZPageMeta {
                        live_bytes: bytes,
                        kind: if bytes != 0 && old(self)@.pages[idx as int].kind == ZPageKind::Free {
                            ZPageKind::Active
                        } else {
                            old(self)@.pages[idx as int].kind
                        },
                        ..old(self)@.pages[idx as int]
                    },
                )
            } else {
                old(self)@.pages
            },
    {
        if idx < self.pages.len() {
            let mut p = self.pages[idx];
            p.live_bytes = bytes;
            if bytes != 0 && p.kind == ZPageKind::Free {
                p.kind = ZPageKind::Active;
            }
            self.pages.set(idx, p);
        }
    }

    /// Counts `bytes` of live data on the page holding `ptr` and makes it
    /// active; `None` when `ptr` lies outside the metadata.
    pub fn mark_live_bytes(&mut self, ptr: usize, bytes: usize) -> (r: Option<()>)
        ensures
            final(self)@.dynamic_start == old(self)@.dynamic_start,
            ({
                let idx = spec_page_index(old(self)@.dynamic_start, ptr);
                if idx.is_some() && idx.unwrap() < old(self)@.pages.len() {
                    let i = idx.unwrap() as int;
                    &&& r == Some(())
                    &&& final(self)@.pages == old(self)@.pages.update(
                        i,
                        ZPageMeta {
                            kind: ZPageKind::Active,
                            live_bytes: sat_add(old(self)@.pages[i].live_bytes as int, bytes as int) as usize,
                            ..old(self)@.pages[i]
                        },
                    )
                } else {
                    &&& r == None::<()>
                    &&& final(self)@.pages == old(self)@.pages
                }
            }),
    {
        let idx = match self.page_index(ptr) {
            Some(idx) => idx,
            None => return None,
        };
        if idx >= self.pages.len() {
            return None;
        }
        let mut p = self.pages[idx];
        p.kind = ZPageKind::Active;
        p.live_bytes = p.live_bytes.saturating_add(bytes);
        self.pages.set(idx, p);
        Some(())
    }

    /// Puts a non-free page into the relocation set.
    pub fn mark_relocation_set(&mut self, idx: usize) -> (r: bool)
        ensures
            final(self)@.dynamic_start == old(self)@.dynamic_start,
            r == (idx < old(self)@.pages.len() && old(self)@.pages[idx as int].kind
                != ZPageKind::Free),
            final(self)@.pages == if r {
                old(self)@.pages.update(
                    idx as int,
                    ZPageMeta {
                        kind: ZPageKind::Relocating,
                        relocation_set: true,
                        ..old(self)@.pages[idx as int]
                    },
                )
            } else {
                old(self)@.pages
            },
    {
        if idx >= self.pages.len() {
            return false;
        }
        let mut p = self.pages[idx];
        if p.kind == ZPageKind::Free {
            return false;
        }
        p.kind = ZPageKind::Relocating;
        p.relocation_set = true;
        self.pages.set(idx, p);
        true
    }

    /// Empties the relocation set; relocating pages become active again.
    pub fn clear_relocation_set(&mut self)
        ensures
            final(self)@.dynamic_start == old(self)@.dynamic_start,
            final(self)@.pages.len() == old(self)@.pages.len(),
            forall|j: int|
                0 <= j < old(self)@.pages.len() ==> #[trigger] final(self)@.pages[j]
                    == spec_cleared(old(self)@.pages[j]),
    {
        let mut i: usize = 0;
        while i < self.pages.len()
            invariant
                i <= self.pages.len(),
                self.dynamic_start == old(self)@.dynamic_start,
                self.pages@.len() == old(self)@.pages.len(),
                forall|j: int| 0 <= j < i ==> #[trigger] self.pages@[j] == spec_cleared(old(self)@.pages[j]),
                forall|j: int| i <= j < self.pages@.len() ==> #[trigger] self.pages@[j] == old(self)@.pages[j],
            decreases self.pages.len() - i,
        {
            let mut p = self.pages[i];
            if p.relocation_set {
                p.relocation_set = false;
                if p.kind == ZPageKind::Relocating {
                    p.kind = ZPageKind::Active;
                }
                self.pages.set(i, p);
            }
            i += 1;
        }
    }

    /// Returns page `idx` to the free state.
    pub fn release(&mut self, idx: usize) -> (r: bool)
        ensures
            final(self)@.dynamic_start == old(self)@.dynamic_start,
            r == (idx < old(self)@.pages.len()),
            final(self)@.pages == if r {
                old(self)@.pages.update(idx as int, fresh_page(ZPageKind::Free))
            } else {
                old(self)@.pages
            },
    {
        if idx >= self.pages.len() {
            return false;
        }
        self.pages.set(idx, ZPageMeta::new(ZPageKind::Free));
        true
    }

    /// Number of free pages.
    pub fn free_page_count(&self) -> (r: usize)
        ensures
            r == indices_where(self@.pages.len(), |j: int| is_free_page(self@.pages[j])).len(),
    {
        let ghost f = |j: int| is_free_page(self@.pages[j]);
        let mut count: usize = 0;
        let mut i: usize = 0;
        while i < self.pages.len()
            invariant
                i <= self.pages.len(),
                f == (|j: int| is_free_page(self@.pages[j])),
                count == indices_where(i as nat, f).len(),
                count <= i,
            decreases self.pages.len() - i,
        {
            if self.pages[i].kind == ZPageKind::Free {
                count += 1;
            }
            i += 1;
        }
        count
    }

    /// Activates pages `[start, start + count)` when all of them are free.
    pub fn activate_page_range(&mut self, start: usize, count: usize) -> (r: bool)
        requires
            start + count <= usize::MAX,
        ensures
            final(self)@.dynamic_start == old(self)@.dynamic_start,
            r == (count != 0 && start + count <= old(self)@.pages.len() && all_free(
                old(self)@.pages,
                start as int,
                count as int,
            )),
            final(self)@.pages.len() == old(self)@.pages.len(),
            forall|j: int|
                0 <= j < old(self)@.pages.len() ==> #[trigger] final(self)@.pages[j] == if r && start
                    <= j < start + count {
                    fresh_page(ZPageKind::Active)
                } else {
                    old(self)@.pages[j]
                },
    {
        if count == 0 || start + count > self.pages.len() {
            return false;
        }
        let mut i = start;
        while i < start + count
            invariant
                start <= i <= start + count <= self.pages.len(),
                all_free(self.pages@, start as int, (i - start) as int),
            decreases start + count - i,
        {
            if self.pages[i].kind != ZPageKind::Free {
                proof {
                    assert(!is_free_page(self.pages@[i as int]));
                }
                return false;
            }
            i += 1;
        }
        self.fill_active(start, count);
        true
    }

    fn fill_active(&mut self, start: usize, count: usize)
        requires
            start + count <= old(self)@.pages.len(),
        ensures
            final(self)@.dynamic_start == old(self)@.dynamic_start,
            final(self)@.pages.len() == old(self)@.pages.len(),
            forall|j: int|
                0 <= j < old(self)@.pages.len() ==> #[trigger] final(self)@.pages[j] == if start <= j
                    < start + count {
                    fresh_page(ZPageKind::Active)
                } else {
                    old(self)@.pages[j]
                },
    {
        let mut i = start;
        while i < start + count
            invariant
                start <= i <= start + count <= self.pages.len(),
                self.dynamic_start == old(self)@.dynamic_start,
                self.pages@.len() == old(self)@.pages.len(),
                forall|j: int|
                    0 <= j < self.pages@.len() ==> #[trigger] self.pages@[j] == if start <= j < i {
                        fresh_page(ZPageKind::Active)
                    } else {
                        old(self)@.pages[j]
                    },
            decreases start + count - i,
        {
            self.pages.set(i, ZPageMeta::new(ZPageKind::Active));
            i += 1;
        }
    }

    /// Counts the byte range `[ptr, ptr + size)` as live: every page of the
    /// metadata that the range touches becomes active and gains the bytes of
    /// the range that fall on it.
    pub fn add_live_bytes_range(&mut self, ptr: usize, size: usize)
        ensures
            final(self)@.dynamic_start == old(self)@.dynamic_start,
            final(self)@.pages.len() == old(self)@.pages.len(),
            forall|j: int|
                0 <= j < old(self)@.pages.len() ==> #[trigger] final(self)@.pages[j] == page_with_added(
                    old(self)@.pages[j],
                    range_bytes_on_page(old(self)@.dynamic_start, ptr, size, j),
                ),
    {
        let ghost start = self.dynamic_start;
        let mut cursor = ptr;
        let mut remaining = size;
        while remaining != 0
            invariant_except_break
                self.dynamic_start == start,
                start == old(self)@.dynamic_start,
                self.pages@.len() == old(self)@.pages.len(),
                ptr <= cursor,
                cursor + remaining == ptr + size,
                ptr < start ==> cursor == ptr && self.pages@ == old(self)@.pages,
                remaining != 0 ==> (cursor == ptr || cursor == usize::MAX || (cursor >= start && cursor
                    == page_lo(start as int, (cursor - start) / (ZPAGE_SIZE as int)))),
                ptr >= start ==> forall|j: int|
                    0 <= j < self.pages@.len() ==> #[trigger] self.pages@[j] == page_with_added(
                        old(self)@.pages[j],
                        overlap(ptr as int, cursor as int, page_lo(start as int, j), page_hi(start as int, j)),
                    ),
            ensures
                self.dynamic_start == start,
                self.pages@.len() == old(self)@.pages.len(),
                forall|j: int|
                    0 <= j < old(self)@.pages.len() ==> #[trigger] self.pages@[j] == page_with_added(
                        old(self)@.pages[j],
                        range_bytes_on_page(start, ptr, size, j),
                    ),
            decreases remaining,
        {
            let idx = match self.page_index(cursor) {
                Some(idx) => idx,
                None => {
                    break;
                },
            };
            let page_start = match self.page_start(idx) {
                Some(s) => s,
                None => {
                    break;
                },
            };
            let page_end = page_start.saturating_add(ZPAGE_SIZE);
            let room = page_end.saturating_sub(cursor);
            let chunk = if remaining < room {
                remaining
            } else {
                room
            };
            if chunk == 0 {
                break;
            }
            proof {
                lemma_page_of(start as int, cursor as int);
                assert(page_start == page_lo(start as int, idx as int));
                assert forall|j: int| 0 <= j < self.pages@.len() implies overlap(
                    ptr as int,
                    (cursor + chunk) as int,
                    page_lo(start as int, j),
                    page_hi(start as int, j),
                ) == overlap(ptr as int, cursor as int, page_lo(start as int, j), page_hi(start as int, j))
                    + if j == idx { chunk as int } else { 0 } by {
                    lemma_chunk_step(start as int, ptr as int, cursor as int, chunk as int, idx as int, j);
                }
            }
            if idx < self.pages.len() {
                let mut p = self.pages[idx];
                p.kind = ZPageKind::Active;
                p.live_bytes = p.live_bytes.saturating_add(chunk);
                self.pages.set(idx, p);
            }
            cursor = cursor + chunk;
            remaining -= chunk;
            proof {
                if remaining != 0 && cursor != usize::MAX {
                    assert(cursor == page_hi(start as int, idx as int));
                    assert(cursor == page_lo(start as int, idx + 1));
                    assert((cursor - start) / (ZPAGE_SIZE as int) == idx + 1);
                }
            }
        }
    }

    /// Removes the byte range `[ptr, ptr + size)` from the live bytes of the
    /// pages it touches (saturating at zero) and returns, ascending, the
    /// touched pages of the metadata whose live bytes are then zero.
    #[verifier::rlimit(50)]
    pub fn subtract_live_bytes_range(&mut self, ptr: usize, size: usize) -> (r: Vec<usize>)
        ensures
            final(self)@.dynamic_start == old(self)@.dynamic_start,
            final(self)@.pages.len() == old(self)@.pages.len(),
            forall|j: int|
                0 <= j < old(self)@.pages.len() ==> #[trigger] final(self)@.pages[j]
                    == page_with_subtracted(
                    old(self)@.pages[j],
                    range_bytes_on_page(old(self)@.dynamic_start, ptr, size, j),
                ),
            r@ == indices_where(
                old(self)@.pages.len(),
                |j: int|
                    emptied_by(
                        old(self)@.pages[j],
                        range_bytes_on_page(old(self)@.dynamic_start, ptr, size, j),
                    ),
            ),
    {
        let ghost start = self.dynamic_start;
        let ghost len = self.pages@.len();
        let mut emptied: Vec<usize> = Vec::new();
        let mut cursor = ptr;
        let mut remaining = size;
        proof {
            if ptr >= start {
                lemma_indices_where_ext(
                    len,
                    |j: int|
                        emptied_by(
                            old(self)@.pages[j],
                            overlap(ptr as int, cursor as int, page_lo(start as int, j), page_hi(start as int, j)),
                        ),
                    |j: int| false,
                );
            }
            lemma_indices_where_none(len);
        }
        loop
            invariant_except_break
                self.dynamic_start == start,
                start == old(self)@.dynamic_start,
                len == old(self)@.pages.len(),
                self.pages@.len() == len,
                ptr <= cursor,
                cursor + remaining == ptr + size,
                ptr < start ==> cursor == ptr && self.pages@ == old(self)@.pages && emptied@
                    == Seq::<usize>::empty(),
                remaining != 0 ==> (cursor == ptr || cursor == usize::MAX || (cursor >= start && cursor
                    == page_lo(start as int, (cursor - start) / (ZPAGE_SIZE as int)))),
                ptr >= start ==> forall|j: int|
                    0 <= j < len ==> #[trigger] self.pages@[j] == page_with_subtracted(
                        old(self)@.pages[j],
                        overlap(ptr as int, cursor as int, page_lo(start as int, j), page_hi(start as int, j)),
                    ),
                ptr >= start ==> emptied@ == indices_where(
                    len,
                    |j: int|
                        emptied_by(
                            old(self)@.pages[j],
                            overlap(ptr as int, cursor as int, page_lo(start as int, j), page_hi(start as int, j)),
                        ),
                ),
            ensures
                self.dynamic_start == start,
                self.pages@.len() == len,
                forall|j: int|
                    0 <= j < len ==> #[trigger] self.pages@[j] == page_with_subtracted(
                        old(self)@.pages[j],
                        range_bytes_on_page(start, ptr, size, j),
                    ),
                emptied@ == indices_where(
                    len,
                    |j: int| emptied_by(old(self)@.pages[j], range_bytes_on_page(start, ptr, size, j)),
                ),
            decreases remaining,
        {
            if remaining == 0 {
                proof {
                    assert(range_end(ptr, size) == cursor as int);
                    if ptr >= start {
                        lemma_indices_where_ext(
                            len,
                            |j: int|
                                emptied_by(
                                    old(self)@.pages[j],
                                    overlap(ptr as int, cursor as int, page_lo(start as int, j), page_hi(start as int, j)),
                                ),
                            |j: int| emptied_by(old(self)@.pages[j], range_bytes_on_page(start, ptr, size, j)),
                        );
                    } else {
                        lemma_indices_where_ext(
                            len,
                            |j: int| emptied_by(old(self)@.pages[j], range_bytes_on_page(start, ptr, size, j)),
                            |j: int| false,
                        );
                        lemma_indices_where_none(len);
                    }
                }
                break;
            }
            let idx = match self.page_index(cursor) {
                Some(idx) => idx,
                None => {
                    proof {
                        lemma_indices_where_ext(
                            len,
                            |j: int|
                                emptied_by(old(self)@.pages[j], range_bytes_on_page(start, ptr, size, j)),
                            |j: int| false,
                        );
                        lemma_indices_where_none(len);
                    }
                    break;
                },
            };
            let page_start = match self.page_start(idx) {
                Some(s) => s,
                None => {
                    proof {
                        lemma_page_of(start as int, cursor as int);
                    }
                    break;
                },
            };
            let page_end = page_start.saturating_add(ZPAGE_SIZE);
            let room = page_end.saturating_sub(cursor);
            let chunk = if remaining < room {
                remaining
            } else {
                room
            };
            if chunk == 0 {
                proof {
                    lemma_indices_where_ext(
                        len,
                        |j: int|
                            emptied_by(
                                old(self)@.pages[j],
                                overlap(ptr as int, cursor as int, page_lo(start as int, j), page_hi(start as int, j)),
                            ),
                        |j: int| emptied_by(old(self)@.pages[j], range_bytes_on_page(start, ptr, size, j)),
                    );
                }
                break;
            }
            let ghost before = self.pages@;
            proof {
                lemma_page_of(start as int, cursor as int);
                assert forall|j: int| 0 <= j < len implies overlap(
                    ptr as int,
                    (cursor + chunk) as int,
                    page_lo(start as int, j),
                    page_hi(start as int, j),
                ) == overlap(ptr as int, cursor as int, page_lo(start as int, j), page_hi(start as int, j))
                    + if j == idx { chunk as int } else { 0 } && (j >= idx ==> overlap(
                    ptr as int,
                    cursor as int,
                    page_lo(start as int, j),
                    page_hi(start as int, j),
                ) == 0) && (j > idx ==> overlap(
                    ptr as int,
                    (cursor + chunk) as int,
                    page_lo(start as int, j),
                    page_hi(start as int, j),
                ) == 0) by {
                    lemma_chunk_step(start as int, ptr as int, cursor as int, chunk as int, idx as int, j);
                }
                lemma_indices_where_extend(
                    len,
                    |j: int|
                        emptied_by(
                            old(self)@.pages[j],
                            overlap(ptr as int, cursor as int, page_lo(start as int, j), page_hi(start as int, j)),
                        ),
                    |j: int|
                        emptied_by(
                            old(self)@.pages[j],
                            overlap(ptr as int, (cursor + chunk) as int, page_lo(start as int, j), page_hi(start as int, j)),
                        ),
                    idx as int,
                );
            }
            if idx < self.pages.len() {
                let mut p = self.pages[idx];
                p.live_bytes = p.live_bytes.saturating_sub(chunk);
                let now_empty = p.live_bytes == 0;
                self.pages.set(idx, p);
                if now_empty {
                    emptied.push(idx);
                }
            }
            cursor = cursor + chunk;
            remaining -= chunk;
            proof {
                if remaining != 0 && cursor != usize::MAX {
                    assert(cursor == page_lo(start as int, idx + 1));
                    assert((cursor - start) / (ZPAGE_SIZE as int) == idx + 1);
                }
            }
        }
        emptied
    }

    /// The relocation candidates as `(page index, live bytes)`, by index.
    fn relocation_candidates(&self) -> (r: Vec<(usize, usize)>)
        ensures
            r@ == candidate_pairs(self@),
    {
        let ghost v = self@;
        let ghost f = |j: int| v.is_candidate(j);
        let mut out: Vec<(usize, usize)> = Vec::new();
        let mut i: usize = 0;
        while i < self.pages.len()
            invariant
                v == self@,
                f == (|j: int| v.is_candidate(j)),
                i <= self.pages.len(),
                out@ == indices_where(i as nat, f).map_values(|k: usize| (k, v.pages[k as int].live_bytes)),
            decreases self.pages.len() - i,
        {
            let page = self.pages[i];
            let live = page.live_bytes;
            if (page.kind == ZPageKind::Active || page.kind == ZPageKind::Relocating) && live != 0
                && live < ZPAGE_SIZE {
                let garbage = ZPAGE_SIZE - live;
                if garbage * 100 > ZPAGE_SIZE * RELOCATION_FRAGMENTATION_PERCENT {
                    out.push((i, live));
                }
            }
            proof {
                assert(out@ =~= indices_where((i + 1) as nat, f).map_values(
                    |k: usize| (k, v.pages[k as int].live_bytes),
                ));
            }
            i += 1;
        }
        out
    }

    /// Picks the relocation set: the candidates other than `excluded_page`,
    /// taken in order of live bytes (then index) while their live bytes fit
    /// in `copy_budget`.
    pub fn select_relocation_set_excluding(&self, copy_budget: usize, excluded_page: Option<usize>) -> (r:
        Vec<usize>)
        ensures
            exists|s: Seq<(usize, usize)>|
                {
                    &&& sorted_by_live(s)
                    &&& (forall|c: (usize, usize)| #[trigger]
                        s.contains(c) <==> candidate_pair(self@, excluded_page, c))
                    &&& r@ == greedy_from(s, 0, copy_budget as int)
                },
    {
        let ghost v = self@;
        let _n = self.page_count();
        let candidates = self.relocation_candidates();
        proof {
            lemma_candidate_pairs(v);
        }
        let mut sorted: Vec<(usize, usize)> = Vec::new();
        let mut i: usize = 0;
        while i < candidates.len()
            invariant
                v == self@,
                candidates@ == candidate_pairs(v),
                forall|a: int, b: int|
                    0 <= a < b < candidates@.len() ==> candidates@[a].0 < candidates@[b].0,
                forall|c: (usize, usize)| #[trigger]
                    candidate_pairs(v).contains(c) <==> (v.is_candidate(c.0 as int) && c.1
                        == v.pages[c.0 as int].live_bytes),
                i <= candidates.len(),
                sorted_by_live(sorted@),
                forall|y: (usize, usize)| #[trigger]
                    sorted@.contains(y) <==> (candidates@.take(i as int).contains(y) && excluded_page
                        != Some(y.0)),
                forall|k: int| 0 <= k < sorted@.len() ==> #[trigger] sorted@[k].0 < (if i < candidates.len() {
                    candidates@[i as int].0 as int
                } else {
                    usize::MAX as int + 1
                }),
            decreases candidates.len() - i,
        {
            let x = candidates[i];
            let skip = match excluded_page {
                Some(e) => e == x.0,
                None => false,
            };
            let ghost before = sorted@;
            if !skip {
                let mut k: usize = 0;
                while k < sorted.len() && (sorted[k].1 < x.1 || (sorted[k].1 == x.1 && sorted[k].0 < x.0))
                    invariant
                        k <= sorted.len(),
                        sorted@ == before,
                        forall|t: int| 0 <= t < k ==> key_lt(#[trigger] sorted@[t], x),
                    decreases sorted.len() - k,
                {
                    k += 1;
                }
                proof {
                    before.insert_ensures(k as int, x);
                    let after = before.insert(k as int, x);
                    assert forall|a: int, b: int| 0 <= a < b < after.len() implies key_lt(after[a], after[b]) by {
                        if b < k {
                        } else if b == k {
                        } else if a < k {
                            assert(after[b] == before[b - 1]);
                            assert(key_lt(x, before[k as int]));
                        } else if a == k {
                            assert(after[b] == before[b - 1]);
                            assert(key_lt(x, before[k as int]));
                        } else {
                            assert(after[a] == before[a - 1]);
                            assert(after[b] == before[b - 1]);
                        }
                    }
                    assert forall|y: (usize, usize)| #[trigger] after.contains(y) <==> (before.contains(y) || y == x) by {
                        if before.contains(y) {
                            let m = choose|m: int| 0 <= m < before.len() && before[m] == y;
                            if m < k {
                                assert(after[m] == y);
                            } else {
                                assert(after[m + 1] == y);
                            }
                        }
                        if after.contains(y) {
                            let m = choose|m: int| 0 <= m < after.len() && after[m] == y;
                            if m < k {
                                assert(before[m] == y);
                            } else if m > k {
                                assert(before[m - 1] == y);
                            }
                        }
                        if y == x {
                            assert(after[k as int] == x);
                        }
                    }
                }
                sorted.insert(k, x);
            }
            proof {
                let t1 = candidates@.take(i + 1);
                let t0 = candidates@.take(i as int);
                assert(t1 =~= t0.push(x));
                assert forall|y: (usize, usize)| #[trigger] t1.contains(y) <==> (t0.contains(y) || y == x) by {
                    if t1.contains(y) {
                        let m = choose|m: int| 0 <= m < t1.len() && t1[m] == y;
                        if m < i {
                            assert(t0[m] == y);
                        }
                    }
                    if t0.contains(y) {
                        let m = choose|m: int| 0 <= m < t0.len() && t0[m] == y;
                        assert(t1[m] == y);
                    }
                    if y == x {
                        assert(t1[i as int] == y);
                    }
                }
                if i + 1 < candidates.len() {
                    assert(candidates@[i as int].0 < candidates@[i + 1].0);
                }
            }
            i += 1;
        }
        proof {
            assert(candidates@.take(candidates.len() as int) =~= candidates@);
        }
        let mut selected: Vec<usize> = Vec::new();
        let mut selected_live: usize = 0;
        let mut t: usize = 0;
        proof {
            assert(sorted@.skip(0) =~= sorted@);
        }
        while t < sorted.len()
            invariant_except_break
                t <= sorted.len(),
                greedy_from(sorted@, 0, copy_budget as int) == selected@ + greedy_from(
                    sorted@.skip(t as int),
                    selected_live as int,
                    copy_budget as int,
                ),
            ensures
                greedy_from(sorted@, 0, copy_budget as int) == selected@,
            decreases sorted.len() - t,
        {
            let (idx, live) = sorted[t];
            let next = selected_live.saturating_add(live);
            proof {
                let rest = sorted@.skip(t as int);
                assert(rest[0] == (idx, live));
                assert(rest.drop_first() =~= sorted@.skip(t + 1));
            }
            if next > copy_budget {
                break;
            }
            selected.push(idx);
            selected_live = next;
            proof {
                let rest = sorted@.skip(t as int);
                assert(greedy_from(rest, (selected_live - live) as int, copy_budget as int) =~= seq![idx]
                    + greedy_from(sorted@.skip(t + 1), selected_live as int, copy_budget as int));
            }
            t += 1;
        }
        proof {
            assert(sorted@.skip(sorted@.len() as int) =~= Seq::<(usize, usize)>::empty());
        }
        selected
    }

    /// The relocation set for `copy_budget` with no page excluded.
    pub fn select_relocation_set(&self, copy_budget: usize) -> (r: Vec<usize>)
        ensures
            exists|s: Seq<(usize, usize)>|
                {
                    &&& sorted_by_live(s)
                    &&& (forall|c: (usize, usize)| #[trigger]
                        s.contains(c) <==> candidate_pair(self@, None, c))
                    &&& r@ == greedy_from(s, 0, copy_budget as int)
                },
    {
        self.select_relocation_set_excluding(copy_budget, None)
    }

    /// Takes the first run of `count` free pages, activates it and returns
    /// the address of its first page.
    #[verifier::rlimit(30)]
    pub fn take_contiguous_free_pages(&mut self, count: usize) -> (r: Option<usize>)
        ensures
            final(self)@.dynamic_start == old(self)@.dynamic_start,
            final(self)@.pages.len() == old(self)@.pages.len(),
            ({
                let pages = old(self)@.pages;
                if count == 0 || !(exists|s: int| is_free_window(pages, s, count as int)) {
                    &&& r.is_none()
                    &&& final(self)@.pages == pages
                } else {
                    exists|s: int|
                        {
                            &&& is_free_window(pages, s, count as int)
                            &&& (forall|s2: int| 0 <= s2 < s ==> !#[trigger] is_free_window(pages, s2, count as int))
                            &&& r == spec_page_start(old(self)@.dynamic_start, s as usize)
                            &&& forall|j: int|
                                0 <= j < pages.len() ==> #[trigger] final(self)@.pages[j] == if s <= j < s
                                    + count {
                                    fresh_page(ZPageKind::Active)
                                } else {
                                    pages[j]
                                }
                        }
                }
            }),
    {
        let ghost pages = self.pages@;
        if count == 0 || count > self.pages.len() {
            proof {
                if count > 0 {
                    assert forall|s: int| !is_free_window(pages, s, count as int) by {}
                }
            }
            return None;
        }
        let mut run: usize = 0;
        let mut i: usize = 0;
        let mut found: Option<usize> = None;
        while i < self.pages.len()
            invariant_except_break
                pages == self.pages@,
                0 < count <= pages.len(),
                i <= pages.len(),
                run <= i,
                run < count,
                all_free(pages, i - run, run as int),
                run < i ==> !is_free_page(pages[i - run - 1]),
                forall|s2: int| s2 + count <= i ==> !#[trigger] is_free_window(pages, s2, count as int),
                found.is_none(),
            ensures
                pages == self.pages@,
                found matches Some(st) ==> is_free_window(pages, st as int, count as int) && forall|s2: int|
                    0 <= s2 < st ==> !#[trigger] is_free_window(pages, s2, count as int),
                found.is_none() ==> forall|s2: int| !#[trigger] is_free_window(pages, s2, count as int),
            decreases pages.len() - i,
        {
            let ghost old_run = run;
            if self.pages[i].kind == ZPageKind::Free {
                run += 1;
            } else {
                run = 0;
            }
            if run == count {
                let start = i + 1 - count;
                proof {
                    assert(is_free_window(pages, start as int, count as int));
                    assert forall|s2: int| 0 <= s2 < start implies !#[trigger] is_free_window(
                        pages,
                        s2,
                        count as int,
                    ) by {
                        assert(s2 + count <= i);
                    }
                }
                found = Some(start);
                break;
            }
            proof {
                lemma_no_window_step(pages, count as int, i as int, old_run as int, run as int);
            }
            i += 1;
        }
        match found {
            None => None,
            Some(start) => {
                self.fill_active(start, count);
                let r = self.page_start(start);
                proof {
                    let st = start as int;
                    assert(is_free_window(pages, st, count as int));
                    assert(r == spec_page_start(old(self)@.dynamic_start, st as usize));
                }
                r
            },
        }
    }

    /// Address and byte length of every maximal run of free pages, in order.
    pub fn free_page_intervals(&self) -> (r: Vec<(usize, usize)>)
        requires
            self@.pages.len() * ZPAGE_SIZE <= usize::MAX,
        ensures
            exists|runs: Seq<(int, int)>|
                {
                    &&& free_run_decomposition(self@.pages, runs)
                    &&& r@ == runs.map_values(|run: (int, int)| free_interval(self@.dynamic_start, run))
                },
    {
        let ghost pages = self.pages@;
        let ghost mut runs: Seq<(int, int)> = Seq::empty();
        let mut intervals: Vec<(usize, usize)> = Vec::new();
        let mut run_start: Option<usize> = None;
        let mut idx: usize = 0;
        while idx < self.pages.len()
            invariant
                pages == self.pages@,
                pages.len() * ZPAGE_SIZE <= usize::MAX,
                idx <= pages.len(),
                runs_of_prefix(pages, runs, idx as int, run_start),
                intervals@ == runs.map_values(|run: (int, int)| free_interval(self@.dynamic_start, run)),
            decreases pages.len() - idx,
        {
            if self.pages[idx].kind == ZPageKind::Free {
                proof {
                    lemma_runs_extend_open(pages, runs, idx as int, run_start);
                }
                if run_start.is_none() {
                    run_start = Some(idx);
                }
            } else {
                if let Some(start) = run_start {
                    let addr = match self.page_start(start) {
                        Some(a) => a,
                        None => self.dynamic_start,
                    };
                    proof {
                        assert((idx - start) * ZPAGE_SIZE <= pages.len() * ZPAGE_SIZE) by (nonlinear_arith)
                            requires
                                idx - start <= pages.len(),
                        ;
                        lemma_runs_close(pages, runs, start as int, idx as int);
                        runs = runs.push((start as int, (idx - start) as int));
                    }
                    intervals.push((addr, (idx - start) * ZPAGE_SIZE));
                    run_start = None;
                    proof {
                        assert(intervals@ =~= runs.map_values(
                            |run: (int, int)| free_interval(self@.dynamic_start, run),
                        ));
                    }
                } else {
                    proof {
                        lemma_runs_skip(pages, runs, idx as int);
                    }
                }
            }
            idx += 1;
        }
        proof {
            lemma_runs_finish(pages, runs, run_start);
        }
        if let Some(start) = run_start {
            let addr = match self.page_start(start) {
                Some(a) => a,
                None => self.dynamic_start,
            };
            proof {
                assert((self.pages@.len() - start) * ZPAGE_SIZE <= pages.len() * ZPAGE_SIZE) by (nonlinear_arith)
                    requires
                        self.pages@.len() - start <= pages.len(),
                ;
                runs = runs.push((start as int, (self.pages@.len() - start) as int));
            }
            intervals.push((addr, (self.pages.len() - start) * ZPAGE_SIZE));
            proof {
                assert(intervals@ =~= runs.map_values(
                    |run: (int, int)| free_interval(self@.dynamic_start, run),
                ));
            }
        }
        intervals
    }

    /// Frees every non-free page without live bytes and returns their
    /// indices in ascending order.
    pub fn reclaim_dead_pages(&mut self) -> (r: Vec<usize>)
        ensures
            final(self)@.dynamic_start == old(self)@.dynamic_start,
            final(self)@.pages.len() == old(self)@.pages.len(),
            forall|j: int|
                0 <= j < old(self)@.pages.len() ==> #[trigger] final(self)@.pages[j] == if is_dead_page(
                    old(self)@.pages[j],
                ) {
                    fresh_page(ZPageKind::Free)
                } else {
                    old(self)@.pages[j]
                },
            r@ == indices_where(old(self)@.pages.len(), |j: int| is_dead_page(old(self)@.pages[j])),
    {
        let ghost f = |j: int| is_dead_page(old(self)@.pages[j]);
        let mut reclaimed: Vec<usize> = Vec::new();
        let mut i: usize = 0;
        while i < self.pages.len()
            invariant
                i <= self.pages.len(),
                self.dynamic_start == old(self)@.dynamic_start,
                self.pages@.len() == old(self)@.pages.len(),
                f == (|j: int| is_dead_page(old(self)@.pages[j])),
                forall|j: int|
                    0 <= j < i ==> #[trigger] self.pages@[j] == if is_dead_page(old(self)@.pages[j]) {
                        fresh_page(ZPageKind::Free)
                    } else {
                        old(self)@.pages[j]
                    },
                forall|j: int| i <= j < self.pages@.len() ==> #[trigger] self.pages@[j] == old(self)@.pages[j],
                reclaimed@ == indices_where(i as nat, f),
            decreases self.pages.len() - i,
        {
            let p = self.pages[i];
            if p.kind != ZPageKind::Free && p.live_bytes == 0 {
                self.pages.set(i, ZPageMeta::new(ZPageKind::Free));
                reclaimed.push(i);
            }
            i += 1;
        }
        reclaimed
    }
}

pub open spec fn spec_cleared(p: ZPageMeta) -> ZPageMeta {
    if p.relocation_set {
        ZPageMeta {
            relocation_set: false,
            kind: if p.kind == ZPageKind::Relocating {
                ZPageKind::Active
            } else {
                p.kind
            },
            ..p
        }
    } else {
        p
    }
}

/// Removing `bytes` from page `p` touched it and left it without live bytes.
pub open spec fn emptied_by(p: ZPageMeta, bytes: int) -> bool {
    bytes > 0 && sat_sub(p.live_bytes as int, bytes) == 0
}

/// Order of relocation preference: fewer live bytes first, then lower index.
pub open spec fn key_lt(a: (usize, usize), b: (usize, usize)) -> bool {
    a.1 < b.1 || (a.1 == b.1 && a.0 < b.0)
}

pub open spec fn sorted_by_live(s: Seq<(usize, usize)>) -> bool {
    forall|i: int, j: int| 0 <= i < j < s.len() ==> key_lt(#[trigger] s[i], #[trigger] s[j])
}

/// `(idx, live)` names a relocation candidate other than the excluded page.
pub open spec fn candidate_pair(v: ZPageSpaceView, excluded: Option<usize>, c: (usize, usize)) -> bool {
    v.is_candidate(c.0 as int) && c.1 == v.pages[c.0 as int].live_bytes && excluded != Some(c.0)
}

pub open spec fn candidate_pairs(v: ZPageSpaceView) -> Seq<(usize, usize)> {
    indices_where(v.pages.len(), |j: int| v.is_candidate(j)).map_values(
        |k: usize| (k, v.pages[k as int].live_bytes),
    )
}

/// Greedy selection along `s`: take entries while the running total of
/// live bytes (saturating) stays within the budget.
pub open spec fn greedy_from(s: Seq<(usize, usize)>, acc: int, budget: int) -> Seq<usize>
    decreases s.len(),
{
    if s.len() == 0 {
        Seq::empty()
    } else {
        let next = sat_add(acc, s[0].1 as int);
        if next > budget {
            Seq::empty()
        } else {
            seq![s[0].0] + greedy_from(s.drop_first(), next, budget)
        }
    }
}

pub proof fn lemma_candidate_pairs(v: ZPageSpaceView)
    requires
        v.pages.len() <= usize::MAX,
    ensures
        forall|c: (usize, usize)| #[trigger]
            candidate_pairs(v).contains(c) <==> (v.is_candidate(c.0 as int) && c.1
                == v.pages[c.0 as int].live_bytes),
        forall|a: int, b: int|
            0 <= a < b < candidate_pairs(v).len() ==> candidate_pairs(v)[a].0 < candidate_pairs(v)[b].0,
{
    let f = |j: int| v.is_candidate(j);
    let ix = indices_where(v.pages.len(), f);
    lemma_indices_where_bounds(v.pages.len(), f);
    let cp = candidate_pairs(v);
    assert forall|c: (usize, usize)| #[trigger] cp.contains(c) <==> (v.is_candidate(c.0 as int) && c.1
        == v.pages[c.0 as int].live_bytes) by {
        if cp.contains(c) {
            let m = choose|m: int| 0 <= m < cp.len() && cp[m] == c;
            assert(ix[m] == c.0);
        }
        if v.is_candidate(c.0 as int) && c.1 == v.pages[c.0 as int].live_bytes {
            assert(f(c.0 as int));
            assert(ix.contains(c.0));
            let m = choose|m: int| 0 <= m < ix.len() && ix[m] == c.0;
            assert(cp[m] == c);
        }
    }
}

/// `[s, s + count)` is a run of free pages inside the metadata.
pub open spec fn is_free_window(pages: Seq<ZPageMeta>, s: int, count: int) -> bool {
    0 <= s && s + count <= pages.len() && all_free(pages, s, count)
}

/// The interval reported for a run `(first page, page count)`.
pub open spec fn free_interval(dynamic_start: usize, run: (int, int)) -> (usize, usize) {
    (
        match spec_page_start(dynamic_start, run.0 as usize) {
            Some(a) => a,
            None => dynamic_start,
        },
        (run.1 * (ZPAGE_SIZE as int)) as usize,
    )
}

/// Page `j` lies inside one of `runs`.
pub open spec fn in_some_run(runs: Seq<(int, int)>, j: int) -> bool {
    exists|k: int| 0 <= k < runs.len() && (#[trigger] runs[k]).0 <= j < runs[k].0 + runs[k].1
}

/// `runs` lists, in order, the maximal runs of free pages of `pages`.
pub open spec fn free_run_decomposition(pages: Seq<ZPageMeta>, runs: Seq<(int, int)>) -> bool {
    &&& forall|k: int|
        0 <= k < runs.len() ==> {
            &&& 0 <= (#[trigger] runs[k]).0
            &&& runs[k].1 > 0
            &&& runs[k].0 + runs[k].1 <= pages.len()
            &&& all_free(pages, runs[k].0, runs[k].1)
            &&& (runs[k].0 == 0 || !is_free_page(pages[runs[k].0 - 1]))
            &&& (runs[k].0 + runs[k].1 == pages.len() || !is_free_page(pages[runs[k].0 + runs[k].1]))
        }
    &&& forall|k: int| 0 <= k < runs.len() - 1 ==> #[trigger] runs[k].0 + runs[k].1 < runs[k + 1].0
    &&& forall|j: int|
        0 <= j < pages.len() && #[trigger] is_free_page(pages[j]) ==> in_some_run(runs, j)
}

/// `runs` are the maximal free runs closed before `idx`, and `open` is the
/// start of the free run still open at `idx`.
pub open spec fn runs_of_prefix(
    pages: Seq<ZPageMeta>,
    runs: Seq<(int, int)>,
    idx: int,
    open: Option<usize>,
) -> bool {
    &&& forall|k: int|
        0 <= k < runs.len() ==> {
            &&& 0 <= (#[trigger] runs[k]).0
            &&& runs[k].1 > 0
            &&& runs[k].0 + runs[k].1 < idx
            &&& all_free(pages, runs[k].0, runs[k].1)
            &&& (runs[k].0 == 0 || !is_free_page(pages[runs[k].0 - 1]))
            &&& !is_free_page(pages[runs[k].0 + runs[k].1])
        }
    &&& forall|k: int| 0 <= k < runs.len() - 1 ==> #[trigger] runs[k].0 + runs[k].1 < runs[k + 1].0
    &&& match open {
        Some(s) => {
            &&& s < idx
            &&& all_free(pages, s as int, idx - s)
            &&& (s == 0 || !is_free_page(pages[s - 1]))
            &&& (runs.len() > 0 ==> runs.last().0 + runs.last().1 < s)
            &&& forall|j: int|
                0 <= j < s && #[trigger] is_free_page(pages[j]) ==> in_some_run(runs, j)
        },
        None => {
            &&& (idx > 0 ==> !is_free_page(pages[idx - 1]))
            &&& forall|j: int|
                0 <= j < idx && #[trigger] is_free_page(pages[j]) ==> in_some_run(runs, j)
        },
    }
}

pub proof fn lemma_in_some_run_push(runs: Seq<(int, int)>, r: (int, int), j: int)
    ensures
        in_some_run(runs, j) ==> in_some_run(runs.push(r), j),
        r.0 <= j < r.0 + r.1 ==> in_some_run(runs.push(r), j),
{
    if in_some_run(runs, j) {
        let k = choose|k: int| 0 <= k < runs.len() && (#[trigger] runs[k]).0 <= j < runs[k].0 + runs[k].1;
        assert(runs.push(r)[k] == runs[k]);
    }
    if r.0 <= j < r.0 + r.1 {
        assert(runs.push(r)[runs.len() as int] == r);
    }
}

/// A free page extends the open run, or opens one.
pub proof fn lemma_runs_extend_open(pages: Seq<ZPageMeta>, runs: Seq<(int, int)>, idx: int, open: Option<usize>)
    requires
        runs_of_prefix(pages, runs, idx, open),
        0 <= idx < pages.len(),
        idx <= usize::MAX,
        is_free_page(pages[idx]),
    ensures
        runs_of_prefix(pages, runs, idx + 1, if open.is_none() { Some(idx as usize) } else { open }),
{
    match open {
        Some(s) => {
            assert(all_free(pages, s as int, idx + 1 - s));
        },
        None => {
            assert(all_free(pages, idx, 1));
        },
    }
}

/// A page that is not free closes the open run.
pub proof fn lemma_runs_close(pages: Seq<ZPageMeta>, runs: Seq<(int, int)>, start: int, idx: int)
    requires
        runs_of_prefix(pages, runs, idx, Some(start as usize)),
        0 <= start,
        start <= usize::MAX,
        0 <= idx < pages.len(),
        !is_free_page(pages[idx]),
    ensures
        runs_of_prefix(pages, runs.push((start, idx - start)), idx + 1, None),
{
    let r = (start, idx - start);
    let runs2 = runs.push(r);
    assert forall|j: int| 0 <= j < idx + 1 && #[trigger] is_free_page(pages[j]) implies in_some_run(runs2, j) by {
        lemma_in_some_run_push(runs, r, j);
    }
    assert forall|k: int| 0 <= k < runs2.len() - 1 implies #[trigger] runs2[k].0 + runs2[k].1 < runs2[k + 1].0 by {
        if k + 1 < runs.len() {
            assert(runs2[k] == runs[k] && runs2[k + 1] == runs[k + 1]);
        } else {
            assert(runs2[k] == runs.last());
        }
    }
}

/// A page that is not free, with no open run, changes nothing.
pub proof fn lemma_runs_skip(pages: Seq<ZPageMeta>, runs: Seq<(int, int)>, idx: int)
    requires
        runs_of_prefix(pages, runs, idx, None),
        0 <= idx < pages.len(),
        !is_free_page(pages[idx]),
    ensures
        runs_of_prefix(pages, runs, idx + 1, None),
{
}

/// At the end of the pages the open run, if any, becomes the last run.
pub proof fn lemma_runs_finish(pages: Seq<ZPageMeta>, runs: Seq<(int, int)>, open: Option<usize>)
    requires
        runs_of_prefix(pages, runs, pages.len() as int, open),
    ensures
        free_run_decomposition(
            pages,
            match open {
                Some(s) => runs.push((s as int, pages.len() - s)),
                None => runs,
            },
        ),
{
    match open {
        Some(s) => {
            let r = (s as int, pages.len() - s);
            let runs2 = runs.push(r);
            assert forall|j: int| 0 <= j < pages.len() && #[trigger] is_free_page(pages[j]) implies in_some_run(runs2, j) by {
                lemma_in_some_run_push(runs, r, j);
            }
            assert forall|k: int| 0 <= k < runs2.len() - 1 implies #[trigger] runs2[k].0 + runs2[k].1 < runs2[k + 1].0 by {
                if k + 1 < runs.len() {
                    assert(runs2[k] == runs[k] && runs2[k + 1] == runs[k + 1]);
                } else {
                    assert(runs2[k] == runs.last());
                }
            }
        },
        None => {},
    }
}

proof fn lemma_no_window_step(pages: Seq<ZPageMeta>, count: int, i: int, old_run: int, run: int)
    requires
        0 < count,
        0 <= i < pages.len(),
        0 <= old_run <= i,
        run < count,
        run == if is_free_page(pages[i]) { old_run + 1 } else { 0 },
        old_run < i ==> !is_free_page(pages[i - old_run - 1]),
        forall|s2: int| s2 + count <= i ==> !#[trigger] is_free_window(pages, s2, count),
    ensures
        forall|s2: int| s2 + count <= i + 1 ==> !#[trigger] is_free_window(pages, s2, count),
{
    assert forall|s2: int| s2 + count <= i + 1 implies !#[trigger] is_free_window(pages, s2, count) by {
        if s2 + count == i + 1 && is_free_window(pages, s2, count) {
            assert(is_free_page(pages[i]));
            if old_run < i {
                assert(!is_free_page(pages[i - run]));
                assert(is_free_page(pages[i - run]));
            }
        }
    }
}

pub open spec fn is_dead_page(p: ZPageMeta) -> bool {
    p.kind != ZPageKind::Free && p.live_bytes == 0
}

/// The word an object-table word becomes when its entry is recolored.
pub open spec fn recolored_word(w: u32, good: ZColor) -> u32 {
    let e = spec_entry_from_raw(w);
    if e == 0 {
        0
    } else {
        entry_word(word_ptr(e), good)
    }
}

/// Number of object-table slots of `count` that lie wholly inside `len`
/// bytes starting at `ptr`.
pub open spec fn slots_in_bounds(ptr: usize, len: nat, count: usize) -> nat {
    if ptr + 4 > len {
        0
    } else {
        let fit = (len - ptr) / 4;
        if count < fit {
            count as nat
        } else {
            fit as nat
        }
    }
}

/// The table bytes after recoloring the first `h` slots.
pub open spec fn recolor_slots(s: Seq<u8>, ptr: int, h: nat, good: ZColor) -> Seq<u8>
    decreases h,
{
    if h == 0 {
        s
    } else {
        let prev = recolor_slots(s, ptr, (h - 1) as nat, good);
        let at = ptr + 4 * (h - 1);
        let w = le_word(s, at);
        if spec_entry_from_raw(w) == 0 {
            prev
        } else {
            put_le_word(prev, at, recolored_word(w, good))
        }
    }
}

pub proof fn lemma_recolor_slots_frame(s: Seq<u8>, ptr: int, h: nat, good: ZColor)
    requires
        0 <= ptr,
        ptr + 4 * h <= s.len(),
    ensures
        recolor_slots(s, ptr, h, good).len() == s.len(),
        forall|b: int|
            0 <= b < s.len() && (b >= ptr + 4 * h || b < ptr) ==> #[trigger] recolor_slots(s, ptr, h, good)[b]
                == s[b],
    decreases h,
{
    if h > 0 {
        lemma_recolor_slots_frame(s, ptr, (h - 1) as nat, good);
        let prev = recolor_slots(s, ptr, (h - 1) as nat, good);
        let at = ptr + 4 * (h - 1);
        lemma_put_le_word(prev, at, recolored_word(le_word(s, at), good));
    }
}

/// Recolors every nonempty entry among the first `count` object-table
/// slots at `obj_table_ptr` to `good` and returns how many were recolored;
/// the scan stops at the first slot that does not fit in `data`.
pub fn recolor_live_obj_table_entries(
    data: &mut [u8],
    obj_table_ptr: usize,
    count: usize,
    good: ZColor,
) -> (r: usize)
    ensures
        final(data)@ == recolor_slots(
            old(data)@,
            obj_table_ptr as int,
            slots_in_bounds(obj_table_ptr, old(data)@.len(), count),
            good,
        ),
        r == indices_where(
            slots_in_bounds(obj_table_ptr, old(data)@.len(), count),
            |h: int| spec_entry_from_raw(le_word(old(data)@, obj_table_ptr + 4 * h)) != 0,
        ).len(),
{
    let ghost orig = data@;
    let ghost n = slots_in_bounds(obj_table_ptr, orig.len(), count);
    let ghost f = |h: int| spec_entry_from_raw(le_word(orig, obj_table_ptr + 4 * h)) != 0;
    proof {
        if obj_table_ptr + 4 <= orig.len() {
            let q = (orig.len() - obj_table_ptr) / 4;
            assert(4 * q <= orig.len() - obj_table_ptr < 4 * q + 4) by (nonlinear_arith)
                requires
                    q == (orig.len() - obj_table_ptr) / 4,
                    orig.len() - obj_table_ptr >= 0,
            ;
        }
    }
    let data_len = data.len();
    let mut recolored: usize = 0;
    let mut handle: usize = 0;
    while handle < count
        invariant_except_break
            orig == old(data)@,
            n == slots_in_bounds(obj_table_ptr, orig.len(), count),
            f == (|h: int| spec_entry_from_raw(le_word(orig, obj_table_ptr + 4 * h)) != 0),
            handle <= n,
            data@.len() == orig.len(),
            data_len == orig.len(),
            handle > 0 ==> obj_table_ptr + 4 * handle <= orig.len(),
            data@ == recolor_slots(orig, obj_table_ptr as int, handle as nat, good),
            recolored == indices_where(handle as nat, f).len(),
            recolored <= handle,
        ensures
            data@ == recolor_slots(orig, obj_table_ptr as int, n, good),
            recolored == indices_where(n, f).len(),
        decreases count - handle,
    {
        if handle > 0 {
            assert(obj_table_ptr + 4 * handle <= data@.len());
        }
        let slot = obj_table_ptr + handle * 4;
        if slot > data.len() || data.len() - slot < 4 {
            break;
        }
        proof {
            lemma_recolor_slots_frame(orig, obj_table_ptr as int, handle as nat, good);
            assert forall|b: int| slot <= b < slot + 4 implies data@[b] == orig[b] by {}
            assert(le_word(data@, slot as int) == le_word(orig, slot as int));
        }
        let w = read_le_word(data, slot);
        let entry = ZEntry::from(w);
        if entry.is_empty() {
            handle += 1;
            continue;
        }
        let new_word = entry.recolor(good).raw();
        write_le_word(data, slot, new_word);
        recolored += 1;
        handle += 1;
    }
    recolored
}

} // verus!
