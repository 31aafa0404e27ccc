//! Room for host-side allocations in linear memory: the heap budget, the
//! handle-table bound, and the growth policy that asks the host to collect
//! and to grow memory page by page until an allocation fits.

use vstd::prelude::*;

verus! {

/// The size of a linear-memory page.
pub const WASM_PAGE_BYTES: usize = 65536;

/// The heap budget: the limit global read as an unsigned 32-bit number, or
/// the whole 32-bit space when there is no such global.
pub fn heap_limit_bytes(limit_global: Option<i32>) -> (r: usize)
    ensures
        r == (match limit_global {
            Some(v) => if v >= 0 {
                v as int
            } else {
                v + 0x1_0000_0000
            },
            None => u32::MAX as int,
        }),
{
    match limit_global {
        Some(v) => {
            let u: u32 = v as u32;
            proof {
                assert(u == (if v >= 0 {
                    v as int
                } else {
                    v + 0x1_0000_0000
                })) by (bit_vector)
                    requires
                        u == v as u32,
                ;
            }
            u as usize
        },
        None => u32::MAX as usize,
    }
}

/// A global's value read as a length: negatives read as 0.
pub open spec fn nonneg(v: i32) -> int {
    if v > 0 {
        v as int
    } else {
        0
    }
}

/// Bytes of object heap in use: from the heap start (0 when unknown) to
/// the bump pointer, never negative.
pub fn heap_used_bytes(heap_start: Option<i32>, heap_ptr: i32) -> (r: usize)
    ensures
        ({
            let start = match heap_start {
                Some(s) => nonneg(s),
                None => 0,
            };
            r == if nonneg(heap_ptr) >= start {
                nonneg(heap_ptr) - start
            } else {
                0
            }
        }),
{
    let start: usize = match heap_start {
        Some(s) => if s > 0 {
            s as usize
        } else {
            0
        },
        None => 0,
    };
    let ptr: usize = if heap_ptr > 0 {
        heap_ptr as usize
    } else {
        0
    };
    ptr.saturating_sub(start)
}

/// The end of the handle table: the shadow stack's base below its end
/// global (a negative end reads as 0), or the end of memory when there is
/// no shadow stack.
pub fn handle_table_end_byte(shadow_stack_end: Option<i32>, memory_len: usize, shadow_stack_size: usize) -> (r: usize)
    ensures
        r == (match shadow_stack_end {
            Some(e) => {
                let end: int = if e > 0 {
                    e as int
                } else {
                    0
                };
                if end >= shadow_stack_size {
                    end - shadow_stack_size
                } else {
                    0
                }
            },
            None => memory_len as int,
        }),
{
    match shadow_stack_end {
        Some(e) => {
            let end: usize = if e > 0 {
                e as usize
            } else {
                0
            };
            end.saturating_sub(shadow_stack_size)
        },
        None => memory_len,
    }
}

/// Whether handle `candidate`'s entry ends within the handle table, with
/// the address arithmetic saturating.
pub fn host_handle_slot_fits(obj_table_ptr: i32, candidate: u32, entry_size: usize, table_end: usize) -> (r: bool)
    ensures
        r == (min_usize(
            (if obj_table_ptr > 0 {
                obj_table_ptr as int
            } else {
                0
            }) + min_usize(candidate as int * entry_size) + entry_size,
        ) <= table_end),
{
    let base: usize = if obj_table_ptr > 0 {
        obj_table_ptr as usize
    } else {
        0
    };
    let offset: usize = match (candidate as usize).checked_mul(entry_size) {
        Some(v) => v,
        None => usize::MAX,
    };
    let need_end = base.saturating_add(offset).saturating_add(entry_size);
    proof {
        assert(min_usize(base + min_usize(candidate as int * entry_size) + entry_size) == need_end);
    }
    need_end <= table_end
}

/// `x` capped at `usize::MAX`.
pub open spec fn min_usize(x: int) -> int {
    if x > usize::MAX {
        usize::MAX as int
    } else {
        x
    }
}

/// Pages to grow memory of `len` bytes by so it reaches `need_end`:
/// enough whole pages, and at least one.
pub open spec fn spec_growth_pages(need_end: int, len: int) -> int {
    let pages = (need_end - len + WASM_PAGE_BYTES - 1) / (WASM_PAGE_BYTES as int);
    if pages >= 1 {
        pages
    } else {
        1
    }
}

pub fn growth_pages(need_end: usize, len: usize) -> (r: u64)
    requires
        len < need_end,
    ensures
        r == spec_growth_pages(need_end as int, len as int),
{
    let missing = need_end - len;
    let pages = missing / WASM_PAGE_BYTES + if missing % WASM_PAGE_BYTES == 0 {
        0
    } else {
        1
    };
    proof {
        assert(pages == (missing + WASM_PAGE_BYTES - 1) / (WASM_PAGE_BYTES as int)) by (nonlinear_arith)
            requires
                pages == missing / 65536 + if missing % 65536 == 0 {
                    0int
                } else {
                    1int
                },
                WASM_PAGE_BYTES == 65536,
        ;
        assert(pages <= missing);
    }
    if pages >= 1 {
        pages as u64
    } else {
        1
    }
}

/// What the host reports to the growth policy.
#[derive(Clone, Copy, Debug, PartialEq, Eq, Structural)]
pub enum GrowthEvent {
    /// An allocation of `size` bytes at `heap_ptr` is wanted; the heap
    /// budget is `limit` and memory is `memory_len` bytes long.
    Begin { heap_ptr: usize, size: usize, limit: usize, memory_len: usize },
    /// A collection ran; the budget and the memory length after it.
    Collected { limit: usize, memory_len: usize },
    /// Memory grew; its new length.
    Grew { memory_len: usize },
    /// Memory could not grow.
    GrowFailed,
}

/// What the host must do next.
#[derive(Clone, Copy, Debug, PartialEq, Eq, Structural)]
pub enum GrowthAction {
    /// Run a full collection and report `Collected`.
    Collect,
    /// Grow memory by `pages` pages and report `Grew` or `GrowFailed`.
    Grow { pages: u64 },
    /// The allocation fits: proceed.
    Ready,
    /// Record a heap out-of-memory error for the requested size; the
    /// allocation fails.
    OutOfMemory,
}

/// Where the growth policy stands.
#[derive(Clone, Copy, Debug, PartialEq, Eq, Structural)]
pub enum GrowthState {
    Idle,
    /// Over budget: a collection runs before the budget is checked again.
    AwaitLimitCollect { need_end: usize },
    /// Growing memory; `collected` once the collection for memory ran.
    Growing { need_end: usize, collected: bool },
    /// Memory would not grow: a collection runs before growing again.
    AwaitMemoryCollect { need_end: usize },
    Done,
}

/// Grow towards `need_end` from `len`, or finish when it already fits.
pub open spec fn spec_grow_or_ready(need_end: usize, len: usize, collected: bool) -> (GrowthState, GrowthAction) {
    if len >= need_end {
        (GrowthState::Done, GrowthAction::Ready)
    } else {
        (
            GrowthState::Growing { need_end, collected },
            GrowthAction::Grow { pages: spec_growth_pages(need_end as int, len as int) as u64 },
        )
    }
}

/// One decision of the growth policy: the next state and what the host
/// must do. An event that does not fit the state ends the attempt as out
/// of memory.
pub open spec fn spec_growth_step(s: GrowthState, e: GrowthEvent) -> (GrowthState, GrowthAction) {
    match (s, e) {
        (GrowthState::Idle, GrowthEvent::Begin { heap_ptr, size, limit, memory_len }) => {
            if heap_ptr + size > usize::MAX {
                (GrowthState::Done, GrowthAction::OutOfMemory)
            } else if heap_ptr + size > limit {
                (GrowthState::AwaitLimitCollect { need_end: (heap_ptr + size) as usize }, GrowthAction::Collect)
            } else {
                spec_grow_or_ready((heap_ptr + size) as usize, memory_len, false)
            }
        },
        (GrowthState::AwaitLimitCollect { need_end }, GrowthEvent::Collected { limit, memory_len }) => {
            if need_end > limit {
                (GrowthState::Done, GrowthAction::OutOfMemory)
            } else {
                spec_grow_or_ready(need_end, memory_len, false)
            }
        },
        (GrowthState::Growing { need_end, collected }, GrowthEvent::Grew { memory_len }) => {
            spec_grow_or_ready(need_end, memory_len, collected)
        },
        (GrowthState::Growing { need_end, collected }, GrowthEvent::GrowFailed) => {
            if collected {
                (GrowthState::Done, GrowthAction::OutOfMemory)
            } else {
                (GrowthState::AwaitMemoryCollect { need_end }, GrowthAction::Collect)
            }
        },
        (GrowthState::AwaitMemoryCollect { need_end }, GrowthEvent::Collected { limit: _, memory_len }) => {
            spec_grow_or_ready(need_end, memory_len, true)
        },
        _ => (GrowthState::Done, GrowthAction::OutOfMemory),
    }
}

fn grow_or_ready(need_end: usize, len: usize, collected: bool) -> (r: (GrowthState, GrowthAction))
    ensures
        r == spec_grow_or_ready(need_end, len, collected),
{
    if len >= need_end {
        (GrowthState::Done, GrowthAction::Ready)
    } else {
        (GrowthState::Growing { need_end, collected }, GrowthAction::Grow { pages: growth_pages(need_end, len) })
    }
}

/// The growth policy for one host allocation. The host starts it with
/// `Begin`, performs each action and reports its outcome, until the policy
/// answers `Ready` or `OutOfMemory`.
pub struct HeapGrowth {
    pub state: GrowthState,
}

impl HeapGrowth {
    pub fn new() -> (r: HeapGrowth)
        ensures
            r.state == GrowthState::Idle,
    {
        HeapGrowth { state: GrowthState::Idle }
    }

    /// Takes the host's report and answers what to do next.
    pub fn step(&mut self, event: GrowthEvent) -> (r: GrowthAction)
        ensures
            (final(self).state, r) == spec_growth_step(old(self).state, event),
    {
        let (next, action) = match (self.state, event) {
            (GrowthState::Idle, GrowthEvent::Begin { heap_ptr, size, limit, memory_len }) => {
                match heap_ptr.checked_add(size) {
                    None => (GrowthState::Done, GrowthAction::OutOfMemory),
                    Some(need_end) => {
                        if need_end > limit {
                            (GrowthState::AwaitLimitCollect { need_end }, GrowthAction::Collect)
                        } else {
                            grow_or_ready(need_end, memory_len, false)
                        }
                    },
                }
            },
            (GrowthState::AwaitLimitCollect { need_end }, GrowthEvent::Collected { limit, memory_len }) => {
                if need_end > limit {
                    (GrowthState::Done, GrowthAction::OutOfMemory)
                } else {
                    grow_or_ready(need_end, memory_len, false)
                }
            },
            (GrowthState::Growing { need_end, collected }, GrowthEvent::Grew { memory_len }) => {
                grow_or_ready(need_end, memory_len, collected)
            },
            (GrowthState::Growing { need_end, collected }, GrowthEvent::GrowFailed) => {
                if collected {
                    (GrowthState::Done, GrowthAction::OutOfMemory)
                } else {
                    (GrowthState::AwaitMemoryCollect { need_end }, GrowthAction::Collect)
                }
            },
            (GrowthState::AwaitMemoryCollect { need_end }, GrowthEvent::Collected { limit: _, memory_len }) => {
                grow_or_ready(need_end, memory_len, true)
            },
            _ => (GrowthState::Done, GrowthAction::OutOfMemory),
        };
        self.state = next;
        action
    }
}

/// The policy never lets an allocation through that does not fit: `Ready`
/// comes only once the memory length last reported reaches the end of the
/// allocation, and the budget is checked (before or after a collection)
/// before any growth.
pub proof fn law_ready_only_when_allocation_fits(s: GrowthState, e: GrowthEvent)
    ensures
        spec_growth_step(s, e).1 == GrowthAction::Ready ==> match e {
            GrowthEvent::Begin { heap_ptr, size, limit, memory_len } => heap_ptr + size <= limit && heap_ptr
                + size <= memory_len,
            GrowthEvent::Collected { limit, memory_len } => match s {
                GrowthState::AwaitLimitCollect { need_end } => need_end <= limit && need_end <= memory_len,
                GrowthState::AwaitMemoryCollect { need_end } => need_end <= memory_len,
                _ => false,
            },
            GrowthEvent::Grew { memory_len } => match s {
                GrowthState::Growing { need_end, .. } => need_end <= memory_len,
                _ => false,
            },
            GrowthEvent::GrowFailed => false,
        },
        spec_growth_step(s, e).1 is Grow ==> spec_growth_step(s, e).1->pages >= 1,
{
}

/// After the collection for memory, a failed growth ends in out of memory:
/// the policy collects at most once for memory.
pub proof fn law_collects_once_for_memory(need_end: usize)
    ensures
        spec_growth_step(GrowthState::Growing { need_end, collected: true }, GrowthEvent::GrowFailed)
            == (GrowthState::Done, GrowthAction::OutOfMemory),
        spec_growth_step(GrowthState::Growing { need_end, collected: false }, GrowthEvent::GrowFailed)
            == (GrowthState::AwaitMemoryCollect { need_end }, GrowthAction::Collect),
{
}

/// Growing memory of `len` bytes to reach `need_end` takes the fewest whole
/// 64 KiB pages that reach it, and at least one page.
pub proof fn law_growth_pages_are_the_fewest(need_end: int, len: int)
    requires
        len < need_end,
    ensures
        spec_growth_pages(need_end, len) >= 1,
        len + spec_growth_pages(need_end, len) * 65536 >= need_end,
        len + (spec_growth_pages(need_end, len) - 1) * 65536 < need_end,
{
    let p = WASM_PAGE_BYTES as int;
    let m = need_end - len;
    assert(p > 0);
    let q = (m + p - 1) / p;
    assert(q * p <= m + p - 1 && m + p - 1 < (q + 1) * p) by (nonlinear_arith)
        requires
            p > 0,
            q == (m + p - 1) / p,
    ;
    assert(q >= 1) by (nonlinear_arith)
        requires
            p > 0,
            m >= 1,
            q * p <= m + p - 1,
            m + p - 1 < (q + 1) * p,
    ;
}

} // verus!
