//! The precise old-to-young remembered set: the slots of old objects that
//! may hold young references, double-buffered so that a young cycle scans
//! a snapshot while mutators keep recording.

use vstd::prelude::*;

use std::collections::{BTreeMap, BTreeSet};

use crate::ordered::{increasing_u64, sorted_u64s};

verus! {

/// The 64 KiB page a slot address lies in.
pub open spec fn slot_page(slot_addr: u64) -> u64 {
    slot_addr & !0xFFFFu64
}

/// A slot's offset within its page.
pub open spec fn slot_offset(slot_addr: u64) -> u16 {
    (slot_addr & 0xFFFFu64) as u16
}

/// Remembered slots: those recorded since the last flip (`active`), those
/// of the flip before (`snapshot`), and the offsets recorded per page.
pub struct PreciseRemset {
    active: BTreeSet<u64>,
    snapshot: BTreeSet<u64>,
    slot_bits: BTreeMap<u64, BTreeSet<u16>>,
}

pub struct RemsetView {
    pub active: Set<u64>,
    pub snapshot: Set<u64>,
    pub slot_bits: Map<u64, Set<u16>>,
}

impl View for PreciseRemset {
    type V = RemsetView;

    closed spec fn view(&self) -> RemsetView {
        RemsetView {
            active: self.active@,
            snapshot: self.snapshot@,
            slot_bits: self.slot_bits@.map_values(|s: BTreeSet<u16>| s@),
        }
    }
}

/// The remembered set after recording `slot_addr`.
pub open spec fn spec_record_slot(r: RemsetView, slot_addr: u64) -> RemsetView {
    let page = slot_page(slot_addr);
    let bits = if r.slot_bits.contains_key(page) {
        r.slot_bits[page]
    } else {
        Set::empty()
    };
    RemsetView {
        active: r.active.insert(slot_addr),
        snapshot: r.snapshot,
        slot_bits: r.slot_bits.insert(page, bits.insert(slot_offset(slot_addr))),
    }
}

/// Whether `slot_addr` is remembered, recently or in the snapshot.
pub open spec fn spec_remembers(r: RemsetView, slot_addr: u64) -> bool {
    r.active.contains(slot_addr) || r.snapshot.contains(slot_addr)
}

/// The remembered set after `snapshot_and_flip`.
pub open spec fn spec_flip(r: RemsetView) -> RemsetView {
    RemsetView { active: Set::empty(), snapshot: r.active, slot_bits: r.slot_bits }
}

/// The remembered set after `clear_snapshot`.
pub open spec fn spec_clear_snapshot(r: RemsetView) -> RemsetView {
    RemsetView { snapshot: Set::empty(), ..r }
}

/// A recorded slot stays remembered across one flip (the young cycle that
/// scans the snapshot sees it) and is forgotten once that snapshot is
/// cleared, unless it was recorded again.
pub proof fn law_recorded_slot_survives_one_flip(r: RemsetView, slot_addr: u64)
    ensures
        spec_remembers(spec_record_slot(r, slot_addr), slot_addr),
        spec_remembers(spec_flip(spec_record_slot(r, slot_addr)), slot_addr),
        !spec_remembers(spec_clear_snapshot(spec_flip(spec_flip(spec_record_slot(r, slot_addr)))), slot_addr),
        spec_flip(spec_record_slot(r, slot_addr)).slot_bits[slot_page(slot_addr)].contains(slot_offset(slot_addr)),
{
}

impl PreciseRemset {
    pub fn new() -> (r: PreciseRemset)
        ensures
            r@.active == Set::<u64>::empty(),
            r@.snapshot == Set::<u64>::empty(),
            r@.slot_bits == Map::<u64, Set<u16>>::empty(),
    {
        let r = PreciseRemset { active: BTreeSet::new(), snapshot: BTreeSet::new(), slot_bits: BTreeMap::new() };
        proof {
            assert(r@.slot_bits =~= Map::<u64, Set<u16>>::empty());
        }
        r
    }

    /// Remembers `slot_addr` and its offset within its page.
    pub fn record_slot(&mut self, slot_addr: u64)
        ensures
            final(self)@ == spec_record_slot(old(self)@, slot_addr),
    {
        let page = slot_addr & !0xFFFFu64;
        let offset = (slot_addr & 0xFFFFu64) as u16;
        let mut bits = match self.slot_bits.remove(&page) {
            Some(b) => b,
            None => BTreeSet::new(),
        };
        bits.insert(offset);
        self.slot_bits.insert(page, bits);
        self.active.insert(slot_addr);
        proof {
            let expected = spec_record_slot(old(self)@, slot_addr);
            assert(self@.slot_bits =~= expected.slot_bits);
        }
    }

    /// Moves the recorded slots into the snapshot, dropping the previous
    /// snapshot, and returns them in increasing order.
    pub fn snapshot_and_flip(&mut self) -> (r: Vec<u64>)
        ensures
            final(self)@ == spec_flip(old(self)@),
            r@.to_set() == old(self)@.active,
            increasing_u64(r@),
            r@.len() == old(self)@.active.len(),
    {
        let mut fresh: BTreeSet<u64> = BTreeSet::new();
        std::mem::swap(&mut fresh, &mut self.active);
        self.snapshot = fresh;
        sorted_u64s(&self.snapshot)
    }

    /// Forgets the snapshot once its cycle is done with it.
    pub fn clear_snapshot(&mut self)
        ensures
            final(self)@ == spec_clear_snapshot(old(self)@),
    {
        self.snapshot.clear();
    }

    /// The number of slots recorded since the last flip.
    pub fn active_len(&self) -> (r: usize)
        ensures
            r == self@.active.len(),
    {
        self.active.len()
    }

    /// Whether `slot_addr` is remembered, recently or in the snapshot.
    pub fn contains_slot(&self, slot_addr: u64) -> (r: bool)
        ensures
            r == spec_remembers(self@, slot_addr),
    {
        self.active.contains(&slot_addr) || self.snapshot.contains(&slot_addr)
    }

    /// The number of distinct offsets remembered within `page`.
    pub fn slot_count_for_page(&self, page: u64) -> (r: usize)
        ensures
            r == (if self@.slot_bits.contains_key(page) {
                self@.slot_bits[page].len()
            } else {
                0
            }),
    {
        match self.slot_bits.get(&page) {
            Some(bits) => bits.len(),
            None => 0,
        }
    }
}

impl Default for PreciseRemset {
    fn default() -> (r: PreciseRemset)
        ensures
            r@.active == Set::<u64>::empty(),
            r@.snapshot == Set::<u64>::empty(),
            r@.slot_bits == Map::<u64, Set<u16>>::empty(),
    {
        PreciseRemset::new()
    }
}

} // verus!
