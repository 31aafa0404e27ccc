//! The colored load/store barrier protocol of the generational ZGC: barrier
//! epochs, the classification of handle entries for loads, the per-mutator
//! SATB / remembered-set ring, and header layouts for bulk copies.

use vstd::prelude::*;

use crate::handle::{ColoredHandleEntry, HandleGeneration, HandleId, HandleState};

verus! {

/// What a load through a handle finds.
#[derive(Clone, Copy, Debug, PartialEq, Eq, Structural)]
pub enum LoadBarrierOutcome {
    Stable { address: u64, generation: HandleGeneration },
    Relocating { address: u64, generation: HandleGeneration },
    Invalid,
}

/// Work a store barrier leaves for the collector.
#[derive(Clone, Copy, Debug, PartialEq, Eq, Structural)]
pub enum BarrierRecord {
    Satb(HandleId),
    RememberedSlot { slot_addr: u64 },
}

/// The color epoch of the young mark, the old mark and the remembered set.
#[derive(Clone, Copy, Debug, PartialEq, Eq, Structural)]
pub struct BarrierEpoch {
    pub young_mark: u8,
    pub old_mark: u8,
    pub remembered: u8,
    pub young_marking: bool,
    pub old_marking: bool,
}

/// The color bits attached to a stored reference.
#[derive(Clone, Copy, Debug, PartialEq, Eq, Structural)]
pub struct ColorMask {
    pub young_mark: u8,
    pub old_mark: u8,
    pub remembered: u8,
}

/// The color after `bits` in the alternation 0b01, 0b10, 0b01, ...; any
/// pattern other than 0b01 in the low two bits is followed by 0b01.
pub open spec fn spec_flip_color(bits: u8) -> u8 {
    if bits & 3 == 1 {
        2
    } else {
        1
    }
}

pub fn flip_color(bits: u8) -> (r: u8)
    ensures
        r == spec_flip_color(bits),
{
    if bits & 0b11 == 0b01 {
        0b10
    } else {
        0b01
    }
}

impl BarrierEpoch {
    /// The epoch between cycles: every color 0b01 and no marking.
    pub fn idle() -> (r: BarrierEpoch)
        ensures
            r == (BarrierEpoch {
                young_mark: 1,
                old_mark: 1,
                remembered: 1,
                young_marking: false,
                old_marking: false,
            }),
    {
        BarrierEpoch { young_mark: 1, old_mark: 1, remembered: 1, young_marking: false, old_marking: false }
    }

    /// The colors a stored reference takes: the young and old mark colors
    /// only while that generation is marking (0 otherwise), and the
    /// remembered color always.
    pub fn mask(self) -> (r: ColorMask)
        ensures
            r == (ColorMask {
                young_mark: if self.young_marking { self.young_mark } else { 0 },
                old_mark: if self.old_marking { self.old_mark } else { 0 },
                remembered: self.remembered,
            }),
    {
        ColorMask {
            young_mark: if self.young_marking { self.young_mark } else { 0 },
            old_mark: if self.old_marking { self.old_mark } else { 0 },
            remembered: self.remembered,
        }
    }

    /// Starts a young mark: flips the young mark and remembered colors.
    pub fn flip_young(self) -> (r: BarrierEpoch)
        ensures
            r == (BarrierEpoch {
                young_mark: spec_flip_color(self.young_mark),
                remembered: spec_flip_color(self.remembered),
                young_marking: true,
                ..self
            }),
    {
        BarrierEpoch {
            young_mark: flip_color(self.young_mark),
            remembered: flip_color(self.remembered),
            young_marking: true,
            ..self
        }
    }

    pub fn end_young(self) -> (r: BarrierEpoch)
        ensures
            r == (BarrierEpoch { young_marking: false, ..self }),
    {
        BarrierEpoch { young_marking: false, ..self }
    }

    /// Starts an old mark: flips the old mark color.
    pub fn flip_old(self) -> (r: BarrierEpoch)
        ensures
            r == (BarrierEpoch { old_mark: spec_flip_color(self.old_mark), old_marking: true, ..self }),
    {
        BarrierEpoch { old_mark: flip_color(self.old_mark), old_marking: true, ..self }
    }

    pub fn end_old(self) -> (r: BarrierEpoch)
        ensures
            r == (BarrierEpoch { old_marking: false, ..self }),
    {
        BarrierEpoch { old_marking: false, ..self }
    }
}

/// Consecutive young marks use different young colors, and the young color
/// returns after two cycles; old marks behave the same way and neither
/// disturbs the other's color.
pub proof fn law_epoch_colors_alternate(e: BarrierEpoch)
    requires
        e.young_mark == 1 || e.young_mark == 2,
        e.old_mark == 1 || e.old_mark == 2,
    ensures
        ({
            let y1 = e.flip_young_spec();
            let y2 = y1.end_young_spec().flip_young_spec();
            &&& y1.young_mark != e.young_mark
            &&& y2.young_mark == e.young_mark
            &&& y1.old_mark == e.old_mark
            &&& y1.young_marking && !y1.end_young_spec().young_marking
        }),
        ({
            let o1 = e.flip_old_spec();
            let o2 = o1.end_old_spec().flip_old_spec();
            &&& o1.old_mark != e.old_mark
            &&& o2.old_mark == e.old_mark
            &&& o1.young_mark == e.young_mark && o1.remembered == e.remembered
            &&& o1.old_marking && !o1.end_old_spec().old_marking
        }),
{
    assert(1u8 & 3 == 1) by (bit_vector);
    assert(2u8 & 3 == 2) by (bit_vector);
}

impl BarrierEpoch {
    pub open spec fn flip_young_spec(self) -> BarrierEpoch {
        BarrierEpoch {
            young_mark: spec_flip_color(self.young_mark),
            remembered: spec_flip_color(self.remembered),
            young_marking: true,
            ..self
        }
    }

    pub open spec fn end_young_spec(self) -> BarrierEpoch {
        BarrierEpoch { young_marking: false, ..self }
    }

    pub open spec fn flip_old_spec(self) -> BarrierEpoch {
        BarrierEpoch { old_mark: spec_flip_color(self.old_mark), old_marking: true, ..self }
    }

    pub open spec fn end_old_spec(self) -> BarrierEpoch {
        BarrierEpoch { old_marking: false, ..self }
    }
}

pub open spec fn spec_classify_entry(entry: ColoredHandleEntry) -> LoadBarrierOutcome {
    match entry.state {
        HandleState::StableYoung | HandleState::StableOld | HandleState::PinnedOld => {
            LoadBarrierOutcome::Stable { address: entry.address, generation: entry.generation }
        },
        HandleState::RelocatingYoung | HandleState::RelocatingOld => {
            LoadBarrierOutcome::Relocating { address: entry.address, generation: entry.generation }
        },
        HandleState::Free | HandleState::Retired => LoadBarrierOutcome::Invalid,
    }
}

/// Stable entries load directly, relocating ones ask the mutator to assist,
/// free and retired ones are invalid.
pub fn classify_entry(entry: ColoredHandleEntry) -> (r: LoadBarrierOutcome)
    ensures
        r == spec_classify_entry(entry),
{
    match entry.state() {
        HandleState::StableYoung | HandleState::StableOld | HandleState::PinnedOld => {
            LoadBarrierOutcome::Stable { address: entry.address(), generation: entry.generation() }
        },
        HandleState::RelocatingYoung | HandleState::RelocatingOld => {
            LoadBarrierOutcome::Relocating { address: entry.address(), generation: entry.generation() }
        },
        HandleState::Free | HandleState::Retired => LoadBarrierOutcome::Invalid,
    }
}

/// The load barrier on what the handle table resolved the handle to: a
/// handle the table does not resolve is invalid.
pub fn load_barrier(resolved: Option<ColoredHandleEntry>) -> (r: LoadBarrierOutcome)
    ensures
        r == match resolved {
            Some(entry) => spec_classify_entry(entry),
            None => LoadBarrierOutcome::Invalid,
        },
{
    match resolved {
        Some(entry) => classify_entry(entry),
        None => LoadBarrierOutcome::Invalid,
    }
}

// ---------------------------------------------------------------------------
// Header layouts

#[derive(Clone, Copy, Debug, PartialEq, Eq, Structural)]
pub enum HeaderFieldKind {
    ImmutableByteCopy,
    MutableAtomicWord,
    ReferenceSlot,
}

#[derive(Clone, Copy, Debug, PartialEq, Eq, Structural)]
pub struct HeaderField {
    pub offset: u64,
    pub kind: HeaderFieldKind,
}

/// The header fields of an object layout, classified for copying.
#[derive(Clone, Copy, Debug, PartialEq, Eq)]
pub struct HeaderLayout {
    pub fields: &'static [HeaderField],
}

pub open spec fn is_mutable_kind(k: HeaderFieldKind) -> bool {
    k == HeaderFieldKind::MutableAtomicWord || k == HeaderFieldKind::ReferenceSlot
}

impl HeaderLayout {
    /// The plain object header: the prototype and type word is mutable, the
    /// capacity word is copied as bytes.
    pub fn object() -> (r: HeaderLayout)
        ensures
            r.fields@ == seq![
                HeaderField { offset: 0, kind: HeaderFieldKind::MutableAtomicWord },
                HeaderField { offset: 8, kind: HeaderFieldKind::ImmutableByteCopy },
            ],
    {
        HeaderLayout {
            fields: &[
                HeaderField { offset: 0, kind: HeaderFieldKind::MutableAtomicWord },
                HeaderField { offset: 8, kind: HeaderFieldKind::ImmutableByteCopy },
            ],
        }
    }

    /// A layout with a mutable word or a reference slot may not be copied in
    /// bulk.
    pub fn rejects_bulk_copy_of_mutable_headers(self) -> (r: bool)
        ensures
            r == exists|i: int| 0 <= i < self.fields@.len() && is_mutable_kind(#[trigger] self.fields@[i].kind),
    {
        let mut i: usize = 0;
        while i < self.fields.len()
            invariant
                i <= self.fields@.len(),
                forall|k: int| 0 <= k < i ==> !is_mutable_kind(#[trigger] self.fields@[k].kind),
            decreases self.fields@.len() - i,
        {
            let kind = self.fields[i].kind;
            if kind == HeaderFieldKind::MutableAtomicWord || kind == HeaderFieldKind::ReferenceSlot {
                proof {
                    assert(is_mutable_kind(self.fields@[i as int].kind));
                }
                return true;
            }
            i += 1;
        }
        false
    }
}

/// How a bulk copy between generations must proceed.
#[derive(Clone, Copy, Debug, PartialEq, Eq, Structural)]
pub enum BulkCopyMode {
    /// Not yet published: a raw copy is allowed.
    PrePublish,
    /// Same generation and no mutable header: the collector may copy.
    SafePublishCopy,
    /// Every slot goes through the store barrier.
    PerSlotBarrier,
}

pub open spec fn layout_has_mutable(layout: HeaderLayout) -> bool {
    exists|i: int| 0 <= i < layout.fields@.len() && is_mutable_kind(#[trigger] layout.fields@[i].kind)
}

pub fn select_bulk_copy_mode(
    published: bool,
    source_generation: HandleGeneration,
    destination_generation: HandleGeneration,
    layout: HeaderLayout,
) -> (r: BulkCopyMode)
    ensures
        r == if !published {
            BulkCopyMode::PrePublish
        } else if layout_has_mutable(layout) {
            BulkCopyMode::PerSlotBarrier
        } else if source_generation == destination_generation {
            BulkCopyMode::SafePublishCopy
        } else {
            BulkCopyMode::PerSlotBarrier
        },
{
    if !published {
        return BulkCopyMode::PrePublish;
    }
    if layout.rejects_bulk_copy_of_mutable_headers() {
        return BulkCopyMode::PerSlotBarrier;
    }
    if source_generation == destination_generation {
        BulkCopyMode::SafePublishCopy
    } else {
        BulkCopyMode::PerSlotBarrier
    }
}

/// The prototype is mutable after publication.
pub fn prototype_field_kind() -> (r: HeaderFieldKind)
    ensures
        r == HeaderFieldKind::MutableAtomicWord,
{
    HeaderFieldKind::MutableAtomicWord
}

// ---------------------------------------------------------------------------
// The per-mutator barrier ring

/// Slot of the `k`-th pending item of a ring of `cap` slots whose oldest
/// item sits at `start`.
pub open spec fn ring_slot(start: int, k: int, cap: int) -> int {
    if start + k < cap {
        start + k
    } else {
        start + k - cap
    }
}

/// A preallocated FIFO of barrier records: pushing never allocates, a full
/// ring refuses the record so the mutator can assist.
pub struct BarrierRing<T> {
    slots: Vec<Option<T>>,
    capacity: usize,
    start: usize,
    len: usize,
    host_flushes: usize,
    items: Ghost<Seq<T>>,
}

impl<T: Copy> BarrierRing<T> {
    /// The ring is well formed: its pending items occupy consecutive slots
    /// from `start`, wrapping around.
    pub closed spec fn wf(&self) -> bool {
        &&& self.capacity > 0
        &&& self.slots@.len() == self.capacity
        &&& self.start < self.capacity
        &&& self.len <= self.capacity
        &&& self.items@.len() == self.len
        &&& forall|k: int|
            0 <= k < self.len ==> #[trigger] self.slots@[ring_slot(self.start as int, k, self.capacity as int)]
                == Some(self.items@[k])
    }

    /// The pending items, oldest first.
    pub closed spec fn spec_items(&self) -> Seq<T> {
        self.items@
    }

    pub closed spec fn spec_capacity(&self) -> nat {
        self.capacity as nat
    }

    pub closed spec fn spec_host_flushes(&self) -> nat {
        self.host_flushes as nat
    }

    pub fn with_capacity(capacity: usize) -> (r: BarrierRing<T>)
        requires
            capacity > 0,
        ensures
            r.wf(),
            r.spec_items() == Seq::<T>::empty(),
            r.spec_capacity() == capacity,
            r.spec_host_flushes() == 0,
    {
        let mut slots: Vec<Option<T>> = Vec::new();
        let mut i: usize = 0;
        while i < capacity
            invariant
                i <= capacity,
                slots@.len() == i,
            decreases capacity - i,
        {
            slots.push(None);
            i += 1;
        }
        BarrierRing { slots, capacity, start: 0, len: 0, host_flushes: 0, items: Ghost(Seq::empty()) }
    }

    pub fn capacity(&self) -> (r: usize)
        ensures
            r == self.spec_capacity(),
    {
        self.capacity
    }

    pub fn host_flushes(&self) -> (r: usize)
        ensures
            r == self.spec_host_flushes(),
    {
        self.host_flushes
    }

    pub fn len(&self) -> (r: usize)
        requires
            self.wf(),
        ensures
            r == self.spec_items().len(),
    {
        self.len
    }

    pub fn is_empty(&self) -> (r: bool)
        requires
            self.wf(),
        ensures
            r == (self.spec_items().len() == 0),
    {
        self.len == 0
    }

    /// Appends `value` when there is room; a full ring is left unchanged and
    /// `false` tells the mutator to assist.
    pub fn try_push(&mut self, value: T) -> (r: bool)
        requires
            old(self).wf(),
        ensures
            final(self).wf(),
            r == (old(self).spec_items().len() < old(self).spec_capacity()),
            final(self).spec_items() == if r {
                old(self).spec_items().push(value)
            } else {
                old(self).spec_items()
            },
            final(self).spec_capacity() == old(self).spec_capacity(),
            final(self).spec_host_flushes() == old(self).spec_host_flushes(),
    {
        if self.len >= self.capacity {
            return false;
        }
        let room = self.capacity - self.start;
        let index = if self.len < room {
            self.start + self.len
        } else {
            self.len - room
        };
        self.slots.set(index, Some(value));
        let ghost old_items = self.items@;
        self.items = Ghost(old_items.push(value));
        proof {
            assert forall|k: int| 0 <= k < self.len ==> #[trigger] self.slots@[ring_slot(
                self.start as int,
                k,
                self.capacity as int,
            )] == Some(old_items[k]) by {}
        }
        self.len = self.len + 1;
        proof {
            assert forall|k: int| 0 <= k < self.len implies #[trigger] self.slots@[ring_slot(
                self.start as int,
                k,
                self.capacity as int,
            )] == Some(self.items@[k]) by {
                if k < self.len - 1 {
                    assert(ring_slot(self.start as int, k, self.capacity as int) != index);
                }
            }
        }
        true
    }

    /// Appends `value`, or counts a host flush and hands the value back when
    /// the ring is full.
    pub fn push_or_mark_full(&mut self, value: T) -> (r: Result<(), T>)
        requires
            old(self).wf(),
        ensures
            final(self).wf(),
            final(self).spec_capacity() == old(self).spec_capacity(),
            old(self).spec_items().len() < old(self).spec_capacity() ==> r == Ok::<(), T>(())
                && final(self).spec_items() == old(self).spec_items().push(value)
                && final(self).spec_host_flushes() == old(self).spec_host_flushes(),
            old(self).spec_items().len() >= old(self).spec_capacity() ==> r == Err::<(), T>(value)
                && final(self).spec_items() == old(self).spec_items()
                && final(self).spec_host_flushes() == sat_inc(old(self).spec_host_flushes()),
    {
        if self.try_push(value) {
            Ok(())
        } else {
            self.host_flushes = self.host_flushes.saturating_add(1);
            Err(value)
        }
    }

    /// Removes and returns every pending item, oldest first.
    pub fn drain(&mut self) -> (r: Vec<T>)
        requires
            old(self).wf(),
        ensures
            final(self).wf(),
            r@ == old(self).spec_items(),
            final(self).spec_items() == Seq::<T>::empty(),
            final(self).spec_capacity() == old(self).spec_capacity(),
            final(self).spec_host_flushes() == old(self).spec_host_flushes(),
    {
        let ghost all = self.items@;
        let mut out: Vec<T> = Vec::new();
        while self.len > 0
            invariant
                self.wf(),
                self.capacity == old(self).capacity,
                self.host_flushes == old(self).host_flushes,
                all == old(self).items@,
                out@ + self.items@ == all,
            decreases self.len,
        {
            let index = self.start;
            proof {
                assert(ring_slot(self.start as int, 0, self.capacity as int) == index);
            }
            let slot = self.slots[index];
            self.slots.set(index, None);
            let ghost old_items = self.items@;
            let ghost old_start = self.start;
            let next = if self.start + 1 == self.capacity {
                0
            } else {
                self.start + 1
            };
            self.start = next;
            self.len = self.len - 1;
            self.items = Ghost(old_items.drop_first());
            match slot {
                Some(value) => {
                    out.push(value);
                },
                None => {},
            }
            proof {
                assert(slot == Some(old_items[0]));
                assert forall|k: int| 0 <= k < self.len implies #[trigger] self.slots@[ring_slot(
                    self.start as int,
                    k,
                    self.capacity as int,
                )] == Some(self.items@[k]) by {
                    assert(ring_slot(self.start as int, k, self.capacity as int) == ring_slot(
                        old_start as int,
                        k + 1,
                        self.capacity as int,
                    ));
                    assert(ring_slot(old_start as int, k + 1, self.capacity as int) != index);
                }
                assert(out@ + self.items@ =~= all);
            }
        }
        proof {
            assert(self.items@ =~= Seq::<T>::empty());
            assert(out@ =~= all);
        }
        out
    }
}

/// A ring's pending items, oldest first, its capacity, and how many times a
/// full ring made the mutator flush to the host.
pub struct RingState<T> {
    pub items: Seq<T>,
    pub capacity: nat,
    pub flushes: nat,
}

impl<T: Copy> View for BarrierRing<T> {
    type V = RingState<T>;

    open spec fn view(&self) -> RingState<T> {
        RingState { items: self.spec_items(), capacity: self.spec_capacity(), flushes: self.spec_host_flushes() }
    }
}

/// The ring after `push_or_mark_full(value)`.
pub open spec fn ring_after_push<T>(r: RingState<T>, value: T) -> RingState<T> {
    if r.items.len() < r.capacity {
        RingState { items: r.items.push(value), ..r }
    } else {
        RingState { flushes: sat_inc(r.flushes), ..r }
    }
}

/// The ring after `drain()`.
pub open spec fn ring_drained<T>(r: RingState<T>) -> RingState<T> {
    RingState { items: Seq::empty(), ..r }
}

pub open spec fn sat_inc(n: nat) -> nat {
    if n + 1 > usize::MAX {
        usize::MAX as nat
    } else {
        n + 1
    }
}

/// A slot word as the store barrier reads it: the handle it references
/// (`None` for a non-reference) and whether it carries the epoch's young
/// mark, old mark and remembered colors.
#[derive(Clone, Copy, Debug, PartialEq, Eq, Structural)]
pub struct DecodedWord {
    pub handle: Option<HandleId>,
    pub young_marked: bool,
    pub old_marked: bool,
    pub remembered: bool,
}

/// The overwritten reference must be kept for the snapshot: a mark is
/// running and the old word references an object not yet of that mark's
/// color (an old owner answers to both marks, a young one to the young
/// mark only).
pub open spec fn spec_needs_satb(epoch: BarrierEpoch, owner: HandleGeneration, old_word: DecodedWord) -> bool {
    &&& (epoch.young_marking || epoch.old_marking)
    &&& old_word.handle is Some
    &&& match owner {
        HandleGeneration::Young => epoch.young_marking && !old_word.young_marked,
        HandleGeneration::Old => (epoch.old_marking && !old_word.old_marked) || (epoch.young_marking
            && !old_word.young_marked),
    }
}

/// The snapshot record of a store, if any.
pub open spec fn spec_satb_record(epoch: BarrierEpoch, owner: HandleGeneration, old_word: DecodedWord) -> Seq<BarrierRecord> {
    if spec_needs_satb(epoch, owner, old_word) {
        seq![BarrierRecord::Satb(old_word.handle.unwrap())]
    } else {
        Seq::empty()
    }
}

/// The records of a store into an old owner's slot at `slot_addr`, the
/// stored word colored: a stored reference without the remembered color
/// remembers the slot (any reference may be young here); a non-reference
/// that replaced a reference remembers it too, as the edge it broke may
/// have been old-to-young.
pub open spec fn spec_store_barrier_records(
    epoch: BarrierEpoch,
    owner: HandleGeneration,
    old_word: DecodedWord,
    new_colored: DecodedWord,
    slot_addr: u64,
) -> Seq<BarrierRecord> {
    let remembered = if owner == HandleGeneration::Old {
        if new_colored.handle is Some {
            if !new_colored.remembered {
                seq![BarrierRecord::RememberedSlot { slot_addr }]
            } else {
                Seq::empty()
            }
        } else if old_word.handle is Some {
            seq![BarrierRecord::RememberedSlot { slot_addr }]
        } else {
            Seq::empty()
        }
    } else {
        Seq::empty()
    };
    spec_satb_record(epoch, owner, old_word) + remembered
}

/// The records of a store whose target's generation is known: an old
/// owner remembers the slot when the target is young, or when the stored
/// word is no reference and the old one was.
pub open spec fn spec_store_barrier_records_with_target(
    epoch: BarrierEpoch,
    owner: HandleGeneration,
    target: Option<HandleGeneration>,
    old_word: DecodedWord,
    slot_addr: u64,
) -> Seq<BarrierRecord> {
    let remembered = if owner == HandleGeneration::Old {
        match target {
            Some(HandleGeneration::Young) => seq![BarrierRecord::RememberedSlot { slot_addr }],
            _ => if old_word.handle is Some && target is None {
                seq![BarrierRecord::RememberedSlot { slot_addr }]
            } else {
                Seq::empty()
            },
        }
    } else {
        Seq::empty()
    };
    spec_satb_record(epoch, owner, old_word) + remembered
}

fn push_satb(records: &mut Vec<BarrierRecord>, epoch: BarrierEpoch, owner: HandleGeneration, old_word: DecodedWord)
    ensures
        final(records)@ == old(records)@ + spec_satb_record(epoch, owner, old_word),
{
    if epoch.young_marking || epoch.old_marking {
        match old_word.handle {
            Some(h) => {
                let needs = match owner {
                    HandleGeneration::Young => epoch.young_marking && !old_word.young_marked,
                    HandleGeneration::Old => (epoch.old_marking && !old_word.old_marked) || (epoch.young_marking
                        && !old_word.young_marked),
                };
                if needs {
                    records.push(BarrierRecord::Satb(h));
                    proof {
                        assert(records@ =~= old(records)@ + spec_satb_record(epoch, owner, old_word));
                    }
                    return;
                }
            },
            None => {},
        }
    }
    proof {
        assert(records@ =~= old(records)@ + spec_satb_record(epoch, owner, old_word));
    }
}

/// The work a store leaves: the snapshot record, then the remembered slot.
pub fn store_barrier_records(
    epoch: BarrierEpoch,
    owner: HandleGeneration,
    old_word: DecodedWord,
    new_colored: DecodedWord,
    slot_addr: u64,
) -> (r: Vec<BarrierRecord>)
    ensures
        r@ == spec_store_barrier_records(epoch, owner, old_word, new_colored, slot_addr),
{
    let mut records: Vec<BarrierRecord> = Vec::new();
    push_satb(&mut records, epoch, owner, old_word);
    if owner == HandleGeneration::Old {
        if new_colored.handle.is_some() {
            if !new_colored.remembered {
                records.push(BarrierRecord::RememberedSlot { slot_addr });
            }
        } else if old_word.handle.is_some() {
            records.push(BarrierRecord::RememberedSlot { slot_addr });
        }
    }
    proof {
        assert(records@ =~= spec_store_barrier_records(epoch, owner, old_word, new_colored, slot_addr));
    }
    records
}

/// The work a store leaves when the target's generation is known.
pub fn store_barrier_records_with_target(
    epoch: BarrierEpoch,
    owner: HandleGeneration,
    target: Option<HandleGeneration>,
    old_word: DecodedWord,
    slot_addr: u64,
) -> (r: Vec<BarrierRecord>)
    ensures
        r@ == spec_store_barrier_records_with_target(epoch, owner, target, old_word, slot_addr),
{
    let mut records: Vec<BarrierRecord> = Vec::new();
    push_satb(&mut records, epoch, owner, old_word);
    if owner == HandleGeneration::Old {
        match target {
            Some(HandleGeneration::Young) => records.push(BarrierRecord::RememberedSlot { slot_addr }),
            _ => {
                if old_word.handle.is_some() && target.is_none() {
                    records.push(BarrierRecord::RememberedSlot { slot_addr });
                }
            },
        }
    }
    proof {
        assert(records@ =~= spec_store_barrier_records_with_target(epoch, owner, target, old_word, slot_addr));
    }
    records
}

/// A store's records, by owner: a young owner's store leaves at most the
/// snapshot of the overwritten reference, taken while a young mark runs and
/// the reference lacks its color; an old owner's store also takes the
/// snapshot during an old mark when the reference lacks the old color, and
/// then remembers the slot when the target is young, or when a reference
/// was replaced by a non-reference. Nothing is recorded while no mark runs
/// and the owner is young.
pub proof fn law_store_barrier_records(
    epoch: BarrierEpoch,
    target: Option<HandleGeneration>,
    h: HandleId,
    young_marked: bool,
    old_marked: bool,
    remembered: bool,
    slot_addr: u64,
)
    ensures
        ({
            let w = DecodedWord { handle: Some(h), young_marked, old_marked, remembered };
            &&& spec_store_barrier_records_with_target(epoch, HandleGeneration::Young, target, w, slot_addr) =~= if epoch.young_marking
                && !young_marked {
                seq![BarrierRecord::Satb(h)]
            } else {
                Seq::empty()
            }
            &&& spec_store_barrier_records_with_target(epoch, HandleGeneration::Old, target, w, slot_addr) =~= (if (
            epoch.old_marking && !old_marked) || (epoch.young_marking && !young_marked) {
                seq![BarrierRecord::Satb(h)]
            } else {
                Seq::empty()
            }) + (if target == Some(HandleGeneration::Young) || target is None {
                seq![BarrierRecord::RememberedSlot { slot_addr }]
            } else {
                Seq::empty()
            })
        }),
        ({
            let none = DecodedWord { handle: None, young_marked, old_marked, remembered };
            &&& spec_store_barrier_records_with_target(epoch, HandleGeneration::Young, target, none, slot_addr)
                =~= Seq::<BarrierRecord>::empty()
            &&& spec_store_barrier_records_with_target(epoch, HandleGeneration::Old, target, none, slot_addr)
                =~= if target == Some(HandleGeneration::Young) {
                seq![BarrierRecord::RememberedSlot { slot_addr }]
            } else {
                Seq::<BarrierRecord>::empty()
            }
        }),
        ({
            let w = DecodedWord { handle: Some(h), young_marked, old_marked, remembered };
            let none = DecodedWord { handle: None, young_marked, old_marked, remembered };
            &&& spec_store_barrier_records(epoch, HandleGeneration::Old, none, w, slot_addr) =~= if !remembered {
                seq![BarrierRecord::RememberedSlot { slot_addr }]
            } else {
                Seq::<BarrierRecord>::empty()
            }
            &&& spec_store_barrier_records(epoch, HandleGeneration::Old, w, none, slot_addr).last()
                == BarrierRecord::RememberedSlot { slot_addr }
            &&& spec_store_barrier_records(epoch, HandleGeneration::Young, none, w, slot_addr) =~= Seq::<
                BarrierRecord,
            >::empty()
        }),
{
}

/// The load barrier: a stable or pinned entry is read where it is, a
/// relocating one asks the mutator to help, a free or retired one is
/// invalid, and so is a handle the table does not resolve.
pub proof fn law_load_barrier(entry: ColoredHandleEntry)
    ensures
        (entry.state == HandleState::StableYoung || entry.state == HandleState::StableOld || entry.state
            == HandleState::PinnedOld) ==> spec_classify_entry(entry) == (LoadBarrierOutcome::Stable {
            address: entry.address,
            generation: entry.generation,
        }),
        (entry.state == HandleState::RelocatingYoung || entry.state == HandleState::RelocatingOld)
            ==> spec_classify_entry(entry) == (LoadBarrierOutcome::Relocating {
            address: entry.address,
            generation: entry.generation,
        }),
        (entry.state == HandleState::Free || entry.state == HandleState::Retired) ==> spec_classify_entry(entry)
            == LoadBarrierOutcome::Invalid,
{
}

} // verus!
