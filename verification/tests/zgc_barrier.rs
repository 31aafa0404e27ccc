use wjsm_runtime::barrier::{
    prototype_field_kind, select_bulk_copy_mode, store_barrier_records,
    store_barrier_records_with_target, BarrierEpoch, BarrierRecord, BarrierRing, BulkCopyMode,
    DecodedWord, HeaderFieldKind, HeaderLayout,
};
use wjsm_runtime::handle::{HandleGeneration, HandleId};

#[test]
fn one_slot_ring_requires_assist_when_full() {
    let mut ring = BarrierRing::with_capacity(1);
    assert!(ring.try_push(HandleId::new(1)));
    assert!(!ring.try_push(HandleId::new(2)));
    assert_eq!(ring.drain(), vec![HandleId::new(1)]);
    assert!(ring.try_push(HandleId::new(2)));
}

#[test]
fn prototype_is_mutable_header_not_immutable() {
    assert_eq!(prototype_field_kind(), HeaderFieldKind::MutableAtomicWord);
    assert!(HeaderLayout::object().rejects_bulk_copy_of_mutable_headers());
    assert_eq!(
        select_bulk_copy_mode(
            true,
            HandleGeneration::Young,
            HandleGeneration::Young,
            HeaderLayout::object()
        ),
        BulkCopyMode::PerSlotBarrier
    );
}

#[test]
fn ring_drains_in_push_order() {
    let mut ring = BarrierRing::with_capacity(3);
    assert!(ring.try_push(10u32));
    assert!(ring.try_push(11u32));
    assert_eq!(ring.len(), 2);
    assert_eq!(ring.drain(), vec![10, 11]);
    assert!(ring.is_empty());
    assert!(ring.try_push(12u32));
    assert!(ring.try_push(13u32));
    assert!(ring.try_push(14u32));
    assert_eq!(ring.push_or_mark_full(15u32), Err(15));
    assert_eq!(ring.drain(), vec![12, 13, 14]);
}


fn plain_reference(raw: u32) -> DecodedWord {
    DecodedWord {
        handle: Some(HandleId::new(raw)),
        young_marked: false,
        old_marked: false,
        remembered: false,
    }
}

fn no_reference() -> DecodedWord {
    DecodedWord {
        handle: None,
        young_marked: false,
        old_marked: false,
        remembered: false,
    }
}

#[test]
fn satb_records_overwritten_old_reference_during_young_mark() {
    let epoch = BarrierEpoch {
        young_marking: true,
        young_mark: 0b01,
        ..BarrierEpoch::idle()
    };
    let records = store_barrier_records_with_target(
        epoch,
        HandleGeneration::Young,
        Some(HandleGeneration::Young),
        plain_reference(7),
        0x2000,
    );
    assert!(records.contains(&BarrierRecord::Satb(HandleId::new(7))));
}

#[test]
fn old_to_young_store_records_remembered_slot() {
    let epoch = BarrierEpoch::idle();
    let records = store_barrier_records_with_target(
        epoch,
        HandleGeneration::Old,
        Some(HandleGeneration::Young),
        no_reference(),
        0x3000,
    );
    assert_eq!(
        records,
        vec![BarrierRecord::RememberedSlot { slot_addr: 0x3000 }]
    );
}

#[test]
fn marked_overwritten_reference_needs_no_snapshot() {
    let epoch = BarrierEpoch {
        young_marking: true,
        ..BarrierEpoch::idle()
    };
    let mut word = plain_reference(9);
    word.young_marked = true;
    let records = store_barrier_records_with_target(
        epoch,
        HandleGeneration::Young,
        None,
        word,
        0x10,
    );
    assert!(records.is_empty());
}

#[test]
fn old_owner_answers_to_the_young_mark_too() {
    let epoch = BarrierEpoch {
        young_marking: true,
        ..BarrierEpoch::idle()
    };
    let mut word = plain_reference(4);
    word.old_marked = true;
    let records = store_barrier_records_with_target(
        epoch,
        HandleGeneration::Old,
        Some(HandleGeneration::Old),
        word,
        0x20,
    );
    assert_eq!(records, vec![BarrierRecord::Satb(HandleId::new(4))]);
}

#[test]
fn deleting_an_old_owners_reference_remembers_the_slot() {
    let records = store_barrier_records_with_target(
        BarrierEpoch::idle(),
        HandleGeneration::Old,
        None,
        plain_reference(5),
        0x40,
    );
    assert_eq!(records, vec![BarrierRecord::RememberedSlot { slot_addr: 0x40 }]);
}

#[test]
fn store_without_target_generation_snapshots_then_remembers() {
    let epoch = BarrierEpoch {
        old_marking: true,
        ..BarrierEpoch::idle()
    };
    let records = store_barrier_records(
        epoch,
        HandleGeneration::Old,
        plain_reference(6),
        plain_reference(8),
        0x80,
    );
    assert_eq!(
        records,
        vec![
            BarrierRecord::Satb(HandleId::new(6)),
            BarrierRecord::RememberedSlot { slot_addr: 0x80 }
        ]
    );
    let mut colored = plain_reference(8);
    colored.remembered = true;
    let quiet = store_barrier_records(
        BarrierEpoch::idle(),
        HandleGeneration::Old,
        no_reference(),
        colored,
        0x80,
    );
    assert!(quiet.is_empty());
    let young_owner = store_barrier_records(
        BarrierEpoch::idle(),
        HandleGeneration::Young,
        plain_reference(6),
        no_reference(),
        0x80,
    );
    assert!(young_owner.is_empty());
}
