use wjsm_runtime::color::{ZColor, ZColorState, ZEntry, ZPhase};

#[test]
fn entry_uses_low_two_color_bits() {
    let entry = ZEntry::new(0x1000, ZColor::Marked1);

    assert_eq!(entry.raw(), 0x1002);
    assert_eq!(entry.ptr(), 0x1000);
    assert_eq!(entry.color(), ZColor::Marked1);
    assert!(ZEntry::empty().is_empty());
}

#[test]
fn good_color_switches_mark_mark_relocate() {
    let mut state = ZColorState::default();

    assert_eq!(state.start_mark(), ZColor::Marked0);
    assert_eq!(state.phase(), ZPhase::Mark);
    assert_eq!(state.start_relocate(), ZColor::Remapped);
    state.finish_cycle();
    assert_eq!(state.start_mark(), ZColor::Marked1);
    assert_eq!(state.start_relocate(), ZColor::Remapped);
    state.finish_cycle();
    assert_eq!(state.start_mark(), ZColor::Marked0);
}

#[test]
fn bad_mark_color_repairs_to_current_good() {
    let stale = ZEntry::new(0x2000, ZColor::Remapped);

    assert_eq!(
        stale.repair_bad_non_relocating(ZColor::Marked1),
        ZEntry::new(0x2000, ZColor::Marked1)
    );
}

#[test]
fn relocate_non_rs_repairs_to_remapped() {
    let marked = ZEntry::new(0x3000, ZColor::Marked0);

    assert_eq!(
        marked.repair_relocate_non_rs(),
        ZEntry::new(0x3000, ZColor::Remapped)
    );
}

#[test]
fn decoding_a_raw_word_round_trips() {
    let entry = ZEntry::new(0x7ff8, ZColor::Marked0);
    assert_eq!(ZEntry::from(entry.raw()), entry);
    assert_eq!(ZEntry::from(0), ZEntry::empty());
    assert_eq!(ZEntry::from(0x7ffb).color(), ZColor::Remapped);
}

#[test]
fn repair_keeps_good_entries_and_is_idempotent() {
    let good = ZEntry::new(0x4000, ZColor::Marked0);
    assert_eq!(good.repair_bad_non_relocating(ZColor::Marked0), good);
    let once = ZEntry::new(0x4000, ZColor::Marked1).repair_bad_non_relocating(ZColor::Marked0);
    assert_eq!(once.repair_bad_non_relocating(ZColor::Marked0), once);
    assert_eq!(ZEntry::empty().repair_bad_non_relocating(ZColor::Marked0), ZEntry::empty());
}

#[test]
fn color_bits_and_other_mark() {
    assert_eq!(ZColor::from_bits(0x1002), Some(ZColor::Marked1));
    assert_eq!(ZColor::Remapped.bits(), 3);
    assert_eq!(ZColor::Marked0.other_mark(), ZColor::Marked1);
    assert_eq!(ZColor::Marked1.other_mark(), ZColor::Marked0);
}
