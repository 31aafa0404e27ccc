use wjsm_runtime::color::{ZColor, ZEntry};
use wjsm_runtime::page::{
    dead_handle_cleanup_order, recolor_live_obj_table_entries, DeadHandleCleanupStage, ZPageKind,
    ZPageSpace, ZPAGE_SIZE,
};

#[test]
fn attach_grows_host_side_page_metadata() {
    let mut space = ZPageSpace::default();
    let dynamic_start = 2 * ZPAGE_SIZE;

    space.attach(dynamic_start, dynamic_start + 3 * ZPAGE_SIZE);

    assert_eq!(space.dynamic_start(), dynamic_start);
    assert_eq!(space.page_count(), 3);
    assert!(space.metadata_bytes() < 8 * 1024 * 1024);
    assert_eq!(space.page_index(dynamic_start + ZPAGE_SIZE), Some(1));
    assert_eq!(space.page_index(dynamic_start - 1), None);
}

#[test]
fn attach_recolors_all_live_obj_table_entries_non_empty() {
    let mut data = vec![0u8; 32];
    data[0..4].copy_from_slice(&ZEntry::new(0x1000, ZColor::Empty).raw().to_le_bytes());
    data[4..8].copy_from_slice(&0u32.to_le_bytes());
    data[8..12].copy_from_slice(&ZEntry::new(0x2000, ZColor::Marked0).raw().to_le_bytes());

    let recolored = recolor_live_obj_table_entries(&mut data, 0, 3, ZColor::Marked1);

    assert_eq!(recolored, 2);
    assert_eq!(
        ZEntry::from(u32::from_le_bytes(data[0..4].try_into().unwrap())).color(),
        ZColor::Marked1
    );
    assert_eq!(u32::from_le_bytes(data[4..8].try_into().unwrap()), 0);
    assert_eq!(
        ZEntry::from(u32::from_le_bytes(data[8..12].try_into().unwrap())).color(),
        ZColor::Marked1
    );
}

#[test]
fn relocating_page_uses_remapped_good_color() {
    let mut entry = ZEntry::new(0x4000, ZColor::Marked0);

    entry = entry.repair_relocate_non_rs();

    assert_eq!(entry.color(), ZColor::Remapped);
}

#[test]
fn dead_pages_reclaim_immediately() {
    let mut space = ZPageSpace::default();
    space.attach(0, 3 * ZPAGE_SIZE);
    space.mark_live_bytes(0, 0).unwrap();
    space.mark_live_bytes(ZPAGE_SIZE, 128).unwrap();
    assert!(space.mark_relocation_set(0));
    assert!(space.mark_relocation_set(1));

    let reclaimed = space.reclaim_dead_pages();

    assert_eq!(reclaimed, vec![0]);
    assert_eq!(space.page(0).unwrap().kind, ZPageKind::Free);
    assert_eq!(space.page(1).unwrap().kind, ZPageKind::Relocating);
}

#[test]
fn weak_cleanup_precedes_handle_reuse_protocol() {
    assert_eq!(
        dead_handle_cleanup_order(),
        [
            DeadHandleCleanupStage::WeakAndSideTables,
            DeadHandleCleanupStage::PublishHandles,
        ]
    );
}

#[test]
fn contiguous_free_pages_are_taken_first_fit() {
    let mut space = ZPageSpace::default();
    space.attach(ZPAGE_SIZE, 5 * ZPAGE_SIZE);
    assert!(space.activate_page_range(1, 1));
    assert_eq!(space.take_contiguous_free_pages(2), Some(3 * ZPAGE_SIZE));
    assert_eq!(space.take_contiguous_free_pages(2), None);
    assert_eq!(space.free_page_count(), 1);
    assert_eq!(space.free_page_intervals(), vec![(ZPAGE_SIZE, ZPAGE_SIZE)]);
}

#[test]
fn live_bytes_split_across_pages() {
    let mut space = ZPageSpace::default();
    space.attach(0, 2 * ZPAGE_SIZE);
    space.add_live_bytes_range(ZPAGE_SIZE - 8, 24);
    assert_eq!(space.page(0).unwrap().live_bytes, 8);
    assert_eq!(space.page(1).unwrap().live_bytes, 16);
    let emptied = space.subtract_live_bytes_range(ZPAGE_SIZE - 8, 24);
    assert_eq!(emptied, vec![0, 1]);
}

#[test]
fn clearing_the_relocation_set_returns_pages_to_active() {
    let mut space = ZPageSpace::default();
    space.attach(0, 2 * ZPAGE_SIZE);
    space.set_live_bytes(0, 64);
    assert!(space.mark_relocation_set(0));
    assert!(space.is_relocation_set(0));
    assert!(space.addr_in_relocation_set(10));
    space.clear_relocation_set();
    assert!(!space.is_relocation_set(0));
    assert_eq!(space.page(0).unwrap().kind, ZPageKind::Active);
    assert!(!space.mark_relocation_set(1));
}
