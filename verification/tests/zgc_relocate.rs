use wjsm_runtime::color::{ZColor, ZEntry};
use wjsm_runtime::page::{ZPageKind, ZPageSpace, ZPAGE_SIZE};
use wjsm_runtime::relocate::{
    align_up, copy_raw_object, release_empty_source_pages, BumpPage, RelocHeap, RelocateResult,
    RelocateStep, RelocationAllocator, ZRelocateState,
};

fn fragmented_pages() -> ZPageSpace {
    let mut pages = ZPageSpace::default();
    pages.attach(0, 6 * ZPAGE_SIZE);
    pages.mark_live_bytes(0, 0).unwrap();
    pages.set_live_bytes(1, ZPAGE_SIZE / 2);
    pages.set_live_bytes(2, ZPAGE_SIZE * 80 / 100);
    pages.set_live_bytes(3, ZPAGE_SIZE / 8);
    pages.set_live_bytes(4, ZPAGE_SIZE * 74 / 100);
    pages
}

#[test]
fn zgc_relocate_selects_fragmented_non_empty_pages_by_live_bytes() {
    let mut pages = fragmented_pages();
    let reclaimed = pages.reclaim_dead_pages();

    let selected = pages.select_relocation_set(usize::MAX);

    assert_eq!(reclaimed, vec![0]);
    assert_eq!(selected, vec![3, 1, 4]);
}

#[test]
fn zgc_relocate_selection_is_copy_budget_truncated() {
    let pages = fragmented_pages();

    let selected = pages.select_relocation_set(ZPAGE_SIZE / 8 + ZPAGE_SIZE / 2);

    assert_eq!(selected, vec![3, 1]);
}

#[test]
fn zgc_relocate_non_rs_entry_repairs_to_remapped() {
    let entry = ZEntry::new(0x2000, ZColor::Marked1);

    assert_eq!(entry.repair_relocate_non_rs().color(), ZColor::Remapped);
}

#[test]
fn zgc_relocate_raw_copy_preserves_handle_slots() {
    // An object of a 16-byte header and one 16-byte property slot whose value
    // word sits 8 bytes into the slot.
    let src = 128;
    let dest = 512;
    let size = 16 + 16;
    let slot_addr = src + 16 + 8;
    let dest_slot_addr = dest + 16 + 8;
    let child: i64 = 0x7ff9_0000_0000_002a;
    let mut data = vec![0u8; 1024];
    data[src] = 1;
    data[src + 4..][..4].copy_from_slice(&1u32.to_le_bytes());
    data[slot_addr..slot_addr + 8].copy_from_slice(&child.to_le_bytes());

    assert!(copy_raw_object(&mut data, src, dest, size, &mut Vec::new()));

    let copied = i64::from_le_bytes(data[dest_slot_addr..dest_slot_addr + 8].try_into().unwrap());
    assert_eq!(copied, child);
}

#[test]
fn zgc_relocate_remapped_entry_points_at_destination() {
    let entry = ZEntry::new(0x8000, ZColor::Remapped);

    assert_eq!(entry.ptr(), 0x8000);
    assert_eq!(entry.color(), ZColor::Remapped);
    assert_eq!(entry.raw(), 0x8003);
}

#[test]
fn zgc_relocate_source_page_waits_for_last_live_object() {
    let mut pages = ZPageSpace::default();
    let first = ZPAGE_SIZE;
    let object_size = 48;
    let second = first + object_size;
    pages.attach(ZPAGE_SIZE, 3 * ZPAGE_SIZE);
    pages.add_live_bytes_range(first, object_size);
    pages.add_live_bytes_range(second, object_size);
    assert!(pages.mark_relocation_set(0));

    assert_eq!(release_empty_source_pages(&mut pages, first, object_size), 0);
    assert_eq!(pages.page(0).unwrap().kind, ZPageKind::Relocating);

    assert_eq!(release_empty_source_pages(&mut pages, second, object_size), 1);
    assert_eq!(pages.page(0).unwrap().kind, ZPageKind::Free);
}

#[test]
fn zgc_relocate_releases_cross_page_source_object_chunks() {
    let mut pages = ZPageSpace::default();
    let ptr = ZPAGE_SIZE - 8;
    let size = 16;
    pages.attach(0, 3 * ZPAGE_SIZE);
    pages.add_live_bytes_range(ptr, size);
    assert!(pages.mark_relocation_set(0));
    assert!(pages.mark_relocation_set(1));

    assert_eq!(release_empty_source_pages(&mut pages, ptr, size), 2);
    assert_eq!(pages.page(0).unwrap().kind, ZPageKind::Free);
    assert_eq!(pages.page(1).unwrap().kind, ZPageKind::Free);
}

#[test]
fn zgc_relocate_summary_does_not_publish_dead_handles() {
    let result = RelocateResult {
        relocated_objects: 2,
        relocated_bytes: 2 * ZPAGE_SIZE,
        released_pages: 1,
    };

    assert_eq!(result.relocated_objects, 2);
    assert_eq!(result.released_pages, 1);
}

#[test]
fn align_up_rounds_to_the_power_of_two() {
    assert_eq!(align_up(13, 8), Some(16));
    assert_eq!(align_up(16, 8), Some(16));
    assert_eq!(align_up(usize::MAX, 8), None);
}

/// A heap whose object table sits outside the pages; handle 0 is a
/// 32-byte object at the start of page 1 (dynamic_start is one page in).
fn relocation_heap() -> (RelocHeap, ZPageSpace) {
    let source = ZPAGE_SIZE;
    let mut memory = vec![0u8; 4 * ZPAGE_SIZE];
    for i in 0..32 {
        memory[source + i] = i as u8 + 1;
    }
    let heap = RelocHeap {
        memory,
        entries: vec![ZEntry::new(source as u32, ZColor::Marked1).raw()],
        sizes: vec![Some(32)],
        heap_ptr: 4 * ZPAGE_SIZE,
        heap_limit: 4 * ZPAGE_SIZE,
        memory_limit: 4 * ZPAGE_SIZE,
        alloc_ptr: 4 * ZPAGE_SIZE,
        alloc_end: 4 * ZPAGE_SIZE,
        alignment: 8,
        gc_epoch: 0,
    };
    let mut pages = ZPageSpace::default();
    pages.attach(ZPAGE_SIZE, 4 * ZPAGE_SIZE);
    pages.add_live_bytes_range(source, 32);
    (heap, pages)
}

#[test]
fn zgc_relocate_host_resolve_heals_rs_object() {
    // An object of a 16-byte header and one 32-byte property slot whose
    // value word (8 bytes into the slot) references handle 77.
    let source = ZPAGE_SIZE;
    let size = 16 + 32;
    let slot_addr = source + 16 + 8;
    let child: i64 = 0x7ffc_0000_0000_004d;
    let (mut heap, mut pages) = relocation_heap();
    heap.sizes[0] = Some(size);
    heap.memory[slot_addr..slot_addr + 8].copy_from_slice(&child.to_le_bytes());
    pages.add_live_bytes_range(source + 32, size - 32);
    let mut relocate = ZRelocateState::new();
    assert!(relocate.start_cycle(&mut pages, usize::MAX));

    let raw = relocate.relocate_or_remap_handle(&mut heap, &mut pages, 0);
    let moved = ZEntry::from(raw);
    let copied_slot = moved.ptr() as usize + 16 + 8;
    let copied = i64::from_le_bytes(heap.memory[copied_slot..copied_slot + 8].try_into().unwrap());

    assert_ne!(moved.ptr() as usize, source);
    assert_eq!(moved.color(), ZColor::Remapped);
    assert_eq!(heap.entries[0], raw);
    assert_eq!(copied, child);
    assert_eq!(pages.page(0).unwrap().kind, ZPageKind::Free);
}

#[test]
fn incremental_relocation_completes_and_clears_the_set() {
    let (mut heap, mut pages) = relocation_heap();
    let mut relocate = ZRelocateState::new();
    assert!(relocate.start_cycle(&mut pages, usize::MAX));
    let deadline = std::time::Instant::now() + std::time::Duration::from_secs(3600);

    let mut step = relocate.drain_incremental(&mut heap, &mut pages, usize::MAX, &deadline);
    while let RelocateStep::Progress { .. } = step {
        step = relocate.drain_incremental(&mut heap, &mut pages, usize::MAX, &deadline);
    }
    match step {
        RelocateStep::Complete { result } => {
            assert_eq!(result.relocated_objects, 1);
            assert_eq!(result.relocated_bytes, 32);
        }
        other => panic!("unexpected step {:?}", other),
    }
    assert!(!relocate.is_active());
    assert_eq!(ZEntry::from(heap.entries[0]).color(), ZColor::Remapped);
    assert_eq!(
        relocate.drain_incremental(&mut heap, &mut pages, usize::MAX, &deadline),
        RelocateStep::Idle
    );
}

#[test]
fn entries_outside_the_relocation_set_are_remapped_in_place() {
    let (mut heap, mut pages) = relocation_heap();
    let mut relocate = ZRelocateState::new();
    let raw = relocate.relocate_or_remap_handle(&mut heap, &mut pages, 0);
    assert_eq!(raw, ZEntry::new(ZPAGE_SIZE as u32, ZColor::Remapped).raw());
    assert_eq!(relocate.relocate_or_remap_handle(&mut heap, &mut pages, 5), 0);
}

#[test]
fn zgc_relocate_allocator_bumps_from_reserved_page() {
    let mut heap = RelocHeap {
        memory: Vec::new(),
        entries: Vec::new(),
        sizes: Vec::new(),
        heap_ptr: 0,
        heap_limit: 2 * ZPAGE_SIZE,
        memory_limit: 2 * ZPAGE_SIZE,
        alloc_ptr: 0,
        alloc_end: 0,
        alignment: 8,
        gc_epoch: 0,
    };
    let mut pages = ZPageSpace::default();
    let mut allocator = RelocationAllocator::default();

    assert_eq!(allocator.allocate(&mut heap, &mut pages, 5), Some(0));
    assert_eq!(allocator.current, Some(BumpPage { cursor: 8, end: ZPAGE_SIZE }));
    assert_eq!(heap.memory.len(), ZPAGE_SIZE);
    assert_eq!(heap.heap_ptr, ZPAGE_SIZE);
    assert_eq!(heap.alloc_ptr, ZPAGE_SIZE);
    assert_eq!(heap.alloc_end, ZPAGE_SIZE);
    assert_eq!(pages.page_count(), 1);
    assert_eq!(pages.page(0).unwrap().kind, ZPageKind::Active);

    assert_eq!(allocator.allocate(&mut heap, &mut pages, 16), Some(8));
    assert_eq!(allocator.current, Some(BumpPage { cursor: 24, end: ZPAGE_SIZE }));

    // Two more pages would end past the heap limit.
    assert_eq!(allocator.allocate(&mut heap, &mut pages, ZPAGE_SIZE + 1), None);
    assert_eq!(allocator.current, None);
    assert_eq!(heap.heap_ptr, ZPAGE_SIZE);
}
