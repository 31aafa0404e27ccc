use wjsm_runtime::color::{ZColor, ZEntry};
use wjsm_runtime::mark::{build_cleanup_plan, decode_buffer_old_values, mark_cleanup_order, MarkBitmap, MarkCleanupStage, MarkObject};
use wjsm_runtime::marking::{MarkHeap, MarkStep, ZMarkState};
use wjsm_runtime::page::{ZPageSpace, ZPAGE_SIZE};

fn object(handle: u32, page_idx: usize, color: ZColor) -> MarkObject {
    MarkObject {
        handle,
        ptr: page_idx * ZPAGE_SIZE,
        size: 128,
        color,
    }
}

#[test]
fn zgc_mark_bad_color_hit_keeps_object_live() {
    let mut pages = ZPageSpace::default();
    pages.attach(0, ZPAGE_SIZE);
    let objects = [object(3, 0, ZColor::Remapped)];
    let mut bits = MarkBitmap::new();
    bits.reset(4);
    bits.mark(3);

    let plan = build_cleanup_plan(&objects, &pages, &bits, ZColor::Marked1);

    assert!(plan.dead_handles.is_empty());
    assert_eq!(plan.live_by_page[0], 128);
}

#[test]
fn zgc_mark_satb_keeps_overwritten_old_reference_live() {
    let mut pages = ZPageSpace::default();
    pages.attach(0, ZPAGE_SIZE);
    let objects = [object(7, 0, ZColor::Marked0)];
    let mut bits = MarkBitmap::new();
    bits.reset(8);
    bits.mark(7);

    let plan = build_cleanup_plan(&objects, &pages, &bits, ZColor::Marked1);

    assert!(plan.dead_handles.is_empty());
    assert_eq!(plan.live_by_page[0], 128);
}

#[test]
fn zgc_mark_dead_handle_set_covers_all_unmarked_bad_color_objects() {
    let mut pages = ZPageSpace::default();
    pages.attach(0, 3 * ZPAGE_SIZE);
    let objects = [
        object(1, 0, ZColor::Marked0),
        object(2, 1, ZColor::Marked1),
        object(3, 2, ZColor::Remapped),
    ];
    let mut bits = MarkBitmap::new();
    bits.reset(4);
    bits.mark(3);

    let plan = build_cleanup_plan(&objects, &pages, &bits, ZColor::Marked1);

    assert_eq!(plan.dead_handles, vec![1]);
    assert_eq!(plan.live_by_page, vec![0, 128, 128]);
    assert_eq!(plan.freed_bytes, 128);
}

#[test]
fn zgc_mark_cleanup_publishes_handles_after_weak_and_owner_cleanup() {
    let order = mark_cleanup_order();
    let publish = order
        .iter()
        .position(|stage| *stage == MarkCleanupStage::PublishHandles)
        .unwrap();
    let owner_cleanup = order
        .iter()
        .position(|stage| *stage == MarkCleanupStage::ReclaimOwnerSideTables)
        .unwrap();
    let weak_cleanup = order
        .iter()
        .position(|stage| *stage == MarkCleanupStage::ProcessWeakRefs)
        .unwrap();
    let finalization_enqueue = weak_cleanup;

    assert!(owner_cleanup < publish);
    assert!(weak_cleanup < publish);
    assert!(finalization_enqueue < publish);
    assert_eq!(publish, order.len() - 1);
}

/// Four objects on one page: 0 -> 1 -> 2, and 3 unreachable; each 64 bytes.
fn small_heap() -> MarkHeap {
    MarkHeap {
        entries: vec![
            ZEntry::new(0x100, ZColor::Marked0).raw(),
            ZEntry::new(0x140, ZColor::Marked0).raw(),
            ZEntry::new(0x180, ZColor::Remapped).raw(),
            ZEntry::new(0x1c0, ZColor::Marked0).raw(),
        ],
        children: vec![vec![1], vec![2, 7], vec![], vec![0]],
        sizes: vec![Some(64), Some(64), Some(64), Some(64)],
        gc_epoch: 0,
    }
}

#[test]
fn marking_reaches_everything_reachable_from_roots() {
    let mut heap = small_heap();
    let mut pages = ZPageSpace::default();
    pages.attach(0, ZPAGE_SIZE);
    let mut state = ZMarkState::new();
    state.start_cycle(&mut heap, &mut pages, &vec![0], ZColor::Marked1);

    assert!(state.is_active());
    assert!(state.is_marked(0));
    assert!(state.is_marked(1));
    assert!(state.is_marked(2));
    assert!(!state.is_marked(3));
    assert_eq!(state.worklist_len(), 0);
    assert_eq!(ZEntry::from(heap.entries[1]).color(), ZColor::Marked1);
    assert_eq!(ZEntry::from(heap.entries[3]).color(), ZColor::Marked0);
    assert!(heap.gc_epoch > 0);
}

#[test]
fn mark_end_releases_only_unreachable_handles() {
    let mut heap = small_heap();
    let mut pages = ZPageSpace::default();
    pages.attach(0, ZPAGE_SIZE);
    let mut state = ZMarkState::new();
    state.start_cycle(&mut heap, &mut pages, &vec![0], ZColor::Marked1);

    let summary = state.finish_after_barrier_flush(&mut heap, &mut pages, ZColor::Marked1);

    assert_eq!(summary.dead_handles, vec![3]);
    assert_eq!(summary.marked, 3);
    assert_eq!(summary.freed_bytes, 64);
    assert_eq!(heap.entries[3], 0);
    assert_eq!(pages.page(0).unwrap().live_bytes, 192);
    assert!(!state.is_active());
}

#[test]
fn satb_handles_survive_the_cycle() {
    let mut heap = small_heap();
    let mut pages = ZPageSpace::default();
    pages.attach(0, ZPAGE_SIZE);
    let mut state = ZMarkState::new();
    state.start_cycle(&mut heap, &mut pages, &vec![], ZColor::Marked1);
    state.record_host_write(&vec![3]);

    let step = state.drain_incremental(&mut heap, ZColor::Marked1, usize::MAX, &far_deadline());
    assert_eq!(step, MarkStep::ReadyForMarkEnd);
    assert!(state.is_marked(3));
    assert!(state.is_marked(0));
    assert!(state.is_marked(1));
}

#[test]
fn load_barrier_returns_the_repaired_word() {
    let mut heap = small_heap();
    let mut pages = ZPageSpace::default();
    pages.attach(0, ZPAGE_SIZE);
    let mut state = ZMarkState::new();
    state.start_cycle(&mut heap, &mut pages, &vec![], ZColor::Marked1);

    let raw = state.mark_from_load_barrier(&mut heap, 3, ZColor::Marked1);
    assert_eq!(raw, ZEntry::new(0x1c0, ZColor::Marked1).raw());
    assert!(state.is_marked(3));
    assert_eq!(state.mark_from_load_barrier(&mut heap, 9, ZColor::Marked1), 0);
}

#[test]
fn root_rounds_report_new_marks() {
    let mut heap = small_heap();
    let mut pages = ZPageSpace::default();
    pages.attach(0, ZPAGE_SIZE);
    let mut state = ZMarkState::new();
    state.start_cycle(&mut heap, &mut pages, &vec![2], ZColor::Marked1);
    assert!(state.mark_roots_round(&mut heap, &vec![3], ZColor::Marked1));
    assert!(!state.mark_roots_round(&mut heap, &vec![3, 1], ZColor::Marked1));
}

fn far_deadline() -> std::time::Instant {
    std::time::Instant::now() + std::time::Duration::from_secs(3600)
}

fn barrier_event(flags: u32, word: i64, size: usize) -> Vec<u8> {
    let mut event = vec![0u8; size];
    event[0..4].copy_from_slice(&flags.to_le_bytes());
    event[8..16].copy_from_slice(&word.to_le_bytes());
    event
}

#[test]
fn barrier_buffer_yields_words_of_snapshot_events_only() {
    let mut buf = barrier_event(1, 0x0102_0304_0506_0708, 16);
    buf.extend(barrier_event(2, 99, 16));
    buf.extend(barrier_event(3, -5, 16));
    buf.extend([1u8, 0, 0, 0, 7]);
    assert_eq!(
        decode_buffer_old_values(&buf, 16),
        vec![0x0102_0304_0506_0708, -5]
    );
}

#[test]
fn barrier_buffer_respects_the_event_size() {
    let mut buf = barrier_event(0, 11, 24);
    buf.extend(barrier_event(1, i64::MIN, 24));
    assert_eq!(
        decode_buffer_old_values(&buf, 24),
        vec![i64::MIN]
    );
    assert!(decode_buffer_old_values(&buf[..20], 24).is_empty());
}
