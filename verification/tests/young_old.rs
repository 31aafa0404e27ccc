use wjsm_runtime::barrier::BarrierRecord;
use wjsm_runtime::generations::{OldPhase, YoungPhase};
use wjsm_runtime::handle::{HandleGeneration, HandleId};
use wjsm_runtime::old_mark::OldController;
use wjsm_runtime::remset::PreciseRemset;
use wjsm_runtime::young::YoungController;

fn h(raw: u32) -> HandleId {
    HandleId::new(raw)
}

fn young_graph() -> YoungController {
    let mut y = YoungController::new(8);
    y.register_object(h(1), HandleGeneration::Young, vec![Some(h(2))], 32, false, false);
    y.register_object(h(2), HandleGeneration::Young, vec![Some(h(3)), None], 32, false, false);
    y.register_object(h(3), HandleGeneration::Young, vec![], 16, true, false);
    y.register_object(h(4), HandleGeneration::Young, vec![Some(h(1))], 16, false, false);
    y
}

#[test]
fn young_mark_reaches_everything_from_the_roots() {
    let mut y = young_graph();
    assert_eq!(y.phase(), YoungPhase::Idle);
    y.pause_mark_start(&[1]);
    assert_eq!(y.phase(), YoungPhase::ConcurrentMark);
    assert!(y.epoch().young_marking);

    // One object per step.
    assert!(y.concurrent_mark_step(1));
    assert!(y.is_marked(h(1)));
    assert!(!y.is_marked(h(2)));
    assert_eq!(y.report().marked, 1);

    y.pause_mark_end();
    assert_eq!(y.phase(), YoungPhase::ConcurrentSelectRelocationSet);
    assert!(!y.epoch().young_marking);
    assert!(y.is_marked(h(2)));
    assert!(y.is_marked(h(3)));
    assert!(!y.is_marked(h(4)));
    assert_eq!(y.report().marked, 3);
    assert!(y.terminated());
    assert!(!y.pause_did_page_scan_or_copy());
}

#[test]
fn young_selection_promotes_dense_objects_and_relocates_the_rest() {
    let mut y = young_graph();
    y.pause_mark_start(&[1]);
    y.pause_mark_end();
    let sparse = y.select_relocation_set();
    assert_eq!(sparse, vec![h(1), h(2)]);
    assert_eq!(y.phase(), YoungPhase::PauseRelocateStart);
    assert_eq!(y.generation(h(3)), Some(HandleGeneration::Old));
    assert_eq!(y.generation(h(1)), Some(HandleGeneration::Young));
    assert_eq!(y.generation(h(9)), None);
    assert_eq!(y.report().promoted, 1);

    y.pause_relocate_start();
    assert_eq!(y.phase(), YoungPhase::ConcurrentRelocate);
    y.note_relocated(2);
    assert_eq!(y.report().relocated, 2);
    y.finish_epoch_reclaim();
    assert_eq!(y.phase(), YoungPhase::Idle);
}

#[test]
fn young_survivors_age_and_are_promoted_next_time() {
    let mut y = young_graph();
    y.promote_in_place(h(1));
    assert_eq!(y.generation(h(1)), Some(HandleGeneration::Old));
    assert_eq!(y.report().promoted, 1);
    // Unknown handles are ignored.
    y.promote_in_place(h(42));
    assert_eq!(y.report().promoted, 1);
}

#[test]
fn young_black_allocation_marks_new_young_objects() {
    let mut y = young_graph();
    y.pause_mark_start(&[]);
    y.register_object(h(7), HandleGeneration::Young, vec![], 8, false, false);
    y.register_object(h(8), HandleGeneration::Old, vec![], 8, false, false);
    assert!(y.is_marked(h(7)));
    assert!(!y.is_marked(h(8)));
    assert_eq!(y.report().black_allocations, 1);
    y.pause_mark_end();
    // After the mark ends, allocation is no longer black.
    y.register_object(h(9), HandleGeneration::Young, vec![], 8, false, false);
    assert!(!y.is_marked(h(9)));
}

#[test]
fn young_store_barrier_records_satb_and_old_to_young_slots() {
    let mut y = YoungController::new(4);
    y.register_object(h(10), HandleGeneration::Old, vec![Some(h(11))], 16, false, false);
    y.register_object(h(11), HandleGeneration::Young, vec![], 16, false, false);
    y.register_object(h(12), HandleGeneration::Young, vec![], 16, false, false);
    y.pause_mark_start(&[]);

    let records = y.write_reference(h(10), 0, Some(h(12)), 0x1_0008);
    assert_eq!(
        records,
        vec![
            BarrierRecord::Satb(h(11)),
            BarrierRecord::RememberedSlot { slot_addr: 0x1_0008 }
        ]
    );
    assert!(y.remset().contains_slot(0x1_0008));
    assert_eq!(y.remset().slot_count_for_page(0x1_0000), 1);

    // The overwritten reference is scanned by the next step.
    assert!(!y.concurrent_mark_step(8));
    assert!(y.is_marked(h(11)));
    assert_eq!(y.report().satb_drained, 1);
    assert_eq!(y.report().remset_slots_scanned, 1);

    // Unregistered owners are left alone.
    assert!(y.write_reference(h(99), 0, Some(h(12)), 0x2_0000).is_empty());

    // A young owner writing into a fresh slot leaves no record.
    let records = y.write_reference(h(12), 3, Some(h(11)), 0x3_0000);
    assert!(records.is_empty());
    assert_eq!(y.young_work_bound(), 2);
}

#[test]
fn young_satb_records_reach_the_mark() {
    let mut y = young_graph();
    y.pause_mark_start(&[]);
    y.record_satb(h(4));
    y.drain_satb();
    assert_eq!(y.report().satb_drained, 1);
    y.pause_mark_end();
    // 4 references 1, which references 2, which references 3.
    assert!(y.is_marked(h(4)));
    assert!(y.is_marked(h(1)));
    assert!(y.is_marked(h(3)));
}

#[test]
fn remembered_set_double_buffers_slots() {
    let mut r = PreciseRemset::new();
    r.record_slot(0x2_0010);
    r.record_slot(0x1_0008);
    r.record_slot(0x1_0008);
    r.record_slot(0x1_0010);
    assert_eq!(r.active_len(), 3);
    assert_eq!(r.slot_count_for_page(0x1_0000), 2);
    assert_eq!(r.slot_count_for_page(0x2_0000), 1);
    assert_eq!(r.slot_count_for_page(0x3_0000), 0);

    let snapshot = r.snapshot_and_flip();
    assert_eq!(snapshot, vec![0x1_0008, 0x1_0010, 0x2_0010]);
    assert_eq!(r.active_len(), 0);
    assert!(r.contains_slot(0x1_0008));
    r.record_slot(0x4_0000);
    r.clear_snapshot();
    assert!(!r.contains_slot(0x1_0008));
    assert!(r.contains_slot(0x4_0000));
    // The page index keeps every offset ever recorded.
    assert_eq!(r.slot_count_for_page(0x1_0000), 2);
}

fn old_graph() -> OldController {
    let mut o = OldController::new();
    o.register_object(h(1), HandleGeneration::Old, vec![Some(h(2)), Some(h(3))], 100);
    o.register_object(h(2), HandleGeneration::Old, vec![], 50);
    o.register_object(h(3), HandleGeneration::Young, vec![Some(h(4))], 10);
    o.register_object(h(4), HandleGeneration::Old, vec![], 7);
    o
}

#[test]
fn old_mark_starts_at_a_young_mark_start_and_counts_old_bytes() {
    let young = YoungController::new(4);
    let mut o = old_graph();
    assert!(!o.is_active());
    // Not started when asked not to.
    o.coordinate_from_young_mark_start(&young, &[1], false);
    assert!(!o.is_active());
    assert_eq!(o.phase(), OldPhase::Idle);

    o.coordinate_from_young_mark_start(&young, &[3, 1], true);
    assert!(o.is_active());
    assert_eq!(o.phase(), OldPhase::ConcurrentMark);
    assert_eq!(o.report().young_to_old_roots, 1);

    assert!(!o.concurrent_mark_step(100));
    assert!(o.is_marked(h(1)));
    assert!(o.is_marked(h(2)));
    assert!(o.is_marked(h(3)));
    // 3 is young: it is marked but neither counted nor scanned.
    assert!(o.is_marked(h(4)));
    assert_eq!(o.report().marked, 3);
    assert_eq!(o.report().old_live_bytes, 157);
    assert_eq!(o.report().mark_work_bytes, 157);

    o.pause_mark_end();
    assert_eq!(o.phase(), OldPhase::ConcurrentSelectRelocationSet);
    assert!(!o.is_active());
}

#[test]
fn old_mark_spans_young_cycles_and_absorbs_promotions() {
    let young = YoungController::new(4);
    let mut o = old_graph();
    o.coordinate_from_young_mark_start(&young, &[], true);
    // One turn per step.
    assert!(o.concurrent_mark_step(1));
    o.register_object(h(5), HandleGeneration::Young, vec![], 9);
    o.note_promoted(h(5));
    o.coordinate_from_young_mark_start(&young, &[2], true);
    assert_eq!(o.report().young_cycles_spanned, 1);
    assert_eq!(o.report().promotion_frontier, 1);
    assert_eq!(o.report().young_to_old_roots, 1);
    assert!(!o.concurrent_mark_step(64));
    assert!(o.is_marked(h(5)));
    assert_eq!(o.report().old_live_bytes, 100 + 50 + 7 + 9);
    // The residual drain at the end pause finds nothing left.
    o.pause_mark_end();
    assert_eq!(o.phase(), OldPhase::ConcurrentSelectRelocationSet);
    // Outside the mark phase a step does nothing.
    assert!(!o.concurrent_mark_step(8));
}

#[test]
fn old_mark_end_pause_only_finishes_residual_work() {
    let young = YoungController::new(4);
    let mut o = OldController::new();
    let roots: Vec<u32> = (100..120).collect();
    o.coordinate_from_young_mark_start(&young, &roots, true);
    // Twenty queued handles: the pause's sixteen turns do not finish them.
    o.pause_mark_end();
    assert_eq!(o.phase(), OldPhase::ConcurrentMark);
    assert!(o.is_active());
    assert!(o.is_marked(h(115)));
    assert!(!o.is_marked(h(116)));
    o.pause_mark_end();
    assert_eq!(o.phase(), OldPhase::ConcurrentSelectRelocationSet);
    assert!(!o.is_active());
    assert_eq!(o.report().marked, 0);
}
