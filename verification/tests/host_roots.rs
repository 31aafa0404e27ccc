use std::collections::BTreeSet;

use wjsm_runtime::barrier::{HeaderField, HeaderFieldKind, HeaderLayout};
use wjsm_runtime::concurrent::{ConcurrentRelocator, CopyStep, RelocationDescriptor};
use wjsm_runtime::generations::WeakState;
use wjsm_runtime::handle::{ColoredHandleEntry, HandleGeneration, HandleId, HandleState};
use wjsm_runtime::host_roots::ConcurrentHostRoots;

fn h(raw: u32) -> HandleId {
    HandleId::new(raw)
}

fn set(items: &[u32]) -> BTreeSet<u32> {
    items.iter().copied().collect()
}

#[test]
fn cleanup_clears_dead_weak_refs_before_quarantine() {
    let mut roots = ConcurrentHostRoots::new();
    roots.register_weak(1, h(10));
    roots.register_weak(2, h(11));
    roots.register_weak(3, h(12));
    roots.push_side_table_value(100, h(10));
    roots.push_side_table_value(101, h(11));
    roots.push_side_table_value(102, h(13));

    let cleared = roots.cleanup_before_quarantine(&set(&[10]), &set(&[13]));
    assert_eq!(cleared, vec![h(11), h(12)]);
    assert_eq!(roots.weak_state(1), Some(WeakState::Live));
    assert_eq!(roots.weak_state(2), Some(WeakState::Cleared));
    assert_eq!(roots.weak_state(3), Some(WeakState::Cleared));
    assert_eq!(roots.weak_state(4), None);
    let report = roots.report();
    assert!(report.cleanup_before_quarantine);
    assert!(!report.callbacks_after_publish);
    assert_eq!(report.weak_cleared, 2);
    // Only the value of the dead, unrooted handle 11 is dropped.
    assert_eq!(report.side_table_filtered, 1);

    // A second cleanup does not clear the same references again.
    let again = roots.cleanup_before_quarantine(&set(&[10]), &set(&[]));
    assert!(again.is_empty());
    assert_eq!(roots.report().weak_cleared, 2);
    assert_eq!(roots.report().side_table_filtered, 2);
}

#[test]
fn finalizers_run_once_after_publish() {
    let mut roots = ConcurrentHostRoots::new();
    roots.register_finalizer(7, h(20), 70);
    roots.register_finalizer(8, h(21), 80);
    roots.cleanup_before_quarantine(&set(&[21]), &set(&[]));
    assert_eq!(roots.report().finalizers_scheduled, 1);
    // Scheduled, but callbacks wait for the cycle to publish.
    assert!(!roots.finalizer_ran_once(7));
    assert_eq!(roots.report().finalizers_ran, 0);

    roots.publish_cycle_and_run_callbacks();
    assert!(roots.finalizer_ran_once(7));
    assert!(!roots.finalizer_ran_once(8));
    assert!(!roots.finalizer_ran_once(9));
    let report = roots.report();
    assert!(report.callbacks_after_publish);
    assert_eq!(report.finalizers_ran, 1);

    // Another cycle neither reschedules nor reruns it.
    roots.cleanup_before_quarantine(&set(&[]), &set(&[]));
    roots.publish_cycle_and_run_callbacks();
    assert_eq!(roots.report().finalizers_scheduled, 2);
    assert_eq!(roots.report().finalizers_ran, 2);
    assert!(roots.finalizer_ran_once(8));
}

#[test]
fn realm_destroy_keeps_only_live_conditional_roots() {
    let roots = ConcurrentHostRoots::new();
    let kept = roots.realm_destroy_filter(&set(&[1, 2, 3]), &set(&[2, 3, 4]));
    assert_eq!(kept, set(&[2, 3]));
}

#[test]
fn snapshot_restore_cleans_and_publishes() {
    let mut roots = ConcurrentHostRoots::new();
    roots.register_weak(1, h(5));
    roots.register_finalizer(2, h(5), 0);
    roots.snapshot_restore_weak_cleanup(&set(&[]));
    assert_eq!(roots.weak_state(1), Some(WeakState::Cleared));
    assert!(roots.finalizer_ran_once(2));
}

#[test]
fn page_is_selected_once() {
    let mut relocator = ConcurrentRelocator::new();
    assert!(relocator.select_page(3));
    assert!(!relocator.select_page(3));
    assert!(relocator.select_page(4));
}

#[test]
fn young_and_old_relocation_exclude_each_other() {
    let mut relocator = ConcurrentRelocator::new();
    assert_eq!(relocator.access_epoch(), 0);
    assert!(relocator.pause_relocate_start(HandleGeneration::Young).is_ok());
    assert_eq!(relocator.access_epoch(), 1);
    let refused = relocator.pause_relocate_start(HandleGeneration::Old);
    assert_eq!(
        refused.unwrap_err(),
        "young/old relocation mutual exclusion violated"
    );
    assert_eq!(relocator.access_epoch(), 1);
    assert!(relocator.pause_relocate_start(HandleGeneration::Young).is_ok());
    assert_eq!(relocator.access_epoch(), 2);

    relocator.install_descriptor(RelocationDescriptor::new(
        h(9),
        0x1000,
        0x2000,
        32,
        HandleGeneration::Young,
        HeaderLayout::object(),
    ));
    assert_eq!(relocator.descriptor(h(9)).map(|d| d.destination), Some(0x2000));
    assert_eq!(relocator.epoch_reclaim(3), 3);
    assert_eq!(relocator.report().reclaimed_pages, 3);
    assert!(relocator.descriptor(h(9)).is_none());
    assert!(relocator.pause_relocate_start(HandleGeneration::Old).is_ok());
}

#[test]
fn source_writes_are_refused_while_relocating() {
    let relocator = ConcurrentRelocator::new();
    let relocating = ColoredHandleEntry::new(0x40, HandleGeneration::Young, HandleState::RelocatingYoung);
    let stable = ColoredHandleEntry::new(0x40, HandleGeneration::Young, HandleState::StableYoung);
    assert_eq!(
        relocator.reject_source_write_if_relocating(Some(relocating)).unwrap_err(),
        "source write rejected while relocating"
    );
    assert!(relocator.reject_source_write_if_relocating(Some(stable)).is_ok());
    assert!(relocator.reject_source_write_if_relocating(None).is_ok());
}

#[test]
fn snapshot_copy_never_bulk_copies_mutable_headers() {
    let d = RelocationDescriptor::new(h(1), 0x100, 0x200, 40, HandleGeneration::Young, HeaderLayout::object());
    assert_eq!(
        d.snapshot_copy_plan(),
        vec![
            CopyStep::Word { offset: 0 },
            CopyStep::Bytes { offset: 8, len: 8 },
            CopyStep::Word { offset: 16 },
            CopyStep::Word { offset: 24 },
            CopyStep::Word { offset: 32 },
        ]
    );
    static PLAIN: [HeaderField; 1] = [HeaderField {
        offset: 8,
        kind: HeaderFieldKind::ImmutableByteCopy,
    }];
    let plain = HeaderLayout { fields: &PLAIN };
    let d = RelocationDescriptor::new(h(2), 0x100, 0x200, 40, HandleGeneration::Old, plain);
    assert_eq!(d.snapshot_copy_plan(), vec![CopyStep::Bytes { offset: 0, len: 40 }]);
}
