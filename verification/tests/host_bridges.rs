use wjsm_runtime::heap_growth::{
    growth_pages, handle_table_end_byte, heap_limit_bytes, heap_used_bytes, host_handle_slot_fits,
    GrowthAction, GrowthEvent, GrowthState, HeapGrowth,
};
use wjsm_runtime::host_methods::{AsyncHooksMethodKind, ChildProcessMethodKind, DgramMethodKind};

#[test]
fn method_numbers_round_trip() {
    for m in 0u8..=255 {
        match AsyncHooksMethodKind::from_method(m) {
            Some(k) => assert_eq!(k.method(), m),
            None => assert!(m >= 22),
        }
        match DgramMethodKind::from_method(m) {
            Some(k) => assert_eq!(k.method(), m),
            None => assert!(m >= 6),
        }
        match ChildProcessMethodKind::from_method(m) {
            Some(k) => assert_eq!(k.method(), m),
            None => assert!(m >= 2),
        }
    }
    assert_eq!(AsyncHooksMethodKind::HookDisable.method(), 21);
    assert_eq!(AsyncHooksMethodKind::from_method(13), Some(AsyncHooksMethodKind::SetImmediate));
    assert_eq!(DgramMethodKind::from_method(2), Some(DgramMethodKind::Recv));
    assert_eq!(ChildProcessMethodKind::ExecSync.method(), 1);
}

#[test]
fn heap_budget_and_usage() {
    assert_eq!(heap_limit_bytes(None), u32::MAX as usize);
    assert_eq!(heap_limit_bytes(Some(1 << 20)), 1 << 20);
    assert_eq!(heap_limit_bytes(Some(-1)), u32::MAX as usize);
    assert_eq!(heap_used_bytes(Some(1024), 4096), 3072);
    assert_eq!(heap_used_bytes(None, 4096), 4096);
    assert_eq!(heap_used_bytes(Some(8192), 4096), 0);
    assert_eq!(heap_used_bytes(Some(-5), -7), 0);
}

#[test]
fn handle_table_bounds() {
    assert_eq!(handle_table_end_byte(None, 65536, 4096), 65536);
    assert_eq!(handle_table_end_byte(Some(20000), 65536, 4096), 15904);
    assert_eq!(handle_table_end_byte(Some(100), 65536, 4096), 0);
    assert_eq!(handle_table_end_byte(Some(-3), 65536, 4096), 0);
    assert!(host_handle_slot_fits(64, 3, 4, 80));
    assert!(!host_handle_slot_fits(64, 4, 4, 80));
    assert!(!host_handle_slot_fits(64, u32::MAX, usize::MAX, usize::MAX - 1));
}

#[test]
fn growth_pages_round_up() {
    assert_eq!(growth_pages(65536, 0), 1);
    assert_eq!(growth_pages(65537, 0), 2);
    assert_eq!(growth_pages(10, 9), 1);
    assert_eq!(growth_pages(3 * 65536, 65536), 2);
}

#[test]
fn growth_policy_fits_without_work() {
    let mut g = HeapGrowth::new();
    let a = g.step(GrowthEvent::Begin { heap_ptr: 100, size: 50, limit: 1000, memory_len: 200 });
    assert_eq!(a, GrowthAction::Ready);
    assert_eq!(g.state, GrowthState::Done);
}

#[test]
fn growth_policy_grows_then_collects_once() {
    let mut g = HeapGrowth::new();
    let a = g.step(GrowthEvent::Begin { heap_ptr: 65536, size: 65537, limit: usize::MAX, memory_len: 65536 });
    assert_eq!(a, GrowthAction::Grow { pages: 2 });
    assert_eq!(g.step(GrowthEvent::GrowFailed), GrowthAction::Collect);
    assert_eq!(
        g.step(GrowthEvent::Collected { limit: usize::MAX, memory_len: 65536 * 2 }),
        GrowthAction::Grow { pages: 1 }
    );
    assert_eq!(g.step(GrowthEvent::GrowFailed), GrowthAction::OutOfMemory);
    assert_eq!(g.state, GrowthState::Done);
}

#[test]
fn growth_policy_respects_the_budget() {
    let mut g = HeapGrowth::new();
    assert_eq!(
        g.step(GrowthEvent::Begin { heap_ptr: 900, size: 200, limit: 1000, memory_len: 4096 }),
        GrowthAction::Collect
    );
    assert_eq!(
        g.step(GrowthEvent::Collected { limit: 1000, memory_len: 4096 }),
        GrowthAction::OutOfMemory
    );

    let mut g = HeapGrowth::new();
    g.step(GrowthEvent::Begin { heap_ptr: 900, size: 200, limit: 1000, memory_len: 1000 });
    assert_eq!(
        g.step(GrowthEvent::Collected { limit: 2000, memory_len: 1000 }),
        GrowthAction::Grow { pages: 1 }
    );
    assert_eq!(g.step(GrowthEvent::Grew { memory_len: 66536 }), GrowthAction::Ready);

    let mut g = HeapGrowth::new();
    assert_eq!(
        g.step(GrowthEvent::Begin { heap_ptr: usize::MAX, size: 1, limit: usize::MAX, memory_len: 0 }),
        GrowthAction::OutOfMemory
    );
    // An event out of turn ends the attempt.
    let mut g = HeapGrowth::new();
    assert_eq!(g.step(GrowthEvent::GrowFailed), GrowthAction::OutOfMemory);
}
