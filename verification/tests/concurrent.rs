use wjsm_runtime::barrier::HeaderLayout;
use wjsm_runtime::concurrent::RelocationDescriptor;
use wjsm_runtime::handle::{HandleGeneration, HandleId};

#[test]
fn copy_is_claimed_once() {
    let mut d = RelocationDescriptor::new(
        HandleId::new(5),
        0x1000,
        0x2000,
        64,
        HandleGeneration::Young,
        HeaderLayout::object(),
    );
    assert!(!d.is_done());
    assert_eq!(d.owner(), 0);
    assert!(d.try_claim_copy(7));
    assert!(!d.try_claim_copy(8));
    assert_eq!(d.owner(), 7);
    d.mark_done();
    assert!(d.is_done());
    assert!(!d.try_claim_copy(9));
    assert_eq!(d.owner(), 7);
}
