use wjsm_runtime::descriptor::{
    complete_property_descriptor, is_accessor_descriptor, is_compatible_property_descriptor,
    is_data_descriptor, validate_proxy_get_own_property_descriptor_result, PropertyDescriptor,
    ProxyDescriptorViolation, TrapDescriptorResult,
};
use wjsm_runtime::property_key::canonical_integer_index;

const UNDEF: i64 = 0x7ff8_0000_0000_0001;

fn empty() -> PropertyDescriptor {
    PropertyDescriptor {
        value: None,
        writable: None,
        enumerable: None,
        configurable: None,
        get: None,
        set: None,
    }
}

fn frozen_data(value: i64) -> PropertyDescriptor {
    PropertyDescriptor {
        value: Some(value),
        writable: Some(false),
        enumerable: Some(true),
        configurable: Some(false),
        ..empty()
    }
}

#[test]
fn descriptor_kinds() {
    let acc = PropertyDescriptor { get: Some(5), ..empty() };
    let data = PropertyDescriptor { writable: Some(true), ..empty() };
    assert!(is_accessor_descriptor(&acc));
    assert!(!is_data_descriptor(&acc));
    assert!(is_data_descriptor(&data));
    assert!(!is_accessor_descriptor(&data));
    assert!(!is_accessor_descriptor(&empty()));
    assert!(!is_data_descriptor(&empty()));
}

#[test]
fn complete_fills_defaults() {
    let d = complete_property_descriptor(empty(), UNDEF);
    assert_eq!(d.value, Some(UNDEF));
    assert_eq!(d.writable, Some(false));
    assert_eq!(d.enumerable, Some(false));
    assert_eq!(d.configurable, Some(false));
    assert_eq!(d.get, None);
    assert_eq!(d.set, None);

    let a = complete_property_descriptor(PropertyDescriptor { set: Some(9), enumerable: Some(true), ..empty() }, UNDEF);
    assert_eq!(a.get, Some(UNDEF));
    assert_eq!(a.set, Some(9));
    assert_eq!(a.enumerable, Some(true));
    assert_eq!(a.configurable, Some(false));
    assert_eq!(a.value, None);
    assert_eq!(a.writable, None);
}

#[test]
fn compatibility_rules() {
    let cur = frozen_data(1);
    // Missing property: allowed exactly on an extensible object.
    assert!(is_compatible_property_descriptor(true, &cur, None, true));
    assert!(!is_compatible_property_descriptor(false, &cur, None, true));
    // Frozen: same value accepted, other value refused, making it writable refused.
    assert!(is_compatible_property_descriptor(true, &cur, Some(&cur), true));
    assert!(!is_compatible_property_descriptor(true, &cur, Some(&cur), false));
    let w = PropertyDescriptor { writable: Some(true), ..cur };
    assert!(!is_compatible_property_descriptor(true, &w, Some(&cur), true));
    // Non-configurable cannot become configurable.
    let c = PropertyDescriptor { configurable: Some(true), ..cur };
    assert!(!is_compatible_property_descriptor(true, &c, Some(&cur), true));
    // Non-configurable data cannot become an accessor; a configurable one can.
    let acc = PropertyDescriptor { get: Some(3), enumerable: Some(true), ..empty() };
    assert!(!is_compatible_property_descriptor(true, &acc, Some(&cur), true));
    let conf = PropertyDescriptor { configurable: Some(true), ..cur };
    assert!(is_compatible_property_descriptor(true, &acc, Some(&conf), true));
    // Non-configurable accessor: getter must stay.
    let cur_acc = PropertyDescriptor { get: Some(3), set: None, enumerable: Some(true), configurable: Some(false), ..empty() };
    assert!(is_compatible_property_descriptor(true, &cur_acc, Some(&cur_acc), false));
    let other = PropertyDescriptor { get: Some(4), ..cur_acc };
    assert!(!is_compatible_property_descriptor(true, &other, Some(&cur_acc), true));
}

#[test]
fn proxy_trap_results() {
    let frozen = frozen_data(1);
    let open = PropertyDescriptor { configurable: Some(true), ..frozen_data(1) };
    assert_eq!(
        validate_proxy_get_own_property_descriptor_result(Some(frozen), true, TrapDescriptorResult::Undefined, UNDEF, true),
        Err(ProxyDescriptorViolation::NonConfigurableReportedMissing)
    );
    assert_eq!(
        validate_proxy_get_own_property_descriptor_result(Some(open), false, TrapDescriptorResult::Undefined, UNDEF, true),
        Err(ProxyDescriptorViolation::NonExtensibleReportedMissing)
    );
    assert_eq!(
        validate_proxy_get_own_property_descriptor_result(Some(open), true, TrapDescriptorResult::Undefined, UNDEF, true),
        Ok(())
    );
    assert_eq!(
        validate_proxy_get_own_property_descriptor_result(None, true, TrapDescriptorResult::Undefined, UNDEF, true),
        Ok(())
    );
    assert_eq!(
        validate_proxy_get_own_property_descriptor_result(None, true, TrapDescriptorResult::NotAnObject, UNDEF, true),
        Err(ProxyDescriptorViolation::NotAnObjectOrUndefined)
    );
    // Reporting a non-configurable property that the target lacks.
    assert_eq!(
        validate_proxy_get_own_property_descriptor_result(None, true, TrapDescriptorResult::Descriptor(frozen), UNDEF, true),
        Err(ProxyDescriptorViolation::NonConfigurableMismatch)
    );
    // Missing property on a non-extensible target.
    assert_eq!(
        validate_proxy_get_own_property_descriptor_result(None, false, TrapDescriptorResult::Descriptor(open), UNDEF, true),
        Err(ProxyDescriptorViolation::IncompatibleDescriptor)
    );
    // Faithful report of the frozen property.
    assert_eq!(
        validate_proxy_get_own_property_descriptor_result(Some(frozen), true, TrapDescriptorResult::Descriptor(frozen), UNDEF, true),
        Ok(())
    );
    // Non-configurable report for a configurable target property.
    assert_eq!(
        validate_proxy_get_own_property_descriptor_result(Some(open), true, TrapDescriptorResult::Descriptor(frozen), UNDEF, true),
        Err(ProxyDescriptorViolation::NonConfigurableMismatch)
    );
}

#[test]
fn integer_index_keys() {
    assert_eq!(canonical_integer_index("0"), Some(0));
    assert_eq!(canonical_integer_index("42"), Some(42));
    assert_eq!(canonical_integer_index("4294967295"), Some(4294967295));
    assert_eq!(canonical_integer_index("4294967296"), None);
    assert_eq!(canonical_integer_index("01"), None);
    assert_eq!(canonical_integer_index(""), None);
    assert_eq!(canonical_integer_index("1a"), None);
    assert_eq!(canonical_integer_index("-1"), None);
    assert_eq!(canonical_integer_index("12345678901"), None);
    assert_eq!(canonical_integer_index("٣"), None);
}
