//! Property descriptors and the compatibility checks that `defineProperty`
//! and the proxy `getOwnPropertyDescriptor` invariants rest on.
//!
//! Values are the runtime's encoded 64-bit words. Comparing two values by
//! the language's equality needs the runtime (strings are compared by
//! content), so the checks take that comparison's answer as an argument.

use vstd::prelude::*;

verus! {

/// A property descriptor; a missing field is `None`.
#[derive(Clone, Copy, Debug, PartialEq, Eq, Structural)]
pub struct PropertyDescriptor {
    pub value: Option<i64>,
    pub writable: Option<bool>,
    pub enumerable: Option<bool>,
    pub configurable: Option<bool>,
    pub get: Option<i64>,
    pub set: Option<i64>,
}

pub open spec fn spec_is_accessor(d: PropertyDescriptor) -> bool {
    d.get is Some || d.set is Some
}

pub open spec fn spec_is_data(d: PropertyDescriptor) -> bool {
    d.value is Some || d.writable is Some
}

/// The descriptor has a getter or a setter.
pub fn is_accessor_descriptor(desc: &PropertyDescriptor) -> (r: bool)
    ensures
        r == spec_is_accessor(*desc),
{
    desc.get.is_some() || desc.set.is_some()
}

/// The descriptor has a value or a writable flag.
pub fn is_data_descriptor(desc: &PropertyDescriptor) -> (r: bool)
    ensures
        r == spec_is_data(*desc),
{
    desc.value.is_some() || desc.writable.is_some()
}

pub open spec fn or_default<T>(o: Option<T>, d: T) -> T {
    match o {
        Some(v) => v,
        None => d,
    }
}

/// `CompletePropertyDescriptor`: fills every missing field with its default
/// (`undefined` for values and accessors, `false` for flags).
pub open spec fn spec_complete(d: PropertyDescriptor, undefined: i64) -> PropertyDescriptor {
    if spec_is_accessor(d) {
        PropertyDescriptor {
            get: Some(or_default(d.get, undefined)),
            set: Some(or_default(d.set, undefined)),
            enumerable: Some(or_default(d.enumerable, false)),
            configurable: Some(or_default(d.configurable, false)),
            ..d
        }
    } else {
        PropertyDescriptor {
            value: Some(or_default(d.value, undefined)),
            writable: Some(or_default(d.writable, false)),
            enumerable: Some(or_default(d.enumerable, false)),
            configurable: Some(or_default(d.configurable, false)),
            ..d
        }
    }
}

/// Fills the missing fields of `desc`; `undefined` is the runtime's
/// encoding of `undefined`.
pub fn complete_property_descriptor(desc: PropertyDescriptor, undefined: i64) -> (r: PropertyDescriptor)
    ensures
        r == spec_complete(desc, undefined),
{
    let mut d = desc;
    if is_accessor_descriptor(&d) {
        if d.get.is_none() {
            d.get = Some(undefined);
        }
        if d.set.is_none() {
            d.set = Some(undefined);
        }
    } else {
        if d.value.is_none() {
            d.value = Some(undefined);
        }
        if d.writable.is_none() {
            d.writable = Some(false);
        }
    }
    if d.enumerable.is_none() {
        d.enumerable = Some(false);
    }
    if d.configurable.is_none() {
        d.configurable = Some(false);
    }
    d
}

/// `IsCompatiblePropertyDescriptor`: whether `desc` may replace `current`
/// (absent when the property does not exist) on an object that is or is not
/// `extensible`. `values_same` is whether the language's equality holds
/// between `current`'s value and `desc`'s value (each `undefined` when
/// missing); it matters only for a frozen data property.
pub open spec fn spec_compatible(
    extensible: bool,
    desc: PropertyDescriptor,
    current: Option<PropertyDescriptor>,
    values_same: bool,
) -> bool {
    match current {
        None => extensible,
        Some(cur) => {
            let cur_conf = or_default(cur.configurable, false);
            if !cur_conf && (desc.configurable == Some(true) || desc.enumerable != cur.enumerable) {
                false
            } else if spec_is_data(cur) != spec_is_data(desc) {
                cur_conf
            } else if spec_is_data(cur) {
                !(!cur_conf && cur.writable == Some(false) && (desc.writable == Some(true) || !values_same))
            } else {
                cur_conf || (desc.get == cur.get && desc.set == cur.set)
            }
        },
    }
}

pub fn is_compatible_property_descriptor(
    extensible: bool,
    desc: &PropertyDescriptor,
    current: Option<&PropertyDescriptor>,
    values_same: bool,
) -> (r: bool)
    ensures
        r == spec_compatible(
            extensible,
            *desc,
            match current {
                Some(c) => Some(*c),
                None => None,
            },
            values_same,
        ),
{
    let current = match current {
        Some(c) => c,
        None => {
            return extensible;
        },
    };
    let current_configurable = match current.configurable {
        Some(c) => c,
        None => false,
    };
    if !current_configurable {
        if desc.configurable == Some(true) {
            return false;
        }
        if desc.enumerable != current.enumerable {
            return false;
        }
    }
    let current_is_data = is_data_descriptor(current);
    let desc_is_data = is_data_descriptor(desc);
    if current_is_data != desc_is_data {
        return current_configurable;
    }
    if current_is_data {
        if !current_configurable && current.writable == Some(false) {
            if desc.writable == Some(true) {
                return false;
            }
            if !values_same {
                return false;
            }
        }
        return true;
    }
    if !current_configurable {
        if desc.get != current.get {
            return false;
        }
        if desc.set != current.set {
            return false;
        }
    }
    true
}

/// What a proxy's `getOwnPropertyDescriptor` trap returned.
#[derive(Clone, Copy, Debug, PartialEq, Eq, Structural)]
pub enum TrapDescriptorResult {
    Undefined,
    /// Neither an object nor `undefined`.
    NotAnObject,
    /// An object, read as a descriptor.
    Descriptor(PropertyDescriptor),
}

/// Which proxy invariant a trap result breaks (each a `TypeError`).
#[derive(Clone, Copy, Debug, PartialEq, Eq, Structural)]
pub enum ProxyDescriptorViolation {
    /// A non-configurable target property was reported missing.
    NonConfigurableReportedMissing,
    /// A property of a non-extensible target was reported missing.
    NonExtensibleReportedMissing,
    /// The trap returned neither an object nor `undefined`.
    NotAnObjectOrUndefined,
    /// The reported descriptor cannot stand for the target's.
    IncompatibleDescriptor,
    /// A non-configurable descriptor was reported for a property that is
    /// configurable or missing on the target, or a writable one for a frozen
    /// data property.
    NonConfigurableMismatch,
}

/// The invariant check of a `getOwnPropertyDescriptor` trap result against
/// the target's own descriptor (`target_desc`, absent when the property is
/// missing) and the target's extensibility. `undefined` is the runtime's
/// encoding of `undefined`; `values_same` is the language's equality between
/// the target's value and the completed reported value.
pub open spec fn spec_validate_trap_result(
    target_desc: Option<PropertyDescriptor>,
    extensible: bool,
    result: TrapDescriptorResult,
    undefined: i64,
    values_same: bool,
) -> Result<(), ProxyDescriptorViolation> {
    match result {
        TrapDescriptorResult::Undefined => match target_desc {
            None => Ok(()),
            Some(t) => if t.configurable == Some(false) {
                Err(ProxyDescriptorViolation::NonConfigurableReportedMissing)
            } else if !extensible {
                Err(ProxyDescriptorViolation::NonExtensibleReportedMissing)
            } else {
                Ok(())
            },
        },
        TrapDescriptorResult::NotAnObject => Err(ProxyDescriptorViolation::NotAnObjectOrUndefined),
        TrapDescriptorResult::Descriptor(d) => {
            let r = spec_complete(d, undefined);
            if !spec_compatible(extensible, r, target_desc, values_same) {
                Err(ProxyDescriptorViolation::IncompatibleDescriptor)
            } else if r.configurable == Some(false) && (match target_desc {
                None => true,
                Some(t) => t.configurable != Some(false) || (spec_is_data(t) && t.writable == Some(false)
                    && r.writable == Some(true)),
            }) {
                Err(ProxyDescriptorViolation::NonConfigurableMismatch)
            } else {
                Ok(())
            }
        },
    }
}

pub fn validate_proxy_get_own_property_descriptor_result(
    target_desc: Option<PropertyDescriptor>,
    extensible: bool,
    result: TrapDescriptorResult,
    undefined: i64,
    values_same: bool,
) -> (r: Result<(), ProxyDescriptorViolation>)
    ensures
        r == spec_validate_trap_result(target_desc, extensible, result, undefined, values_same),
{
    match result {
        TrapDescriptorResult::Undefined => {
            match target_desc {
                None => Ok(()),
                Some(t) => {
                    if t.configurable == Some(false) {
                        Err(ProxyDescriptorViolation::NonConfigurableReportedMissing)
                    } else if !extensible {
                        Err(ProxyDescriptorViolation::NonExtensibleReportedMissing)
                    } else {
                        Ok(())
                    }
                },
            }
        },
        TrapDescriptorResult::NotAnObject => Err(ProxyDescriptorViolation::NotAnObjectOrUndefined),
        TrapDescriptorResult::Descriptor(d) => {
            let r = complete_property_descriptor(d, undefined);
            let target_ref = match &target_desc {
                Some(t) => Some(t),
                None => None,
            };
            if !is_compatible_property_descriptor(extensible, &r, target_ref, values_same) {
                return Err(ProxyDescriptorViolation::IncompatibleDescriptor);
            }
            if r.configurable == Some(false) {
                match target_desc {
                    None => {
                        return Err(ProxyDescriptorViolation::NonConfigurableMismatch);
                    },
                    Some(t) => {
                        if t.configurable != Some(false) {
                            return Err(ProxyDescriptorViolation::NonConfigurableMismatch);
                        }
                        if is_data_descriptor(&t) && t.writable == Some(false) && r.writable == Some(true) {
                            return Err(ProxyDescriptorViolation::NonConfigurableMismatch);
                        }
                    },
                }
            }
            Ok(())
        },
    }
}

/// A proxy can never hide a non-configurable property of its target, nor
/// report a non-configurable property the target does not have as such:
/// whatever the other inputs, these results are refused.
pub proof fn law_proxy_cannot_hide_frozen_properties(
    t: PropertyDescriptor,
    extensible: bool,
    d: PropertyDescriptor,
    undefined: i64,
    values_same: bool,
)
    requires
        t.configurable == Some(false),
    ensures
        spec_validate_trap_result(Some(t), extensible, TrapDescriptorResult::Undefined, undefined, values_same) is Err,
        d.configurable == Some(false) ==> spec_validate_trap_result(
            None,
            extensible,
            TrapDescriptorResult::Descriptor(d),
            undefined,
            values_same,
        ) is Err,
{
}

/// A property the object lacks can be added exactly when the object is
/// extensible, and a configurable property accepts any descriptor.
pub proof fn law_missing_or_configurable_property_is_open(
    extensible: bool,
    desc: PropertyDescriptor,
    current: PropertyDescriptor,
    values_same: bool,
)
    ensures
        spec_compatible(extensible, desc, None, values_same) == extensible,
        current.configurable == Some(true) ==> spec_compatible(extensible, desc, Some(current), values_same),
{
}

/// A non-configurable property cannot become configurable, change its
/// enumerability, or turn from a data property into an accessor or back.
pub proof fn law_non_configurable_property_keeps_its_kind(
    extensible: bool,
    desc: PropertyDescriptor,
    current: PropertyDescriptor,
    values_same: bool,
)
    ensures
        current.configurable != Some(true) && spec_compatible(extensible, desc, Some(current), values_same)
            ==> desc.configurable != Some(true) && desc.enumerable == current.enumerable && spec_is_data(desc)
            == spec_is_data(current),
{
}

/// A non-configurable accessor keeps its getter and its setter: a
/// descriptor is compatible with it exactly when it names the same two
/// functions, keeps the enumerability and does not ask for
/// configurability.
pub proof fn law_non_configurable_accessor_keeps_its_functions(
    extensible: bool,
    desc: PropertyDescriptor,
    current: PropertyDescriptor,
    values_same: bool,
)
    requires
        current.configurable != Some(true),
        !spec_is_data(current),
        !spec_is_data(desc),
    ensures
        spec_compatible(extensible, desc, Some(current), values_same) <==> (desc.get == current.get && desc.set
            == current.set && desc.enumerable == current.enumerable && desc.configurable != Some(true)),
{
}

/// A frozen data property (non-configurable and non-writable) accepts only
/// a data descriptor with the same value that does not make it writable; a
/// non-configurable writable one accepts any data descriptor that keeps its
/// enumerability and does not ask for configurability.
pub proof fn law_non_configurable_data_property(
    extensible: bool,
    desc: PropertyDescriptor,
    current: PropertyDescriptor,
    values_same: bool,
)
    requires
        current.configurable != Some(true),
        spec_is_data(current),
        spec_is_data(desc),
    ensures
        current.writable == Some(false) ==> (spec_compatible(extensible, desc, Some(current), values_same) <==> (
        values_same && desc.writable != Some(true) && desc.enumerable == current.enumerable && desc.configurable
            != Some(true))),
        current.writable != Some(false) ==> (spec_compatible(extensible, desc, Some(current), values_same) <==> (
        desc.enumerable == current.enumerable && desc.configurable != Some(true))),
{
}

/// Completing a descriptor keeps every field it has and fills the missing
/// ones: flags become `false`; an accessor's missing getter or setter and a
/// data descriptor's missing value become `undefined`; the kind does not
/// change.
pub proof fn law_completion_keeps_fields_and_fills_defaults(d: PropertyDescriptor, undefined: i64)
    ensures
        ({
            let r = spec_complete(d, undefined);
            &&& d.enumerable is Some ==> r.enumerable == d.enumerable
            &&& d.enumerable is None ==> r.enumerable == Some(false)
            &&& d.configurable is Some ==> r.configurable == d.configurable
            &&& d.configurable is None ==> r.configurable == Some(false)
            &&& (d.get is Some || d.set is Some) ==> {
                &&& d.get is Some ==> r.get == d.get
                &&& d.get is None ==> r.get == Some(undefined)
                &&& d.set is Some ==> r.set == d.set
                &&& d.set is None ==> r.set == Some(undefined)
                &&& r.value == d.value && r.writable == d.writable
            }
            &&& (d.get is None && d.set is None) ==> {
                &&& d.value is Some ==> r.value == d.value
                &&& d.value is None ==> r.value == Some(undefined)
                &&& d.writable is Some ==> r.writable == d.writable
                &&& d.writable is None ==> r.writable == Some(false)
                &&& r.get is None && r.set is None
            }
        }),
{
}

/// The answers to a `getOwnPropertyDescriptor` trap: `undefined` is fine
/// for a missing property, refused for a non-configurable one, and for
/// another one allowed exactly when the target is extensible; a result
/// that is no object is refused; a descriptor is refused when its
/// completion cannot stand for the target's, refused when it is
/// non-configurable and the property is missing or configurable on the
/// target, and accepted when it is compatible and configurable.
pub proof fn law_trap_result_answers(
    t: PropertyDescriptor,
    extensible: bool,
    d: PropertyDescriptor,
    undefined: i64,
    values_same: bool,
)
    ensures
        spec_validate_trap_result(None, extensible, TrapDescriptorResult::Undefined, undefined, values_same) == Ok::<
            (),
            ProxyDescriptorViolation,
        >(()),
        t.configurable == Some(false) ==> spec_validate_trap_result(
            Some(t),
            extensible,
            TrapDescriptorResult::Undefined,
            undefined,
            values_same,
        ) == Err::<(), ProxyDescriptorViolation>(ProxyDescriptorViolation::NonConfigurableReportedMissing),
        t.configurable != Some(false) ==> spec_validate_trap_result(
            Some(t),
            extensible,
            TrapDescriptorResult::Undefined,
            undefined,
            values_same,
        ) == if extensible {
            Ok::<(), ProxyDescriptorViolation>(())
        } else {
            Err(ProxyDescriptorViolation::NonExtensibleReportedMissing)
        },
        spec_validate_trap_result(
            Some(t),
            extensible,
            TrapDescriptorResult::NotAnObject,
            undefined,
            values_same,
        ) == Err::<(), ProxyDescriptorViolation>(ProxyDescriptorViolation::NotAnObjectOrUndefined),
        !spec_compatible(extensible, spec_complete(d, undefined), Some(t), values_same) ==> spec_validate_trap_result(
            Some(t),
            extensible,
            TrapDescriptorResult::Descriptor(d),
            undefined,
            values_same,
        ) == Err::<(), ProxyDescriptorViolation>(ProxyDescriptorViolation::IncompatibleDescriptor),
        extensible && d.configurable != Some(true) ==> spec_validate_trap_result(
            None,
            extensible,
            TrapDescriptorResult::Descriptor(d),
            undefined,
            values_same,
        ) == Err::<(), ProxyDescriptorViolation>(ProxyDescriptorViolation::NonConfigurableMismatch),
        t.configurable == Some(true) && d.configurable == Some(false) ==> spec_validate_trap_result(
            Some(t),
            extensible,
            TrapDescriptorResult::Descriptor(d),
            undefined,
            values_same,
        ) == Err::<(), ProxyDescriptorViolation>(ProxyDescriptorViolation::NonConfigurableMismatch),
        spec_compatible(extensible, spec_complete(d, undefined), Some(t), values_same) && d.configurable == Some(
            true,
        ) ==> spec_validate_trap_result(
            Some(t),
            extensible,
            TrapDescriptorResult::Descriptor(d),
            undefined,
            values_same,
        ) == Ok::<(), ProxyDescriptorViolation>(()),
{
}

} // verus!
