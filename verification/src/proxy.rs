//! The decisions of the proxy operations `get`, `getPrototypeOf` and
//! `defineProperty`: which step comes next (call the trap, go on to the
//! target, read an own slot, call a getter) and the invariants that a
//! trap's result must keep. Calling traps and getters, and reading the
//! heap, is the runtime's part.

use vstd::prelude::*;

use crate::descriptor::{PropertyDescriptor, spec_is_accessor};
use crate::object_slots::PropertySlot;

verus! {

/// An entry of the proxy table.
#[derive(Clone, Copy, Debug, PartialEq, Eq, Structural)]
pub struct ProxyEntry {
    pub target: i64,
    pub handler: i64,
    pub revoked: bool,
}

/// What a proxy operation does next.
#[derive(Clone, Copy, Debug, PartialEq, Eq, Structural)]
pub enum ProxyStep {
    /// The proxy is unknown.
    Missing,
    /// The proxy was revoked: a `TypeError`.
    Revoked,
    /// Call the handler's trap with the target.
    CallTrap { trap: i64, handler: i64, target: i64 },
    /// No trap: the operation goes on to the target.
    ToTarget { target: i64 },
}

/// The step of a proxy operation: an unknown proxy, a revoked one, the
/// handler's trap when it is neither `undefined` nor `null`, else the
/// target.
pub open spec fn spec_proxy_step(entry: Option<ProxyEntry>, trap: i64, trap_is_nullish: bool) -> ProxyStep {
    match entry {
        None => ProxyStep::Missing,
        Some(e) => if e.revoked {
            ProxyStep::Revoked
        } else if !trap_is_nullish {
            ProxyStep::CallTrap { trap, handler: e.handler, target: e.target }
        } else {
            ProxyStep::ToTarget { target: e.target }
        },
    }
}

/// The next step of a proxy operation; `trap` is the handler's trap
/// property and `trap_is_nullish` whether it is `undefined` or `null`.
pub fn proxy_step(entry: Option<ProxyEntry>, trap: i64, trap_is_nullish: bool) -> (r: ProxyStep)
    ensures
        r == spec_proxy_step(entry, trap, trap_is_nullish),
{
    match entry {
        None => ProxyStep::Missing,
        Some(e) => {
            if e.revoked {
                ProxyStep::Revoked
            } else if !trap_is_nullish {
                ProxyStep::CallTrap { trap, handler: e.handler, target: e.target }
            } else {
                ProxyStep::ToTarget { target: e.target }
            }
        },
    }
}

/// What `get` does with an ordinary object's own slot.
#[derive(Clone, Copy, Debug, PartialEq, Eq, Structural)]
pub enum OwnGetStep {
    /// The property's value is the result.
    Return { value: i64 },
    /// Call the getter with the receiver.
    CallGetter { getter: i64 },
    /// No own property: look at the prototype.
    ToPrototype,
}

/// `get` on an ordinary object: a data property gives its value; an
/// accessor calls its getter, or gives `undefined` when the getter is
/// `undefined` or `null`; with no own property the prototype is next.
pub open spec fn spec_own_get_step(slot: Option<PropertySlot>, getter_is_nullish: bool, undefined: i64) -> OwnGetStep {
    match slot {
        None => OwnGetStep::ToPrototype,
        Some(s) => if !s.attrs.accessor {
            OwnGetStep::Return { value: s.value }
        } else if getter_is_nullish {
            OwnGetStep::Return { value: undefined }
        } else {
            OwnGetStep::CallGetter { getter: s.getter }
        },
    }
}

/// The step of `get` for the own slot found under the property's name.
pub fn own_get_step(slot: Option<PropertySlot>, getter_is_nullish: bool, undefined: i64) -> (r: OwnGetStep)
    ensures
        r == spec_own_get_step(slot, getter_is_nullish, undefined),
{
    match slot {
        None => OwnGetStep::ToPrototype,
        Some(s) => {
            if !s.attrs.accessor {
                OwnGetStep::Return { value: s.value }
            } else if getter_is_nullish {
                OwnGetStep::Return { value: undefined }
            } else {
                OwnGetStep::CallGetter { getter: s.getter }
            }
        },
    }
}

/// An invariant of the proxy protocol that a trap's result broke.
#[derive(Clone, Copy, Debug, PartialEq, Eq, Structural)]
pub enum ProxyInvariantError {
    PrototypeNotObject,
    PrototypeMismatch,
    DefineConfigurable,
    DefineEnumerable,
    DefineKind,
    DefineWritable,
    DefineValue,
    DefineGetter,
    DefineSetter,
    DefineOnNonExtensible,
    DefineNonConfigurableMissing,
}

/// The `getPrototypeOf` trap's result must be an object or `null`, and on a
/// non-extensible target it must be the target's prototype.
pub open spec fn spec_check_get_prototype(
    result: i64,
    result_is_null: bool,
    result_is_object: bool,
    target_extensible: bool,
    target_proto: i64,
) -> Result<i64, ProxyInvariantError> {
    if !result_is_null && !result_is_object {
        Err(ProxyInvariantError::PrototypeNotObject)
    } else if !target_extensible && result != target_proto {
        Err(ProxyInvariantError::PrototypeMismatch)
    } else {
        Ok(result)
    }
}

/// Checks the result of a `getPrototypeOf` trap.
pub fn check_get_prototype_trap_result(
    result: i64,
    result_is_null: bool,
    result_is_object: bool,
    target_extensible: bool,
    target_proto: i64,
) -> (r: Result<i64, ProxyInvariantError>)
    ensures
        r == spec_check_get_prototype(result, result_is_null, result_is_object, target_extensible, target_proto),
{
    if !result_is_null && !result_is_object {
        Err(ProxyInvariantError::PrototypeNotObject)
    } else if !target_extensible && result != target_proto {
        Err(ProxyInvariantError::PrototypeMismatch)
    } else {
        Ok(result)
    }
}

/// The invariants a `defineProperty` trap that reported success must keep
/// against the target's own property `target_desc`. A non-configurable
/// target property may not become configurable, change enumerability or
/// kind; a non-writable one may not become writable or change its value,
/// and an accessor may not change its getter or setter (missing fields of
/// the target's descriptor count as `true` flags and `undefined` words). A
/// missing property needs an extensible target and may not be defined
/// non-configurable. `value_same` is whether `desc.value` is strictly equal
/// to the target's value.
pub open spec fn spec_check_define(
    target_desc: Option<PropertyDescriptor>,
    target_extensible: bool,
    desc: PropertyDescriptor,
    undefined: i64,
    value_same: bool,
) -> Result<(), ProxyInvariantError> {
    match target_desc {
        Some(td) => {
            let configurable = match td.configurable { Some(c) => c, None => true };
            let target_accessor = spec_is_accessor(td);
            let writable = match td.writable { Some(w) => w, None => true };
            let getter = match td.get { Some(g) => g, None => undefined };
            let setter = match td.set { Some(s) => s, None => undefined };
            if configurable {
                Ok(())
            } else if desc.configurable == Some(true) {
                Err(ProxyInvariantError::DefineConfigurable)
            } else if desc.enumerable is Some && desc.enumerable != td.enumerable {
                Err(ProxyInvariantError::DefineEnumerable)
            } else if spec_is_accessor(desc) != target_accessor {
                Err(ProxyInvariantError::DefineKind)
            } else if !target_accessor {
                if writable {
                    Ok(())
                } else if desc.writable == Some(true) {
                    Err(ProxyInvariantError::DefineWritable)
                } else if desc.value is Some && !value_same {
                    Err(ProxyInvariantError::DefineValue)
                } else {
                    Ok(())
                }
            } else if desc.get is Some && desc.get.unwrap() != getter {
                Err(ProxyInvariantError::DefineGetter)
            } else if desc.set is Some && desc.set.unwrap() != setter {
                Err(ProxyInvariantError::DefineSetter)
            } else {
                Ok(())
            }
        },
        None => if !target_extensible {
            Err(ProxyInvariantError::DefineOnNonExtensible)
        } else if desc.configurable == Some(false) {
            Err(ProxyInvariantError::DefineNonConfigurableMissing)
        } else {
            Ok(())
        },
    }
}

/// Checks a `defineProperty` trap that reported success.
pub fn check_define_trap_result(
    target_desc: Option<PropertyDescriptor>,
    target_extensible: bool,
    desc: &PropertyDescriptor,
    undefined: i64,
    value_same: bool,
) -> (r: Result<(), ProxyInvariantError>)
    ensures
        r == spec_check_define(target_desc, target_extensible, *desc, undefined, value_same),
{
    match target_desc {
        Some(td) => {
            let configurable = match td.configurable {
                Some(c) => c,
                None => true,
            };
            if configurable {
                return Ok(());
            }
            if desc.configurable == Some(true) {
                return Err(ProxyInvariantError::DefineConfigurable);
            }
            match desc.enumerable {
                Some(e) => {
                    if td.enumerable != Some(e) {
                        return Err(ProxyInvariantError::DefineEnumerable);
                    }
                },
                None => {},
            }
            let is_new_accessor = desc.get.is_some() || desc.set.is_some();
            let target_accessor = td.get.is_some() || td.set.is_some();
            if is_new_accessor != target_accessor {
                return Err(ProxyInvariantError::DefineKind);
            }
            if !target_accessor {
                let writable = match td.writable {
                    Some(w) => w,
                    None => true,
                };
                if !writable {
                    if desc.writable == Some(true) {
                        return Err(ProxyInvariantError::DefineWritable);
                    }
                    if desc.value.is_some() && !value_same {
                        return Err(ProxyInvariantError::DefineValue);
                    }
                }
                Ok(())
            } else {
                let getter = match td.get {
                    Some(g) => g,
                    None => undefined,
                };
                let setter = match td.set {
                    Some(s) => s,
                    None => undefined,
                };
                match desc.get {
                    Some(g) => {
                        if g != getter {
                            return Err(ProxyInvariantError::DefineGetter);
                        }
                    },
                    None => {},
                }
                match desc.set {
                    Some(s) => {
                        if s != setter {
                            return Err(ProxyInvariantError::DefineSetter);
                        }
                    },
                    None => {},
                }
                Ok(())
            }
        },
        None => {
            if !target_extensible {
                Err(ProxyInvariantError::DefineOnNonExtensible)
            } else if desc.configurable == Some(false) {
                Err(ProxyInvariantError::DefineNonConfigurableMissing)
            } else {
                Ok(())
            }
        },
    }
}

/// What `defineProperty` on a proxy does once its trap returned.
#[derive(Clone, Copy, Debug, PartialEq, Eq, Structural)]
pub enum DefineTrapNext {
    /// The trap reported failure: the answer is `false`.
    ReturnFalse,
    /// The trap's success kept the invariants: the definition goes on to
    /// the target.
    ForwardToTarget,
    /// The trap's success broke an invariant.
    Fail(ProxyInvariantError),
}

/// After a `defineProperty` trap: a falsy result answers `false` with no
/// check; a truthy one is checked (`check`, from
/// `check_define_trap_result`) and then forwarded to the target.
pub open spec fn spec_define_trap_next(result_truthy: bool, check: Result<(), ProxyInvariantError>) -> DefineTrapNext {
    if !result_truthy {
        DefineTrapNext::ReturnFalse
    } else {
        match check {
            Ok(()) => DefineTrapNext::ForwardToTarget,
            Err(e) => DefineTrapNext::Fail(e),
        }
    }
}

/// The step after a `defineProperty` trap returned.
pub fn define_trap_next(result_truthy: bool, check: Result<(), ProxyInvariantError>) -> (r: DefineTrapNext)
    ensures
        r == spec_define_trap_next(result_truthy, check),
{
    if !result_truthy {
        DefineTrapNext::ReturnFalse
    } else {
        match check {
            Ok(()) => DefineTrapNext::ForwardToTarget,
            Err(e) => DefineTrapNext::Fail(e),
        }
    }
}

/// A proxy operation on an unknown proxy finds nothing; on a revoked one it
/// fails whatever the trap; otherwise it calls the handler's trap with the
/// target when the trap is neither `undefined` nor `null`, and goes on to
/// the target when it is.
pub proof fn law_proxy_dispatch(trap: i64, nullish: bool, target: i64, handler: i64)
    ensures
        spec_proxy_step(None, trap, nullish) == ProxyStep::Missing,
        spec_proxy_step(Some(ProxyEntry { target, handler, revoked: true }), trap, nullish) == ProxyStep::Revoked,
        spec_proxy_step(Some(ProxyEntry { target, handler, revoked: false }), trap, false) == (ProxyStep::CallTrap {
            trap,
            handler,
            target,
        }),
        spec_proxy_step(Some(ProxyEntry { target, handler, revoked: false }), trap, true) == (ProxyStep::ToTarget {
            target,
        }),
{
}

/// `get` on an own slot: no slot sends the lookup to the prototype; a data
/// slot gives its value; an accessor calls its getter, or gives
/// `undefined` when the getter is `undefined` or `null`.
pub proof fn law_own_get(slot: PropertySlot, nullish: bool, undefined: i64)
    ensures
        spec_own_get_step(None, nullish, undefined) == OwnGetStep::ToPrototype,
        !slot.attrs.accessor ==> spec_own_get_step(Some(slot), nullish, undefined) == (OwnGetStep::Return {
            value: slot.value,
        }),
        slot.attrs.accessor ==> spec_own_get_step(Some(slot), true, undefined) == (OwnGetStep::Return {
            value: undefined,
        }),
        slot.attrs.accessor ==> spec_own_get_step(Some(slot), false, undefined) == (OwnGetStep::CallGetter {
            getter: slot.getter,
        }),
{
}

/// `getPrototypeOf` through a proxy: the trap must give an object or
/// `null`; on an extensible target any such answer stands, and on a
/// non-extensible one only the target's own prototype.
pub proof fn law_get_prototype_trap(result: i64, is_null: bool, is_object: bool, extensible: bool, proto: i64)
    ensures
        !is_null && !is_object ==> spec_check_get_prototype(result, is_null, is_object, extensible, proto) == Err::<
            i64,
            ProxyInvariantError,
        >(ProxyInvariantError::PrototypeNotObject),
        (is_null || is_object) && extensible ==> spec_check_get_prototype(result, is_null, is_object, extensible, proto)
            == Ok::<i64, ProxyInvariantError>(result),
        (is_null || is_object) && !extensible ==> spec_check_get_prototype(result, is_null, is_object, extensible, proto)
            == if result == proto {
            Ok::<i64, ProxyInvariantError>(result)
        } else {
            Err(ProxyInvariantError::PrototypeMismatch)
        },
{
}

/// A `defineProperty` trap that reported success, against the target: a
/// configurable target property accepts anything; a missing one needs an
/// extensible target and may not be defined non-configurable; a
/// non-configurable one may not be made configurable, may not change its
/// enumerability or kind, a frozen data property may not become writable
/// or change value, and a non-configurable accessor may not change its
/// getter or setter.
pub proof fn law_define_trap_invariants(
    td: PropertyDescriptor,
    extensible: bool,
    desc: PropertyDescriptor,
    undefined: i64,
    value_same: bool,
)
    ensures
        td.configurable != Some(false) ==> spec_check_define(Some(td), extensible, desc, undefined, value_same)
            == Ok::<(), ProxyInvariantError>(()),
        spec_check_define(None, false, desc, undefined, value_same) == Err::<(), ProxyInvariantError>(
            ProxyInvariantError::DefineOnNonExtensible,
        ),
        spec_check_define(None, true, desc, undefined, value_same) == if desc.configurable == Some(false) {
            Err::<(), ProxyInvariantError>(ProxyInvariantError::DefineNonConfigurableMissing)
        } else {
            Ok(())
        },
        td.configurable == Some(false) && desc.configurable == Some(true) ==> spec_check_define(
            Some(td),
            extensible,
            desc,
            undefined,
            value_same,
        ) == Err::<(), ProxyInvariantError>(ProxyInvariantError::DefineConfigurable),
        td.configurable == Some(false) && desc.configurable != Some(true) && desc.enumerable is Some
            && desc.enumerable != td.enumerable ==> spec_check_define(Some(td), extensible, desc, undefined, value_same)
            == Err::<(), ProxyInvariantError>(ProxyInvariantError::DefineEnumerable),
        td.configurable == Some(false) && desc.configurable != Some(true) && (desc.enumerable is None
            || desc.enumerable == td.enumerable) && spec_is_accessor(desc) != spec_is_accessor(td)
            ==> spec_check_define(Some(td), extensible, desc, undefined, value_same) == Err::<(), ProxyInvariantError>(
            ProxyInvariantError::DefineKind,
        ),
        td.configurable == Some(false) && td.writable == Some(false) && !spec_is_accessor(td) && !spec_is_accessor(
            desc,
        ) && desc.configurable != Some(true) && (desc.enumerable is None || desc.enumerable == td.enumerable)
            ==> spec_check_define(Some(td), extensible, desc, undefined, value_same) == if desc.writable == Some(
            true,
        ) {
            Err::<(), ProxyInvariantError>(ProxyInvariantError::DefineWritable)
        } else if desc.value is Some && !value_same {
            Err(ProxyInvariantError::DefineValue)
        } else {
            Ok(())
        },
        td.configurable == Some(false) && spec_is_accessor(td) && spec_is_accessor(desc) && desc.configurable
            != Some(true) && (desc.enumerable is None || desc.enumerable == td.enumerable) && (desc.get is None
            || desc.get == td.get) && desc.set is Some && desc.set != td.set && td.set is Some ==> spec_check_define(Some(td), extensible, desc, undefined, value_same)
            == Err::<(), ProxyInvariantError>(ProxyInvariantError::DefineSetter),
        td.configurable == Some(false) && spec_is_accessor(td) && spec_is_accessor(desc) && desc.configurable
            != Some(true) && (desc.enumerable is None || desc.enumerable == td.enumerable) && desc.get is Some
            && desc.get != td.get && td.get is Some ==> spec_check_define(Some(td), extensible, desc, undefined, value_same)
            == Err::<(), ProxyInvariantError>(ProxyInvariantError::DefineGetter),
        td.configurable == Some(false) && spec_is_accessor(td) && spec_is_accessor(desc) && desc.configurable
            != Some(true) && (desc.enumerable is None || desc.enumerable == td.enumerable) && (desc.get is None
            || desc.get == td.get) && (desc.set is None || desc.set == td.set) && td.get is Some && td.set is Some
            ==> spec_check_define(Some(td), extensible, desc, undefined, value_same) == Ok::<(), ProxyInvariantError>(()),
{
}

/// After a `defineProperty` trap: a falsy result answers `false` without
/// any check; a truthy one fails on a broken invariant and otherwise goes
/// on to the target.
pub proof fn law_define_trap_next(check: Result<(), ProxyInvariantError>, e: ProxyInvariantError)
    ensures
        spec_define_trap_next(false, check) == DefineTrapNext::ReturnFalse,
        spec_define_trap_next(true, Ok(())) == DefineTrapNext::ForwardToTarget,
        spec_define_trap_next(true, Err(e)) == DefineTrapNext::Fail(e),
{
}

} // verus!
