//! The own properties of an ordinary object, as the runtime lays them out:
//! a list of slots, each holding a name id, the property's attributes, and
//! its value, getter and setter words. `defineProperty` validates a
//! descriptor against the existing slot and writes the result; a new
//! property is appended.

use vstd::prelude::*;

use crate::descriptor::{PropertyDescriptor, or_default, spec_is_accessor};

verus! {

/// The attributes of a property slot.
#[derive(Clone, Copy, Debug, PartialEq, Eq, Structural)]
pub struct SlotAttrs {
    pub accessor: bool,
    pub writable: bool,
    pub enumerable: bool,
    pub configurable: bool,
}

/// One property slot.
#[derive(Clone, Copy, Debug, PartialEq, Eq, Structural)]
pub struct PropertySlot {
    pub name_id: u32,
    pub attrs: SlotAttrs,
    pub value: i64,
    pub getter: i64,
    pub setter: i64,
}

/// The own properties of an object, in slot order, and whether it may gain
/// new ones.
#[derive(Clone, Debug)]
pub struct ObjectSlots {
    pub slots: Vec<PropertySlot>,
    pub extensible: bool,
}

pub struct ObjectSlotsView {
    pub slots: Seq<PropertySlot>,
    pub extensible: bool,
}

impl View for ObjectSlots {
    type V = ObjectSlotsView;

    open spec fn view(&self) -> ObjectSlotsView {
        ObjectSlotsView { slots: self.slots@, extensible: self.extensible }
    }
}

/// Why `defineProperty` throws a `TypeError`.
#[derive(Clone, Copy, Debug, PartialEq, Eq, Structural)]
pub enum DefineError {
    AccessorOnArraySlot,
    RedefineNonConfigurable,
    ChangeEnumerable,
    ChangeKind,
    MakeWritable,
    ChangeValue,
    ChangeGetter,
    ChangeSetter,
    NotExtensible,
}

/// The message of the `TypeError` for each error.
pub open spec fn define_error_message(e: DefineError) -> Seq<char> {
    match e {
        DefineError::AccessorOnArraySlot => "TypeError: Accessor properties are not supported on array symbol slots"@,
        DefineError::RedefineNonConfigurable => "TypeError: Cannot redefine non-configurable property"@,
        DefineError::ChangeEnumerable => "TypeError: Cannot redefine enumerable attribute of non-configurable property"@,
        DefineError::ChangeKind => "TypeError: Cannot change property type from data to accessor or vice versa on non-configurable property"@,
        DefineError::MakeWritable => "TypeError: Cannot make non-writable property writable"@,
        DefineError::ChangeValue => "TypeError: Cannot change value of non-configurable non-writable property"@,
        DefineError::ChangeGetter => "TypeError: Cannot change getter of non-configurable property"@,
        DefineError::ChangeSetter => "TypeError: Cannot change setter of non-configurable property"@,
        DefineError::NotExtensible => "TypeError: Cannot add property to non-extensible object"@,
    }
}

impl DefineError {
    /// The message of the `TypeError`.
    pub fn message(&self) -> (r: &'static str)
        ensures
            r@ == define_error_message(*self),
    {
        match self {
            DefineError::AccessorOnArraySlot => "TypeError: Accessor properties are not supported on array symbol slots",
            DefineError::RedefineNonConfigurable => "TypeError: Cannot redefine non-configurable property",
            DefineError::ChangeEnumerable => "TypeError: Cannot redefine enumerable attribute of non-configurable property",
            DefineError::ChangeKind => "TypeError: Cannot change property type from data to accessor or vice versa on non-configurable property",
            DefineError::MakeWritable => "TypeError: Cannot make non-writable property writable",
            DefineError::ChangeValue => "TypeError: Cannot change value of non-configurable non-writable property",
            DefineError::ChangeGetter => "TypeError: Cannot change getter of non-configurable property",
            DefineError::ChangeSetter => "TypeError: Cannot change setter of non-configurable property",
            DefineError::NotExtensible => "TypeError: Cannot add property to non-extensible object",
        }
    }
}

/// The first slot named `name_id` at or after `from`.
pub open spec fn slot_index_from(slots: Seq<PropertySlot>, name_id: u32, from: int) -> Option<int>
    decreases slots.len() - from,
{
    if from < 0 || from >= slots.len() {
        None
    } else if slots[from].name_id == name_id {
        Some(from)
    } else {
        slot_index_from(slots, name_id, from + 1)
    }
}

proof fn lemma_slot_index_from(slots: Seq<PropertySlot>, name_id: u32, from: int)
    requires
        0 <= from,
    ensures
        slot_index_from(slots, name_id, from) matches Some(i) ==> from <= i < slots.len()
            && slots[i].name_id == name_id && forall|k: int| from <= k < i ==> slots[k].name_id != name_id,
        slot_index_from(slots, name_id, from) is None ==> forall|k: int|
            from <= k < slots.len() ==> slots[k].name_id != name_id,
    decreases slots.len() - from,
{
    if from < slots.len() && slots[from].name_id != name_id {
        lemma_slot_index_from(slots, name_id, from + 1);
    }
}

/// The first slot named `name_id`.
pub open spec fn slot_index(slots: Seq<PropertySlot>, name_id: u32) -> Option<int> {
    slot_index_from(slots, name_id, 0)
}

/// Finds the first slot named `name_id`.
pub fn find_slot(obj: &ObjectSlots, name_id: u32) -> (r: Option<usize>)
    ensures
        r matches Some(i) ==> slot_index(obj@.slots, name_id) == Some(i as int),
        r is None ==> slot_index(obj@.slots, name_id) is None,
{
    let mut i: usize = 0;
    while i < obj.slots.len()
        invariant
            i <= obj.slots@.len(),
            slot_index(obj@.slots, name_id) == slot_index_from(obj@.slots, name_id, i as int),
        decreases obj.slots@.len() - i,
    {
        if obj.slots[i].name_id == name_id {
            return Some(i);
        }
        i += 1;
    }
    None
}

/// Whether a non-configurable existing slot `old` rejects `desc`, and why;
/// `value_same` is whether `desc.value` is strictly equal to the slot's
/// value.
pub open spec fn spec_non_configurable_violation(
    old: PropertySlot,
    desc: PropertyDescriptor,
    value_same: bool,
) -> Option<DefineError> {
    if desc.configurable == Some(true) {
        Some(DefineError::RedefineNonConfigurable)
    } else if desc.enumerable is Some && desc.enumerable.unwrap() != old.attrs.enumerable {
        Some(DefineError::ChangeEnumerable)
    } else if spec_is_accessor(desc) != old.attrs.accessor {
        Some(DefineError::ChangeKind)
    } else if !old.attrs.accessor {
        if old.attrs.writable {
            None
        } else if desc.writable == Some(true) {
            Some(DefineError::MakeWritable)
        } else if desc.value is Some && !value_same {
            Some(DefineError::ChangeValue)
        } else {
            None
        }
    } else if desc.get is Some && desc.get.unwrap() != old.getter {
        Some(DefineError::ChangeGetter)
    } else if desc.set is Some && desc.set.unwrap() != old.setter {
        Some(DefineError::ChangeSetter)
    } else {
        None
    }
}

/// The slot `desc` makes of the existing slot `old`: a missing field keeps
/// the old one; the slot is an accessor when the descriptor has a getter
/// or setter, or was one and the descriptor is not a data descriptor.
pub open spec fn spec_redefined_slot(old: PropertySlot, desc: PropertyDescriptor) -> PropertySlot {
    let accessor = spec_is_accessor(desc) || (desc.value is None && desc.writable is None && old.attrs.accessor);
    PropertySlot {
        name_id: old.name_id,
        attrs: SlotAttrs {
            accessor,
            writable: or_default(desc.writable, if !accessor { old.attrs.writable } else { false }),
            enumerable: or_default(desc.enumerable, old.attrs.enumerable),
            configurable: or_default(desc.configurable, old.attrs.configurable),
        },
        value: or_default(desc.value, old.value),
        getter: or_default(desc.get, old.getter),
        setter: or_default(desc.set, old.setter),
    }
}

/// The slot a new property named `name_id` gets from `desc`: missing flags
/// are false (an accessor is never writable), missing words `undefined`.
pub open spec fn spec_new_slot(name_id: u32, desc: PropertyDescriptor, undefined: i64) -> PropertySlot {
    let accessor = spec_is_accessor(desc);
    PropertySlot {
        name_id,
        attrs: SlotAttrs {
            accessor,
            writable: or_default(desc.writable, false) && !accessor,
            enumerable: or_default(desc.enumerable, false),
            configurable: or_default(desc.configurable, false),
        },
        value: or_default(desc.value, undefined),
        getter: or_default(desc.get, undefined),
        setter: or_default(desc.set, undefined),
    }
}

/// `defineProperty` on an ordinary object: an existing property is checked
/// against the invariants of a non-configurable one and rewritten; a new
/// property is appended when the object is extensible.
pub open spec fn spec_define_own_property(
    obj: ObjectSlotsView,
    name_id: u32,
    desc: PropertyDescriptor,
    undefined: i64,
    value_same: bool,
) -> (Result<bool, DefineError>, ObjectSlotsView) {
    match slot_index(obj.slots, name_id) {
        Some(i) => {
            let old = obj.slots[i];
            let violation = if old.attrs.configurable {
                None
            } else {
                spec_non_configurable_violation(old, desc, value_same)
            };
            match violation {
                Some(e) => (Err(e), obj),
                None => (
                    Ok(true),
                    ObjectSlotsView { slots: obj.slots.update(i, spec_redefined_slot(old, desc)), ..obj },
                ),
            }
        },
        None => if !obj.extensible {
            (Err(DefineError::NotExtensible), obj)
        } else {
            (
                Ok(true),
                ObjectSlotsView { slots: obj.slots.push(spec_new_slot(name_id, desc, undefined)), ..obj },
            )
        },
    }
}

fn non_configurable_violation(old: &PropertySlot, desc: &PropertyDescriptor, value_same: bool) -> (r: Option<
    DefineError,
>)
    ensures
        r == spec_non_configurable_violation(*old, *desc, value_same),
{
    if desc.configurable == Some(true) {
        return Some(DefineError::RedefineNonConfigurable);
    }
    match desc.enumerable {
        Some(e) => {
            if e != old.attrs.enumerable {
                return Some(DefineError::ChangeEnumerable);
            }
        },
        None => {},
    }
    let is_new_accessor = desc.get.is_some() || desc.set.is_some();
    if is_new_accessor != old.attrs.accessor {
        return Some(DefineError::ChangeKind);
    }
    if !old.attrs.accessor {
        if !old.attrs.writable {
            if desc.writable == Some(true) {
                return Some(DefineError::MakeWritable);
            }
            if desc.value.is_some() && !value_same {
                return Some(DefineError::ChangeValue);
            }
        }
        None
    } else {
        match desc.get {
            Some(g) => {
                if g != old.getter {
                    return Some(DefineError::ChangeGetter);
                }
            },
            None => {},
        }
        match desc.set {
            Some(s) => {
                if s != old.setter {
                    return Some(DefineError::ChangeSetter);
                }
            },
            None => {},
        }
        None
    }
}

fn pick(o: Option<i64>, d: i64) -> (r: i64)
    ensures
        r == or_default(o, d),
{
    match o {
        Some(v) => v,
        None => d,
    }
}

fn pick_flag(o: Option<bool>, d: bool) -> (r: bool)
    ensures
        r == or_default(o, d),
{
    match o {
        Some(v) => v,
        None => d,
    }
}

/// The slot `desc` makes of an existing slot.
pub fn redefined_slot(old: &PropertySlot, desc: &PropertyDescriptor) -> (r: PropertySlot)
    ensures
        r == spec_redefined_slot(*old, *desc),
{
    let accessor = desc.get.is_some() || desc.set.is_some() || (desc.value.is_none() && desc.writable.is_none()
        && old.attrs.accessor);
    PropertySlot {
        name_id: old.name_id,
        attrs: SlotAttrs {
            accessor,
            writable: pick_flag(desc.writable, if !accessor { old.attrs.writable } else { false }),
            enumerable: pick_flag(desc.enumerable, old.attrs.enumerable),
            configurable: pick_flag(desc.configurable, old.attrs.configurable),
        },
        value: pick(desc.value, old.value),
        getter: pick(desc.get, old.getter),
        setter: pick(desc.set, old.setter),
    }
}

/// The slot a new property gets from `desc`.
pub fn new_slot(name_id: u32, desc: &PropertyDescriptor, undefined: i64) -> (r: PropertySlot)
    ensures
        r == spec_new_slot(name_id, *desc, undefined),
{
    let accessor = desc.get.is_some() || desc.set.is_some();
    PropertySlot {
        name_id,
        attrs: SlotAttrs {
            accessor,
            writable: pick_flag(desc.writable, false) && !accessor,
            enumerable: pick_flag(desc.enumerable, false),
            configurable: pick_flag(desc.configurable, false),
        },
        value: pick(desc.value, undefined),
        getter: pick(desc.get, undefined),
        setter: pick(desc.set, undefined),
    }
}

/// `defineProperty(obj, name, desc)` on an ordinary object. `undefined` is
/// the runtime's word for `undefined`; `value_same` is whether `desc.value`
/// is strictly equal to the existing property's value (the runtime compares
/// strings by content), and matters only for a non-configurable,
/// non-writable data property.
pub fn define_own_property(
    obj: &mut ObjectSlots,
    name_id: u32,
    desc: &PropertyDescriptor,
    undefined: i64,
    value_same: bool,
) -> (r: Result<bool, DefineError>)
    ensures
        (r, final(obj)@) == spec_define_own_property(old(obj)@, name_id, *desc, undefined, value_same),
{
    proof {
        lemma_slot_index_from(obj@.slots, name_id, 0);
    }
    match find_slot(obj, name_id) {
        Some(i) => {
            let existing = obj.slots[i];
            if !existing.attrs.configurable {
                match non_configurable_violation(&existing, desc, value_same) {
                    Some(e) => return Err(e),
                    None => {},
                }
            }
            let slot = redefined_slot(&existing, desc);
            obj.slots.set(i, slot);
            Ok(true)
        },
        None => {
            if !obj.extensible {
                return Err(DefineError::NotExtensible);
            }
            obj.slots.push(new_slot(name_id, desc, undefined));
            Ok(true)
        },
    }
}

/// An array keeps named properties in symbol slots, which hold no
/// accessors: an accessor descriptor is refused there.
pub fn check_array_slot_descriptor(desc: &PropertyDescriptor) -> (r: Result<(), DefineError>)
    ensures
        r == if spec_is_accessor(*desc) {
            Err::<(), DefineError>(DefineError::AccessorOnArraySlot)
        } else {
            Ok(())
        },
{
    if desc.get.is_some() || desc.set.is_some() {
        Err(DefineError::AccessorOnArraySlot)
    } else {
        Ok(())
    }
}

/// The slot a host accessor gets: an accessor that is never writable, with
/// the other attributes as given, the value `undefined`, and the getter and
/// setter.
pub open spec fn spec_host_accessor_slot(
    name_id: u32,
    getter: i64,
    setter: i64,
    enumerable: bool,
    configurable: bool,
    undefined: i64,
) -> PropertySlot {
    PropertySlot {
        name_id,
        attrs: SlotAttrs { accessor: true, writable: false, enumerable, configurable },
        value: undefined,
        getter,
        setter,
    }
}

/// Defines a host accessor by name id: the slot is appended after the
/// existing ones (the runtime does not look for an earlier one).
pub fn append_host_accessor(
    obj: &mut ObjectSlots,
    name_id: u32,
    getter: i64,
    setter: i64,
    enumerable: bool,
    configurable: bool,
    undefined: i64,
)
    ensures
        final(obj)@ == (ObjectSlotsView {
            slots: old(obj)@.slots.push(
                spec_host_accessor_slot(name_id, getter, setter, enumerable, configurable, undefined),
            ),
            ..old(obj)@
        }),
{
    obj.slots.push(
        PropertySlot {
            name_id,
            attrs: SlotAttrs { accessor: true, writable: false, enumerable, configurable },
            value: undefined,
            getter,
            setter,
        },
    );
}

/// The descriptor of an own slot: value and writability for a data
/// property, getter and setter for an accessor, and both flags always.
pub open spec fn spec_slot_descriptor(slot: PropertySlot) -> PropertyDescriptor {
    let accessor = slot.attrs.accessor;
    PropertyDescriptor {
        value: if !accessor { Some(slot.value) } else { None },
        writable: if !accessor { Some(slot.attrs.writable) } else { None },
        enumerable: Some(slot.attrs.enumerable),
        configurable: Some(slot.attrs.configurable),
        get: if accessor { Some(slot.getter) } else { None },
        set: if accessor { Some(slot.setter) } else { None },
    }
}

/// The own property `name_id` of `obj` as a descriptor; `None` when it has
/// none.
pub fn own_property_descriptor(obj: &ObjectSlots, name_id: u32) -> (r: Option<PropertyDescriptor>)
    ensures
        r == match slot_index(obj@.slots, name_id) {
            Some(i) => Some(spec_slot_descriptor(obj@.slots[i])),
            None => None::<PropertyDescriptor>,
        },
{
    proof {
        lemma_slot_index_from(obj@.slots, name_id, 0);
    }
    match find_slot(obj, name_id) {
        Some(i) => {
            let slot = obj.slots[i];
            let accessor = slot.attrs.accessor;
            Some(
                PropertyDescriptor {
                    value: if !accessor { Some(slot.value) } else { None },
                    writable: if !accessor { Some(slot.attrs.writable) } else { None },
                    enumerable: Some(slot.attrs.enumerable),
                    configurable: Some(slot.attrs.configurable),
                    get: if accessor { Some(slot.getter) } else { None },
                    set: if accessor { Some(slot.setter) } else { None },
                },
            )
        },
        None => None,
    }
}

/// The descriptor is a complete data descriptor.
pub open spec fn complete_data_descriptor(d: PropertyDescriptor) -> bool {
    d.value is Some && d.writable is Some && d.enumerable is Some && d.configurable is Some && d.get is None
        && d.set is None
}

proof fn lemma_slot_index_same_names(a: Seq<PropertySlot>, b: Seq<PropertySlot>, name_id: u32, from: int)
    requires
        a.len() <= b.len(),
        forall|k: int| 0 <= k < a.len() ==> (#[trigger] a[k]).name_id == b[k].name_id,
        0 <= from,
        slot_index_from(a, name_id, from) is Some,
    ensures
        slot_index_from(b, name_id, from) == slot_index_from(a, name_id, from),
    decreases a.len() - from,
{
    if from < a.len() && a[from].name_id != name_id {
        lemma_slot_index_same_names(a, b, name_id, from + 1);
    }
}

proof fn lemma_slot_index_appended(a: Seq<PropertySlot>, x: PropertySlot, name_id: u32, from: int)
    requires
        0 <= from <= a.len(),
        x.name_id == name_id,
        slot_index_from(a, name_id, from) is None,
    ensures
        slot_index_from(a.push(x), name_id, from) == Some(a.len() as int),
    decreases a.len() - from,
{
    if from < a.len() {
        assert(a.push(x)[from] == a[from]);
        lemma_slot_index_appended(a, x, name_id, from + 1);
    }
}

/// What `defineProperty` writes, reading the property gives back: after a
/// successful definition with a complete data descriptor, the object's own
/// descriptor for that name is the descriptor.
pub proof fn law_define_then_get_own_descriptor(
    obj: ObjectSlotsView,
    name_id: u32,
    desc: PropertyDescriptor,
    undefined: i64,
    value_same: bool,
)
    requires
        complete_data_descriptor(desc),
        spec_define_own_property(obj, name_id, desc, undefined, value_same).0 is Ok,
    ensures
        ({
            let after = spec_define_own_property(obj, name_id, desc, undefined, value_same).1;
            &&& slot_index(after.slots, name_id) is Some
            &&& spec_slot_descriptor(after.slots[slot_index(after.slots, name_id).unwrap()]) == desc
        }),
{
    let after = spec_define_own_property(obj, name_id, desc, undefined, value_same).1;
    lemma_slot_index_from(obj.slots, name_id, 0);
    match slot_index(obj.slots, name_id) {
        Some(i) => {
            let old = obj.slots[i];
            assert(after.slots == obj.slots.update(i, spec_redefined_slot(old, desc)));
            assert forall|k: int| 0 <= k < obj.slots.len() implies (#[trigger] obj.slots[k]).name_id
                == after.slots[k].name_id by {}
            lemma_slot_index_same_names(obj.slots, after.slots, name_id, 0);
        },
        None => {
            lemma_slot_index_appended(obj.slots, spec_new_slot(name_id, desc, undefined), name_id, 0);
        },
    }
}

/// `defineProperty` on an ordinary object: a configurable property accepts
/// any descriptor; a non-configurable one refuses to become configurable,
/// to change its enumerability or kind, a non-writable data property
/// refuses to become writable or take another value, and an accessor to
/// take another getter or setter; a missing property is refused on a
/// non-extensible object; a refused definition changes nothing.
pub proof fn law_define_own_property_rules(
    obj: ObjectSlotsView,
    name_id: u32,
    desc: PropertyDescriptor,
    undefined: i64,
    value_same: bool,
)
    ensures
        ({
            let (r, after) = spec_define_own_property(obj, name_id, desc, undefined, value_same);
            &&& r is Err ==> after == obj
            &&& slot_index(obj.slots, name_id) is None ==> (r == if obj.extensible {
                Ok::<bool, DefineError>(true)
            } else {
                Err(DefineError::NotExtensible)
            })
            &&& slot_index(obj.slots, name_id) matches Some(i) ==> {
                let old = obj.slots[i];
                &&& old.attrs.configurable ==> r == Ok::<bool, DefineError>(true)
                &&& !old.attrs.configurable && desc.configurable == Some(true) ==> r == Err::<bool, DefineError>(
                    DefineError::RedefineNonConfigurable,
                )
                &&& !old.attrs.configurable && desc.configurable != Some(true) && desc.enumerable == Some(
                    !old.attrs.enumerable,
                ) ==> r == Err::<bool, DefineError>(DefineError::ChangeEnumerable)
                &&& !old.attrs.configurable && desc.configurable != Some(true) && desc.enumerable != Some(
                    !old.attrs.enumerable,
                ) && (desc.get is Some || desc.set is Some) != old.attrs.accessor ==> r == Err::<bool, DefineError>(
                    DefineError::ChangeKind,
                )
                &&& !old.attrs.configurable && desc.configurable != Some(true) && desc.enumerable != Some(
                    !old.attrs.enumerable,
                ) && desc.get is None && desc.set is None && !old.attrs.accessor && !old.attrs.writable ==> r == (
                if desc.writable == Some(true) {
                    Err::<bool, DefineError>(DefineError::MakeWritable)
                } else if desc.value is Some && !value_same {
                    Err(DefineError::ChangeValue)
                } else {
                    Ok(true)
                })
                &&& !old.attrs.configurable && desc.configurable != Some(true) && desc.enumerable != Some(
                    !old.attrs.enumerable,
                ) && desc.get is None && desc.set is None && !old.attrs.accessor && old.attrs.writable ==> r == Ok::<
                    bool,
                    DefineError,
                >(true)
                &&& !old.attrs.configurable && desc.configurable != Some(true) && desc.enumerable != Some(
                    !old.attrs.enumerable,
                ) && (desc.get is Some || desc.set is Some) && old.attrs.accessor ==> r == (if desc.get is Some
                    && desc.get != Some(old.getter) {
                    Err::<bool, DefineError>(DefineError::ChangeGetter)
                } else if desc.set is Some && desc.set != Some(old.setter) {
                    Err(DefineError::ChangeSetter)
                } else {
                    Ok(true)
                })
            }
        }),
{
    lemma_slot_index_from(obj.slots, name_id, 0);
}

/// What a definition writes: an existing slot keeps every field the
/// descriptor leaves out and takes the others, and turns into an accessor
/// exactly when the descriptor has a getter or setter, or it was one and
/// the descriptor has no value and no writability; a new slot takes the
/// given fields, with `false` flags and `undefined` words for the missing
/// ones, and an accessor is never writable.
pub proof fn law_defined_slots(old: PropertySlot, desc: PropertyDescriptor, name_id: u32, undefined: i64)
    ensures
        ({
            let r = spec_redefined_slot(old, desc);
            &&& r.name_id == old.name_id
            &&& r.attrs.accessor == (desc.get is Some || desc.set is Some || (desc.value is None
                && desc.writable is None && old.attrs.accessor))
            &&& r.value == (if let Some(v) = desc.value { v } else { old.value })
            &&& r.getter == (if let Some(g) = desc.get { g } else { old.getter })
            &&& r.setter == (if let Some(f) = desc.set { f } else { old.setter })
            &&& r.attrs.enumerable == (if let Some(e) = desc.enumerable { e } else { old.attrs.enumerable })
            &&& r.attrs.configurable == (if let Some(c) = desc.configurable { c } else { old.attrs.configurable })
            &&& desc.writable matches Some(w) ==> r.attrs.writable == w
            &&& desc.writable is None && !r.attrs.accessor ==> r.attrs.writable == old.attrs.writable
            &&& desc.writable is None && r.attrs.accessor ==> !r.attrs.writable
        }),
        ({
            let n = spec_new_slot(name_id, desc, undefined);
            &&& n.name_id == name_id
            &&& n.attrs.accessor == (desc.get is Some || desc.set is Some)
            &&& n.attrs.writable == (desc.writable == Some(true) && desc.get is None && desc.set is None)
            &&& n.attrs.enumerable == (desc.enumerable == Some(true))
            &&& n.attrs.configurable == (desc.configurable == Some(true))
            &&& n.value == (if let Some(v) = desc.value { v } else { undefined })
            &&& n.getter == (if let Some(g) = desc.get { g } else { undefined })
            &&& n.setter == (if let Some(f) = desc.set { f } else { undefined })
        }),
{
}

/// The message each refusal throws with.
pub proof fn law_define_error_messages()
    ensures
        define_error_message(DefineError::AccessorOnArraySlot)
            == "TypeError: Accessor properties are not supported on array symbol slots"@,
        define_error_message(DefineError::RedefineNonConfigurable)
            == "TypeError: Cannot redefine non-configurable property"@,
        define_error_message(DefineError::ChangeEnumerable)
            == "TypeError: Cannot redefine enumerable attribute of non-configurable property"@,
        define_error_message(DefineError::ChangeKind)
            == "TypeError: Cannot change property type from data to accessor or vice versa on non-configurable property"@,
        define_error_message(DefineError::MakeWritable) == "TypeError: Cannot make non-writable property writable"@,
        define_error_message(DefineError::ChangeValue)
            == "TypeError: Cannot change value of non-configurable non-writable property"@,
        define_error_message(DefineError::ChangeGetter) == "TypeError: Cannot change getter of non-configurable property"@,
        define_error_message(DefineError::ChangeSetter) == "TypeError: Cannot change setter of non-configurable property"@,
        define_error_message(DefineError::NotExtensible) == "TypeError: Cannot add property to non-extensible object"@,
{
}

} // verus!
