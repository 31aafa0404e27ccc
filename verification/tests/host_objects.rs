use wjsm_runtime::construct::{array_construction, construction_result, ArrayConstruction, ConstructorKind};
use wjsm_runtime::barrier::{BarrierEpoch, ColorMask};
use wjsm_runtime::color::{ZColor, ZEntry};
use wjsm_runtime::cstring::find_c_string;
use wjsm_runtime::descriptor::PropertyDescriptor;
use wjsm_runtime::marking::{MarkHeap, ZMarkState};
use wjsm_runtime::object_layout::{
    accessor_growth, append_property_slot, move_object_region, property_growth, read_object_header, set_property_count,
    write_slot_header,
};
use wjsm_runtime::object_slots::{
    append_host_accessor, check_array_slot_descriptor, define_own_property, own_property_descriptor, DefineError, ObjectSlots,
    PropertySlot, SlotAttrs,
};
use wjsm_runtime::own_keys::{own_property_keys, own_string_keys, KeyClass, OwnKeySlot};
use wjsm_runtime::page::{ZPageSpace, ZPAGE_SIZE};
use wjsm_runtime::proxy::{
    check_define_trap_result, check_get_prototype_trap_result, define_trap_next, DefineTrapNext, own_get_step, proxy_step, OwnGetStep,
    ProxyEntry, ProxyInvariantError, ProxyStep,
};

const UNDEFINED: i64 = -7;

fn data_desc(value: i64, writable: bool, configurable: bool) -> PropertyDescriptor {
    PropertyDescriptor {
        value: Some(value),
        writable: Some(writable),
        enumerable: Some(true),
        configurable: Some(configurable),
        get: None,
        set: None,
    }
}

fn empty_desc() -> PropertyDescriptor {
    PropertyDescriptor { value: None, writable: None, enumerable: None, configurable: None, get: None, set: None }
}

#[test]
fn c_string_lookup_skips_matches_inside_longer_names() {
    let data = b"isArray\0Array\0tail".to_vec();
    assert_eq!(find_c_string(&data, data.len(), "Array"), Some(8));
    assert_eq!(find_c_string(&data, data.len(), "isArray"), Some(0));
    assert_eq!(find_c_string(&data, data.len(), "rray"), None);
    // Only the allocated part of memory is scanned.
    assert_eq!(find_c_string(&data, 10, "Array"), None);
    assert_eq!(find_c_string(&data, 1000, "tail"), None);
}

#[test]
fn define_property_adds_then_redefines() {
    let mut obj = ObjectSlots { slots: Vec::new(), extensible: true };
    assert_eq!(define_own_property(&mut obj, 5, &data_desc(10, true, true), UNDEFINED, false), Ok(true));
    assert_eq!(obj.slots.len(), 1);
    assert_eq!(obj.slots[0].value, 10);
    assert!(obj.slots[0].attrs.writable && obj.slots[0].attrs.configurable);

    let mut only_value = empty_desc();
    only_value.value = Some(11);
    assert_eq!(define_own_property(&mut obj, 5, &only_value, UNDEFINED, false), Ok(true));
    assert_eq!(obj.slots.len(), 1);
    assert_eq!(obj.slots[0].value, 11);
    assert!(obj.slots[0].attrs.writable);
}

#[test]
fn define_property_new_fields_default_to_false_and_undefined() {
    let mut obj = ObjectSlots { slots: Vec::new(), extensible: true };
    let mut getter_only = empty_desc();
    getter_only.get = Some(42);
    getter_only.writable = Some(true);
    assert_eq!(define_own_property(&mut obj, 1, &getter_only, UNDEFINED, false), Ok(true));
    let s = obj.slots[0];
    assert!(s.attrs.accessor);
    assert!(!s.attrs.writable);
    assert!(!s.attrs.enumerable && !s.attrs.configurable);
    assert_eq!(s.getter, 42);
    assert_eq!(s.setter, UNDEFINED);
    assert_eq!(s.value, UNDEFINED);
}

#[test]
fn define_property_keeps_non_configurable_invariants() {
    let mut obj = ObjectSlots { slots: Vec::new(), extensible: true };
    define_own_property(&mut obj, 3, &data_desc(1, false, false), UNDEFINED, false).unwrap();

    let mut c = empty_desc();
    c.configurable = Some(true);
    assert_eq!(define_own_property(&mut obj, 3, &c, UNDEFINED, false), Err(DefineError::RedefineNonConfigurable));
    let mut e = empty_desc();
    e.enumerable = Some(false);
    assert_eq!(define_own_property(&mut obj, 3, &e, UNDEFINED, false), Err(DefineError::ChangeEnumerable));
    let mut g = empty_desc();
    g.get = Some(9);
    assert_eq!(define_own_property(&mut obj, 3, &g, UNDEFINED, false), Err(DefineError::ChangeKind));
    let mut w = empty_desc();
    w.writable = Some(true);
    assert_eq!(define_own_property(&mut obj, 3, &w, UNDEFINED, false), Err(DefineError::MakeWritable));
    let mut v = empty_desc();
    v.value = Some(2);
    assert_eq!(define_own_property(&mut obj, 3, &v, UNDEFINED, false), Err(DefineError::ChangeValue));
    assert_eq!(define_own_property(&mut obj, 3, &v, UNDEFINED, true), Ok(true));
    assert_eq!(obj.slots[0].value, 2);
}

#[test]
fn define_property_refuses_accessor_changes_and_new_names_on_sealed_objects() {
    let accessor = PropertySlot {
        name_id: 4,
        attrs: SlotAttrs { accessor: true, writable: false, enumerable: true, configurable: false },
        value: UNDEFINED,
        getter: 100,
        setter: 200,
    };
    let mut obj = ObjectSlots { slots: vec![accessor], extensible: false };
    let mut g = empty_desc();
    g.get = Some(101);
    assert_eq!(define_own_property(&mut obj, 4, &g, UNDEFINED, false), Err(DefineError::ChangeGetter));
    let mut s = empty_desc();
    s.set = Some(201);
    assert_eq!(define_own_property(&mut obj, 4, &s, UNDEFINED, false), Err(DefineError::ChangeSetter));
    assert_eq!(
        define_own_property(&mut obj, 8, &data_desc(1, true, true), UNDEFINED, false),
        Err(DefineError::NotExtensible)
    );
    assert_eq!(obj.slots.len(), 1);
    assert_eq!(check_array_slot_descriptor(&g), Err(DefineError::AccessorOnArraySlot));
    assert_eq!(check_array_slot_descriptor(&data_desc(1, true, true)), Ok(()));
    assert_eq!(DefineError::NotExtensible.message(), "TypeError: Cannot add property to non-extensible object");
}

#[test]
fn host_accessor_is_appended_and_never_writable() {
    let mut obj = ObjectSlots { slots: Vec::new(), extensible: true };
    append_host_accessor(&mut obj, 7, 1, 2, true, false, UNDEFINED);
    append_host_accessor(&mut obj, 7, 3, 4, false, true, UNDEFINED);
    assert_eq!(obj.slots.len(), 2);
    assert!(obj.slots[1].attrs.accessor && !obj.slots[1].attrs.writable);
    assert_eq!(obj.slots[1].getter, 3);
    assert_eq!(obj.slots[0].value, UNDEFINED);
}

#[test]
fn object_layout_growth_and_slot_writes() {
    assert_eq!(property_growth(0), Some((2, 16 + 64)));
    assert_eq!(property_growth(4), Some((8, 16 + 256)));
    assert_eq!(property_growth(usize::MAX), None);
    assert_eq!(accessor_growth(0, 0), 1);
    assert_eq!(accessor_growth(3, 3), 6);
    assert_eq!(accessor_growth(u32::MAX, 5), u32::MAX);

    let mut mem = vec![0u8; 512];
    mem[8..12].copy_from_slice(&1u32.to_le_bytes());
    mem[12..16].copy_from_slice(&1u32.to_le_bytes());
    mem[16..20].copy_from_slice(&9u32.to_le_bytes());
    assert_eq!(read_object_header(&mem, 0), Some((1, 1)));
    assert_eq!(read_object_header(&mem, 500), None);

    // The full object moves to 128 with capacity 2; its table slot at 300
    // points there.
    move_object_region(&mut mem, 0, 1, 128, 2, 300, &mut Vec::new());
    assert_eq!(&mem[128 + 16..128 + 20], &9u32.to_le_bytes());
    assert_eq!(read_object_header(&mem, 128), Some((2, 1)));
    assert_eq!(&mem[300..304], &128u32.to_le_bytes());

    assert_eq!(write_slot_header(&mut mem, 128, 1, 77, 5), Some(128 + 16 + 32));
    assert_eq!(&mem[176..180], &77u32.to_le_bytes());
    assert_eq!(&mem[180..184], &5u32.to_le_bytes());
    set_property_count(&mut mem, 128, 2);
    assert_eq!(read_object_header(&mem, 128), Some((2, 2)));
    assert_eq!(write_slot_header(&mut mem, 480, 0, 1, 1), None);
}

#[test]
fn proxy_steps_and_trap_invariants() {
    let entry = ProxyEntry { target: 10, handler: 20, revoked: false };
    assert_eq!(proxy_step(None, 5, false), ProxyStep::Missing);
    assert_eq!(proxy_step(Some(ProxyEntry { revoked: true, ..entry }), 5, false), ProxyStep::Revoked);
    assert_eq!(proxy_step(Some(entry), 5, false), ProxyStep::CallTrap { trap: 5, handler: 20, target: 10 });
    assert_eq!(proxy_step(Some(entry), 5, true), ProxyStep::ToTarget { target: 10 });

    let data = PropertySlot {
        name_id: 1,
        attrs: SlotAttrs { accessor: false, writable: true, enumerable: true, configurable: true },
        value: 33,
        getter: UNDEFINED,
        setter: UNDEFINED,
    };
    assert_eq!(own_get_step(Some(data), false, UNDEFINED), OwnGetStep::Return { value: 33 });
    let acc = PropertySlot { attrs: SlotAttrs { accessor: true, ..data.attrs }, getter: 44, ..data };
    assert_eq!(own_get_step(Some(acc), false, UNDEFINED), OwnGetStep::CallGetter { getter: 44 });
    assert_eq!(own_get_step(Some(acc), true, UNDEFINED), OwnGetStep::Return { value: UNDEFINED });
    assert_eq!(own_get_step(None, false, UNDEFINED), OwnGetStep::ToPrototype);

    assert_eq!(check_get_prototype_trap_result(5, false, false, true, 5), Err(ProxyInvariantError::PrototypeNotObject));
    assert_eq!(check_get_prototype_trap_result(5, false, true, false, 6), Err(ProxyInvariantError::PrototypeMismatch));
    assert_eq!(check_get_prototype_trap_result(6, false, true, false, 6), Ok(6));

    let frozen = PropertyDescriptor {
        value: Some(1),
        writable: Some(false),
        enumerable: Some(true),
        configurable: Some(false),
        get: None,
        set: None,
    };
    let mut w = empty_desc();
    w.writable = Some(true);
    assert_eq!(check_define_trap_result(Some(frozen), true, &w, UNDEFINED, false), Err(ProxyInvariantError::DefineWritable));
    let mut nc = empty_desc();
    nc.configurable = Some(false);
    assert_eq!(
        check_define_trap_result(None, true, &nc, UNDEFINED, false),
        Err(ProxyInvariantError::DefineNonConfigurableMissing)
    );
    assert_eq!(check_define_trap_result(None, false, &w, UNDEFINED, false), Err(ProxyInvariantError::DefineOnNonExtensible));
    assert_eq!(check_define_trap_result(None, true, &w, UNDEFINED, false), Ok(()));
}

fn key(name_id: u32, class: KeyClass, enumerable: bool, private: bool) -> OwnKeySlot {
    OwnKeySlot { name_id, private, enumerable, class }
}

#[test]
fn own_keys_order_indices_then_names_then_symbols() {
    let slots = vec![
        key(1, KeyClass::Name, true, false),
        key(2, KeyClass::Index(10), true, false),
        key(3, KeyClass::Symbol, true, false),
        key(4, KeyClass::Index(2), false, false),
        key(5, KeyClass::Name, false, false),
        key(6, KeyClass::Name, true, true),
        key(7, KeyClass::Index(2), true, false),
        key(8, KeyClass::Unnamed, true, false),
    ];
    assert_eq!(own_string_keys(&slots, false), vec![4, 7, 2, 1, 5]);
    assert_eq!(own_string_keys(&slots, true), vec![7, 2, 1]);
    assert_eq!(own_property_keys(&slots, false), vec![4, 7, 2, 1, 5, 3]);
    assert_eq!(own_property_keys(&slots, true), vec![3]);
}

fn small_heap() -> MarkHeap {
    MarkHeap {
        entries: vec![
            ZEntry::new(0x100, ZColor::Marked0).raw(),
            ZEntry::new(0x140, ZColor::Marked0).raw(),
            ZEntry::new(0x180, ZColor::Remapped).raw(),
            ZEntry::new(0x1c0, ZColor::Marked0).raw(),
        ],
        children: vec![vec![1], vec![2, 7], vec![], vec![0]],
        sizes: vec![Some(64), Some(64), Some(64), Some(64)],
        gc_epoch: 0,
    }
}

#[test]
fn final_pause_marks_host_table_roots_to_a_fixed_point() {
    let mut heap = small_heap();
    let mut pages = ZPageSpace::default();
    pages.attach(0, ZPAGE_SIZE);
    let mut state = ZMarkState::new();
    state.start_cycle(&mut heap, &mut pages, &vec![0], ZColor::Marked1);

    let host_roots = |s: &ZMarkState| if s.is_marked(0) { vec![3] } else { Vec::new() };
    let flush = || (0usize, Vec::new());
    let summary = state.finish_marking(&mut heap, &mut pages, ZColor::Marked1, &vec![], &host_roots, &flush);

    assert!(summary.dead_handles.is_empty());
    assert_eq!(summary.marked, 4);
    assert!(!state.is_active());
}

#[test]
fn final_pause_without_host_roots_releases_unreachable() {
    let mut heap = small_heap();
    let mut pages = ZPageSpace::default();
    pages.attach(0, ZPAGE_SIZE);
    let mut state = ZMarkState::new();
    state.start_cycle(&mut heap, &mut pages, &vec![0], ZColor::Marked1);

    let host_roots = |_s: &ZMarkState| Vec::new();
    let flush = || (1usize, vec![2u32]);
    let summary = state.finish_marking(&mut heap, &mut pages, ZColor::Marked1, &vec![], &host_roots, &flush);

    assert_eq!(summary.dead_handles, vec![3]);
    assert_eq!(heap.entries[3], 0);
}

#[test]
fn barrier_mask_colors_only_marking_generations() {
    let idle = BarrierEpoch::idle();
    assert_eq!(idle.mask(), ColorMask { young_mark: 0, old_mark: 0, remembered: 1 });
    let young = idle.flip_young();
    assert_eq!(young.mask(), ColorMask { young_mark: 2, old_mark: 0, remembered: 2 });
}

#[test]
fn array_construction_paths() {
    assert_eq!(array_construction(ConstructorKind::NativeArray, UNDEFINED), ArrayConstruction::AllocArray);
    assert_eq!(array_construction(ConstructorKind::NotConstructor, UNDEFINED), ArrayConstruction::Undefined);
    assert_eq!(
        array_construction(ConstructorKind::Function { func_idx: 3 }, UNDEFINED),
        ArrayConstruction::CallTable { func_idx: 3, env_obj: UNDEFINED }
    );
    assert_eq!(
        array_construction(ConstructorKind::Closure { func_idx: 4, env_obj: 9 }, UNDEFINED),
        ArrayConstruction::CallTable { func_idx: 4, env_obj: 9 }
    );
    assert_eq!(construction_result(Some(5), true, UNDEFINED), 5);
    assert_eq!(construction_result(Some(5), false, UNDEFINED), UNDEFINED);
    assert_eq!(construction_result(None, true, UNDEFINED), UNDEFINED);
}

#[test]
fn appending_a_property_moves_a_full_object() {
    let mut mem = vec![0u8; 512];
    // Capacity 1, one property named 9; the table slot at 400 points at 0.
    mem[8..12].copy_from_slice(&1u32.to_le_bytes());
    mem[12..16].copy_from_slice(&1u32.to_le_bytes());
    mem[16..20].copy_from_slice(&9u32.to_le_bytes());
    // Full, and no region allocated: nothing happens.
    assert_eq!(append_property_slot(&mut mem, 0, None, 400, 11, 6, &mut Vec::new()), None);
    assert_eq!(read_object_header(&mem, 0), Some((1, 1)));

    assert_eq!(append_property_slot(&mut mem, 0, Some(128), 400, 11, 6, &mut Vec::new()), Some((128, 176)));
    assert_eq!(read_object_header(&mem, 128), Some((2, 2)));
    assert_eq!(&mem[144..148], &9u32.to_le_bytes());
    assert_eq!(&mem[176..180], &11u32.to_le_bytes());
    assert_eq!(&mem[180..184], &6u32.to_le_bytes());
    assert_eq!(&mem[400..404], &128u32.to_le_bytes());

    // Room left after the move: the slot goes in place.
    mem[136..140].copy_from_slice(&4u32.to_le_bytes());
    assert_eq!(append_property_slot(&mut mem, 128, None, 400, 12, 2, &mut Vec::new()), Some((128, 208)));
    assert_eq!(read_object_header(&mem, 128), Some((4, 3)));
}

#[test]
fn defined_property_reads_back() {
    let mut obj = ObjectSlots { slots: Vec::new(), extensible: true };
    let d = data_desc(3, true, false);
    assert_eq!(define_own_property(&mut obj, 2, &d, UNDEFINED, false), Ok(true));
    assert_eq!(own_property_descriptor(&obj, 2), Some(d));
    assert_eq!(own_property_descriptor(&obj, 5), None);
}

#[test]
fn define_trap_result_decides_the_next_step() {
    assert_eq!(define_trap_next(false, Err(ProxyInvariantError::DefineKind)), DefineTrapNext::ReturnFalse);
    assert_eq!(define_trap_next(true, Ok(())), DefineTrapNext::ForwardToTarget);
    assert_eq!(
        define_trap_next(true, Err(ProxyInvariantError::DefineKind)),
        DefineTrapNext::Fail(ProxyInvariantError::DefineKind)
    );
}
