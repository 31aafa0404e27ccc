//! An ordinary object in linear memory: a 16-byte header whose words at
//! +8 and +12 hold the slot capacity and the property count, then 32-byte
//! property slots (name id, flags, value, getter, setter). Adding a
//! property fills the next slot; a full object first moves to a region of
//! twice the capacity, and its object-table slot is pointed there.

use vstd::prelude::*;

use crate::relocate::copy_raw_object;
use crate::words::{le_word, put_le_word, read_le_word, write_le_word};

verus! {

pub const OBJECT_HEADER_BYTES: usize = 16;

pub const PROPERTY_SLOT_BYTES: usize = 32;

/// Reads an object's slot capacity and property count; `None` when the
/// header leaves memory.
pub fn read_object_header(mem: &[u8], obj_ptr: usize) -> (r: Option<(usize, usize)>)
    ensures
        r == if obj_ptr + 16 <= mem@.len() {
            Some((le_word(mem@, obj_ptr + 8) as usize, le_word(mem@, obj_ptr + 12) as usize))
        } else {
            None::<(usize, usize)>
        },
{
    if obj_ptr > mem.len() || mem.len() - obj_ptr < 16 {
        return None;
    }
    let capacity = read_le_word(mem, obj_ptr + 8) as usize;
    let count = read_le_word(mem, obj_ptr + 12) as usize;
    Some((capacity, count))
}

/// The capacity a full object grows to (twice its capacity, at least 2)
/// and the size of the region that holds it; `None` when that overflows.
pub open spec fn spec_property_growth(capacity: usize) -> Option<(usize, usize)> {
    let c = if capacity > 1 { capacity as int } else { 1 };
    if 2 * c > usize::MAX || 16 + 32 * (2 * c) > usize::MAX {
        None
    } else {
        Some(((2 * c) as usize, (16 + 32 * (2 * c)) as usize))
    }
}

/// The new capacity and region size for a full object.
pub fn property_growth(capacity: usize) -> (r: Option<(usize, usize)>)
    ensures
        r == spec_property_growth(capacity),
{
    let c = if capacity > 1 { capacity } else { 1 };
    let new_capacity = match c.checked_mul(2) {
        Some(n) => n,
        None => return None,
    };
    let payload = match new_capacity.checked_mul(32) {
        Some(p) => p,
        None => return None,
    };
    match 16usize.checked_add(payload) {
        Some(size) => Some((new_capacity, size)),
        None => None,
    }
}

/// The capacity a full object grows to when a host accessor is added:
/// twice its capacity (saturating), at least one more than its count, and
/// at least 1.
pub open spec fn spec_accessor_growth(capacity: u32, count: u32) -> u32 {
    let doubled = if 2 * capacity > u32::MAX { u32::MAX as int } else { 2 * capacity };
    let c = if doubled > count + 1 { doubled } else { count + 1 };
    (if c > 1 { c } else { 1 }) as u32
}

/// The new capacity of a full object that gains a host accessor.
pub fn accessor_growth(capacity: u32, count: u32) -> (r: u32)
    requires
        count < u32::MAX,
    ensures
        r == spec_accessor_growth(capacity, count),
{
    let doubled = if capacity > u32::MAX / 2 { u32::MAX } else { capacity * 2 };
    let c = if doubled > count + 1 { doubled } else { count + 1 };
    if c > 1 { c } else { 1 }
}

/// Memory after a full object with `count` properties moved from `obj_ptr`
/// to `new_ptr`: its header and slots are copied, the new header records
/// `new_capacity`, and the object-table slot at `table_slot_addr` (when it
/// lies in memory) points at the new region.
pub open spec fn spec_moved_object(
    mem: Seq<u8>,
    obj_ptr: usize,
    count: usize,
    new_ptr: usize,
    new_capacity: u32,
    table_slot_addr: usize,
) -> Seq<u8> {
    let size = 16 + 32 * count;
    let copied = mem.take(new_ptr as int) + mem.subrange(obj_ptr as int, obj_ptr + size) + mem.skip(new_ptr + size);
    let recapped = put_le_word(copied, new_ptr + 8, new_capacity);
    if table_slot_addr + 4 <= mem.len() {
        put_le_word(recapped, table_slot_addr as int, new_ptr as u32)
    } else {
        recapped
    }
}

/// Moves a full object to the region at `new_ptr` that the heap allocated
/// for `new_capacity` slots.
pub fn move_object_region(
    mem: &mut [u8],
    obj_ptr: usize,
    count: usize,
    new_ptr: usize,
    new_capacity: u32,
    table_slot_addr: usize,
    scratch: &mut Vec<u8>,
)
    requires
        16 + 32 * count <= usize::MAX,
        obj_ptr + 16 + 32 * count <= old(mem)@.len(),
        new_ptr + 16 + 32 * count <= old(mem)@.len(),
    ensures
        final(mem)@ == spec_moved_object(old(mem)@, obj_ptr, count, new_ptr, new_capacity, table_slot_addr),
{
    let _len = mem.len();
    let size = 16 + 32 * count;
    let _ = copy_raw_object(mem, obj_ptr, new_ptr, size, scratch);
    write_le_word(mem, new_ptr + 8, new_capacity);
    if table_slot_addr <= mem.len() && mem.len() - table_slot_addr >= 4 {
        write_le_word(mem, table_slot_addr, new_ptr as u32);
    }
}

/// Memory after slot `index` of the object at `region` took the name id
/// and flags of a new property.
pub open spec fn spec_slot_header_written(mem: Seq<u8>, region: usize, index: usize, name_id: u32, flags: u32) -> Seq<u8> {
    let at = region + 16 + 32 * index;
    put_le_word(put_le_word(mem, at, name_id), at + 4, flags)
}

/// Writes the name id and flags of a new property into slot `index` of the
/// object at `region` and returns the slot's address; `None`, with memory
/// untouched, when the slot leaves memory.
pub fn write_slot_header(mem: &mut [u8], region: usize, index: usize, name_id: u32, flags: u32) -> (r: Option<usize>)
    ensures
        r == if region + 16 + 32 * index + 32 <= old(mem)@.len() {
            Some((region + 16 + 32 * index) as usize)
        } else {
            None::<usize>
        },
        r is Some ==> final(mem)@ == spec_slot_header_written(old(mem)@, region, index, name_id, flags),
        r is None ==> final(mem)@ == old(mem)@,
{
    let len = mem.len();
    let offset = match index.checked_mul(32) {
        Some(o) => o,
        None => return None,
    };
    let base = match region.checked_add(16) {
        Some(b) => b,
        None => return None,
    };
    let at = match base.checked_add(offset) {
        Some(a) => a,
        None => return None,
    };
    if at > len || len - at < 32 {
        return None;
    }
    write_le_word(mem, at, name_id);
    write_le_word(mem, at + 4, flags);
    Some(at)
}

/// Records `count` properties in the header of the object at `region`.
pub fn set_property_count(mem: &mut [u8], region: usize, count: u32)
    requires
        region + 16 <= old(mem)@.len(),
    ensures
        final(mem)@ == put_le_word(old(mem)@, region + 12, count),
{
    let _len = mem.len();
    write_le_word(mem, region + 12, count);
}

/// The object's header fits and it is full, so a new property first moves
/// it to `new_ptr`.
pub open spec fn must_move(mem: Seq<u8>, obj_ptr: usize) -> bool {
    obj_ptr + 16 <= mem.len() && le_word(mem, obj_ptr + 12) >= le_word(mem, obj_ptr + 8)
}

/// Adding the property `name_id` with `flags` to the object at `obj_ptr`:
/// memory after it and, on success, the object's region and the new slot's
/// address. Nothing happens when the header leaves memory, or when the
/// object is full and no region was allocated or the capacity cannot grow.
/// A full object first moves to `grow_to` with the grown capacity. Then the
/// next slot takes the name id and flags (nothing more is written when it
/// leaves memory) and the count goes up by one.
pub open spec fn spec_append_property_slot(
    mem: Seq<u8>,
    obj_ptr: usize,
    grow_to: Option<usize>,
    table_slot_addr: usize,
    name_id: u32,
    flags: u32,
) -> (Seq<u8>, Option<(usize, usize)>) {
    if obj_ptr + 16 > mem.len() {
        (mem, None)
    } else {
        let capacity = le_word(mem, obj_ptr + 8) as usize;
        let count = le_word(mem, obj_ptr + 12) as usize;
        let moved: Option<(Seq<u8>, usize)> = if count >= capacity {
            match (grow_to, spec_property_growth(capacity)) {
                (Some(new_ptr), Some((new_capacity, _))) => Some(
                    (spec_moved_object(mem, obj_ptr, count, new_ptr, new_capacity as u32, table_slot_addr), new_ptr),
                ),
                _ => None,
            }
        } else {
            Some((mem, obj_ptr))
        };
        match moved {
            None => (mem, None),
            Some((mem1, region)) => if region + 16 + 32 * count + 32 > mem1.len() {
                (mem1, None)
            } else {
                let mem2 = spec_slot_header_written(mem1, region, count, name_id, flags);
                (
                    put_le_word(mem2, region + 12, (count + 1) as u32),
                    Some((region, (region + 16 + 32 * count) as usize)),
                )
            },
        }
    }
}

/// Adds a property slot to the object at `obj_ptr`, whose object-table slot
/// is at `table_slot_addr`: a full object moves to the region `grow_to`
/// that the heap allocated for the grown capacity (`property_growth`),
/// then the next slot takes `name_id` and `flags` and the count goes up.
/// Returns the object's region and the slot's address, where the runtime
/// writes the value, getter and setter through its barriers.
pub fn append_property_slot(
    mem: &mut [u8],
    obj_ptr: usize,
    grow_to: Option<usize>,
    table_slot_addr: usize,
    name_id: u32,
    flags: u32,
    scratch: &mut Vec<u8>,
) -> (r: Option<(usize, usize)>)
    requires
        must_move(old(mem)@, obj_ptr) && grow_to is Some ==> {
            let count = le_word(old(mem)@, obj_ptr + 12) as int;
            &&& obj_ptr + 16 + 32 * count <= old(mem)@.len()
            &&& grow_to.unwrap() + 16 + 32 * count <= old(mem)@.len()
        },
    ensures
        (final(mem)@, r) == spec_append_property_slot(old(mem)@, obj_ptr, grow_to, table_slot_addr, name_id, flags),
{
    let len = mem.len();
    let (capacity, count) = match read_object_header(mem, obj_ptr) {
        Some(h) => h,
        None => return None,
    };
    let region = if count >= capacity {
        let new_ptr = match grow_to {
            Some(p) => p,
            None => return None,
        };
        let (new_capacity, _) = match property_growth(capacity) {
            Some(g) => g,
            None => return None,
        };
        move_object_region(mem, obj_ptr, count, new_ptr, new_capacity as u32, table_slot_addr, scratch);
        new_ptr
    } else {
        obj_ptr
    };
    let slot = match write_slot_header(mem, region, count, name_id, flags) {
        Some(a) => a,
        None => return None,
    };
    set_property_count(mem, region, (count + 1) as u32);
    Some((region, slot))
}

/// A full object grows to twice its capacity (at least 2), in a region of a
/// 16-byte header and 32 bytes per slot; only a size past the address space
/// is refused. A host accessor grows it to at least twice its capacity (up
/// to the 32-bit limit) and always past its current count.
pub proof fn law_growth_sizes(capacity: usize, cap32: u32, count: u32)
    ensures
        spec_property_growth(capacity) matches Some((c, size)) ==> c >= 2 && c > capacity && c == 2 * (if capacity
            > 1 { capacity as int } else { 1 }) && size == 16 + 32 * c,
        (if capacity > 1 { capacity as int } else { 1 }) * 64 + 16 <= usize::MAX ==> spec_property_growth(capacity)
            is Some,
        count < u32::MAX ==> spec_accessor_growth(cap32, count) > count,
        count < u32::MAX && 2 * cap32 <= u32::MAX ==> spec_accessor_growth(cap32, count) >= 2 * cap32,
        count < u32::MAX && 2 * cap32 > u32::MAX ==> spec_accessor_growth(cap32, count) == u32::MAX,
{
}

} // verus!
