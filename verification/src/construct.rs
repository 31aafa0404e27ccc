//! The decisions of constructing an array through a constructor value
//! (`Array.from`, `Array.of` and the species protocol): which path the
//! construction takes, and what its result is.

use vstd::prelude::*;

verus! {

/// What kind of value the constructor is, as the runtime decodes it.
#[derive(Clone, Copy, Debug, PartialEq, Eq, Structural)]
pub enum ConstructorKind {
    /// The built-in `Array` constructor.
    NativeArray,
    /// A value the runtime cannot construct with.
    NotConstructor,
    /// A native callable.
    NativeCallable,
    /// A closure: the table index of its function and its environment.
    Closure { func_idx: u32, env_obj: i64 },
    /// A plain function: its table index.
    Function { func_idx: u32 },
    /// Any other constructor.
    Other,
}

/// How the array is constructed.
#[derive(Clone, Copy, Debug, PartialEq, Eq, Structural)]
pub enum ArrayConstruction {
    /// Allocate a native array of the length.
    AllocArray,
    /// No construction: the result is `undefined`.
    Undefined,
    /// Call the native callable with the length.
    CallNative,
    /// Call the table function `func_idx` with `env_obj` and the length as
    /// its one argument, `new.target` set to the constructor.
    CallTable { func_idx: u32, env_obj: i64 },
}

pub open spec fn spec_array_construction(kind: ConstructorKind, undefined: i64) -> ArrayConstruction {
    match kind {
        ConstructorKind::NativeArray => ArrayConstruction::AllocArray,
        ConstructorKind::NotConstructor => ArrayConstruction::Undefined,
        ConstructorKind::NativeCallable => ArrayConstruction::CallNative,
        ConstructorKind::Closure { func_idx, env_obj } => ArrayConstruction::CallTable { func_idx, env_obj },
        ConstructorKind::Function { func_idx } => ArrayConstruction::CallTable { func_idx, env_obj: undefined },
        ConstructorKind::Other => ArrayConstruction::Undefined,
    }
}

/// The path of an array construction: the native `Array` allocates; a
/// non-constructor, or one that is neither native, closure nor function,
/// gives `undefined`; a closure is called with its environment, a function
/// with `undefined` as environment.
pub fn array_construction(kind: ConstructorKind, undefined: i64) -> (r: ArrayConstruction)
    ensures
        r == spec_array_construction(kind, undefined),
{
    match kind {
        ConstructorKind::NativeArray => ArrayConstruction::AllocArray,
        ConstructorKind::NotConstructor => ArrayConstruction::Undefined,
        ConstructorKind::NativeCallable => ArrayConstruction::CallNative,
        ConstructorKind::Closure { func_idx, env_obj } => ArrayConstruction::CallTable { func_idx, env_obj },
        ConstructorKind::Function { func_idx } => ArrayConstruction::CallTable { func_idx, env_obj: undefined },
        ConstructorKind::Other => ArrayConstruction::Undefined,
    }
}

/// The constructed value: the call's result when the call succeeded and
/// returned an object, else `undefined`.
pub fn construction_result(call_result: Option<i64>, result_is_object: bool, undefined: i64) -> (r: i64)
    ensures
        r == match call_result {
            Some(v) => if result_is_object { v } else { undefined },
            None => undefined,
        },
{
    match call_result {
        Some(v) => {
            if result_is_object {
                v
            } else {
                undefined
            }
        },
        None => undefined,
    }
}

/// Constructing an array through a constructor: the native `Array`
/// allocates, a native callable is called, a closure is called with its
/// environment and a plain function with `undefined` as environment, and
/// anything else gives `undefined`; the result is what the call returned
/// when that is an object, else `undefined`.
pub proof fn law_array_construction(func_idx: u32, env_obj: i64, undefined: i64, v: i64, is_object: bool)
    ensures
        spec_array_construction(ConstructorKind::NativeArray, undefined) == ArrayConstruction::AllocArray,
        spec_array_construction(ConstructorKind::NativeCallable, undefined) == ArrayConstruction::CallNative,
        spec_array_construction(ConstructorKind::Closure { func_idx, env_obj }, undefined)
            == (ArrayConstruction::CallTable { func_idx, env_obj }),
        spec_array_construction(ConstructorKind::Function { func_idx }, undefined)
            == (ArrayConstruction::CallTable { func_idx, env_obj: undefined }),
        spec_array_construction(ConstructorKind::NotConstructor, undefined) == ArrayConstruction::Undefined,
        spec_array_construction(ConstructorKind::Other, undefined) == ArrayConstruction::Undefined,
{
}

} // verus!
