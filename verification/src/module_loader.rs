//! What the runtime and an external module loader hand each other: resolved
//! targets, instantiated modules, load errors, import links, and the layout
//! a runtime-compiled module reserves in the function table and the heap.

use vstd::prelude::*;

use crate::module_registry::{
    KeyView, RegistryView, RuntimeModuleKey, RuntimeModuleRegistry, RuntimeModuleRequireResult, RuntimeModuleState,
    spec_require_result,
};

verus! {

/// Where a resolution request comes from.
#[derive(Clone, Debug, PartialEq, Eq)]
#[non_exhaustive]
pub enum RuntimeModuleReferrer {
    /// No calling module: the entry module, or a load the host started.
    NoReferrer,
    /// A calling module with a canonical registry key.
    Module(RuntimeModuleKey),
    /// A calling module known only by its file path; the loader makes it
    /// canonical against the project root.
    Path(String),
}

/// Which resolution semantics apply: `import` and `require` use different
/// package conditions.
#[derive(Clone, Copy, Debug, PartialEq, Eq, Structural)]
#[non_exhaustive]
pub enum RuntimeModuleResolutionKind {
    Import,
    Require,
    ImportMetaResolve,
}

/// The format of a resolved module.
#[derive(Clone, Copy, Debug, PartialEq, Eq, Structural)]
#[non_exhaustive]
pub enum RuntimeModuleFormat {
    EsModule,
    CommonJs,
    Json,
    Builtin,
}

/// A module target that the external resolver made canonical.
#[derive(Clone, Debug, PartialEq, Eq)]
#[non_exhaustive]
pub struct RuntimeResolvedModule {
    pub key: RuntimeModuleKey,
    pub url: String,
    pub path: Option<String>,
    pub format: RuntimeModuleFormat,
}

impl RuntimeResolvedModule {
    pub fn new(key: RuntimeModuleKey, url: String, path: Option<String>, format: RuntimeModuleFormat) -> (r:
        RuntimeResolvedModule)
        ensures
            r.key == key,
            r.url == url,
            r.path == path,
            r.format == format,
    {
        RuntimeResolvedModule { key, url, path, format }
    }
}

/// The context handed to the loader for an instantiation.
#[derive(Clone, Debug, PartialEq, Eq)]
#[non_exhaustive]
pub struct RuntimeInstantiationEnv {
    pub referrer: RuntimeModuleReferrer,
}

impl RuntimeInstantiationEnv {
    pub fn new(referrer: RuntimeModuleReferrer) -> (r: RuntimeInstantiationEnv)
        ensures
            r.referrer == referrer,
    {
        RuntimeInstantiationEnv { referrer }
    }
}

/// The JS values the loader hands back to the registry after instantiation.
#[derive(Clone, Copy, Debug, PartialEq, Eq, Structural)]
#[non_exhaustive]
pub struct RuntimeInstantiatedModule {
    pub module_id: Option<u32>,
    pub module_object: i64,
    pub exports_object: i64,
    pub namespace_object: i64,
}

impl RuntimeInstantiatedModule {
    pub fn new(module_id: Option<u32>, module_object: i64, exports_object: i64, namespace_object: i64) -> (r:
        RuntimeInstantiatedModule)
        ensures
            r == (RuntimeInstantiatedModule { module_id, module_object, exports_object, namespace_object }),
    {
        RuntimeInstantiatedModule { module_id, module_object, exports_object, namespace_object }
    }
}

/// Classes of loader failure; the host boundary wraps them in JS errors.
#[derive(Clone, Copy, Debug, PartialEq, Eq, Structural)]
#[non_exhaustive]
pub enum RuntimeModuleLoadErrorCode {
    NotFound,
    Unsupported,
    InvalidModule,
    InstantiateFailed,
}

/// A loader error: its class and message.
#[derive(Clone, Debug, PartialEq, Eq)]
pub struct RuntimeModuleLoadError {
    pub code: RuntimeModuleLoadErrorCode,
    pub message: String,
}

impl RuntimeModuleLoadError {
    pub fn new(code: RuntimeModuleLoadErrorCode, message: String) -> (r: RuntimeModuleLoadError)
        ensures
            r.code == code,
            r.message == message,
    {
        RuntimeModuleLoadError { code, message }
    }
}

/// Where a runtime-compiled module's functions and data start.
#[derive(Clone, Copy, Debug, PartialEq, Eq, Structural)]
pub struct RuntimeModulePlacement {
    pub table_base: u32,
    pub data_base: u32,
}

/// An import that a runtime-compiled module needs from the caller's exports.
#[derive(Clone, Copy, Debug, PartialEq, Eq)]
#[non_exhaustive]
pub struct RuntimeModuleImportLink {
    pub module: &'static str,
    pub name: &'static str,
}

impl RuntimeModuleImportLink {
    pub fn new(module: &'static str, name: &'static str) -> (r: RuntimeModuleImportLink)
        ensures
            r.module == module,
            r.name == name,
    {
        RuntimeModuleImportLink { module, name }
    }

    /// An import from the `env` module.
    pub fn env(name: &'static str) -> (r: RuntimeModuleImportLink)
        ensures
            r.module@ == "env"@,
            r.name == name,
    {
        RuntimeModuleImportLink::new("env", name)
    }
}

fn instantiate_failed(message: &str) -> (r: RuntimeModuleLoadError)
    ensures
        r.code == RuntimeModuleLoadErrorCode::InstantiateFailed,
        r.message@ == message@,
{
    RuntimeModuleLoadError::new(RuntimeModuleLoadErrorCode::InstantiateFailed, String::from_str(message))
}

/// `v` is `value` rounded up to a multiple of the power of two `align`: the
/// least multiple at or above it (its low bits are clear and it lies within
/// one alignment step of `value`).
pub open spec fn aligned_up(value: u32, align: u32, v: u32) -> bool {
    value <= v < value + align && v & (align - 1) as u32 == 0
}

/// Rounds `value` up to a multiple of the power of two `align`; an error
/// when the result would not fit in 32 bits.
pub fn align_u32(value: u32, align: u32) -> (r: Result<u32, RuntimeModuleLoadError>)
    requires
        align > 0,
        align & (align - 1) as u32 == 0,
    ensures
        match r {
            Ok(v) => value + align - 1 <= u32::MAX && aligned_up(value, align, v),
            Err(e) => value + align - 1 > u32::MAX && e.code == RuntimeModuleLoadErrorCode::InstantiateFailed,
        },
{
    match value.checked_add(align - 1) {
        Some(v) => {
            let m = align - 1;
            let a = v & !m;
            proof {
                assert(v & !m <= v) by (bit_vector);
                assert(v - (v & !m) <= m) by (bit_vector);
                assert((v & !m) & m == 0) by (bit_vector);
            }
            Ok(a)
        },
        None => Err(instantiate_failed("runtime module layout alignment overflows wasm32")),
    }
}

/// Data of `data_len` bytes placed at `heap` aligned up would end past the
/// signed 32-bit heap range.
pub open spec fn data_overflows(heap: u32, align: u32, data_len: u32) -> bool {
    exists|d: u32| #[trigger] aligned_up(heap, align, d) && d + data_len > i32::MAX
}

/// The layout a runtime-compiled module reserves: its functions go at the
/// end of the function table, its data at the heap pointer aligned up; the
/// caller grows the table to `table_end` and memory to `data_end`, and moves
/// the heap pointer and allocation window to `data_end`.
#[derive(Clone, Copy, Debug, PartialEq, Eq, Structural)]
pub struct ModuleLayoutPlan {
    pub placement: RuntimeModulePlacement,
    pub table_end: u32,
    pub data_end: u32,
}

/// Plans a module's layout from the current table size and heap pointer.
/// Fails when the table is past 32-bit indices, when either end overflows,
/// or when the data would end past the signed 32-bit heap range.
pub fn plan_module_layout(table_size: u64, table_len: u32, heap_ptr: i32, data_len: u32, align: u32) -> (r:
    Result<ModuleLayoutPlan, RuntimeModuleLoadError>)
    requires
        align > 0,
        align & (align - 1) as u32 == 0,
    ensures
        ({
            let heap = if heap_ptr < 0 { 0 } else { heap_ptr as u32 };
            let fits = table_size <= u32::MAX && table_size + table_len <= u32::MAX && heap + align - 1
                <= u32::MAX;
            match r {
                Ok(plan) => fits && aligned_up(heap, align, plan.placement.data_base)
                    && plan.placement.data_base + data_len <= i32::MAX && plan == (ModuleLayoutPlan {
                    placement: RuntimeModulePlacement {
                        table_base: table_size as u32,
                        data_base: plan.placement.data_base,
                    },
                    table_end: (table_size + table_len) as u32,
                    data_end: (plan.placement.data_base + data_len) as u32,
                }),
                Err(e) => e.code == RuntimeModuleLoadErrorCode::InstantiateFailed && (!fits
                    || data_overflows(heap, align, data_len)),
            }
        }),
{
    if table_size > u32::MAX as u64 {
        return Err(instantiate_failed("runtime function table is too large for wasm32 table indices"));
    }
    let table_base = table_size as u32;
    let table_end = match table_base.checked_add(table_len) {
        Some(e) => e,
        None => return Err(instantiate_failed("runtime module function table reservation overflows wasm32")),
    };
    let heap: u32 = if heap_ptr < 0 {
        0
    } else {
        heap_ptr as u32
    };
    let data_base = match align_u32(heap, align) {
        Ok(b) => b,
        Err(e) => return Err(e),
    };
    let data_end = match data_base.checked_add(data_len) {
        Some(e) => e,
        None => {
            proof {
                assert(aligned_up(heap, align, data_base) && data_base + data_len > i32::MAX);
                assert(data_overflows(heap, align, data_len));
            }
            return Err(instantiate_failed("runtime module data reservation overflows wasm32"));
        },
    };
    if data_end > i32::MAX as u32 {
        proof {
            assert(aligned_up(heap, align, data_base) && data_base + data_len > i32::MAX);
            assert(data_overflows(heap, align, data_len));
        }
        return Err(instantiate_failed("runtime module data reservation exceeds wasm32 signed heap range"));
    }
    Ok(ModuleLayoutPlan { placement: RuntimeModulePlacement { table_base, data_base }, table_end, data_end })
}

/// Reserves `count` runtime module ids in the registry; an error when the
/// id space would overflow.
pub fn reserve_runtime_module_ids(registry: &mut RuntimeModuleRegistry, count: u32) -> (r: Result<
    u32,
    RuntimeModuleLoadError,
>)
    ensures
        old(registry)@.next_runtime_module_id + count <= u32::MAX ==> r == Ok::<u32, RuntimeModuleLoadError>(
            old(registry)@.next_runtime_module_id,
        ) && final(registry)@.next_runtime_module_id == old(registry)@.next_runtime_module_id + count
            && final(registry)@.entries == old(registry)@.entries,
        old(registry)@.next_runtime_module_id + count > u32::MAX ==> r is Err && final(registry)@ == old(registry)@,
{
    match registry.reserve_runtime_module_id_range(count) {
        Some(base) => Ok(base),
        None => Err(instantiate_failed("runtime module id reservation overflows u32")),
    }
}

/// The message of a module that failed with `error_value`.
pub uninterp spec fn errored_module_message(error_value: i64) -> Seq<char>;

/// `format!("runtime CommonJS module failed with value {error_value}")`.
#[verifier::external_body]
fn errored_module_text(error_value: i64) -> (r: String)
    ensures
        r@ == errored_module_message(error_value),
{
    format!("runtime CommonJS module failed with value {error_value}")
}

/// What instantiating a module from the registry gives: the instantiated
/// module and, when a default export replaces a module's `exports`, the
/// `(module object, default export)` write the runtime performs; or an
/// error's class and message.
pub enum InstantiateOutcome {
    Done(RuntimeInstantiatedModule, Option<(i64, i64)>),
    Failed(RuntimeModuleLoadErrorCode, Seq<char>),
}

/// A CommonJS module instantiated from its module object and exports: a
/// default export replaces the exports (and is written to `module.exports`).
pub open spec fn commonjs_done(
    entry: Option<u32>,
    module_object: i64,
    exports_object: i64,
    default_export: Option<i64>,
) -> InstantiateOutcome {
    let exports = match default_export {
        Some(d) => d,
        None => exports_object,
    };
    InstantiateOutcome::Done(
        RuntimeInstantiatedModule { module_id: entry, module_object, exports_object: exports, namespace_object: exports },
        match default_export {
            Some(d) => Some((module_object, d)),
            None => None,
        },
    )
}

/// Instantiating the module `k` of `format` from the registry, after its
/// code ran. A CommonJS module still loading gives its module object and
/// exports (an error when it never registered its module object). Otherwise
/// the registry's `require` view decides: a loaded module, the exports of a
/// loading one, or its error. With nothing registered, an ES or builtin
/// module is found by its entry module id and namespace; a CommonJS module
/// failed to register, and JSON is not instantiated here.
pub open spec fn spec_instantiated_from_registry(
    v: RegistryView,
    format: RuntimeModuleFormat,
    k: KeyView,
    entry: Option<u32>,
    default_export: Option<i64>,
    undefined: i64,
) -> InstantiateOutcome {
    let loading = match v.state_of(k) {
        Some(RuntimeModuleState::Loading { module_object, exports_object }) => Some((module_object, exports_object)),
        _ => None,
    };
    if format == RuntimeModuleFormat::CommonJs && loading is Some {
        let (module_object, exports_object) = loading.unwrap();
        if module_object == undefined {
            InstantiateOutcome::Failed(
                RuntimeModuleLoadErrorCode::InstantiateFailed,
                "runtime CommonJS module did not register itself"@,
            )
        } else {
            commonjs_done(entry, module_object, exports_object, default_export)
        }
    } else {
        match spec_require_result(v.state_of(k)) {
            RuntimeModuleRequireResult::LoadedModule { module_object, exports_object } => commonjs_done(
                entry,
                module_object,
                exports_object,
                default_export,
            ),
            RuntimeModuleRequireResult::Exports(exports_object) => {
                let exports = match default_export {
                    Some(d) => d,
                    None => exports_object,
                };
                InstantiateOutcome::Done(
                    RuntimeInstantiatedModule {
                        module_id: entry,
                        module_object: undefined,
                        exports_object: exports,
                        namespace_object: exports,
                    },
                    None,
                )
            },
            RuntimeModuleRequireResult::Errored(error_value) => InstantiateOutcome::Failed(
                RuntimeModuleLoadErrorCode::InstantiateFailed,
                errored_module_message(error_value),
            ),
            RuntimeModuleRequireResult::Missing => match format {
                RuntimeModuleFormat::CommonJs => InstantiateOutcome::Failed(
                    RuntimeModuleLoadErrorCode::InstantiateFailed,
                    "runtime CommonJS module did not register itself"@,
                ),
                RuntimeModuleFormat::Json => InstantiateOutcome::Failed(
                    RuntimeModuleLoadErrorCode::Unsupported,
                    "runtime loader cannot instantiate this module format"@,
                ),
                _ => match entry {
                    None => InstantiateOutcome::Failed(
                        RuntimeModuleLoadErrorCode::InstantiateFailed,
                        "runtime ES module did not provide a module id"@,
                    ),
                    Some(id) => {
                        let namespace = match v.key_of_module_id(id) {
                            Some(mk) => match v.state_of(mk) {
                                Some(RuntimeModuleState::Loaded { namespace_object, .. }) => Some(namespace_object),
                                _ => None,
                            },
                            None => None,
                        };
                        match namespace {
                            None => InstantiateOutcome::Failed(
                                RuntimeModuleLoadErrorCode::InstantiateFailed,
                                "runtime ES module did not register a namespace object"@,
                            ),
                            Some(ns) => InstantiateOutcome::Done(
                                RuntimeInstantiatedModule {
                                    module_id: Some(id),
                                    module_object: undefined,
                                    exports_object: if format == RuntimeModuleFormat::Builtin {
                                        match default_export {
                                            Some(d) => d,
                                            None => undefined,
                                        }
                                    } else {
                                        undefined
                                    },
                                    namespace_object: ns,
                                },
                                None,
                            ),
                        }
                    },
                },
            },
        }
    }
}

/// `r` is the outcome `o`.
pub open spec fn outcome_is(
    r: Result<(RuntimeInstantiatedModule, Option<(i64, i64)>), RuntimeModuleLoadError>,
    o: InstantiateOutcome,
) -> bool {
    match (r, o) {
        (Ok(x), InstantiateOutcome::Done(m, w)) => x == (m, w),
        (Err(e), InstantiateOutcome::Failed(code, msg)) => e.code == code && e.message@ == msg,
        _ => false,
    }
}

fn commonjs_instantiated(
    entry: Option<u32>,
    module_object: i64,
    exports_object: i64,
    default_export: Option<i64>,
) -> (r: (RuntimeInstantiatedModule, Option<(i64, i64)>))
    ensures
        outcome_is(Ok(r), commonjs_done(entry, module_object, exports_object, default_export)),
{
    let exports = match default_export {
        Some(d) => d,
        None => exports_object,
    };
    let write = match default_export {
        Some(d) => Some((module_object, d)),
        None => None,
    };
    (RuntimeInstantiatedModule::new(entry, module_object, exports, exports), write)
}

/// Instantiates the module `key` of `format` from the registry after its
/// code ran (see `spec_instantiated_from_registry`). `undefined` is the
/// runtime's word for `undefined`.
pub fn instantiated_from_registry(
    registry: &RuntimeModuleRegistry,
    format: RuntimeModuleFormat,
    key: &RuntimeModuleKey,
    entry_module_id: Option<u32>,
    default_export: Option<i64>,
    undefined: i64,
) -> (r: Result<(RuntimeInstantiatedModule, Option<(i64, i64)>), RuntimeModuleLoadError>)
    ensures
        outcome_is(
            r,
            spec_instantiated_from_registry(registry@, format, key@, entry_module_id, default_export, undefined),
        ),
{
    if format == RuntimeModuleFormat::CommonJs {
        match registry.loading_module(key) {
            Some((module_object, exports_object)) => {
                if module_object == undefined {
                    return Err(instantiate_failed("runtime CommonJS module did not register itself"));
                }
                return Ok(commonjs_instantiated(entry_module_id, module_object, exports_object, default_export));
            },
            None => {},
        }
    }
    match registry.get_for_require(key) {
        RuntimeModuleRequireResult::LoadedModule { module_object, exports_object } => {
            return Ok(commonjs_instantiated(entry_module_id, module_object, exports_object, default_export));
        },
        RuntimeModuleRequireResult::Exports(exports_object) => {
            let exports = match default_export {
                Some(d) => d,
                None => exports_object,
            };
            return Ok((RuntimeInstantiatedModule::new(entry_module_id, undefined, exports, exports), None));
        },
        RuntimeModuleRequireResult::Errored(error_value) => {
            return Err(
                RuntimeModuleLoadError::new(
                    RuntimeModuleLoadErrorCode::InstantiateFailed,
                    errored_module_text(error_value),
                ),
            );
        },
        RuntimeModuleRequireResult::Missing => {},
    }
    match format {
        RuntimeModuleFormat::CommonJs => Err(instantiate_failed("runtime CommonJS module did not register itself")),
        RuntimeModuleFormat::Json => Err(
            RuntimeModuleLoadError::new(
                RuntimeModuleLoadErrorCode::Unsupported,
                String::from_str("runtime loader cannot instantiate this module format"),
            ),
        ),
        _ => {
            let module_id = match entry_module_id {
                Some(id) => id,
                None => return Err(instantiate_failed("runtime ES module did not provide a module id")),
            };
            let namespace = match registry.get_namespace_by_module_id(module_id) {
                Some(ns) => ns,
                None => return Err(instantiate_failed("runtime ES module did not register a namespace object")),
            };
            let exports = if format == RuntimeModuleFormat::Builtin {
                match default_export {
                    Some(d) => d,
                    None => undefined,
                }
            } else {
                undefined
            };
            Ok((RuntimeInstantiatedModule::new(Some(module_id), undefined, exports, namespace), None))
        },
    }
}

} // verus!
