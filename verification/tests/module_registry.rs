use wjsm_runtime::module_registry::{
    require_cache_id_for_key, RuntimeModuleImportResult, RuntimeModuleKey, RuntimeModuleRegistry,
    RuntimeModuleRequireResult, RUNTIME_MODULE_ID_BASE,
};

/// Stands for an encoded object handle; the registry only stores and
/// compares these words.
fn obj(handle: u32) -> i64 {
    0x7ffc_0000_0000_0000 | handle as i64
}

fn file_key(name: &str) -> RuntimeModuleKey {
    RuntimeModuleKey::File(name.to_string())
}

fn json_key(name: &str) -> RuntimeModuleKey {
    RuntimeModuleKey::Json(name.to_string())
}

#[test]
fn module_registry_returns_loaded_namespace_by_module_id() {
    let mut registry = RuntimeModuleRegistry::new();
    let key = file_key("/project/main.js");
    let namespace = obj(12);

    registry.finish_loaded(key, Some(7), obj(10), obj(11), namespace);

    assert_eq!(registry.get_namespace_by_module_id(7), Some(namespace));
}

#[test]
fn module_registry_returns_loading_exports_for_circular_require() {
    let mut registry = RuntimeModuleRegistry::new();
    let key = file_key("/project/circular.js");
    let module = obj(20);
    let exports = obj(21);

    registry.begin_loading(key.clone(), Some(8), module, exports);

    assert_eq!(
        registry.get_for_require(&key),
        RuntimeModuleRequireResult::Exports(exports)
    );
    assert_eq!(registry.loading_module(&key), Some((module, exports)));
}

#[test]
fn module_registry_returns_loaded_module_owner_for_live_exports() {
    let mut registry = RuntimeModuleRegistry::new();
    let key = file_key("/project/loaded.js");
    let module = obj(30);
    let initial_exports = obj(31);

    registry.finish_loaded(key.clone(), Some(9), module, initial_exports, obj(32));

    assert_eq!(
        registry.get_for_require(&key),
        RuntimeModuleRequireResult::LoadedModule {
            module_object: module,
            exports_object: initial_exports,
        }
    );
}

#[test]
fn module_registry_delete_loaded_file_entry() {
    let mut registry = RuntimeModuleRegistry::new();
    let key = file_key("/project/delete-me.js");

    registry.finish_loaded(key.clone(), Some(9), obj(30), obj(31), obj(32));

    assert!(registry.delete_cache_entry(&key));
    assert_eq!(
        registry.get_for_require(&key),
        RuntimeModuleRequireResult::Missing
    );
    assert_eq!(registry.get_namespace_by_module_id(9), None);
}

#[test]
fn module_registry_delete_loaded_json_entry() {
    let mut registry = RuntimeModuleRegistry::new();
    let key = json_key("/project/data.json");

    registry.finish_loaded(key.clone(), None, obj(33), obj(34), obj(34));

    assert!(registry.delete_cache_entry(&key));
    assert_eq!(
        registry.get_for_require(&key),
        RuntimeModuleRequireResult::Missing
    );
}

#[test]
fn module_registry_delete_errored_file_entry() {
    let mut registry = RuntimeModuleRegistry::new();
    let key = file_key("/project/broken.js");

    registry.finish_errored(key.clone(), Some(12), obj(35));

    assert!(registry.delete_cache_entry(&key));
    assert_eq!(
        registry.get_for_require(&key),
        RuntimeModuleRequireResult::Missing
    );
    assert_eq!(registry.get_namespace_by_module_id(12), None);
}

#[test]
fn module_registry_refuses_delete_loading_entry() {
    let mut registry = RuntimeModuleRegistry::new();
    let key = file_key("/project/loading.js");
    let exports = obj(41);

    registry.begin_loading(key.clone(), Some(10), obj(40), exports);

    assert!(!registry.delete_cache_entry(&key));
    assert_eq!(
        registry.get_for_require(&key),
        RuntimeModuleRequireResult::Exports(exports)
    );
}

#[test]
fn module_registry_errored_entry_is_rooted() {
    let mut registry = RuntimeModuleRegistry::new();
    let key = file_key("/project/broken.js");
    let error = obj(50);

    registry.finish_errored(key, Some(11), error);

    assert_eq!(registry.roots(), vec![error]);
}

#[test]
fn module_registry_reserves_disjoint_runtime_module_id_ranges() {
    let mut registry = RuntimeModuleRegistry::new();

    let first = registry
        .reserve_runtime_module_id_range(2)
        .expect("first range should reserve");
    let second = registry
        .reserve_runtime_module_id_range(3)
        .expect("second range should reserve");

    assert_eq!(first, RUNTIME_MODULE_ID_BASE);
    assert_eq!(second, RUNTIME_MODULE_ID_BASE + 2);
}

#[test]
fn reservation_refuses_to_overflow_the_id_space() {
    let mut registry = RuntimeModuleRegistry::new();
    assert_eq!(registry.reserve_runtime_module_id_range(u32::MAX), None);
    assert_eq!(
        registry.reserve_runtime_module_id_range(1),
        Some(RUNTIME_MODULE_ID_BASE)
    );
}

#[test]
fn import_sees_the_namespace_of_a_loaded_module() {
    let mut registry = RuntimeModuleRegistry::new();
    let key = file_key("/project/esm.mjs");
    registry.finish_loaded(key.clone(), Some(3), obj(1), obj(2), obj(3));
    assert_eq!(
        registry.get_for_import(&key),
        RuntimeModuleImportResult::Namespace(obj(3))
    );
    assert_eq!(
        registry.get_for_import(&file_key("/project/other.mjs")),
        RuntimeModuleImportResult::Missing
    );
}

#[test]
fn require_cache_ids_name_files_and_json() {
    let file = file_key("/project/a.js");
    assert_eq!(require_cache_id_for_key(&file), Some("/project/a.js".to_string()));
    assert_eq!(
        require_cache_id_for_key(&RuntimeModuleKey::Builtin("fs".to_string())),
        Some("fs".to_string())
    );
    assert_eq!(
        require_cache_id_for_key(&RuntimeModuleKey::PrecompiledModuleId(1)),
        None
    );
    let mut registry = RuntimeModuleRegistry::new();
    registry.finish_loaded(file, Some(4), obj(1), obj(2), obj(3));
    let entries = registry.require_cache_entries();
    assert_eq!(entries.len(), 1);
    assert!(registry.delete_cache_entry_by_id("/project/a.js"));
    assert!(registry.require_cache_entries().is_empty());
}

/// Stands for the runtime's encoded `undefined`.
const UNDEFINED: i64 = 0x7ff8_0000_0000_0001;

fn has_key(registry: &RuntimeModuleRegistry, key: &RuntimeModuleKey) -> bool {
    registry.get_for_require(key) != RuntimeModuleRequireResult::Missing
}

#[test]
fn module_registry_keeps_runtime_module_ids_out_of_precompiled_keyspace() {
    let mut registry = RuntimeModuleRegistry::new();
    let runtime_base = registry
        .reserve_runtime_module_id_range(2)
        .expect("runtime range should reserve");
    let static_namespace = obj(60);
    let runtime_namespace = obj(61);

    registry.register_static_namespace(1, static_namespace, UNDEFINED);
    registry.register_static_namespace(runtime_base + 1, runtime_namespace, UNDEFINED);

    assert_eq!(registry.get_namespace_by_module_id(1), Some(static_namespace));
    assert_eq!(
        registry.get_namespace_by_module_id(runtime_base + 1),
        Some(runtime_namespace)
    );
    assert!(has_key(&registry, &RuntimeModuleKey::PrecompiledModuleId(1)));
    assert!(has_key(
        &registry,
        &RuntimeModuleKey::RuntimeModuleId(runtime_base + 1)
    ));
}

#[test]
fn module_registry_promotes_runtime_entry_id_to_canonical_key() {
    let mut registry = RuntimeModuleRegistry::new();
    let runtime_base = registry
        .reserve_runtime_module_id_range(1)
        .expect("runtime range should reserve");
    let key = file_key("/project/runtime-entry.mjs");
    let namespace = obj(70);

    registry.register_static_namespace(runtime_base, namespace, UNDEFINED);
    registry.finish_loaded(
        key.clone(),
        Some(runtime_base),
        obj(71),
        obj(72),
        namespace,
    );

    assert_eq!(registry.get_namespace_by_module_id(runtime_base), Some(namespace));
    assert!(has_key(&registry, &key));
    assert!(!has_key(
        &registry,
        &RuntimeModuleKey::RuntimeModuleId(runtime_base)
    ));
}

#[test]
fn module_registry_promotes_runtime_entry_id_to_canonical_errored_key() {
    let mut registry = RuntimeModuleRegistry::new();
    let runtime_base = registry
        .reserve_runtime_module_id_range(1)
        .expect("runtime range should reserve");
    let key = file_key("/project/runtime-throw.mjs");
    let namespace = obj(80);
    let error = obj(81);

    registry.register_static_namespace(runtime_base, namespace, UNDEFINED);
    registry.finish_errored(key.clone(), Some(runtime_base), error);

    assert_eq!(registry.get_namespace_by_module_id(runtime_base), None);
    assert_eq!(
        registry.get_for_import(&RuntimeModuleKey::RuntimeModuleId(runtime_base)),
        RuntimeModuleImportResult::Missing
    );
    assert!(has_key(&registry, &key));
    assert!(!has_key(
        &registry,
        &RuntimeModuleKey::RuntimeModuleId(runtime_base)
    ));
    assert_eq!(registry.roots(), vec![error]);
}

#[test]
fn static_namespace_is_loaded_with_undefined_module_object() {
    let mut registry = RuntimeModuleRegistry::new();
    registry.register_static_namespace(3, obj(90), UNDEFINED);
    assert_eq!(
        registry.get_for_require(&RuntimeModuleKey::PrecompiledModuleId(3)),
        RuntimeModuleRequireResult::LoadedModule {
            module_object: UNDEFINED,
            exports_object: obj(90),
        }
    );
}

#[test]
fn module_registry_compares_file_keys_as_paths() {
    let mut registry = RuntimeModuleRegistry::new();
    registry.begin_loading(file_key("/p//lib/./a.js"), None, obj(40), obj(41));
    assert!(registry.is_loading(&file_key("/p/lib/a.js")));
    assert!(registry.is_loading(&file_key("/p/lib/a.js/")));
    assert!(!registry.is_loading(&file_key("/p/lib/b.js")));
    assert!(!registry.is_loading(&json_key("/p/lib/a.js")));
    assert!(file_key("./a.js").same_key(&file_key(".//a.js")));
    assert!(!file_key("./a.js").same_key(&file_key("a.js")));

    // Finishing under another spelling keeps the key first registered.
    registry.finish_loaded(file_key("/p/lib/a.js"), None, obj(40), obj(41), obj(42));
    let entries = registry.require_cache_entries();
    assert_eq!(entries.len(), 1);
    assert_eq!(entries[0].id, "/p//lib/./a.js");
}
