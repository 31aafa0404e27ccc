use wjsm_runtime::module_loader::{
    align_u32, instantiated_from_registry, plan_module_layout, reserve_runtime_module_ids, RuntimeInstantiatedModule,
    RuntimeModuleImportLink, RuntimeModuleLoadError, RuntimeModuleLoadErrorCode,
    RuntimeModuleFormat, RuntimeModuleReferrer, RuntimeResolvedModule, RuntimeInstantiationEnv,
};
use wjsm_runtime::module_registry::{RuntimeModuleKey, RuntimeModuleRegistry, RUNTIME_MODULE_ID_BASE};

#[test]
fn dto_constructors_keep_their_fields() {
    let resolved = RuntimeResolvedModule::new(
        RuntimeModuleKey::File("/p/a.js".to_string()),
        "file:///p/a.js".to_string(),
        Some("/p/a.js".to_string()),
        RuntimeModuleFormat::CommonJs,
    );
    assert_eq!(resolved.url, "file:///p/a.js");
    assert_eq!(resolved.format, RuntimeModuleFormat::CommonJs);
    let env = RuntimeInstantiationEnv::new(RuntimeModuleReferrer::NoReferrer);
    assert_eq!(env.referrer, RuntimeModuleReferrer::NoReferrer);
    let module = RuntimeInstantiatedModule::new(Some(3), 1, 2, 3);
    assert_eq!(module.module_id, Some(3));
    let err = RuntimeModuleLoadError::new(RuntimeModuleLoadErrorCode::NotFound, "x".to_string());
    assert_eq!(err.code, RuntimeModuleLoadErrorCode::NotFound);
    let link = RuntimeModuleImportLink::env("alloc");
    assert_eq!(link.module, "env");
    assert_eq!(link.name, "alloc");
}

#[test]
fn alignment_rounds_up_or_fails() {
    assert_eq!(align_u32(13, 8), Ok(16));
    assert_eq!(align_u32(16, 8), Ok(16));
    assert_eq!(
        align_u32(u32::MAX, 8).unwrap_err().code,
        RuntimeModuleLoadErrorCode::InstantiateFailed
    );
}

#[test]
fn layout_places_functions_and_data() {
    let plan = plan_module_layout(10, 5, 100, 50, 8).unwrap();
    assert_eq!(plan.placement.table_base, 10);
    assert_eq!(plan.placement.data_base, 104);
    assert_eq!(plan.table_end, 15);
    assert_eq!(plan.data_end, 154);
    assert!(plan_module_layout(u64::from(u32::MAX) + 1, 0, 0, 0, 8).is_err());
    assert!(plan_module_layout(0, 0, i32::MAX - 4, 16, 8).is_err());
    assert_eq!(plan_module_layout(0, 0, -5, 0, 8).unwrap().placement.data_base, 0);
}

#[test]
fn module_id_reservation_reports_overflow() {
    let mut registry = RuntimeModuleRegistry::new();
    assert_eq!(reserve_runtime_module_ids(&mut registry, 4), Ok(RUNTIME_MODULE_ID_BASE));
    let err = reserve_runtime_module_ids(&mut registry, u32::MAX).unwrap_err();
    assert_eq!(err.code, RuntimeModuleLoadErrorCode::InstantiateFailed);
}

const UNDEF: i64 = -1;

#[test]
fn instantiation_reads_the_registry() {
    let key = RuntimeModuleKey::File("/p/m.js".to_string());
    let mut registry = RuntimeModuleRegistry::new();

    // Nothing registered: a CommonJS module failed to register itself, JSON
    // is not instantiated here, an ES module needs its module id.
    let e = instantiated_from_registry(&registry, RuntimeModuleFormat::CommonJs, &key, None, None, UNDEF).unwrap_err();
    assert_eq!(e.code, RuntimeModuleLoadErrorCode::InstantiateFailed);
    assert_eq!(e.message, "runtime CommonJS module did not register itself");
    let e = instantiated_from_registry(&registry, RuntimeModuleFormat::Json, &key, None, None, UNDEF).unwrap_err();
    assert_eq!(e.code, RuntimeModuleLoadErrorCode::Unsupported);
    let e = instantiated_from_registry(&registry, RuntimeModuleFormat::EsModule, &key, None, None, UNDEF).unwrap_err();
    assert_eq!(e.message, "runtime ES module did not provide a module id");

    // A loading CommonJS module: its module object and exports, or the
    // default export written to module.exports.
    registry.begin_loading(key.clone(), None, 10, 11);
    let (m, write) = instantiated_from_registry(&registry, RuntimeModuleFormat::CommonJs, &key, Some(4), None, UNDEF).unwrap();
    assert_eq!(m, RuntimeInstantiatedModule::new(Some(4), 10, 11, 11));
    assert_eq!(write, None);
    let (m, write) = instantiated_from_registry(&registry, RuntimeModuleFormat::CommonJs, &key, None, Some(12), UNDEF).unwrap();
    assert_eq!(m.exports_object, 12);
    assert_eq!(write, Some((10, 12)));
    // As an ES module the loading module gives its exports only.
    let (m, _) = instantiated_from_registry(&registry, RuntimeModuleFormat::EsModule, &key, None, None, UNDEF).unwrap();
    assert_eq!(m, RuntimeInstantiatedModule::new(None, UNDEF, 11, 11));

    // A loaded ES module found by its module id.
    let es = RuntimeModuleKey::File("/p/e.mjs".to_string());
    registry.finish_loaded(es, Some(7), 20, 21, 22);
    let other = RuntimeModuleKey::File("/p/x.mjs".to_string());
    let (m, _) = instantiated_from_registry(&registry, RuntimeModuleFormat::EsModule, &other, Some(7), None, UNDEF).unwrap();
    assert_eq!(m, RuntimeInstantiatedModule::new(Some(7), UNDEF, UNDEF, 22));
    let (m, _) = instantiated_from_registry(&registry, RuntimeModuleFormat::Builtin, &other, Some(7), Some(5), UNDEF).unwrap();
    assert_eq!(m.exports_object, 5);
}
