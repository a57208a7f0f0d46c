use std::any::TypeId;
use std::cell::RefCell;
use std::sync::atomic::{AtomicU32, Ordering};
use std::sync::Arc;
use vibe_synapse::context::{Context, ContextBuilder, ContextExt, ResourceRegistry};
use vibe_synapse::error::{Result, VibeError};
use vibe_synapse::plugin::PluginMetadata;

type Factory<V> = Box<dyn Fn() -> Result<V>>;

#[test]
fn test_resource_insert_and_get() {
    let mut registry: ResourceRegistry<i32, Factory<i32>> = ResourceRegistry::new();
    registry.insert(TypeId::of::<i32>(), 42).unwrap();
    let value = registry.get(TypeId::of::<i32>()).copied();
    assert_eq!(value, Some(42));
}

#[test]
fn test_resource_lazy_initialization() {
    let mut registry: ResourceRegistry<String, Factory<String>> = ResourceRegistry::new();
    let init_count = Arc::new(AtomicU32::new(0));
    let count_clone = init_count.clone();
    registry
        .insert_lazy(
            TypeId::of::<String>(),
            Box::new(move || -> Result<String> {
                count_clone.fetch_add(1, Ordering::SeqCst);
                Ok("initialized".to_string())
            }),
        )
        .unwrap();

    let value = registry.get(TypeId::of::<String>()).cloned();
    assert_eq!(value, Some("initialized".to_string()));
    assert_eq!(init_count.load(Ordering::SeqCst), 1);

    let value = registry.get(TypeId::of::<String>()).cloned();
    assert_eq!(value, Some("initialized".to_string()));
    assert_eq!(init_count.load(Ordering::SeqCst), 1);
}

#[test]
fn test_context_with_plugin() {
    let ctx = Context::new(Arc::new(()), RefCell::new(0u8));
    let meta = PluginMetadata::new("test-plugin", "1.0.0");
    let plugin_ctx = ctx.with_plugin(meta);

    assert!(plugin_ctx.is_in_plugin());
    assert_eq!(plugin_ctx.plugin_name(), "test-plugin");
}

#[test]
fn test_context_building() {
    let registry: ResourceRegistry<i32, Factory<i32>> = ResourceRegistry::new();
    let ctx = ContextBuilder::new().with_event_bus(Arc::new(())).build(RefCell::new(registry)).unwrap();

    assert!(ctx.resources().borrow().contains(TypeId::of::<i32>()) == false);
}

#[test]
fn context_outside_a_plugin_is_core() {
    let ctx = Context::new((), ());
    assert!(!ctx.is_in_plugin());
    assert_eq!(ctx.plugin_name(), "core");
}

#[test]
fn building_without_a_bus_fails() {
    let builder: ContextBuilder<()> = ContextBuilder::default();
    match builder.build(()) {
        Err(VibeError::RuntimeError(m)) => assert_eq!(m, "EventBus is required"),
        _ => panic!("expected a runtime error"),
    }
}

#[test]
fn a_failing_factory_leaves_no_resource_and_runs_once() {
    let mut registry: ResourceRegistry<u8, Factory<u8>> = ResourceRegistry::new();
    let runs = Arc::new(AtomicU32::new(0));
    let runs_clone = runs.clone();
    registry
        .insert_lazy(
            TypeId::of::<u8>(),
            Box::new(move || -> Result<u8> {
                runs_clone.fetch_add(1, Ordering::SeqCst);
                Err(VibeError::ConfigError("no".to_string()))
            }),
        )
        .unwrap();
    assert_eq!(registry.get(TypeId::of::<u8>()), None);
    assert_eq!(registry.get(TypeId::of::<u8>()), None);
    assert_eq!(runs.load(Ordering::SeqCst), 1);
}

#[test]
fn initialize_lazy_without_a_factory_names_the_type() {
    let mut registry: ResourceRegistry<u8, Factory<u8>> = ResourceRegistry::new();
    match registry.initialize_lazy(TypeId::of::<u8>(), "u8") {
        Err(VibeError::ResourceNotFound(m)) => assert_eq!(m, "Lazy factory not found for type: u8"),
        _ => panic!("expected a resource error"),
    }
}

#[test]
fn initialize_lazy_reports_a_factory_error() {
    let mut registry: ResourceRegistry<u8, Factory<u8>> = ResourceRegistry::new();
    registry
        .insert_lazy(TypeId::of::<u8>(), Box::new(|| -> Result<u8> { Err(VibeError::Other("bad".to_string())) }))
        .unwrap();
    match registry.initialize_lazy(TypeId::of::<u8>(), "u8") {
        Err(VibeError::Other(m)) => assert_eq!(m, "Factory error: bad"),
        _ => panic!("expected a factory error"),
    }
    assert!(!registry.contains(TypeId::of::<u8>()));
}

#[test]
fn remove_forgets_the_resource() {
    let mut registry: ResourceRegistry<i32, Factory<i32>> = ResourceRegistry::new();
    registry.insert(TypeId::of::<i32>(), 5).unwrap();
    assert!(registry.contains(TypeId::of::<i32>()));
    assert_eq!(registry.remove(TypeId::of::<i32>()), Some(5));
    assert!(!registry.contains(TypeId::of::<i32>()));
    assert_eq!(registry.remove(TypeId::of::<i32>()), None);
    assert_eq!(registry.get(TypeId::of::<i32>()), None);
}

#[test]
fn insert_replaces_the_resource_of_a_type() {
    let mut registry: ResourceRegistry<i32, Factory<i32>> = ResourceRegistry::new();
    registry.insert(TypeId::of::<i32>(), 1).unwrap();
    registry.insert(TypeId::of::<i32>(), 2).unwrap();
    assert_eq!(registry.get(TypeId::of::<i32>()).copied(), Some(2));
    assert_eq!(registry.get_mut(TypeId::of::<i32>()).copied(), Some(2));
}

#[test]
fn types_are_kept_apart() {
    let mut registry: ResourceRegistry<i32, Factory<i32>> = ResourceRegistry::new();
    registry.insert(TypeId::of::<i32>(), 1).unwrap();
    registry.insert(TypeId::of::<u64>(), 2).unwrap();
    assert_eq!(registry.get(TypeId::of::<i32>()).copied(), Some(1));
    assert_eq!(registry.get(TypeId::of::<u64>()).copied(), Some(2));
    assert_eq!(registry.get(TypeId::of::<u8>()), None);
}

#[test]
fn test_prelude_imports() {
    let bus: vibe_synapse::event::EventBus<u32, ()> = vibe_synapse::event::EventBus::new();
    let _ctx = Context::new(Arc::new(bus), RefCell::new(()));

    assert!(true);
}
