use vibe_synapse::plugin::{FunctionPlugin, LifecyclePlugin, PluginInstance, PluginMetadata, PluginState};

struct TestPlugin;

fn test_metadata() -> PluginMetadata {
    PluginMetadata::new("test", "1.0.0").with_description("A test plugin").with_author("Test")
}

#[test]
fn test_plugin_metadata_builder() {
    let meta = PluginMetadata::new("test", "1.0.0")
        .with_description("Test plugin")
        .with_author("Test Author")
        .with_dependency("dep1")
        .with_dependencies(vec!["dep2", "dep3"]);

    assert_eq!(meta.name, "test");
    assert_eq!(meta.version, "1.0.0");
    assert_eq!(meta.description, "Test plugin");
    assert_eq!(meta.author, "Test Author");
    assert_eq!(meta.dependencies.len(), 3);
    assert!(meta.dependencies.contains(&"dep1".to_string()));
}

#[test]
fn test_plugin_instance() {
    let plugin = Box::new(TestPlugin);
    let instance = PluginInstance::new(plugin, test_metadata());

    assert_eq!(instance.name(), "test");
    assert_eq!(instance.state, PluginState::Loaded);
    assert!(!instance.is_running());
}

#[test]
fn test_lifecycle_plugin() {
    let plugin = Box::new(TestPlugin);
    let lifecycle = LifecyclePlugin::new(plugin, test_metadata(), vec!["dep1".to_string()]);

    assert_eq!(lifecycle.instance.name(), "test");
    assert_eq!(lifecycle.dependencies.len(), 1);
    assert!(!lifecycle.ready);
    assert!(lifecycle.check_dependencies(&["dep1".to_string()]));
    assert!(!lifecycle.check_dependencies(&["dep2".to_string()]));
}

#[test]
fn new_metadata_has_empty_fields() {
    let meta = PluginMetadata::new("a", "0.1");
    assert_eq!(meta.description, "");
    assert_eq!(meta.author, "");
    assert!(meta.dependencies.is_empty());
}

#[test]
fn dependencies_keep_their_order() {
    let meta = PluginMetadata::new("a", "0.1").with_dependency("x").with_dependencies(vec!["y", "z"]).with_dependency("w");
    assert_eq!(meta.dependencies, vec!["x".to_string(), "y".to_string(), "z".to_string(), "w".to_string()]);
}

#[test]
fn metadata_clone_is_equal() {
    let meta = PluginMetadata::new("a", "0.1").with_dependency("x");
    let copy = meta.clone();
    assert_eq!(copy.name, "a");
    assert_eq!(copy.version, "0.1");
    assert_eq!(copy.dependencies, vec!["x".to_string()]);
}

#[test]
fn running_instance_reports_running() {
    let mut instance = PluginInstance::new(TestPlugin, test_metadata());
    instance.state = PluginState::Running;
    assert!(instance.is_running());
    assert_eq!(instance.to_meta(), ("test".to_string(), PluginState::Running));
}

#[test]
fn no_dependencies_are_always_met() {
    let lifecycle = LifecyclePlugin::new(TestPlugin, test_metadata(), vec![]);
    assert!(lifecycle.check_dependencies(&[]));
}

#[test]
fn all_dependencies_must_be_loaded() {
    let lifecycle = LifecyclePlugin::new(TestPlugin, test_metadata(), vec!["a".to_string(), "b".to_string()]);
    assert!(!lifecycle.check_dependencies(&["a".to_string()]));
    assert!(lifecycle.check_dependencies(&["b".to_string(), "c".to_string(), "a".to_string()]));
}

#[test]
fn function_plugin_keeps_its_parts() {
    let p = FunctionPlugin::new(PluginMetadata::new("f", "1"), 5u32);
    assert_eq!(p.metadata_ref().name, "f");
    assert_eq!(*p.func_ref(), 5);
}
