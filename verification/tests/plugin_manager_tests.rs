use std::time::Duration;
use vibe_synapse::error::VibeError;
use vibe_synapse::plugin::{LifecyclePlugin, PluginMetadata, PluginState};
use vibe_synapse::plugin_manager::{CallOutcome, PluginLoadOrder, PluginManager, PluginManagerConfig};

struct TestPlugin;

fn lifecycle(name: &str, deps: &[&str]) -> LifecyclePlugin<TestPlugin> {
    let meta = PluginMetadata::new(name, "1.0.0").with_dependencies(deps.to_vec());
    let deps: Vec<String> = deps.iter().map(|d| d.to_string()).collect();
    LifecyclePlugin::new(TestPlugin, meta, deps)
}

fn add(manager: &mut PluginManager<TestPlugin>, name: &str, deps: &[&str]) -> vibe_synapse::Result<()> {
    manager.check_duplicate(name)?;
    manager.load_plugin(lifecycle(name, deps), CallOutcome::Completed)
}

#[test]
fn test_plugin_manager_creation() {
    let manager: PluginManager<TestPlugin> = PluginManager::new();
    assert_eq!(manager.plugin_count(), 0);
    assert!(!manager.is_started());
}

#[test]
fn test_add_plugin() {
    let mut manager: PluginManager<TestPlugin> = PluginManager::new();
    add(&mut manager, "test", &[]).unwrap();
    assert_eq!(manager.plugin_count(), 1);
    assert!(manager.has_plugin("test"));
}

#[test]
fn test_duplicate_plugin() {
    let mut manager: PluginManager<TestPlugin> = PluginManager::new();
    add(&mut manager, "test", &[]).unwrap();
    let result = add(&mut manager, "test", &[]);
    assert!(result.is_err());
    assert_eq!(manager.plugin_count(), 1);
}

#[test]
fn duplicate_error_names_the_plugin() {
    let mut manager: PluginManager<TestPlugin> = PluginManager::new();
    add(&mut manager, "test", &[]).unwrap();
    match manager.check_duplicate("test") {
        Err(VibeError::PluginLoadError(m)) => assert_eq!(m, "Plugin test already exists"),
        _ => panic!("expected a load error"),
    }
}

#[test]
fn default_config() {
    let c = PluginManagerConfig::new();
    assert_eq!(c.timeout, Duration::from_secs(30));
    assert_eq!(c.load_order, PluginLoadOrder::DependencyFirst);
    assert!(c.enable_dependency_check);
    assert!(!c.continue_on_failure);
    assert_eq!(c.max_retries, 3);
    assert_eq!(PluginLoadOrder::default(), PluginLoadOrder::DependencyFirst);
}

#[test]
fn config_builders_set_one_field() {
    let c = PluginManagerConfig::new()
        .with_timeout(Duration::from_secs(5))
        .with_load_order(PluginLoadOrder::Sequential)
        .enable_dependency_check(false)
        .continue_on_failure(true)
        .with_max_retries(7);
    assert_eq!(c.timeout, Duration::from_secs(5));
    assert_eq!(c.load_order, PluginLoadOrder::Sequential);
    assert!(!c.enable_dependency_check);
    assert!(c.continue_on_failure);
    assert_eq!(c.max_retries, 7);
}

#[test]
fn failed_load_keeps_nothing() {
    let mut manager: PluginManager<TestPlugin> = PluginManager::new();
    let r = manager.load_plugin(lifecycle("p", &[]), CallOutcome::Failed(VibeError::Other("nope".to_string())));
    match r {
        Err(VibeError::PluginLoadError(m)) => assert_eq!(m, "Plugin p failed to load: nope"),
        _ => panic!("expected a load error"),
    }
    assert_eq!(manager.plugin_count(), 0);
}

#[test]
fn timed_out_load_names_the_timeout() {
    let mut manager: PluginManager<TestPlugin> =
        PluginManager::with_config(PluginManagerConfig::new().with_timeout(Duration::from_secs(2)));
    match manager.load_plugin(lifecycle("p", &[]), CallOutcome::TimedOut) {
        Err(VibeError::PluginLoadError(m)) => assert_eq!(m, "Plugin p load timeout after 2s"),
        _ => panic!("expected a load error"),
    }
    assert!(!manager.has_plugin("p"));
}

#[test]
fn dependencies_start_first() {
    let mut manager: PluginManager<TestPlugin> = PluginManager::new();
    add(&mut manager, "app", &["db", "log"]).unwrap();
    add(&mut manager, "db", &["log"]).unwrap();
    add(&mut manager, "log", &[]).unwrap();
    let order = manager.prepare_start_all().unwrap();
    assert_eq!(order, vec!["log".to_string(), "db".to_string(), "app".to_string()]);
}

#[test]
fn sequential_order_is_the_order_of_addition() {
    let mut manager: PluginManager<TestPlugin> =
        PluginManager::with_config(PluginManagerConfig::new().with_load_order(PluginLoadOrder::Sequential));
    add(&mut manager, "app", &["db"]).unwrap();
    add(&mut manager, "db", &[]).unwrap();
    let order = manager.prepare_start_all().unwrap();
    assert_eq!(order, vec!["app".to_string(), "db".to_string()]);
}

#[test]
fn a_cycle_is_refused() {
    let mut manager: PluginManager<TestPlugin> = PluginManager::new();
    add(&mut manager, "a", &["b"]).unwrap();
    add(&mut manager, "b", &["a"]).unwrap();
    add(&mut manager, "c", &[]).unwrap();
    match manager.prepare_start_all() {
        Err(VibeError::PluginInitError(m)) => assert_eq!(m, "Circular dependency detected: [\"a\", \"b\"]"),
        _ => panic!("expected an init error"),
    }
    assert!(!manager.is_started());
}

#[test]
fn a_missing_dependency_is_refused() {
    let mut manager: PluginManager<TestPlugin> = PluginManager::new();
    add(&mut manager, "a", &["ghost"]).unwrap();
    assert!(manager.prepare_start_all().is_err());
}

#[test]
fn starting_twice_is_refused() {
    let mut manager: PluginManager<TestPlugin> = PluginManager::new();
    add(&mut manager, "a", &[]).unwrap();
    let order = manager.prepare_start_all().unwrap();
    for name in &order {
        manager.record_start(name, Some(CallOutcome::Completed)).unwrap();
    }
    manager.finish_start_all();
    assert!(manager.is_started());
    match manager.prepare_start_all() {
        Err(VibeError::RuntimeError(m)) => assert_eq!(m, "Plugins already started"),
        _ => panic!("expected a runtime error"),
    }
}

#[test]
fn failed_start_marks_the_plugin_failed() {
    let mut manager: PluginManager<TestPlugin> = PluginManager::new();
    add(&mut manager, "a", &[]).unwrap();
    let r = manager.record_start("a", Some(CallOutcome::Failed(VibeError::Other("x".to_string()))));
    match &r {
        Err(VibeError::PluginInitError(m)) => assert_eq!(m, "Plugin a failed to start: x"),
        _ => panic!("expected an init error"),
    }
    assert_eq!(manager.list_plugins(), vec![("a".to_string(), PluginState::Failed)]);
    match manager.continue_after_start("a", r) {
        Err(VibeError::PluginInitError(m)) => {
            assert_eq!(m, "Failed to start plugin a: Plugin initialization failed: Plugin a failed to start: x")
        },
        _ => panic!("expected an init error"),
    }
}

#[test]
fn start_of_an_unknown_plugin_is_not_found() {
    let mut manager: PluginManager<TestPlugin> = PluginManager::new();
    match manager.record_start("nobody", None) {
        Err(VibeError::PluginNotFound(m)) => assert_eq!(m, "nobody"),
        _ => panic!("expected not found"),
    }
}

#[test]
fn continue_on_failure_goes_on() {
    let manager: PluginManager<TestPlugin> =
        PluginManager::with_config(PluginManagerConfig::new().continue_on_failure(true));
    assert!(manager.continue_after_start("a", Err(VibeError::Other("x".to_string()))).is_ok());
}

#[test]
fn plugins_stop_in_reverse_startup_order() {
    let mut manager: PluginManager<TestPlugin> = PluginManager::new();
    add(&mut manager, "app", &["db"]).unwrap();
    add(&mut manager, "db", &[]).unwrap();
    assert_eq!(manager.prepare_stop_all(), None);
    let order = manager.prepare_start_all().unwrap();
    manager.finish_start_all();
    let stop = manager.prepare_stop_all().unwrap();
    let mut reversed = order.clone();
    reversed.reverse();
    assert_eq!(stop, reversed);
}

#[test]
fn only_running_plugins_are_stopped() {
    let mut manager: PluginManager<TestPlugin> = PluginManager::new();
    add(&mut manager, "a", &[]).unwrap();
    assert!(!manager.needs_stop("a"));
    assert!(manager.record_stop("a", CallOutcome::Failed(VibeError::Other("x".to_string()))).is_ok());
    assert_eq!(manager.list_plugins(), vec![("a".to_string(), PluginState::Loaded)]);
}

#[test]
fn plugin_metadata_is_found_by_name() {
    let mut manager: PluginManager<TestPlugin> = PluginManager::new();
    add(&mut manager, "a", &["b"]).unwrap();
    let meta = manager.get_plugin_metadata("a").unwrap();
    assert_eq!(meta.name, "a");
    assert_eq!(meta.dependencies, vec!["b".to_string()]);
    assert!(manager.get_plugin_metadata("z").is_none());
    assert!(manager.plugin_mut("a").is_some());
    assert!(manager.plugin_mut("z").is_none());
}
