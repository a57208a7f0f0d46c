use std::time::Duration;
use vibe_synapse::application::{bounded_shutdown_verdict, startup_wait_verdict, AppConfig, AppLifecycle};
use vibe_synapse::error::VibeError;
use vibe_synapse::plugin_manager::{PluginLoadOrder, PluginManagerConfig};

#[test]
fn test_app_config_builder() {
    let config = AppConfig::new("my-app")
        .with_version("1.0.0")
        .with_description("A test app")
        .with_signal_handling(false);

    assert_eq!(config.name, "my-app");
    assert_eq!(config.version, "1.0.0");
    assert_eq!(config.description, "A test app");
    assert!(!config.enable_signal_handling);
}

#[test]
fn default_app_config() {
    let c = AppConfig::default();
    assert_eq!(c.name, "VibeSynapseApp");
    assert_eq!(c.version, "0.1.0");
    assert_eq!(c.description, "");
    assert_eq!(c.graceful_shutdown_timeout, Duration::from_secs(30));
    assert!(c.enable_signal_handling);
    assert_eq!(c.plugin_config.load_order, PluginLoadOrder::DependencyFirst);
}

#[test]
fn app_config_timeouts_and_plugin_config() {
    let c = AppConfig::new("x")
        .with_graceful_shutdown_timeout(Duration::from_secs(3))
        .with_plugin_config(PluginManagerConfig::new().with_max_retries(9));
    assert_eq!(c.graceful_shutdown_timeout, Duration::from_secs(3));
    assert_eq!(c.plugin_config.max_retries, 9);
    let copy = c.clone();
    assert_eq!(copy.name, "x");
    assert_eq!(copy.plugin_config.max_retries, 9);
}

#[test]
fn an_application_runs_once_at_a_time() {
    let mut life = AppLifecycle::new();
    assert!(!life.is_running());
    assert!(life.begin_run().is_ok());
    life.mark_running();
    match life.begin_run() {
        Err(VibeError::RuntimeError(m)) => assert_eq!(m, "Application already running"),
        _ => panic!("expected a runtime error"),
    }
    life.mark_stopped();
    assert!(life.begin_run().is_ok());
}

#[test]
fn bounded_shutdown_answers() {
    assert!(bounded_shutdown_verdict(Some(Ok(()))).is_ok());
    assert!(matches!(bounded_shutdown_verdict(Some(Err(VibeError::Other("x".to_string())))), Err(VibeError::Other(_))));
    match bounded_shutdown_verdict(None) {
        Err(VibeError::TimeoutError(m)) => assert_eq!(m, "Shutdown timeout"),
        _ => panic!("expected a timeout error"),
    }
}

#[test]
fn startup_wait_answers() {
    assert!(startup_wait_verdict(true).is_ok());
    match startup_wait_verdict(false) {
        Err(VibeError::TimeoutError(m)) => assert_eq!(m, "Application failed to start within timeout"),
        _ => panic!("expected a timeout error"),
    }
}
