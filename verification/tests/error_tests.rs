use vibe_synapse::error::{ContextExt, Result, VibeError};

#[test]
fn test_error_display() {
    let err = VibeError::PluginLoadError("test error".to_string());
    assert_eq!(err.to_string(), "Plugin load failed: test error");
}

#[test]
fn test_context_ext() {
    let err: Result<()> = Err(VibeError::PluginLoadError("base error".to_string()));
    let err = err.with_plugin("test_plugin");
    assert!(err.is_err());
    assert!(err.unwrap_err().to_string().contains("test_plugin"));
}

fn bail_with_message() -> Result<()> {
    return Err(VibeError::Other("test bail message".to_string()));
}

#[test]
fn test_bail_macro() {
    let result = bail_with_message();
    assert!(result.is_err());
    assert_eq!(result.unwrap_err().to_string(), "test bail message");
}

#[test]
fn error_texts_carry_their_prefix() {
    let cases = vec![
        (VibeError::PluginLoadError("m".to_string()), "Plugin load failed: m"),
        (VibeError::PluginInitError("m".to_string()), "Plugin initialization failed: m"),
        (VibeError::PluginNotFound("m".to_string()), "Plugin not found: m"),
        (VibeError::EventError("m".to_string()), "Event processing failed: m"),
        (VibeError::ConfigError("m".to_string()), "Configuration error: m"),
        (VibeError::ResourceNotFound("m".to_string()), "Resource not found: m"),
        (VibeError::RuntimeError("m".to_string()), "Runtime error: m"),
        (VibeError::SubscriptionError("m".to_string()), "Subscription error: m"),
        (VibeError::TimeoutError("m".to_string()), "Operation timeout: m"),
        (VibeError::Other("m".to_string()), "m"),
        (VibeError::Internal("m".to_string()), "m"),
        (VibeError::IoError("m".to_string()), "IO error: m"),
    ];
    for (e, text) in cases {
        assert_eq!(e.to_string(), text);
    }
}

#[test]
fn with_plugin_tags_a_load_error_in_place() {
    let r: Result<u8> = Err(VibeError::PluginLoadError("boom".to_string()));
    match r.with_plugin("p") {
        Err(VibeError::PluginLoadError(m)) => assert_eq!(m, "boom [plugin: p]"),
        _ => panic!("expected a load error"),
    }
}

#[test]
fn with_plugin_turns_other_errors_into_load_errors() {
    let r: Result<u8> = Err(VibeError::ConfigError("bad".to_string()));
    match r.with_plugin("p") {
        Err(VibeError::PluginLoadError(m)) => assert_eq!(m, "Configuration error: bad [plugin: p]"),
        _ => panic!("expected a load error"),
    }
}

#[test]
fn with_plugin_keeps_init_errors() {
    let r: Result<u8> = Err(VibeError::PluginInitError("x".to_string()));
    match r.with_plugin("p") {
        Err(VibeError::PluginInitError(m)) => assert_eq!(m, "x [plugin: p]"),
        _ => panic!("expected an init error"),
    }
}

#[test]
fn with_event_and_with_resource_tag_errors() {
    let r: Result<u8> = Err(VibeError::EventError("e".to_string()));
    match r.with_event("Tick") {
        Err(VibeError::EventError(m)) => assert_eq!(m, "e [event: Tick]"),
        _ => panic!("expected an event error"),
    }
    let r: Result<u8> = Err(VibeError::Other("o".to_string()));
    match r.with_event("Tick") {
        Err(VibeError::EventError(m)) => assert_eq!(m, "o [event: Tick]"),
        _ => panic!("expected an event error"),
    }
    let r: Result<u8> = Err(VibeError::ResourceNotFound("r".to_string()));
    match r.with_resource("Db") {
        Err(VibeError::ResourceNotFound(m)) => assert_eq!(m, "r [resource: Db]"),
        _ => panic!("expected a resource error"),
    }
    let r: Result<u8> = Err(VibeError::TimeoutError("t".to_string()));
    match r.with_resource("Db") {
        Err(VibeError::ResourceNotFound(m)) => assert_eq!(m, "Operation timeout: t [resource: Db]"),
        _ => panic!("expected a resource error"),
    }
}

#[test]
fn context_helpers_pass_success_through() {
    let r: Result<u8> = Ok(7);
    assert!(matches!(r.with_plugin("p"), Ok(7)));
    let r: Result<u8> = Ok(8);
    assert!(matches!(r.with_event("e"), Ok(8)));
    let r: Result<u8> = Ok(9);
    assert!(matches!(r.with_resource("r"), Ok(9)));
}
