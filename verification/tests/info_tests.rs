use vibe_synapse::error::VibeError;
use vibe_synapse::info::{build_info, runtime_check, runtime_verdict, AUTHORS, VERSION};

#[test]
fn test_version() {
    assert!(!VERSION.is_empty());
}

#[test]
fn test_authors() {
    assert_eq!(AUTHORS, "");
}

#[test]
fn test_build_info() {
    let info = build_info();
    assert!(info.contains("Vibe Synapse"));
}

#[test]
fn build_info_names_the_version() {
    assert_eq!(build_info(), "Vibe Synapse 0.1.0");
}

#[test]
fn runtime_check_fails_outside_a_runtime() {
    match runtime_check() {
        Err(VibeError::RuntimeError(m)) => assert_eq!(m, "No Tokio runtime found. Use #[tokio::main]"),
        _ => panic!("expected a runtime error"),
    }
}

#[test]
fn runtime_check_succeeds_inside_a_runtime() {
    let rt = tokio::runtime::Builder::new_current_thread().build().unwrap();
    let _guard = rt.enter();
    assert!(runtime_check().is_ok());
}

#[test]
fn runtime_verdict_follows_presence() {
    assert!(runtime_verdict(true).is_ok());
    assert!(matches!(runtime_verdict(false), Err(VibeError::RuntimeError(_))));
}
