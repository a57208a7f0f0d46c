use std::any::TypeId;
use std::time::Duration;
use vibe_synapse::message_bus::MessageBus;
use vibe_synapse::module_registry::{DispatcherStats, ModuleError, ModuleRegistry};

#[test]
fn registered_modules_are_listed() {
    let mut reg: ModuleRegistry<u32> = ModuleRegistry::new();
    assert!(!reg.register_module("a", 1, true));
    assert!(!reg.register_module("b", 2, true));
    assert!(reg.has_module("a"));
    let mut names = reg.list_modules();
    names.sort();
    assert_eq!(names, vec!["a".to_string(), "b".to_string()]);
    assert_eq!(reg.get_module("b"), Some(&2));
}

#[test]
fn a_module_that_failed_to_initialize_is_not_kept() {
    let mut reg: ModuleRegistry<u32> = ModuleRegistry::new();
    assert!(!reg.register_module("a", 1, false));
    assert!(!reg.has_module("a"));
    assert!(reg.register_module("a", 2, true));
    assert_eq!(reg.get_module("a"), Some(&2));
}

#[test]
fn the_last_module_of_a_name_wins() {
    let mut reg: ModuleRegistry<u32> = ModuleRegistry::new();
    assert!(!reg.register_module("a", 1, true));
    assert!(reg.register_module("a", 2, true));
    assert_eq!(reg.get_module("a"), Some(&2));
    assert_eq!(reg.list_modules(), vec!["a".to_string()]);
}

#[test]
fn take_module_keeps_the_name_claimed() {
    let mut reg: ModuleRegistry<u32> = ModuleRegistry::new();
    assert!(!reg.register_module("a", 1, true));
    assert_eq!(reg.take_module("a"), Some(1));
    assert!(!reg.has_module("a"));
    assert!(reg.register_module("a", 5, true));
    assert_eq!(reg.take_module("a"), Some(5));
    assert_eq!(reg.take_module("a"), None);
}

#[test]
fn unregistering_forgets_the_module_and_its_subscriptions() {
    let mut reg: ModuleRegistry<u32> = ModuleRegistry::new();
    let mut bus: MessageBus<String> = MessageBus::new();
    assert!(!reg.register_module("a", 1, true));
    assert!(!reg.register_module("b", 2, true));
    bus.subscribe(TypeId::of::<u8>(), "a".to_string());
    bus.subscribe(TypeId::of::<u8>(), "b".to_string());
    assert_eq!(reg.unregister_module(&mut bus, "a"), Some(1));
    assert!(!reg.has_module("a"));
    assert_eq!(bus.get_subscribers(TypeId::of::<u8>()), vec!["b".to_string()]);
    assert!(bus.subscriptions("a").is_empty());
    assert!(!reg.register_module("a", 3, true));
    assert_eq!(reg.unregister_module(&mut bus, "zz"), None);
}

#[test]
fn module_error_texts() {
    let e = ModuleError::InitializationTimeout { module: "m".to_string(), duration: Duration::from_secs(30) };
    assert_eq!(e.to_string(), "Module 'm' initialization timed out after 30s");
    let e = ModuleError::ShutdownTimeout { module: "m".to_string(), duration: Duration::from_millis(1500) };
    assert_eq!(e.to_string(), "Module 'm' shutdown timed out after 1.5s");
    let e = ModuleError::DuplicateName { name: "m".to_string() };
    assert_eq!(e.to_string(), "Duplicate module name: 'm'");
}

#[test]
fn dispatcher_counts() {
    let mut s = DispatcherStats::new();
    s.record_delivery(false);
    s.record_delivery(true);
    s.record_message();
    assert_eq!(s.messages_processed, 1);
    assert_eq!(s.errors_encountered, 1);
    let mut s = DispatcherStats { messages_processed: u64::MAX, errors_encountered: u64::MAX };
    s.record_message();
    s.record_delivery(true);
    assert_eq!(s.messages_processed, 0);
    assert_eq!(s.errors_encountered, 0);
}
