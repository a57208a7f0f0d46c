use std::any::TypeId;
use vibe_synapse::error::VibeError;
use vibe_synapse::event::{handler, response_verdict, publish_verdict, ErasedResponse, EventBus, Priority, ResponseWait};

#[derive(Debug, PartialEq)]
struct TestEvent {
    value: i32,
}

#[test]
fn test_event_bus_publish_and_subscribe() {
    let mut bus: EventBus<TestEvent, &'static str> = EventBus::new();
    bus.subscribe_handler("TestHandler", TypeId::of::<TestEvent>()).unwrap();
    let (mut high, mut medium, mut low) = bus.start().unwrap();

    let event = TestEvent { value: 42 };
    bus.publish_wrapper(event, Priority::default()).unwrap();

    assert!(high.try_recv().is_err());
    assert!(low.try_recv().is_err());
    let received = medium.try_recv().unwrap();
    assert_eq!(received.value, 42);
    let handlers = bus.handlers_for(TypeId::of::<TestEvent>()).unwrap();
    assert_eq!(handlers, &vec!["TestHandler"]);

    assert_eq!(bus.processed_events(), 1);
}

#[test]
fn default_priority_is_medium() {
    assert_eq!(Priority::default(), Priority::Medium);
    assert!(Priority::High < Priority::Medium);
    assert!(Priority::Medium < Priority::Low);
}

#[test]
fn events_go_to_the_queue_of_their_priority() {
    let mut bus: EventBus<u32, ()> = EventBus::new();
    let (mut high, mut medium, mut low) = bus.start().unwrap();
    bus.publish_wrapper(1, Priority::High).unwrap();
    bus.publish_wrapper(2, Priority::Low).unwrap();
    bus.publish_wrapper(3, Priority::Medium).unwrap();
    assert_eq!(high.try_recv().unwrap(), 1);
    assert_eq!(low.try_recv().unwrap(), 2);
    assert_eq!(medium.try_recv().unwrap(), 3);
}

#[test]
fn starting_a_running_bus_is_refused() {
    let mut bus: EventBus<u32, ()> = EventBus::new();
    let _receivers = bus.start().unwrap();
    assert!(bus.is_running());
    match bus.start() {
        Err(VibeError::RuntimeError(m)) => assert_eq!(m, "Event bus already running"),
        _ => panic!("expected a runtime error"),
    }
}

#[test]
fn a_bus_starts_once() {
    let mut bus: EventBus<u32, ()> = EventBus::new();
    let _receivers = bus.start().unwrap();
    bus.stop().unwrap();
    assert!(!bus.is_running());
    match bus.start() {
        Err(VibeError::RuntimeError(m)) => assert_eq!(m, "High priority receiver already taken"),
        _ => panic!("expected a runtime error"),
    }
    assert!(bus.is_running());
}

#[test]
fn publishing_to_a_closed_queue_fails() {
    let mut bus: EventBus<u32, ()> = EventBus::new();
    let receivers = bus.start().unwrap();
    drop(receivers);
    match bus.publish_wrapper(1, Priority::High) {
        Err(VibeError::EventError(m)) => assert_eq!(m, "Failed to publish event: channel closed"),
        _ => panic!("expected an event error"),
    }
}

#[test]
fn handlers_are_kept_per_type_in_order() {
    let mut bus: EventBus<u32, &'static str> = EventBus::new();
    bus.subscribe_handler("a", TypeId::of::<u32>()).unwrap();
    bus.subscribe_handler("b", TypeId::of::<u64>()).unwrap();
    bus.subscribe_handler("c", TypeId::of::<u32>()).unwrap();
    assert_eq!(bus.handlers_for(TypeId::of::<u32>()).unwrap(), &vec!["a", "c"]);
    assert_eq!(bus.handlers_for(TypeId::of::<u64>()).unwrap(), &vec!["b"]);
    assert!(bus.handlers_for(TypeId::of::<u8>()).is_none());
}

#[test]
fn a_new_bus_has_processed_nothing() {
    let bus: EventBus<u32, ()> = EventBus::new();
    assert_eq!(bus.processed_events(), 0);
    assert!(!bus.is_running());
}

#[test]
fn publishing_counts_the_event_before_the_bus_starts() {
    let mut bus: EventBus<u32, ()> = EventBus::new();
    bus.publish_wrapper(7, Priority::Low).unwrap();
    assert!(bus.processed_events() > 0);
    assert_eq!(bus.processed_events(), 1);
}

#[test]
fn a_refused_event_is_not_counted() {
    let mut bus: EventBus<u32, ()> = EventBus::new();
    drop(bus.start().unwrap());
    assert!(bus.publish_wrapper(1, Priority::Medium).is_err());
    assert_eq!(bus.processed_events(), 0);
}

#[test]
fn queue_follows_the_priority() {
    let bus: EventBus<u32, ()> = EventBus::new();
    assert!(bus.queue(Priority::High).same_channel(bus.queue(Priority::High)));
    assert!(!bus.queue(Priority::High).same_channel(bus.queue(Priority::Low)));
}

#[test]
fn closure_handler_keeps_name_and_function() {
    let h = handler("greeter", |x: u32| x + 1);
    assert_eq!(h.name(), "greeter");
    assert_eq!((h.func())(1), 2);
}

#[test]
fn publish_verdict_carries_the_reason() {
    assert!(publish_verdict(None).is_ok());
    match publish_verdict(Some("why".to_string())) {
        Err(VibeError::EventError(m)) => assert_eq!(m, "Failed to publish event: why"),
        _ => panic!("expected an event error"),
    }
}

#[test]
fn response_verdicts() {
    assert_eq!(response_verdict(ResponseWait::Answered(ErasedResponse::Success(Some(5u8)))).unwrap(), 5);
    match response_verdict::<u8>(ResponseWait::Answered(ErasedResponse::Success(None))) {
        Err(VibeError::EventError(m)) => assert_eq!(m, "Invalid response type"),
        _ => panic!("expected an event error"),
    }
    match response_verdict::<u8>(ResponseWait::Answered(ErasedResponse::Error("bad".to_string()))) {
        Err(VibeError::EventError(m)) => assert_eq!(m, "bad"),
        _ => panic!("expected an event error"),
    }
    match response_verdict::<u8>(ResponseWait::ChannelClosed) {
        Err(VibeError::EventError(m)) => assert_eq!(m, "Response channel closed"),
        _ => panic!("expected an event error"),
    }
    match response_verdict::<u8>(ResponseWait::TimedOut) {
        Err(VibeError::TimeoutError(m)) => assert_eq!(m, "Event response timeout"),
        _ => panic!("expected a timeout error"),
    }
}
