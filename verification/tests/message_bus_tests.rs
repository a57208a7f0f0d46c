use std::any::TypeId;
use std::sync::Arc;
use vibe_synapse::message_bus::{send_verdict, MessageBus, MessageEnvelope, PublishError, SendOutcome, SystemMessage, CHANNEL_CAPACITY};

fn t_a() -> TypeId {
    TypeId::of::<u8>()
}

fn t_b() -> TypeId {
    TypeId::of::<u16>()
}

#[test]
fn registering_twice_changes_nothing() {
    let mut bus: MessageBus<String> = MessageBus::new();
    assert!(!bus.is_registered(t_a()));
    assert!(bus.register_message_type(t_a()));
    assert!(!bus.register_message_type(t_a()));
    assert!(bus.is_registered(t_a()));
}

#[test]
fn publishing_an_unregistered_type_is_refused() {
    let mut bus: MessageBus<String> = MessageBus::new();
    match bus.publish(t_a(), "x".to_string()) {
        Err(PublishError::TypeNotRegistered(t)) => assert_eq!(t, t_a()),
        _ => panic!("expected TypeNotRegistered"),
    }
}

#[test]
fn published_messages_are_numbered_in_order() {
    let mut bus: MessageBus<String> = MessageBus::new();
    bus.register_message_type(t_a());
    let mut rx = bus.take_receiver(t_a()).unwrap();
    bus.publish(t_a(), "one".to_string()).unwrap();
    bus.publish(t_a(), "two".to_string()).unwrap();
    let first = rx.try_recv().unwrap();
    let second = rx.try_recv().unwrap();
    assert_eq!(*first.payload, "one");
    assert_eq!(first.sequence, 0);
    assert_eq!(first.message_type, t_a());
    assert_eq!(*second.payload, "two");
    assert_eq!(second.sequence, 1);
}

#[test]
fn the_receiver_is_handed_out_once() {
    let mut bus: MessageBus<String> = MessageBus::new();
    assert!(bus.take_receiver(t_a()).is_none());
    bus.register_message_type(t_a());
    assert!(bus.take_receiver(t_a()).is_some());
    assert!(bus.take_receiver(t_a()).is_none());
}

#[test]
fn a_full_channel_is_reported() {
    let mut bus: MessageBus<u32> = MessageBus::new();
    bus.register_message_type(t_a());
    let _rx = bus.take_receiver(t_a()).unwrap();
    for i in 0..CHANNEL_CAPACITY {
        bus.publish(t_a(), i as u32).unwrap();
    }
    match bus.publish(t_a(), 0) {
        Err(PublishError::ChannelFull(t)) => assert_eq!(t, t_a()),
        _ => panic!("expected ChannelFull"),
    }
}

#[test]
fn a_closed_channel_is_reported() {
    let mut bus: MessageBus<u32> = MessageBus::new();
    bus.register_message_type(t_a());
    let rx = bus.take_receiver(t_a()).unwrap();
    drop(rx);
    match bus.publish(t_a(), 1) {
        Err(PublishError::ChannelClosed(t)) => assert_eq!(t, t_a()),
        _ => panic!("expected ChannelClosed"),
    }
}

#[test]
fn subscribers_come_in_subscription_order() {
    let mut bus: MessageBus<u32> = MessageBus::new();
    bus.subscribe(t_a(), "m1".to_string());
    bus.subscribe(t_a(), "m2".to_string());
    bus.subscribe(t_b(), "m1".to_string());
    assert_eq!(bus.get_subscribers(t_a()), vec!["m1".to_string(), "m2".to_string()]);
    assert_eq!(bus.get_subscribers(t_b()), vec!["m1".to_string()]);
    assert_eq!(bus.subscriptions("m1"), vec![t_a(), t_b()]);
    assert!(bus.get_subscribers(TypeId::of::<u64>()).is_empty());
}

#[test]
fn unsubscribe_takes_the_module_off_one_type() {
    let mut bus: MessageBus<u32> = MessageBus::new();
    bus.subscribe(t_a(), "m1".to_string());
    bus.subscribe(t_a(), "m2".to_string());
    assert!(bus.unsubscribe(t_a(), "m1"));
    assert!(!bus.unsubscribe(t_a(), "m1"));
    assert_eq!(bus.get_subscribers(t_a()), vec!["m2".to_string()]);
    assert!(bus.subscriptions("m1").is_empty());
}

#[test]
fn unsubscribe_all_forgets_the_module() {
    let mut bus: MessageBus<u32> = MessageBus::new();
    bus.subscribe(t_a(), "m1".to_string());
    bus.subscribe(t_a(), "m2".to_string());
    bus.subscribe(t_b(), "m1".to_string());
    bus.subscribe(t_b(), "m1".to_string());
    bus.unsubscribe_all("m1");
    assert_eq!(bus.get_subscribers(t_a()), vec!["m2".to_string()]);
    assert!(bus.get_subscribers(t_b()).is_empty());
    assert!(bus.subscriptions("m1").is_empty());
    assert_eq!(bus.subscriptions("m2"), vec![t_a()]);
}

#[test]
fn envelope_clone_shares_the_payload() {
    let e = MessageEnvelope::new("hi".to_string(), t_a(), 7);
    let c = e.clone_arc();
    assert!(Arc::ptr_eq(&e.payload, &c.payload));
    assert_eq!(c.sequence, 7);
    assert_eq!(c.message_type, t_a());
    assert_eq!(c.timestamp, e.timestamp);
}

#[test]
fn send_verdicts() {
    assert!(send_verdict(t_a(), SendOutcome::Sent).is_ok());
    assert!(matches!(send_verdict(t_a(), SendOutcome::Full), Err(PublishError::ChannelFull(_))));
    assert!(matches!(send_verdict(t_a(), SendOutcome::Closed), Err(PublishError::ChannelClosed(_))));
}

#[test]
fn system_message_fields() {
    let m = SystemMessage { source: "core".to_string(), target: "all".to_string(), content: "hello".to_string() };
    let c = m.clone();
    assert_eq!(c.target, "all");
    assert_eq!(c.content, "hello");
}

#[test]
fn a_module_subscribed_twice_receives_each_message_once() {
    let mut bus: MessageBus<u32> = MessageBus::new();
    bus.subscribe(t_a(), "m1".to_string());
    bus.subscribe(t_a(), "m2".to_string());
    bus.subscribe(t_a(), "m1".to_string());
    assert_eq!(bus.get_subscribers(t_a()), vec!["m1".to_string(), "m2".to_string(), "m1".to_string()]);
    assert_eq!(bus.delivery_targets(t_a()), vec!["m1".to_string(), "m2".to_string()]);
    assert!(bus.delivery_targets(t_b()).is_empty());
}

#[test]
fn publish_error_texts() {
    let t = t_a();
    assert_eq!(
        PublishError::TypeNotRegistered(t).to_string(),
        format!("Message type {:?} not registered. Call register_message_type first.", t)
    );
    assert_eq!(PublishError::ChannelFull(t).to_string(), format!("Channel at capacity for message type {:?}", t));
    assert_eq!(PublishError::ChannelClosed(t).to_string(), format!("Channel closed for message type {:?}", t));
}

#[test]
fn unsubscribing_undoes_subscribing() {
    let mut bus: MessageBus<u32> = MessageBus::new();
    bus.subscribe(t_a(), "m2".to_string());
    bus.subscribe(t_b(), "m1".to_string());
    let subscribers_before = bus.get_subscribers(t_a());
    let subscriptions_before = bus.subscriptions("m1");
    bus.subscribe(t_a(), "m1".to_string());
    assert!(bus.unsubscribe(t_a(), "m1"));
    assert_eq!(bus.get_subscribers(t_a()), subscribers_before);
    assert_eq!(bus.subscriptions("m1"), subscriptions_before);
    assert_eq!(bus.get_subscribers(t_b()), vec!["m1".to_string()]);
}
