use vibe_synapse::gui::{initial_label, ClickCounter};

#[test]
fn the_label_counts_clicks() {
    assert_eq!(initial_label(), "Click the button to start counting");
    let mut counter = ClickCounter::new();
    assert_eq!(counter.count(), 0);
    assert_eq!(counter.click(), "You have clicked 1 times!");
    assert_eq!(counter.click(), "You have clicked 2 times!");
    assert_eq!(counter.count(), 2);
}
