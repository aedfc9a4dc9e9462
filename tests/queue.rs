use msg_queue::{Message, MessageQueue, VisibilityControl};
use std::collections::HashMap;
use std::time::Duration;

fn plain(id: u64) -> Message<String> {
    Message {
        id,
        body: format!("body {}", id),
        attributes: None,
    }
}

fn tagged(id: u64, key: &str, value: &str) -> Message<String> {
    let mut attrs = HashMap::new();
    attrs.insert(key.to_string(), value.to_string());
    Message {
        id,
        body: format!("body {}", id),
        attributes: Some(attrs),
    }
}

#[test]
fn receive_returns_messages_in_send_order() {
    let mut queue: MessageQueue<String> = MessageQueue::new();
    queue.send_message(plain(1));
    queue.send_message(plain(2));
    queue.send_message(plain(3));
    assert_eq!(queue.receive_message().map(|m| m.id), Some(1));
    assert_eq!(queue.receive_message().map(|m| m.id), Some(2));
    assert_eq!(queue.receive_message().map(|m| m.id), Some(3));
    assert_eq!(queue.receive_message(), None);
}

#[test]
fn receive_on_empty_queue_returns_nothing() {
    let mut queue: MessageQueue<String> = MessageQueue::default();
    assert_eq!(queue.receive_message(), None);
}

#[test]
fn receive_hands_back_the_message_sent() {
    let mut queue: MessageQueue<String> = MessageQueue::new();
    queue.send_message(Message {
        id: 1,
        body: "Concurrent message".to_string(),
        attributes: None,
    });
    assert_eq!(
        queue.receive_message(),
        Some(Message {
            id: 1,
            body: "Concurrent message".to_string(),
            attributes: None,
        })
    );
}

#[test]
fn deleted_id_is_never_received() {
    let mut queue: MessageQueue<String> = MessageQueue::new();
    queue.send_message(plain(1));
    queue.send_message(plain(2));
    queue.send_message(plain(1));
    queue.send_message(plain(3));
    queue.delete_message(1);
    assert_eq!(queue.receive_message().map(|m| m.id), Some(2));
    assert_eq!(queue.receive_message().map(|m| m.id), Some(3));
    assert_eq!(queue.receive_message(), None);
}

#[test]
fn delete_of_absent_id_changes_nothing() {
    let mut queue: MessageQueue<String> = MessageQueue::new();
    queue.send_message(plain(1));
    queue.delete_message(42);
    queue.delete_message(42);
    assert_eq!(queue.receive_message(), Some(plain(1)));
    assert_eq!(queue.receive_message(), None);
}

#[test]
fn duplicate_ids_are_kept() {
    let mut queue: MessageQueue<String> = MessageQueue::new();
    queue.send_message(plain(4));
    queue.send_message(plain(4));
    assert_eq!(queue.receive_message(), Some(plain(4)));
    assert_eq!(queue.receive_message(), Some(plain(4)));
}

#[test]
fn filter_by_attribute_matches_exactly() {
    let mut queue: MessageQueue<String> = MessageQueue::new();
    queue.send_message(tagged(1, "color", "red"));
    queue.send_message(plain(2));
    queue.send_message(tagged(3, "color", "blue"));
    queue.send_message(tagged(4, "shape", "red"));
    queue.send_message(tagged(5, "color", "red"));
    queue.send_message(tagged(6, "color", "reddish"));
    let found = queue.filter_by_attribute("color", "red");
    assert_eq!(found, vec![tagged(1, "color", "red"), tagged(5, "color", "red")]);
    assert!(queue.filter_by_attribute("size", "red").is_empty());
    assert_eq!(queue.filter_by_attribute("color", "blue"), vec![tagged(3, "color", "blue")]);
    assert_eq!(queue.receive_message().map(|m| m.id), Some(1));
}

#[test]
fn filter_by_attribute_on_message_without_attributes() {
    let mut queue: MessageQueue<String> = MessageQueue::new();
    queue.send_message(plain(1));
    queue.send_message(Message {
        id: 2,
        body: "empty".to_string(),
        attributes: Some(HashMap::new()),
    });
    assert!(queue.filter_by_attribute("", "").is_empty());
}

#[test]
fn visible_receive_skips_leased_messages() {
    let mut queue: MessageQueue<String> = MessageQueue::new();
    let mut visibility = VisibilityControl::new();
    queue.send_message(plain(1));
    queue.send_message(plain(2));
    visibility.set_visibility_timeout_at(1, 10, 0);
    let got = queue.receive_visible_at(&mut visibility, 5, 3);
    assert_eq!(got, Some(plain(2)));
    assert!(!visibility.is_visible_at(2, 7));
    assert!(visibility.is_visible_at(2, 8));
    assert_eq!(queue.receive_visible_at(&mut visibility, 5, 4), None);
    assert_eq!(queue.receive_visible_at(&mut visibility, 5, 10), Some(plain(1)));
    assert_eq!(queue.receive_visible_at(&mut visibility, 5, 10), Some(plain(2)));
    assert_eq!(queue.receive_message(), Some(plain(1)));
}

#[test]
fn visible_receive_with_a_real_lease() {
    let mut queue: MessageQueue<String> = MessageQueue::new();
    let mut visibility = VisibilityControl::new();
    queue.send_message(plain(1));
    let lease = Duration::from_secs(60);
    assert_eq!(queue.receive_visible(&mut visibility, lease), Some(plain(1)));
    assert!(!visibility.is_visible(1));
    assert_eq!(queue.receive_visible(&mut visibility, lease), None);
}
