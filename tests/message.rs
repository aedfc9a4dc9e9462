use msg_queue::Message;
use std::collections::HashMap;

#[test]
fn test_message_creation() {
    let message = Message {
        id: 1,
        body: "Test body".to_string(),
        attributes: Some(HashMap::new()),
    };
    assert_eq!(message.id, 1);
    assert_eq!(message.body, "Test body");
    assert!(message.attributes.is_some());
}

#[test]
fn test_message_equality() {
    let message1 = Message {
        id: 1,
        body: "Test body".to_string(),
        attributes: None,
    };
    let message2 = Message {
        id: 1,
        body: "Test body".to_string(),
        attributes: None,
    };
    assert_eq!(message1, message2);
}

#[test]
fn clone_keeps_every_field() {
    let mut attrs = HashMap::new();
    attrs.insert("color".to_string(), "red".to_string());
    let message = Message {
        id: 9,
        body: vec![1u8, 2, 3],
        attributes: Some(attrs),
    };
    let copy = message.clone();
    assert_eq!(copy, message);
    assert_eq!(copy.attributes.unwrap().get("color"), Some(&"red".to_string()));
}
