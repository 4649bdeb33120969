use mls_playground::client::hex_encode;
use mls_playground::relay::MessageRelay;

#[test]
fn application_message_fetch_replays_until_ack() {
    let mut relay = MessageRelay::new();
    relay
        .publish_group_application_message(
            "group-1",
            "alice",
            &["bob".to_string()],
            b"hello".to_vec(),
        )
        .unwrap();

    let first = relay.fetch_pending_application_message("bob").expect("first pending app message");
    let second =
        relay.fetch_pending_application_message("bob").expect("replayed pending app message");

    assert_eq!(first.id, second.id);
    assert_eq!(first.message_hex, hex::encode(b"hello"));
    assert!(relay.ack_application_message("bob", &first.id));
    assert!(relay.fetch_pending_application_message("bob").is_none());
    assert!(!relay.ack_application_message("bob", &first.id));
}

#[test]
fn messages_wait_in_order_and_not_for_their_sender() {
    let mut relay = MessageRelay::new();
    let both = vec!["alice".to_string(), "bob".to_string()];
    relay.publish_group_application_message("g", "alice", &both, vec![1, 255]).unwrap();
    relay.publish_group_application_message("g", "alice", &both, vec![2]).unwrap();
    assert!(relay.fetch_application_message("alice").is_none());
    assert_eq!(relay.fetch_application_message("bob"), Some(vec![1, 255]));
    let message = relay.fetch_pending_application_message("bob").unwrap();
    assert_eq!(message.message_hex, "01ff");
    assert_eq!(message.sender, "alice");
    assert_eq!(message.group_id, "g");
    assert!(relay.ack_application_message("bob", &message.id));
    assert_eq!(relay.fetch_application_message("bob"), Some(vec![2]));
}

#[test]
fn digits_are_those_of_the_relay() {
    assert_eq!(hex_encode(&vec![0, 10, 159, 255]), "000a9fff");
    assert_eq!(hex_encode(&vec![0, 10, 159, 255]), hex::encode([0, 10, 159, 255]));
    assert_eq!(hex_encode(&Vec::new()), "");
}

#[test]
fn messages_come_in_the_order_they_were_published() {
    let mut relay = MessageRelay::new();
    let both = ["alice".to_string(), "bob".to_string()];
    relay.publish_group_application_message("g", "alice", &both, vec![1]).unwrap();
    relay.publish_group_application_message("g", "alice", &both, vec![0xAB]).unwrap();
    assert_eq!(relay.fetch_application_message("alice"), None);
    assert_eq!(relay.fetch_application_message("bob"), Some(vec![1]));
    let first = relay.fetch_pending_application_message("bob").unwrap();
    assert!(relay.ack_application_message("bob", &first.id));
    let second = relay.fetch_pending_application_message("bob").unwrap();
    assert_ne!(first.id, second.id);
    assert_eq!(second.message_hex, "ab");
    assert!(relay.ack_application_message("bob", &second.id));
    assert_eq!(relay.fetch_application_message("bob"), None);
}
