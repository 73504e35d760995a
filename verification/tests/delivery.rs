use dscheck::delivery::{
    check_delivery, check_guarantees, count_payload, describe_delivery_error, knows_payload,
    DeliveryError, Guarantees,
};
use dscheck::trace::{EventKind, LocalEvent, Message};

fn info(words: &[&str]) -> Vec<Message> {
    words.iter().map(|w| Message::new("INFO", &format!("{{\"info\": \"{}\"}}", w))).collect()
}

const ALL: Guarantees = Guarantees { reliable: true, once: true, ordered: true };

#[test]
fn exactly_once_in_order_is_accepted() {
    let sent = info(&["a", "b", "c", "d", "e"]);
    let delivered = info(&["a", "b", "c", "d", "e"]);
    assert_eq!(check_delivery(&sent, &delivered, &ALL), Ok(true));
}

#[test]
fn ordered_subsequence_is_accepted() {
    let sent = info(&["a", "b", "c", "d", "e"]);
    let delivered = info(&["a", "c", "e"]);
    let g = Guarantees { reliable: false, once: true, ordered: true };
    assert_eq!(check_delivery(&sent, &delivered, &g), Ok(true));
}

#[test]
fn delivery_against_sending_order_is_rejected() {
    let sent = info(&["a", "b", "c", "d", "e"]);
    let delivered = info(&["c", "a"]);
    let g = Guarantees { reliable: false, once: true, ordered: true };
    assert_eq!(
        check_delivery(&sent, &delivered, &g),
        Err(DeliveryError::OrderViolation { index: 1 })
    );
}

#[test]
fn missing_message_breaks_reliability() {
    let sent = info(&["a", "b", "c"]);
    let delivered = info(&["a", "c"]);
    let g = Guarantees { reliable: true, once: false, ordered: false };
    assert_eq!(check_delivery(&sent, &delivered, &g), Err(DeliveryError::NotDelivered { sent: 1 }));
    let lax = Guarantees { reliable: false, once: true, ordered: true };
    assert_eq!(check_delivery(&sent, &delivered, &lax), Ok(true));
}

#[test]
fn repeated_message_breaks_at_most_once() {
    let sent = info(&["a", "b"]);
    let delivered = info(&["a", "b", "b"]);
    let g = Guarantees { reliable: true, once: true, ordered: false };
    assert_eq!(check_delivery(&sent, &delivered, &g), Err(DeliveryError::Duplicated { sent: 1 }));
    let at_least_once = Guarantees { reliable: true, once: false, ordered: true };
    assert_eq!(check_delivery(&sent, &delivered, &at_least_once), Ok(true));
}

#[test]
fn foreign_tag_and_payload_are_rejected_first() {
    let sent = info(&["a", "b"]);
    let mut delivered = info(&["a"]);
    delivered.push(Message::new("OTHER", "{\"info\": \"b\"}"));
    assert_eq!(check_delivery(&sent, &delivered, &ALL), Err(DeliveryError::WrongType { index: 1 }));
    let mut delivered = info(&["a"]);
    delivered.push(Message::new("INFO", "{\"info\": \"z\"}"));
    assert_eq!(check_delivery(&sent, &delivered, &ALL), Err(DeliveryError::WrongData { index: 1 }));
}

#[test]
fn nothing_sent_nothing_delivered_is_accepted() {
    assert_eq!(check_delivery(&Vec::new(), &Vec::new(), &ALL), Ok(true));
}

#[test]
fn only_deliveries_of_the_trace_count() {
    let sent = info(&["a", "b"]);
    let events = vec![
        LocalEvent { kind: EventKind::Originate, message: Message::new("INFO", "{\"info\": \"x\"}") },
        LocalEvent { kind: EventKind::Deliver, message: Message::new("INFO", "{\"info\": \"a\"}") },
        LocalEvent { kind: EventKind::Deliver, message: Message::new("INFO", "{\"info\": \"b\"}") },
    ];
    assert_eq!(check_guarantees(&events, &sent, &ALL), Ok(true));
}

#[test]
fn violations_are_named_with_what_they_are_about() {
    let sent = vec![Message::new("INFO", "a"), Message::new("INFO", "b")];
    let delivered = vec![Message::new("INFO", "b"), Message::new("OTHER", "a")];
    let text = |e| describe_delivery_error(&e, &sent, &delivered);
    assert_eq!(text(DeliveryError::WrongType { index: 1 }), "Wrong message type OTHER");
    assert_eq!(text(DeliveryError::WrongData { index: 0 }), "Wrong message data: b");
    assert_eq!(text(DeliveryError::NotDelivered { sent: 0 }), "Message a is not delivered");
    assert_eq!(text(DeliveryError::Duplicated { sent: 1 }), "Message b is delivered more than once");
    assert_eq!(text(DeliveryError::OrderViolation { index: 1 }), "Order violation: a after b");
    assert_eq!(text(DeliveryError::OrderViolation { index: 0 }), "Order violation: b after ");
    assert_eq!(text(DeliveryError::WrongType { index: 7 }), "Wrong message type ");
}

#[test]
fn payloads_are_counted_by_content() {
    let delivered = info(&["a", "b", "a"]);
    assert_eq!(count_payload(&delivered, &"{\"info\": \"a\"}".to_string()), 2);
    assert_eq!(count_payload(&delivered, &"{\"info\": \"c\"}".to_string()), 0);
    assert!(knows_payload(&delivered, &"{\"info\": \"b\"}".to_string()));
    assert!(!knows_payload(&delivered, &"b".to_string()));
}

#[test]
fn repeated_delivery_keeps_the_order() {
    let sent = info(&["a", "b", "c"]);
    let g = Guarantees { reliable: true, once: false, ordered: true };
    assert_eq!(check_delivery(&sent, &info(&["a", "a", "b", "b", "c"]), &g), Ok(true));
    assert_eq!(
        check_delivery(&sent, &info(&["a", "b", "a", "c"]), &g),
        Err(DeliveryError::OrderViolation { index: 2 })
    );
}
