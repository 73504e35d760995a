use dscheck::broadcast::{
    causal_missing, check, check_traces, collect_history, describe_violations, judge,
    message_field, property_name, violated, NodeHistory, NodeTrace, Property, Verdict,
};
use dscheck::trace::{EventKind, LocalEvent, Message};

fn texts(items: &[&str]) -> Vec<String> {
    items.iter().map(|s| s.to_string()).collect()
}

fn history(node: &str, crashed: bool, sent: &[&str], delivered: &[&str], all: &[&str]) -> NodeHistory {
    NodeHistory {
        node: node.to_string(),
        crashed,
        sent: texts(sent),
        delivered: texts(delivered),
        history: texts(all),
    }
}

fn event(kind: EventKind, text: &str) -> LocalEvent {
    let tag = if kind == EventKind::Originate { "SEND" } else { "DELIVER" };
    LocalEvent { kind, message: Message::new(tag, &format!("{{\"message\": \"{}\"}}", text)) }
}

#[test]
fn one_broadcast_delivered_once_everywhere_passes() {
    let mut hs = vec![history("0", false, &["0:Hello"], &["0:Hello"], &["0:Hello", "0:Hello"])];
    for n in 1..5 {
        hs.push(history(&n.to_string(), false, &[], &["0:Hello"], &["0:Hello"]));
    }
    assert_eq!(check(&hs), Ok(true));
    assert_eq!(
        judge(&hs),
        Verdict {
            no_duplication: true,
            no_creation: true,
            validity: true,
            uniform_agreement: true,
            causal_order: true
        }
    );
}

#[test]
fn crashed_pair_may_keep_a_message_to_itself() {
    let hs = vec![
        history("0", true, &["0:Hello"], &[], &["0:Hello"]),
        history("1", true, &[], &[], &[]),
        history("2", false, &[], &[], &[]),
        history("3", false, &[], &[], &[]),
    ];
    assert_eq!(check(&hs), Ok(true));
}

#[test]
fn delivery_by_a_crashed_node_binds_the_live_ones() {
    let hs = vec![
        history("0", true, &["0:Hello"], &["0:Hello"], &["0:Hello", "0:Hello"]),
        history("1", true, &[], &["0:Hello"], &["0:Hello"]),
        history("2", false, &[], &[], &[]),
        history("3", false, &[], &["0:Hello"], &["0:Hello"]),
    ];
    assert_eq!(check(&hs), Err(vec![Property::UniformAgreement]));
}

#[test]
fn third_party_message_must_reach_all_live_nodes() {
    let hs = vec![
        history("0", true, &[], &[], &[]),
        history("1", true, &[], &[], &[]),
        history("2", false, &["2:Hi"], &["2:Hi"], &["2:Hi", "2:Hi"]),
        history("3", false, &[], &["2:Hi"], &["2:Hi"]),
    ];
    assert_eq!(check(&hs), Ok(true));
}

#[test]
fn duplicate_delivery_is_reported() {
    let hs = vec![
        history("0", false, &["m"], &["m"], &["m", "m"]),
        history("1", false, &[], &["m", "m"], &["m", "m"]),
    ];
    assert_eq!(check(&hs), Err(vec![Property::NoDuplication]));
}

#[test]
fn delivery_of_an_unsent_message_is_reported() {
    let hs = vec![
        history("0", false, &[], &["ghost"], &["ghost"]),
        history("1", false, &[], &["ghost"], &["ghost"]),
    ];
    assert_eq!(check(&hs), Err(vec![Property::NoCreation]));
}

#[test]
fn sender_that_misses_its_own_message_is_reported() {
    let hs = vec![
        history("0", false, &["m"], &[], &["m"]),
        history("1", false, &[], &[], &[]),
    ];
    assert_eq!(check(&hs), Err(vec![Property::Validity]));
}

#[test]
fn reply_delivered_before_its_cause_is_reported() {
    let hs = vec![
        history("0", false, &["0:Hello"], &["0:Hello", "1:How?"], &["0:Hello", "0:Hello", "1:How?"]),
        history("1", false, &["1:How?"], &["0:Hello", "1:How?"], &["0:Hello", "1:How?", "1:How?"]),
        history("2", false, &[], &["1:How?", "0:Hello"], &["1:How?", "0:Hello"]),
    ];
    assert_eq!(check(&hs), Err(vec![Property::CausalOrder]));
}

#[test]
fn every_violated_property_is_reported_together() {
    let hs = vec![
        history("0", false, &["a"], &["x", "x"], &["a", "x", "x"]),
        history("1", false, &[], &[], &[]),
    ];
    assert_eq!(
        check(&hs),
        Err(vec![
            Property::NoDuplication,
            Property::NoCreation,
            Property::Validity,
            Property::UniformAgreement
        ])
    );
}

#[test]
fn violations_come_in_fixed_order() {
    let v = Verdict {
        no_duplication: false,
        no_creation: true,
        validity: false,
        uniform_agreement: true,
        causal_order: false,
    };
    assert_eq!(
        violated(&v),
        vec![Property::NoDuplication, Property::Validity, Property::CausalOrder]
    );
    assert_eq!(property_name(Property::NoDuplication), "NO DUPLICATION");
    assert_eq!(property_name(Property::NoCreation), "NO CREATION");
    assert_eq!(property_name(Property::Validity), "VALIDITY");
    assert_eq!(property_name(Property::UniformAgreement), "UNIFORM AGREEMENT");
    assert_eq!(property_name(Property::CausalOrder), "CAUSAL ORDER");
}

#[test]
fn trace_is_read_into_sent_delivered_and_history() {
    let trace = NodeTrace {
        node: "0".to_string(),
        crashed: false,
        events: vec![
            event(EventKind::Originate, "0:Hello"),
            event(EventKind::Deliver, "0:Hello"),
            event(EventKind::Deliver, "1:How?"),
        ],
    };
    let h = collect_history(&trace).unwrap();
    assert_eq!(h.node, "0");
    assert!(!h.crashed);
    assert_eq!(h.sent, texts(&["0:Hello"]));
    assert_eq!(h.delivered, texts(&["0:Hello", "1:How?"]));
    assert_eq!(h.history, texts(&["0:Hello", "0:Hello", "1:How?"]));
}

#[test]
fn unreadable_payload_gives_no_history() {
    for payload in ["not json", "[1, 2]", "{\"other\": \"x\"}", "{\"message\": 7}"] {
        let trace = NodeTrace {
            node: "0".to_string(),
            crashed: false,
            events: vec![LocalEvent {
                kind: EventKind::Deliver,
                message: Message::new("DELIVER", payload),
            }],
        };
        assert!(collect_history(&trace).is_none());
        assert!(check_traces(&vec![trace]).is_none());
    }
}

#[test]
fn traces_of_a_clean_broadcast_pass() {
    let mut traces = vec![NodeTrace {
        node: "0".to_string(),
        crashed: false,
        events: vec![event(EventKind::Originate, "0:Hello"), event(EventKind::Deliver, "0:Hello")],
    }];
    for n in 1..5 {
        traces.push(NodeTrace {
            node: n.to_string(),
            crashed: false,
            events: vec![event(EventKind::Deliver, "0:Hello")],
        });
    }
    assert_eq!(check_traces(&traces), Some(Ok(true)));
    traces[3].events.clear();
    assert_eq!(check_traces(&traces), Some(Err(vec![Property::UniformAgreement])));
}

#[test]
fn message_text_is_taken_from_the_payload_not_the_payload_itself() {
    let trace = NodeTrace {
        node: "0".to_string(),
        crashed: false,
        events: vec![LocalEvent {
            kind: EventKind::Deliver,
            message: Message::new("DELIVER", "{\"message\": \"a\\\"b\", \"extra\": 1}"),
        }],
    };
    let h = collect_history(&trace).unwrap();
    assert_eq!(h.delivered, texts(&["a\"b"]));
}

#[test]
fn causal_violation_names_what_was_missing() {
    let src = history("1", false, &["1:How?"], &["0:Hello", "0:More", "1:How?"], &["0:Hello", "0:More", "0:Hello", "1:How?", "1:How?"]);
    let late = history("2", false, &[], &["1:How?", "0:Hello", "0:More"], &["1:How?", "0:Hello", "0:More"]);
    let half = history("3", false, &[], &["0:More", "1:How?", "0:Hello"], &["0:More", "1:How?", "0:Hello"]);
    let fine = history("4", false, &[], &["0:More", "0:Hello", "1:How?"], &["0:More", "0:Hello", "1:How?"]);
    let crashed = history("5", true, &[], &["1:How?"], &["1:How?"]);
    let silent = history("6", false, &[], &["0:Hello"], &["0:Hello"]);
    let msg = "1:How?".to_string();
    assert_eq!(causal_missing(&src, &msg, &late), texts(&["0:Hello", "0:More"]));
    assert_eq!(causal_missing(&src, &msg, &half), texts(&["0:Hello"]));
    assert_eq!(causal_missing(&src, &msg, &fine), Vec::<String>::new());
    assert_eq!(causal_missing(&src, &msg, &crashed), Vec::<String>::new());
    assert_eq!(causal_missing(&src, &msg, &silent), Vec::<String>::new());
}

#[test]
fn violated_properties_are_reported_by_name() {
    assert_eq!(
        describe_violations(&vec![Property::NoDuplication, Property::Validity, Property::CausalOrder]),
        "Violated NO DUPLICATION, VALIDITY, CAUSAL ORDER"
    );
    assert_eq!(describe_violations(&vec![Property::UniformAgreement]), "Violated UNIFORM AGREEMENT");
    assert_eq!(describe_violations(&Vec::new()), "Violated ");
}

#[test]
fn message_text_stands_under_the_key_message() {
    assert_eq!(message_field("{\"message\": \"0:Hello\"}"), Some("0:Hello".to_string()));
    assert_eq!(message_field("{\"text\": \"0:Hello\"}"), None);
    assert_eq!(message_field("{\"message\": null}"), None);
}
