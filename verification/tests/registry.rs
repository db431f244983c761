use std::collections::HashMap;

use chat_relay::frame::{Frame, MyWsMessage};
use chat_relay::identity::ConnectionId;
use chat_relay::registry::{tag, Delivery, InboundEvent, Outcome, Registry};

const X: u128 = 0x936da01f_9abd_4d9d_80c7_02af85c822a8;
const Y: u128 = 0x00000000_0000_0000_0000_000000000001;
const Z: u128 = 0xffffffff_ffff_ffff_ffff_ffffffffffff;

const X_TEXT: &str = "936da01f-9abd-4d9d-80c7-02af85c822a8";

fn id(raw: u128) -> ConnectionId {
    ConnectionId::new(raw)
}

/// Performs the deliveries: each target names the inbox to append to.
fn perform(inboxes: &mut HashMap<&'static str, Vec<String>>, deliveries: Vec<Delivery<'_, &'static str>>) {
    for delivery in deliveries {
        match delivery.message {
            MyWsMessage(Frame::Text(text)) => inboxes.entry(*delivery.target).or_default().push(text),
            other => panic!("a broadcast delivers text frames only, got {:?}", other),
        }
    }
}

fn inbox<'a>(inboxes: &'a HashMap<&'static str, Vec<String>>, name: &str) -> Vec<String> {
    inboxes.get(name).cloned().unwrap_or_default()
}

fn sorted(clients: &[ConnectionId]) -> Vec<u128> {
    let mut raw: Vec<u128> = clients.iter().map(|c| c.as_u128()).collect();
    raw.sort();
    raw
}

#[test]
fn new_registry_is_empty() {
    let registry: Registry<&'static str> = Registry::new();
    assert_eq!(registry.len(), 0);
    assert!(!registry.contains(id(X)));
    assert!(registry.target(id(X)).is_none());
    assert!(registry.snapshot().is_empty());
}

#[test]
fn connect_registers_the_target() {
    let mut registry = Registry::new();
    registry.connect(id(X), "x");
    assert_eq!(registry.len(), 1);
    assert!(registry.contains(id(X)));
    assert_eq!(registry.target(id(X)), Some(&"x"));
    assert!(!registry.contains(id(Y)));
}

#[test]
fn duplicate_connect_overwrites_the_stale_entry() {
    let mut registry = Registry::new();
    registry.connect(id(X), "old");
    registry.connect(id(X), "new");
    assert_eq!(registry.len(), 1);
    assert_eq!(registry.target(id(X)), Some(&"new"));
}

#[test]
fn disconnect_removes_and_names_the_departing_identity() {
    let mut registry = Registry::new();
    registry.connect(id(X), "x");
    registry.connect(id(Y), "y");
    let notice = registry.disconnect(id(X));
    assert_eq!(notice, format!("Client {} disconnected", X_TEXT));
    assert!(!registry.contains(id(X)));
    assert!(registry.contains(id(Y)));
    assert_eq!(registry.len(), 1);
}

#[test]
fn disconnect_of_unknown_identity_is_no_error() {
    let mut registry = Registry::new();
    registry.connect(id(Y), "y");
    let notice = registry.disconnect(id(X));
    assert_eq!(notice, "Client 936da01f-9abd-4d9d-80c7-02af85c822a8 disconnected");
    assert_eq!(registry.len(), 1);
    assert_eq!(registry.target(id(Y)), Some(&"y"));
}

#[test]
fn disconnect_twice_leaves_the_registry_as_after_the_first() {
    let mut registry = Registry::new();
    registry.connect(id(X), "x");
    registry.connect(id(Y), "y");
    registry.connect(id(Z), "z");
    registry.disconnect(id(Y));
    let after_first = sorted(&registry.snapshot());
    registry.disconnect(id(Y));
    let after_second = sorted(&registry.snapshot());
    assert_eq!(after_first, vec![X, Z]);
    assert_eq!(after_second, after_first);
    assert_eq!(registry.target(id(X)), Some(&"x"));
    assert_eq!(registry.target(id(Z)), Some(&"z"));
}

#[test]
fn registered_are_those_whose_connect_outlasts_every_disconnect() {
    let mut registry = Registry::new();
    let events = vec![
        InboundEvent::Connect { id: id(X), target: "x1" },
        InboundEvent::Connect { id: id(Y), target: "y1" },
        InboundEvent::Disconnect { id: id(X) },
        InboundEvent::Disconnect { id: id(X) },
        InboundEvent::Connect { id: id(Z), target: "z1" },
        InboundEvent::Connect { id: id(X), target: "x2" },
        InboundEvent::Disconnect { id: id(Z) },
        InboundEvent::Connect { id: id(Y), target: "y2" },
    ];
    for event in events {
        registry.process(event);
    }
    assert_eq!(sorted(&registry.snapshot()), vec![Y, X]);
    assert_eq!(registry.target(id(X)), Some(&"x2"));
    assert_eq!(registry.target(id(Y)), Some(&"y2"));
    assert!(registry.target(id(Z)).is_none());
}

#[test]
fn tag_puts_the_sender_before_the_payload() {
    assert_eq!(tag(id(X), "hi"), "936da01f-9abd-4d9d-80c7-02af85c822a8: hi");
    assert_eq!(tag(id(Y), ""), "00000000-0000-0000-0000-000000000001: ");
    assert_eq!(tag(id(Z), "a: b"), "ffffffff-ffff-ffff-ffff-ffffffffffff: a: b");
}

#[test]
fn sender_receives_nothing_of_its_own_broadcast() {
    let mut registry = Registry::new();
    registry.connect(id(X), "x");
    registry.connect(id(Y), "y");
    let mut inboxes = HashMap::new();
    perform(&mut inboxes, registry.route(id(X), "hi"));
    assert_eq!(inbox(&inboxes, "y"), vec![format!("{}: hi", X_TEXT)]);
    assert!(inbox(&inboxes, "x").is_empty());
}

#[test]
fn departed_connection_receives_nothing() {
    let mut registry = Registry::new();
    registry.connect(id(X), "x");
    registry.connect(id(Y), "y");
    registry.disconnect(id(X));
    let deliveries = registry.route(id(Y), "hello");
    assert_eq!(deliveries.len(), 0);
}

#[test]
fn every_other_connection_receives_one_copy() {
    let mut registry = Registry::new();
    registry.connect(id(X), "x");
    registry.connect(id(Y), "y");
    registry.connect(id(Z), "z");
    let deliveries = registry.route(id(X), "yo");
    assert_eq!(deliveries.len(), 2);
    let mut recipients: Vec<u128> = deliveries.iter().map(|d| d.recipient.as_u128()).collect();
    recipients.sort();
    assert_eq!(recipients, vec![Y, Z]);
    for delivery in &deliveries {
        let expected = if delivery.recipient.as_u128() == Y { "y" } else { "z" };
        assert_eq!(*delivery.target, expected);
    }
    let mut inboxes = HashMap::new();
    perform(&mut inboxes, deliveries);
    assert_eq!(inbox(&inboxes, "y"), vec!["936da01f-9abd-4d9d-80c7-02af85c822a8: yo".to_string()]);
    assert_eq!(inbox(&inboxes, "z"), vec!["936da01f-9abd-4d9d-80c7-02af85c822a8: yo".to_string()]);
    assert!(inbox(&inboxes, "x").is_empty());
}

#[test]
fn snapshot_holds_exactly_the_registered() {
    let mut registry = Registry::new();
    registry.connect(id(X), "x");
    registry.connect(id(Y), "y");
    let clients = registry.snapshot();
    assert_eq!(clients.len(), 2);
    assert_eq!(sorted(&clients), vec![Y, X]);
    assert_eq!(registry.len(), 2);
}

#[test]
fn broadcast_of_unregistered_sender_reaches_everyone() {
    let mut registry = Registry::new();
    registry.connect(id(X), "x");
    registry.connect(id(Y), "y");
    let deliveries = registry.route(id(Z), "ping");
    assert_eq!(deliveries.len(), 2);
    assert!(deliveries.iter().all(|d| d.recipient.as_u128() != Z));
    let mut inboxes = HashMap::new();
    perform(&mut inboxes, deliveries);
    assert_eq!(inbox(&inboxes, "x"), vec!["ffffffff-ffff-ffff-ffff-ffffffffffff: ping".to_string()]);
    assert_eq!(inbox(&inboxes, "y"), vec!["ffffffff-ffff-ffff-ffff-ffffffffffff: ping".to_string()]);
}

#[test]
fn broadcast_counts_one_less_than_registered() {
    let mut registry = Registry::new();
    for raw in 1u128..=9 {
        registry.connect(id(raw), "someone");
    }
    let deliveries = registry.route(id(5), "count me out");
    assert_eq!(deliveries.len(), registry.len() - 1);
    assert!(deliveries.iter().all(|d| d.recipient.as_u128() != 5));
    let mut recipients: Vec<u128> = deliveries.iter().map(|d| d.recipient.as_u128()).collect();
    recipients.sort();
    assert_eq!(recipients, vec![1, 2, 3, 4, 6, 7, 8, 9]);
}

#[test]
fn broadcast_on_empty_registry_delivers_nothing() {
    let registry: Registry<&'static str> = Registry::new();
    assert!(registry.route(id(X), "anyone?").is_empty());
}

#[test]
fn lone_sender_receives_nothing() {
    let mut registry = Registry::new();
    registry.connect(id(X), "x");
    assert!(registry.route(id(X), "echo?").is_empty());
}

#[test]
fn route_leaves_the_registry_unchanged() {
    let mut registry = Registry::new();
    registry.connect(id(X), "x");
    registry.connect(id(Y), "y");
    let _ = registry.route(id(X), "hi");
    assert_eq!(sorted(&registry.snapshot()), vec![Y, X]);
}

#[test]
fn messages_of_one_sender_arrive_in_order() {
    let mut registry = Registry::new();
    registry.connect(id(X), "x");
    registry.connect(id(Y), "y");
    registry.connect(id(Z), "z");
    let mut inboxes = HashMap::new();
    for payload in ["first", "second", "third"] {
        match registry.process(InboundEvent::Message { id: id(X), payload: payload.to_string() }) {
            Outcome::Routed { deliveries } => perform(&mut inboxes, deliveries),
            _ => panic!("a message is answered by deliveries"),
        }
    }
    let expected = vec![
        format!("{}: first", X_TEXT),
        format!("{}: second", X_TEXT),
        format!("{}: third", X_TEXT),
    ];
    assert_eq!(inbox(&inboxes, "y"), expected);
    assert_eq!(inbox(&inboxes, "z"), expected);
    assert!(inbox(&inboxes, "x").is_empty());
}

#[test]
fn order_is_kept_while_others_come_and_go() {
    let mut registry = Registry::new();
    let mut inboxes = HashMap::new();
    let events = vec![
        InboundEvent::Connect { id: id(X), target: "x" },
        InboundEvent::Connect { id: id(Y), target: "y" },
        InboundEvent::Message { id: id(X), payload: "one".to_string() },
        InboundEvent::Connect { id: id(Z), target: "z" },
        InboundEvent::Message { id: id(X), payload: "two".to_string() },
        InboundEvent::Disconnect { id: id(Y) },
        InboundEvent::Message { id: id(X), payload: "three".to_string() },
        InboundEvent::Message { id: id(Z), payload: "four".to_string() },
    ];
    for event in events {
        if let Outcome::Routed { deliveries } = registry.process(event) {
            perform(&mut inboxes, deliveries);
        }
    }
    assert_eq!(
        inbox(&inboxes, "y"),
        vec![format!("{}: one", X_TEXT), format!("{}: two", X_TEXT)]
    );
    assert_eq!(
        inbox(&inboxes, "z"),
        vec![format!("{}: two", X_TEXT), format!("{}: three", X_TEXT)]
    );
    assert_eq!(inbox(&inboxes, "x"), vec!["ffffffff-ffff-ffff-ffff-ffffffffffff: four".to_string()]);
}

#[test]
fn process_connect_answers_registered() {
    let mut registry = Registry::new();
    let outcome = registry.process(InboundEvent::Connect { id: id(X), target: "x" });
    assert!(matches!(outcome, Outcome::Registered));
    assert_eq!(registry.target(id(X)), Some(&"x"));
}

#[test]
fn process_disconnect_answers_with_the_notice() {
    let mut registry = Registry::new();
    registry.connect(id(X), "x");
    match registry.process(InboundEvent::Disconnect { id: id(X) }) {
        Outcome::Departed { notice } => {
            assert_eq!(notice, "Client 936da01f-9abd-4d9d-80c7-02af85c822a8 disconnected")
        }
        _ => panic!("a disconnect is answered by a notice"),
    }
    assert_eq!(registry.len(), 0);
}

#[test]
fn process_diagnostics_lists_without_change() {
    let mut registry = Registry::new();
    registry.connect(id(X), "x");
    registry.connect(id(Y), "y");
    match registry.process(InboundEvent::Diagnostics) {
        Outcome::Listed { clients, line } => {
            assert_eq!(sorted(&clients), vec![Y, X]);
            let x_first = format!("Connected clients: [{}, 00000000-0000-0000-0000-000000000001]", X_TEXT);
            let y_first = format!("Connected clients: [00000000-0000-0000-0000-000000000001, {}]", X_TEXT);
            assert!(line == x_first || line == y_first, "unexpected line: {}", line);
        }
        _ => panic!("diagnostics are answered by a listing"),
    }
    assert_eq!(registry.len(), 2);
    assert_eq!(registry.target(id(X)), Some(&"x"));
    assert_eq!(registry.target(id(Y)), Some(&"y"));
}

#[test]
fn process_message_answers_with_the_fan_out() {
    let mut registry = Registry::new();
    registry.connect(id(X), 1u8);
    registry.connect(id(Y), 2u8);
    match registry.process(InboundEvent::Message { id: id(Y), payload: "hey".to_string() }) {
        Outcome::Routed { deliveries } => {
            assert_eq!(deliveries.len(), 1);
            assert_eq!(deliveries[0].recipient, id(X));
            assert_eq!(*deliveries[0].target, 1u8);
            assert_eq!(
                deliveries[0].message,
                MyWsMessage(Frame::Text("00000000-0000-0000-0000-000000000001: hey".to_string()))
            );
        }
        _ => panic!("a message is answered by deliveries"),
    }
}
