use mj_server::ws::{heartbeat_action, HeartbeatAction, topic_from_name, topic_name, Topic, WsEvent, WsRegistry};

#[test]
fn new_clients_listen_to_every_topic() {
    let mut hub = WsRegistry::new();
    hub.connect(1);
    hub.connect(2);
    for t in [Topic::Signal, Topic::Fill, Topic::Equity, Topic::Healthz, Topic::Ai] {
        assert_eq!(hub.recipients(t), vec![1, 2]);
    }
    let (clients, topics) = hub.stats();
    assert_eq!(clients, 2);
    assert_eq!(topics, vec!["ai", "equity", "fill", "healthz", "signal"]);
}

#[test]
fn subscriptions_are_per_client_and_ignore_unknown_topics() {
    let mut hub = WsRegistry::new();
    hub.connect(1);
    hub.connect(2);
    let names = vec!["fill".to_string(), "bogus".to_string(), "ai".to_string()];
    assert!(hub.subscribe(1, &names));
    assert_eq!(hub.recipients(Topic::Fill), vec![1, 2]);
    assert_eq!(hub.recipients(Topic::Signal), vec![2]);
    assert_eq!(hub.recipients(Topic::Ai), vec![1, 2]);
    assert!(!hub.subscribe(9, &names));
    assert!(hub.subscribe(2, &["signal".to_string()]));
    assert_eq!(hub.recipients(Topic::Signal), vec![2]);
    assert_eq!(hub.recipients(Topic::Fill), vec![1]);
    let (_, topics) = hub.stats();
    assert_eq!(topics, vec!["ai", "fill", "signal"]);
}

#[test]
fn closed_clients_are_dropped() {
    let mut hub = WsRegistry::new();
    hub.connect(1);
    hub.connect(2);
    hub.connect(3);
    hub.remove_clients(&[2]);
    assert_eq!(hub.recipients(Topic::Equity), vec![1, 3]);
    hub.disconnect(1);
    assert_eq!(hub.recipients(Topic::Equity), vec![3]);
    assert_eq!(hub.len(), 1);
    hub.disconnect(3);
    assert_eq!(hub.stats(), (0, Vec::<String>::new()));
}

#[test]
fn topic_names_round_trip() {
    for t in [Topic::Signal, Topic::Fill, Topic::Equity, Topic::Healthz, Topic::Ai] {
        assert_eq!(topic_from_name(topic_name(t)), Some(t));
    }
    assert_eq!(topic_from_name("Signal"), None);
    let ev = WsEvent::Equity { ts: "t".into(), payload: serde_json::Value::Null };
    assert_eq!(ev.topic(), "equity");
}

#[test]
fn a_client_that_comes_and_goes_leaves_no_trace() {
    let mut hub = WsRegistry::new();
    hub.connect(1);
    assert!(hub.subscribe(1, &["fill".to_string()]));
    let before: Vec<Vec<u128>> = [Topic::Signal, Topic::Fill, Topic::Ai]
        .into_iter()
        .map(|t| hub.recipients(t))
        .collect();
    hub.connect(7);
    hub.disconnect(7);
    let after: Vec<Vec<u128>> = [Topic::Signal, Topic::Fill, Topic::Ai]
        .into_iter()
        .map(|t| hub.recipients(t))
        .collect();
    assert_eq!(before, after);
    assert_eq!(hub.len(), 1);
    assert_eq!(hub.stats(), (1, vec!["fill".to_string()]));
}

#[test]
fn heartbeat_pings_every_fifteen_seconds_and_drops_silent_clients() {
    assert_eq!(heartbeat_action(0, 0), HeartbeatAction::Wait);
    assert_eq!(heartbeat_action(14_999, 29_999), HeartbeatAction::Wait);
    assert_eq!(heartbeat_action(15_000, 1_000), HeartbeatAction::Ping);
    assert_eq!(heartbeat_action(15_000, 30_000), HeartbeatAction::Drop);
    assert_eq!(heartbeat_action(0, 45_000), HeartbeatAction::Drop);
}
