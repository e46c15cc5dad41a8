use crawlds::ipc::events::NotifyEvent;
use crawlds::ipc::types::{Notification, Urgency};
use crawlds::notify::{
    effective_timeout, parse_actions, receive_notification, urgency_from_hint, Config, NotifyStore,
};

fn notif(id: u32, summary: &str) -> Notification {
    Notification {
        id,
        app_name: "app".to_string(),
        summary: summary.to_string(),
        body: String::new(),
        icon: String::new(),
        urgency: Urgency::Normal,
        actions: vec![],
        expire_timeout_ms: 5000,
        timestamp_ms: 1,
    }
}

#[test]
fn ids_count_up_from_one() {
    let mut store = NotifyStore::new(10);
    assert_eq!(store.insert(notif(0, "a")), 1);
    assert_eq!(store.insert(notif(0, "b")), 2);
    assert_eq!(store.insert(notif(42, "c")), 42);
    assert_eq!(store.insert(notif(0, "d")), 3);
    let ids: Vec<u32> = store.list().iter().map(|n| n.id).collect();
    assert_eq!(ids, vec![1, 2, 3, 42]);
}

#[test]
fn full_store_evicts_smallest_id() {
    let mut store = NotifyStore::new(2);
    store.insert(notif(5, "five"));
    store.insert(notif(3, "three"));
    store.insert(notif(9, "nine"));
    let ids: Vec<u32> = store.list().iter().map(|n| n.id).collect();
    assert_eq!(ids, vec![5, 9]);
}

#[test]
fn remove_returns_the_notification() {
    let mut store = NotifyStore::new(10);
    let id = store.insert(notif(0, "hello"));
    let removed = store.remove(id).unwrap();
    assert_eq!(removed.summary, "hello");
    assert_eq!(removed.id, id);
    assert!(store.remove(id).is_none());
    assert!(store.list().is_empty());
}

#[test]
fn replacing_a_notification() {
    let mut store = NotifyStore::new(10);
    let (id, ev) = receive_notification(&mut store, notif(0, "first"));
    assert_eq!(id, 1);
    assert!(matches!(ev, NotifyEvent::New { ref notification } if notification.id == 1));
    let (id2, ev2) = receive_notification(&mut store, notif(1, "second"));
    assert_eq!(id2, 1);
    assert!(matches!(ev2, NotifyEvent::Replaced { ref notification } if notification.summary == "second"));
    let (id3, ev3) = receive_notification(&mut store, notif(7, "seventh"));
    assert_eq!(id3, 7);
    assert!(matches!(ev3, NotifyEvent::New { .. }));
    assert_eq!(store.list().len(), 2);
}

#[test]
fn call_arguments() {
    assert!(matches!(urgency_from_hint(Some(0)), Urgency::Low));
    assert!(matches!(urgency_from_hint(Some(1)), Urgency::Normal));
    assert!(matches!(urgency_from_hint(Some(2)), Urgency::Critical));
    assert!(matches!(urgency_from_hint(None), Urgency::Normal));
    let actions = parse_actions(&["default".to_string(), "Open".to_string(), "dangling".to_string()]);
    assert_eq!(actions.len(), 1);
    assert_eq!(actions[0].key, "default");
    assert_eq!(actions[0].label, "Open");
    assert_eq!(effective_timeout(-1, 5000), 5000);
    assert_eq!(effective_timeout(0, 5000), 0);
    assert_eq!(effective_timeout(1200, 5000), 1200);
    let c = Config::default();
    assert!(c.replace_daemon);
    assert_eq!(c.default_timeout_ms, 5000);
    assert_eq!(c.max_store, 200);
}
