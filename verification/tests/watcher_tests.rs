use tray_broker::watcher::{StatusNotifierWatcher, WatcherSignal, PROTOCOL_VERSION};

fn names(list: &[&str]) -> Vec<String> {
    list.iter().map(|s| s.to_string()).collect()
}

#[test]
fn starts_empty() {
    let watcher = StatusNotifierWatcher::new();
    assert!(!watcher.is_status_notifier_host_registered());
    assert!(watcher.registered_status_notifier_items().is_empty());
}

#[test]
fn protocol_version_is_one() {
    let watcher = StatusNotifierWatcher::new();
    assert_eq!(watcher.protocol_version(), 1);
    assert_eq!(PROTOCOL_VERSION, 1);
}

#[test]
fn register_inserts_and_notifies() {
    let mut watcher = StatusNotifierWatcher::new();
    let signals = watcher.register_status_notifier_item("org.example.App1");
    assert_eq!(
        signals,
        vec![
            WatcherSignal::RegisteredItemsChanged,
            WatcherSignal::ItemRegistered("org.example.App1".to_string()),
        ]
    );
    assert_eq!(watcher.registered_status_notifier_items(), names(&["org.example.App1"]));
}

#[test]
fn register_twice_lists_once_and_notifies_twice() {
    let mut watcher = StatusNotifierWatcher::new();
    let first = watcher.register_status_notifier_item(":1.42");
    let second = watcher.register_status_notifier_item(":1.42");
    assert_eq!(watcher.registered_status_notifier_items(), names(&[":1.42"]));
    let registered = WatcherSignal::ItemRegistered(":1.42".to_string());
    assert_eq!(first.iter().filter(|s| **s == registered).count(), 1);
    assert_eq!(second.iter().filter(|s| **s == registered).count(), 1);
    assert_eq!(first, second);
}

#[test]
fn register_keeps_other_peers() {
    let mut watcher = StatusNotifierWatcher::new();
    watcher.register_status_notifier_item("a");
    watcher.register_status_notifier_item("b");
    watcher.register_status_notifier_item("a");
    watcher.register_status_notifier_item("c");
    assert_eq!(watcher.registered_status_notifier_items(), names(&["a", "b", "c"]));
}

#[test]
fn unregister_removes_and_notifies() {
    let mut watcher = StatusNotifierWatcher::new();
    watcher.register_status_notifier_item("a");
    watcher.register_status_notifier_item("b");
    watcher.register_status_notifier_item("c");
    let signals = watcher.unregister_status_notifier_item("b");
    assert_eq!(
        signals,
        vec![
            WatcherSignal::RegisteredItemsChanged,
            WatcherSignal::ItemUnregistered("b".to_string()),
        ]
    );
    assert_eq!(watcher.registered_status_notifier_items(), names(&["a", "c"]));
}

#[test]
fn unregister_absent_changes_nothing_and_notifies() {
    let mut watcher = StatusNotifierWatcher::new();
    watcher.register_status_notifier_item("a");
    let signals = watcher.unregister_status_notifier_item("zzz");
    assert_eq!(
        signals,
        vec![
            WatcherSignal::RegisteredItemsChanged,
            WatcherSignal::ItemUnregistered("zzz".to_string()),
        ]
    );
    assert_eq!(watcher.registered_status_notifier_items(), names(&["a"]));
    assert!(!watcher.is_status_notifier_host_registered());
}

#[test]
fn unregister_on_empty_registry() {
    let mut watcher = StatusNotifierWatcher::new();
    let signals = watcher.unregister_status_notifier_item("a");
    assert_eq!(signals.len(), 2);
    assert!(watcher.registered_status_notifier_items().is_empty());
}

#[test]
fn unregister_twice_is_unregister_once() {
    let mut watcher = StatusNotifierWatcher::new();
    watcher.register_status_notifier_item("a");
    watcher.register_status_notifier_item("b");
    let first = watcher.unregister_status_notifier_item("a");
    let second = watcher.unregister_status_notifier_item("a");
    assert_eq!(first, second);
    assert_eq!(watcher.registered_status_notifier_items(), names(&["b"]));
}

#[test]
fn register_after_unregister_lists_again() {
    let mut watcher = StatusNotifierWatcher::new();
    watcher.register_status_notifier_item("a");
    watcher.unregister_status_notifier_item("a");
    watcher.register_status_notifier_item("a");
    assert_eq!(watcher.registered_status_notifier_items(), names(&["a"]));
}

#[test]
fn host_registration_sets_flag_and_notifies() {
    let mut watcher = StatusNotifierWatcher::new();
    let signals = watcher.register_status_notifier_host("org.kde.StatusNotifierHost-1");
    assert_eq!(
        signals,
        vec![
            WatcherSignal::HostRegisteredChanged,
            WatcherSignal::HostRegistered("org.kde.StatusNotifierHost-1".to_string()),
        ]
    );
    assert!(watcher.is_status_notifier_host_registered());
}

#[test]
fn host_flag_stays_set() {
    let mut watcher = StatusNotifierWatcher::new();
    watcher.register_status_notifier_host("first");
    watcher.register_status_notifier_host("second");
    watcher.register_status_notifier_item("a");
    watcher.unregister_status_notifier_item("a");
    assert!(watcher.is_status_notifier_host_registered());
}

#[test]
fn host_registration_leaves_peers_alone() {
    let mut watcher = StatusNotifierWatcher::new();
    watcher.register_status_notifier_item("a");
    watcher.register_status_notifier_host("host");
    assert_eq!(watcher.registered_status_notifier_items(), names(&["a"]));
}

#[test]
fn listed_items_are_a_copy() {
    let mut watcher = StatusNotifierWatcher::new();
    watcher.register_status_notifier_item("a");
    let mut copy = watcher.registered_status_notifier_items();
    copy.push("b".to_string());
    copy.clear();
    assert_eq!(watcher.registered_status_notifier_items(), names(&["a"]));
}

#[test]
fn peer_names_are_compared_exactly() {
    let mut watcher = StatusNotifierWatcher::new();
    watcher.register_status_notifier_item("App");
    watcher.register_status_notifier_item("app");
    watcher.register_status_notifier_item("");
    assert_eq!(watcher.registered_status_notifier_items(), names(&["App", "app", ""]));
    watcher.unregister_status_notifier_item("APP");
    assert_eq!(watcher.registered_status_notifier_items().len(), 3);
}
