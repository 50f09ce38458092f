use tray_broker::aggregator::Aggregator;
use tray_broker::icon_cache::{digest, file_name};
use tray_broker::item::{Icon, Item};
use tray_broker::session::{PeerSession, SessionAction, SessionEvent};
use tray_broker::snapshot::{snapshot, snapshot_icon};
use tray_broker::watcher::StatusNotifierWatcher;

fn carry_out(
    actions: Vec<SessionAction>,
    watcher: &mut StatusNotifierWatcher,
    aggregator: &mut Aggregator,
) -> Vec<Vec<Item>> {
    let mut frames = Vec::new();
    for action in actions {
        match action {
            SessionAction::Update(peer, update) => frames.push(aggregator.apply(peer, update)),
            SessionAction::Unregister(peer) => {
                watcher.unregister_status_notifier_item(&peer);
            }
        }
    }
    frames
}

#[test]
fn peer_appears_and_departs() {
    let mut watcher = StatusNotifierWatcher::new();
    let mut aggregator = Aggregator::new();

    watcher.register_status_notifier_item("org.example.App1");
    let mut session = PeerSession::new("org.example.App1");

    let raw: Vec<u8> = [255u8, 10, 20, 30].iter().cycle().take(16).cloned().collect();
    let entry = snapshot_icon("/tmp", &[(2, 2, raw)]).unwrap();
    let decoded = image::load_from_memory_with_format(&entry.png, image::ImageFormat::Png)
        .unwrap()
        .to_rgba8();
    assert_eq!(decoded.dimensions(), (2, 2));
    for pixel in decoded.pixels() {
        assert_eq!(pixel.0, [10, 20, 30, 255]);
    }

    let rgba: Vec<u8> = [10u8, 20, 30, 255].iter().cycle().take(16).cloned().collect();
    let path = format!("/tmp/{}", file_name(digest(&rgba)));
    assert_eq!(entry.path, path);
    let item = snapshot("App1".to_string(), &entry);
    let actions = session.step(SessionEvent::Snapshot(item));
    let frames = carry_out(actions, &mut watcher, &mut aggregator);
    assert_eq!(frames.len(), 1);
    assert_eq!(
        frames[0],
        vec![Item { title: "App1".to_string(), icon: Icon { width: 2, height: 2, path } }]
    );

    let actions = session.step(SessionEvent::OwnerChanged(None));
    let frames = carry_out(actions, &mut watcher, &mut aggregator);
    assert_eq!(frames, vec![Vec::<Item>::new()]);
    assert!(watcher.registered_status_notifier_items().is_empty());
    assert!(session.is_closed());
}

#[test]
fn two_peers_with_the_same_icon_share_the_file() {
    let raw: Vec<u8> = (0..64).collect();
    let first = snapshot_icon("/tmp", &[(4, 4, raw.clone())]).unwrap();
    let second = snapshot_icon("/tmp", &[(4, 4, raw), (1, 1, vec![0; 4])]).unwrap();
    assert_eq!(first.path, second.path);
    assert_eq!(first.png, second.png);
}

#[test]
fn failing_peer_leaves_the_others_alone() {
    let mut watcher = StatusNotifierWatcher::new();
    let mut aggregator = Aggregator::new();
    watcher.register_status_notifier_item("good");
    watcher.register_status_notifier_item("bad");
    let mut good = PeerSession::new("good");
    let mut bad = PeerSession::new("bad");

    let entry = snapshot_icon("/tmp", &[(1, 1, vec![255, 1, 2, 3])]).unwrap();
    let actions = good.step(SessionEvent::Snapshot(snapshot("Good".to_string(), &entry)));
    carry_out(actions, &mut watcher, &mut aggregator);

    assert!(snapshot_icon("/tmp", &[(1, 1, vec![255, 1, 2])]).is_err());
    let actions = bad.step(SessionEvent::Failed);
    assert!(carry_out(actions, &mut watcher, &mut aggregator).is_empty());

    assert_eq!(aggregator.len(), 1);
    assert_eq!(aggregator.frame()[0].title, "Good");
    assert_eq!(watcher.registered_status_notifier_items().len(), 2);
    assert!(!good.is_closed());
}
