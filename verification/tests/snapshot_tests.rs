use tray_broker::icon_cache::IconError;
use tray_broker::item::{Icon, Item};
use tray_broker::pixmap::PixmapError;
use tray_broker::snapshot::{snapshot, snapshot_icon};

#[test]
fn snapshot_icon_uses_the_first_candidate() {
    let small = vec![255, 1, 2, 3];
    let large = vec![0u8; 16];
    let entry = snapshot_icon("/tmp", &[(1, 1, small.clone()), (2, 2, large.clone())]).unwrap();
    assert_eq!((entry.width, entry.height), (1, 1));
    let entry = snapshot_icon("/tmp", &[(2, 2, large), (1, 1, small)]).unwrap();
    assert_eq!((entry.width, entry.height), (2, 2));
}

#[test]
fn snapshot_icon_without_candidates_fails() {
    assert_eq!(snapshot_icon("/tmp", &[]), Err(IconError::Pixmap(PixmapError::NoCandidate)));
}

#[test]
fn snapshot_icon_with_negative_size_fails() {
    assert_eq!(
        snapshot_icon("/tmp", &[(-1, 1, vec![0; 4])]),
        Err(IconError::Pixmap(PixmapError::NegativeSize))
    );
}

#[test]
fn snapshot_icon_with_wrong_buffer_fails() {
    assert_eq!(
        snapshot_icon("/tmp", &[(2, 2, vec![0; 15]), (1, 1, vec![0; 4])]),
        Err(IconError::Pixmap(PixmapError::SizeMismatch))
    );
}

#[test]
fn snapshot_icon_of_empty_image_fails() {
    assert_eq!(snapshot_icon("/tmp", &[(0, 0, Vec::new())]), Err(IconError::Encoding));
}

#[test]
fn snapshot_takes_size_from_the_entry() {
    let entry = snapshot_icon("/tmp", &[(3, 2, vec![0; 24])]).unwrap();
    let item = snapshot("T".to_string(), &entry);
    assert_eq!(
        item,
        Item {
            title: "T".to_string(),
            icon: Icon { width: 3, height: 2, path: entry.path.clone() },
        }
    );
    assert!(item.icon.path.starts_with("/tmp/"));
    assert!(item.icon.path.ends_with(".png"));
}
