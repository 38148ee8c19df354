use lib::fs::error::FsError;
use lib::fs::inotify::{
    encode_event, InotifyRegistry, WatchTarget, IN_ATTRIB, IN_CREATE, IN_DELETE, IN_DELETE_SELF,
    IN_IGNORED, IN_ISDIR, IN_MASK_ADD, IN_MASK_CREATE, IN_MODIFY, IN_MOVED_FROM, IN_MOVED_TO,
    IN_ONESHOT,
};
use lib::fs::poll::POLL_READ;

fn node(inode: u64) -> WatchTarget {
    WatchTarget { device_id: 1, inode }
}

fn record(wd: i32, mask: u32, cookie: u32, name: &[u8]) -> Vec<u8> {
    let mut bytes = Vec::new();
    bytes.extend_from_slice(&wd.to_le_bytes());
    bytes.extend_from_slice(&mask.to_le_bytes());
    bytes.extend_from_slice(&cookie.to_le_bytes());
    let len = if name.is_empty() { 0 } else { (name.len() + 1 + 3) / 4 * 4 };
    bytes.extend_from_slice(&(len as u32).to_le_bytes());
    bytes.extend_from_slice(name);
    bytes.resize(16 + len, 0);
    bytes
}

#[test]
fn event_records_are_padded_to_four_bytes() {
    assert_eq!(encode_event(3, IN_CREATE, 0, b"abc"), record(3, IN_CREATE, 0, b"abc"));
    assert_eq!(encode_event(3, IN_CREATE, 0, b"abc").len(), 20);
    assert_eq!(encode_event(1, IN_IGNORED, 0, b"").len(), 16);
    assert_eq!(encode_event(1, IN_CREATE, 0, b"abcd").len(), 24);
}

#[test]
fn create_in_a_watched_directory_is_reported() {
    let mut registry = InotifyRegistry::new();
    let id = registry.create_inotify_instance();
    let at = registry.find_instance(id).unwrap();
    let wd = registry.add_watch(at, node(10), IN_CREATE | IN_DELETE).unwrap();
    assert_eq!(wd, 1);
    assert_eq!(registry.add_watch(at, node(10), IN_CREATE), Ok(1));
    assert_eq!(registry.add_watch(at, node(10), IN_CREATE | IN_MASK_CREATE), Err(FsError::AlreadyExists));
    assert_eq!(registry.add_watch(at, node(11), IN_ATTRIB), Ok(2));

    let woken = registry.notify_create(node(10), true, b"sub");
    assert_eq!(woken, vec![id]);
    assert_eq!(registry.poll(at, POLL_READ), POLL_READ);
    let bytes = registry.read(at, 4096).unwrap();
    assert_eq!(bytes, record(1, IN_CREATE | IN_ISDIR, 0, b"sub"));
    assert_eq!(registry.read(at, 4096), Err(FsError::WouldBlock));

    let unwatched = registry.notify_create(node(12), false, b"x");
    assert!(unwatched.is_empty());
}

#[test]
fn mask_add_widens_the_watch() {
    let mut registry = InotifyRegistry::new();
    let id = registry.create_inotify_instance();
    let at = registry.find_instance(id).unwrap();
    registry.add_watch(at, node(5), IN_MODIFY).unwrap();
    assert!(registry.notify_attrib(node(5)).is_empty());
    registry.add_watch(at, node(5), IN_ATTRIB | IN_MASK_ADD).unwrap();
    assert_eq!(registry.notify_attrib(node(5)), vec![id]);
    assert_eq!(registry.instance(at).watch(1).unwrap().mask, IN_MODIFY | IN_ATTRIB);
}

#[test]
fn a_oneshot_watch_fires_once() {
    let mut registry = InotifyRegistry::new();
    let id = registry.create_inotify_instance();
    let at = registry.find_instance(id).unwrap();
    registry.add_watch(at, node(7), IN_ATTRIB | IN_ONESHOT).unwrap();
    registry.notify_attrib(node(7));
    registry.notify_attrib(node(7));
    let mut expected = record(1, IN_ATTRIB, 0, b"");
    expected.extend(record(1, IN_IGNORED, 0, b""));
    assert_eq!(registry.read(at, 4096).unwrap(), expected);
    assert!(registry.instance(at).watch(1).is_none());
}

#[test]
fn removing_a_watch_queues_ignored() {
    let mut registry = InotifyRegistry::new();
    let id = registry.create_inotify_instance();
    let at = registry.find_instance(id).unwrap();
    registry.add_watch(at, node(8), IN_ATTRIB).unwrap();
    assert_eq!(registry.remove_watch(at, 1), Ok(true));
    assert_eq!(registry.remove_watch(at, 1), Err(FsError::InvalidInput));
    assert_eq!(registry.read(at, 16).unwrap(), record(1, IN_IGNORED, 0, b""));
    assert!(registry.notify_attrib(node(8)).is_empty());
}

#[test]
fn short_reads_are_refused_and_whole_events_only() {
    let mut registry = InotifyRegistry::new();
    let id = registry.create_inotify_instance();
    let at = registry.find_instance(id).unwrap();
    registry.add_watch(at, node(9), IN_ATTRIB).unwrap();
    registry.notify_attrib(node(9));
    registry.notify_attrib(node(9));
    assert_eq!(registry.read(at, 8), Err(FsError::InvalidInput));
    assert_eq!(registry.read(at, 20).unwrap(), record(1, IN_ATTRIB, 0, b""));
    assert_eq!(registry.read(at, 0).unwrap(), Vec::<u8>::new());
    assert_eq!(registry.read(at, 20).unwrap(), record(1, IN_ATTRIB, 0, b""));
}

#[test]
fn moves_share_one_cookie() {
    let mut registry = InotifyRegistry::new();
    let id = registry.create_inotify_instance();
    let at = registry.find_instance(id).unwrap();
    registry.add_watch(at, node(1), IN_MOVED_FROM).unwrap();
    registry.add_watch(at, node(2), IN_MOVED_TO).unwrap();
    registry.notify_move(node(1), node(2), node(3), false, b"a", b"b");
    let mut expected = record(1, IN_MOVED_FROM, 2, b"a");
    expected.extend(record(2, IN_MOVED_TO, 2, b"b"));
    assert_eq!(registry.read(at, 4096).unwrap(), expected);
}

#[test]
fn deleting_a_node_drops_its_watches() {
    let mut registry = InotifyRegistry::new();
    let id = registry.create_inotify_instance();
    let at = registry.find_instance(id).unwrap();
    registry.add_watch(at, node(20), IN_DELETE).unwrap();
    registry.add_watch(at, node(21), IN_DELETE_SELF).unwrap();
    registry.notify_delete(node(20), node(21), false, b"f");
    let mut expected = record(1, IN_DELETE, 0, b"f");
    expected.extend(record(1, IN_IGNORED, 0, b""));
    expected.extend(record(2, IN_DELETE_SELF, 0, b""));
    expected.extend(record(2, IN_IGNORED, 0, b""));
    assert_eq!(registry.read(at, 4096).unwrap(), expected);
    assert!(registry.instance(at).watch(1).is_none());
    assert!(registry.instance(at).watch(2).is_none());
}

#[test]
fn closed_instances_get_nothing() {
    let mut registry = InotifyRegistry::new();
    let first = registry.create_inotify_instance();
    let second = registry.create_inotify_instance();
    let a = registry.find_instance(first).unwrap();
    registry.add_watch(a, node(30), IN_ATTRIB).unwrap();
    let b = registry.find_instance(second).unwrap();
    registry.add_watch(b, node(30), IN_ATTRIB).unwrap();
    let a = registry.find_instance(first).unwrap();
    registry.close_instance(a);
    assert_eq!(registry.notify_attrib(node(30)), vec![second]);
    assert!(registry.find_instance(first).is_none());
}
