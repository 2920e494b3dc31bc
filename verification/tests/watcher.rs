//! Keyfile change detection: one parse per change, none while the
//! contents stay put.

use falcon_bms_control::keyfile_watcher::KeyfileWatcher;

#[test]
fn first_sight_parses_unchanged_does_not() {
    let mut watcher = KeyfileWatcher::new();
    assert!(watcher.observe(b"callback lines v1"));
    for _ in 0..5 {
        assert!(!watcher.observe(b"callback lines v1"));
    }
}

#[test]
fn each_change_parses_exactly_once() {
    let mut watcher = KeyfileWatcher::new();
    assert!(watcher.observe(b"first contents"));
    assert!(!watcher.observe(b"first contents"));
    assert!(watcher.observe(b"second contents"));
    assert!(!watcher.observe(b"second contents"));
    assert!(!watcher.observe(b"second contents"));
    // Reverting to earlier contents is a change again.
    assert!(watcher.observe(b"first contents"));
}

#[test]
fn empty_contents_are_contents_too() {
    let mut watcher = KeyfileWatcher::new();
    assert!(watcher.observe(b""));
    assert!(!watcher.observe(b""));
    assert!(watcher.observe(b"no longer empty"));
}
