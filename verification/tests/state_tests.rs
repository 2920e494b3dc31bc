//! Subscription state: start/stop round trip, restart semantics,
//! disconnect cascade, and option defaults.

use falcon_bms_control::state::{State, StreamKey, StreamOptions};

fn key(peer_id: u64, identifier: &str) -> StreamKey {
    StreamKey { peer_id, identifier: identifier.to_owned() }
}

#[test]
fn start_then_stop_round_trip() {
    let mut state = State::new();
    let k = key(7, "f16/left-mfd");
    assert!(!state.contains_key(&k));
    state.start_stream(k.clone(), StreamOptions::new(Some(30), Some(65)));
    assert!(state.contains_key(&k));
    state.stop_stream(&k);
    assert!(!state.contains_key(&k));
    assert_eq!(state.streams_to_send().len(), 0);
}

#[test]
fn restart_replaces_rather_than_duplicates() {
    let mut state = State::new();
    let k = key(7, "f16/ded");
    state.start_stream(k.clone(), StreamOptions::new(Some(10), Some(40)));
    state.start_stream(k.clone(), StreamOptions::new(Some(60), Some(90)));
    let snapshot = state.streams_to_send();
    assert_eq!(snapshot.len(), 1);
    assert_eq!(snapshot[0].options.refresh_rate, 60);
    assert_eq!(snapshot[0].options.quality, 90);
}

#[test]
fn stopping_an_inactive_key_changes_nothing() {
    let mut state = State::new();
    state.start_stream(key(1, "f16/rwr"), StreamOptions::new(None, None));
    state.stop_stream(&key(2, "f16/rwr"));
    state.stop_stream(&key(1, "f16/ded"));
    assert_eq!(state.streams_to_send().len(), 1);
}

#[test]
fn disconnect_cascades_over_all_of_the_peers_streams() {
    let mut state = State::new();
    let opts = StreamOptions::new(None, None);
    state.start_stream(key(5, "f16/left-mfd"), opts);
    state.start_stream(key(5, "f16/right-mfd"), opts);
    state.start_stream(key(5, "f16/ded"), opts);
    state.start_stream(key(9, "f16/ded"), opts);
    state.cancel_all_streams(5);
    let snapshot = state.streams_to_send();
    assert_eq!(snapshot.len(), 1);
    assert_eq!(snapshot[0].key.peer_id, 9);
    assert_eq!(snapshot[0].key.identifier, "f16/ded");
}

#[test]
fn production_period_follows_the_rate() {
    assert_eq!(StreamOptions::new(Some(30), None).period_ms(), 33);
    assert_eq!(StreamOptions::new(Some(120), None).period_ms(), 8);
    assert_eq!(StreamOptions::new(Some(1), None).period_ms(), 1000);
    assert_eq!(StreamOptions::new(Some(60), None).period_ms(), 16);
}

#[test]
fn options_default_and_clamp() {
    let defaults = StreamOptions::new(None, None);
    assert_eq!(defaults.refresh_rate, 30);
    assert_eq!(defaults.quality, 65);
    let clamped_low = StreamOptions::new(Some(0), Some(0));
    assert_eq!(clamped_low.refresh_rate, 1);
    assert_eq!(clamped_low.quality, 1);
    let clamped_high = StreamOptions::new(Some(500), Some(200));
    assert_eq!(clamped_high.refresh_rate, 120);
    assert_eq!(clamped_high.quality, 100);
    let in_range = StreamOptions::new(Some(24), Some(80));
    assert_eq!(in_range.refresh_rate, 24);
    assert_eq!(in_range.quality, 80);
}
