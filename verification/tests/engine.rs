//! The stream engine: one encode shared across peers, per-peer dedup
//! across ticks, retry after a failed encode, and peer teardown.

use falcon_bms_control::state::{StreamKey, StreamOptions, Subscription};
use falcon_bms_control::texture_stream::{StreamEngine, TextureFrame, TickStep, CACHE_CAP};

fn subscription(peer_id: u64, identifier: &str, options: StreamOptions) -> Subscription {
    Subscription {
        key: StreamKey { peer_id, identifier: identifier.to_owned() },
        options,
    }
}

fn frame(fill: u8) -> TextureFrame {
    TextureFrame { pixels: vec![fill; 4 * 4 * 3], width: 4, height: 4 }
}

#[test]
fn one_encode_serves_both_peers() {
    let mut engine = StreamEngine::new();
    let options = StreamOptions::new(Some(10), Some(65));
    let first = subscription(1, "f16/ded", options);
    let second = subscription(2, "f16/ded", options);
    let pixels = frame(0x40);
    let jpeg = vec![0xffu8, 0xd8, 0x11, 0x22, 0x33];

    let hash = match engine.begin_tick(&first, Some(&pixels)) {
        TickStep::Encode { quality, hash } => {
            assert_eq!(quality, 65);
            hash
        },
        _ => panic!("the first tick of a new frame must ask for an encode"),
    };
    let payload = engine.finish_encode(options, hash, Some(jpeg.clone())).unwrap();
    assert_eq!(payload, jpeg);
    engine.mark_sent(&first.key, hash);

    // The second peer's tick is served from the cache: no second encode.
    match engine.begin_tick(&second, Some(&pixels)) {
        TickStep::Send { payload, hash: h } => {
            assert_eq!(payload, jpeg);
            assert_eq!(h, hash);
        },
        TickStep::Encode { .. } => panic!("the cached frame must not be encoded again"),
        TickStep::Skip => panic!("the second peer has not seen this frame yet"),
    }
}

#[test]
fn identical_pixels_are_deduplicated_per_peer() {
    let mut engine = StreamEngine::new();
    let options = StreamOptions::new(Some(30), Some(65));
    let sub = subscription(1, "f16/left-mfd", options);
    let pixels = frame(0x7f);

    let hash = match engine.begin_tick(&sub, Some(&pixels)) {
        TickStep::Encode { hash, .. } => hash,
        _ => panic!("first tick must encode"),
    };
    engine.finish_encode(options, hash, Some(vec![1, 2, 3])).unwrap();
    engine.mark_sent(&sub.key, hash);

    // Same pixels on the next tick: nothing is enqueued.
    match engine.begin_tick(&sub, Some(&pixels)) {
        TickStep::Skip => {},
        _ => panic!("an unchanged frame must be skipped for the same peer"),
    }

    // Different pixels hash differently: the tick produces again.
    match engine.begin_tick(&sub, Some(&frame(0x80))) {
        TickStep::Encode { .. } => {},
        _ => panic!("a changed frame must be produced again"),
    }
}

#[test]
fn unavailable_source_skips_the_tick() {
    let mut engine = StreamEngine::new();
    let sub = subscription(1, "f16/rwr", StreamOptions::new(None, None));
    match engine.begin_tick(&sub, None) {
        TickStep::Skip => {},
        _ => panic!("no pixels, nothing to do"),
    }
}

#[test]
fn failed_encode_is_retried_next_tick() {
    let mut engine = StreamEngine::new();
    let options = StreamOptions::new(None, None);
    let sub = subscription(3, "f16/ded", options);
    let pixels = frame(0x01);
    let hash = match engine.begin_tick(&sub, Some(&pixels)) {
        TickStep::Encode { hash, .. } => hash,
        _ => panic!("first tick must encode"),
    };
    assert!(engine.finish_encode(options, hash, None).is_none());
    // Nothing was cached or recorded sent: the next tick asks again.
    match engine.begin_tick(&sub, Some(&pixels)) {
        TickStep::Encode { .. } => {},
        _ => panic!("a failed encode must be retried"),
    }
}

#[test]
fn oversized_payload_is_sent_but_not_cached() {
    let mut engine = StreamEngine::new();
    let options = StreamOptions::new(None, None);
    let sub = subscription(4, "f16/left-mfd", options);
    let pixels = frame(0x02);
    let hash = match engine.begin_tick(&sub, Some(&pixels)) {
        TickStep::Encode { hash, .. } => hash,
        _ => panic!("first tick must encode"),
    };
    let huge = vec![0u8; CACHE_CAP + 1];
    let payload = engine.finish_encode(options, hash, Some(huge)).unwrap();
    assert_eq!(payload.len(), CACHE_CAP + 1);
    // Not cached: the same frame must be encoded again.
    match engine.begin_tick(&sub, Some(&pixels)) {
        TickStep::Encode { .. } => {},
        _ => panic!("an uncacheable frame must be encoded again"),
    }
}

#[test]
fn drop_peer_forgets_the_dedup_memory() {
    let mut engine = StreamEngine::new();
    let options = StreamOptions::new(None, None);
    let sub = subscription(6, "f16/ded", options);
    let pixels = frame(0x03);
    let hash = match engine.begin_tick(&sub, Some(&pixels)) {
        TickStep::Encode { hash, .. } => hash,
        _ => panic!("first tick must encode"),
    };
    engine.finish_encode(options, hash, Some(vec![9, 9])).unwrap();
    engine.mark_sent(&sub.key, hash);
    engine.drop_peer(6);
    // The dedup memory is gone, but the cache still serves the bytes.
    match engine.begin_tick(&sub, Some(&pixels)) {
        TickStep::Send { payload, .. } => assert_eq!(payload, vec![9, 9]),
        _ => panic!("after a reconnect the cached frame is sent again"),
    }
}
