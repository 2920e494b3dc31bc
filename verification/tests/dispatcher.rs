//! The dispatcher: subscription lifecycle over the wire, disconnect
//! cascade, tolerance of unknown and malformed datagrams, button
//! routing, and the broadcast reply.

use falcon_bms_control::enet_server::{handle_event, DispatchAction, PeerEvent};
use falcon_bms_control::msgpack::{decode, encode, Command, Message};
use falcon_bms_control::state::{State, StreamKey};
use falcon_bms_control::texture_stream::StreamEngine;
use falcon_bms_control::udp_broadcast_listener::broadcast_reply;

fn stream_request(identifier: &str, command: Command) -> Vec<u8> {
    encode(&Message::StreamedTextureRequest {
        identifier: identifier.to_owned(),
        command,
        refresh_rate: Some(30),
        quality: Some(65),
    })
    .unwrap()
}

fn key(peer_id: u64, identifier: &str) -> StreamKey {
    StreamKey { peer_id, identifier: identifier.to_owned() }
}

#[test]
fn start_then_stop_over_the_wire() {
    let mut state = State::new();
    let mut engine = StreamEngine::new();
    let start = PeerEvent::Receive { peer_id: 7, payload: stream_request("f16/left-mfd", Command::Start) };
    match handle_event(&mut state, &mut engine, &start) {
        DispatchAction::Nothing => {},
        DispatchAction::InvokeCallback { name } => panic!("unexpected callback {}", name),
    }
    assert!(state.contains_key(&key(7, "f16/left-mfd")));

    let stop = PeerEvent::Receive { peer_id: 7, payload: stream_request("f16/left-mfd", Command::Stop) };
    handle_event(&mut state, &mut engine, &stop);
    assert!(!state.contains_key(&key(7, "f16/left-mfd")));
}

#[test]
fn subscriptions_are_per_peer() {
    let mut state = State::new();
    let mut engine = StreamEngine::new();
    let payload = stream_request("f16/ded", Command::Start);
    handle_event(&mut state, &mut engine, &PeerEvent::Receive { peer_id: 1, payload: payload.clone() });
    handle_event(&mut state, &mut engine, &PeerEvent::Receive { peer_id: 2, payload });
    assert!(state.contains_key(&key(1, "f16/ded")));
    assert!(state.contains_key(&key(2, "f16/ded")));
    // Stopping peer 1's stream leaves peer 2's.
    let stop = stream_request("f16/ded", Command::Stop);
    handle_event(&mut state, &mut engine, &PeerEvent::Receive { peer_id: 1, payload: stop });
    assert!(!state.contains_key(&key(1, "f16/ded")));
    assert!(state.contains_key(&key(2, "f16/ded")));
}

#[test]
fn disconnect_cascades_before_the_next_event() {
    let mut state = State::new();
    let mut engine = StreamEngine::new();
    for identifier in ["f16/left-mfd", "f16/right-mfd", "f16/ded"] {
        let payload = stream_request(identifier, Command::Start);
        handle_event(&mut state, &mut engine, &PeerEvent::Receive { peer_id: 4, payload });
    }
    let other = stream_request("f16/rwr", Command::Start);
    handle_event(&mut state, &mut engine, &PeerEvent::Receive { peer_id: 5, payload: other });

    handle_event(&mut state, &mut engine, &PeerEvent::Disconnect { peer_id: 4 });
    let snapshot = state.streams_to_send();
    assert_eq!(snapshot.len(), 1);
    assert_eq!(snapshot[0].key.peer_id, 5);
}

#[test]
fn unknown_kind_perturbs_nothing() {
    let mut state = State::new();
    let mut engine = StreamEngine::new();
    let payload = stream_request("f16/ded", Command::Start);
    handle_event(&mut state, &mut engine, &PeerEvent::Receive { peer_id: 1, payload });

    // A well-formed message of an unknown kind.
    let mut unknown = vec![0x81u8, 0xa4];
    unknown.extend_from_slice(b"type");
    unknown.push(0xa5);
    unknown.extend_from_slice(b"bogus");
    match handle_event(&mut state, &mut engine, &PeerEvent::Receive { peer_id: 1, payload: unknown }) {
        DispatchAction::Nothing => {},
        DispatchAction::InvokeCallback { name } => panic!("unexpected callback {}", name),
    }
    // Garbage bytes.
    let garbage = vec![0x01u8, 0xff, 0x03];
    match handle_event(&mut state, &mut engine, &PeerEvent::Receive { peer_id: 1, payload: garbage }) {
        DispatchAction::Nothing => {},
        DispatchAction::InvokeCallback { name } => panic!("unexpected callback {}", name),
    }
    // The subscription set is exactly as before.
    assert!(state.contains_key(&key(1, "f16/ded")));
    assert_eq!(state.streams_to_send().len(), 1);
}

#[test]
fn button_presses_are_routed_to_the_resolver() {
    let mut state = State::new();
    let mut engine = StreamEngine::new();
    let pressed = encode(&Message::IcpButtonPressed {
        icp: Some("any".to_owned()),
        button: "ENTER".to_owned(),
    })
    .unwrap();
    match handle_event(&mut state, &mut engine, &PeerEvent::Receive { peer_id: 3, payload: pressed }) {
        DispatchAction::InvokeCallback { name } => assert_eq!(name, "SimICPEnter"),
        DispatchAction::Nothing => panic!("an ICP press must reach the resolver"),
    }
    let released = encode(&Message::IcpButtonReleased {
        icp: Some("any".to_owned()),
        button: "ENTER".to_owned(),
    })
    .unwrap();
    match handle_event(&mut state, &mut engine, &PeerEvent::Receive { peer_id: 3, payload: released }) {
        DispatchAction::Nothing => {},
        DispatchAction::InvokeCallback { name } => panic!("a release must not invoke {}", name),
    }
    let osb = encode(&Message::OsbButtonPressed {
        mfd: "f16/right-mfd".to_owned(),
        osb: "05".to_owned(),
    })
    .unwrap();
    match handle_event(&mut state, &mut engine, &PeerEvent::Receive { peer_id: 3, payload: osb }) {
        DispatchAction::InvokeCallback { name } => assert_eq!(name, "SimCBE05R"),
        DispatchAction::Nothing => panic!("an OSB press must reach the resolver"),
    }
}

#[test]
fn hello_earns_an_ack_and_nothing_else_does() {
    let hello = encode(&Message::Hello).unwrap();
    let reply = broadcast_reply(&hello).expect("a hello earns an ack");
    match decode(&reply) {
        Some(Message::Ack) => {},
        other => panic!("expected Ack, got {:?}", other),
    }
    let ack = encode(&Message::Ack).unwrap();
    assert!(broadcast_reply(&ack).is_none());
    assert!(broadcast_reply(&[0x00, 0x01]).is_none());
}
