//! Wire codec: round trips for every message kind, tolerance of
//! unknown kinds, rejection of malformed bytes, and byte-for-byte
//! agreement with an independent msgpack writer.

use falcon_bms_control::msgpack::{decode, encode, Command, Message};

fn round_trip(m: &Message) -> Message {
    let bytes = encode(m).expect("message should encode");
    decode(&bytes).expect("encoded message should decode")
}

#[test]
fn hello_round_trips() {
    match round_trip(&Message::Hello) {
        Message::Hello => {},
        other => panic!("expected Hello, got {:?}", other),
    }
}

#[test]
fn ack_round_trips() {
    match round_trip(&Message::Ack) {
        Message::Ack => {},
        other => panic!("expected Ack, got {:?}", other),
    }
}

#[test]
fn icp_pressed_round_trips() {
    let m = Message::IcpButtonPressed { icp: Some("main".to_owned()), button: "ENTER".to_owned() };
    match round_trip(&m) {
        Message::IcpButtonPressed { icp, button } => {
            assert_eq!(icp.as_deref(), Some("main"));
            assert_eq!(button, "ENTER");
        },
        other => panic!("expected IcpButtonPressed, got {:?}", other),
    }
}

#[test]
fn icp_pressed_without_panel_round_trips() {
    let m = Message::IcpButtonPressed { icp: None, button: "A-G".to_owned() };
    match round_trip(&m) {
        Message::IcpButtonPressed { icp, button } => {
            assert!(icp.is_none());
            assert_eq!(button, "A-G");
        },
        other => panic!("expected IcpButtonPressed, got {:?}", other),
    }
}

#[test]
fn icp_released_round_trips() {
    let m = Message::IcpButtonReleased { icp: Some("main".to_owned()), button: "0".to_owned() };
    match round_trip(&m) {
        Message::IcpButtonReleased { icp, button } => {
            assert_eq!(icp.as_deref(), Some("main"));
            assert_eq!(button, "0");
        },
        other => panic!("expected IcpButtonReleased, got {:?}", other),
    }
}

#[test]
fn osb_pressed_round_trips() {
    let m = Message::OsbButtonPressed { mfd: "f16/left-mfd".to_owned(), osb: "05".to_owned() };
    match round_trip(&m) {
        Message::OsbButtonPressed { mfd, osb } => {
            assert_eq!(mfd, "f16/left-mfd");
            assert_eq!(osb, "05");
        },
        other => panic!("expected OsbButtonPressed, got {:?}", other),
    }
}

#[test]
fn osb_released_round_trips() {
    let m = Message::OsbButtonReleased { mfd: "f16/right-mfd".to_owned(), osb: "19".to_owned() };
    match round_trip(&m) {
        Message::OsbButtonReleased { mfd, osb } => {
            assert_eq!(mfd, "f16/right-mfd");
            assert_eq!(osb, "19");
        },
        other => panic!("expected OsbButtonReleased, got {:?}", other),
    }
}

#[test]
fn streamed_texture_start_round_trips() {
    let m = Message::StreamedTextureRequest {
        identifier: "f16/ded".to_owned(),
        command: Command::Start,
        refresh_rate: Some(30),
        quality: Some(65),
    };
    match round_trip(&m) {
        Message::StreamedTextureRequest { identifier, command, refresh_rate, quality } => {
            assert_eq!(identifier, "f16/ded");
            assert_eq!(command, Command::Start);
            assert_eq!(refresh_rate, Some(30));
            assert_eq!(quality, Some(65));
        },
        other => panic!("expected StreamedTextureRequest, got {:?}", other),
    }
}

#[test]
fn streamed_texture_stop_round_trips() {
    let m = Message::StreamedTextureRequest {
        identifier: "f16/rwr".to_owned(),
        command: Command::Stop,
        refresh_rate: None,
        quality: None,
    };
    match round_trip(&m) {
        Message::StreamedTextureRequest { identifier, command, refresh_rate, quality } => {
            assert_eq!(identifier, "f16/rwr");
            assert_eq!(command, Command::Stop);
            assert_eq!(refresh_rate, None);
            assert_eq!(quality, None);
        },
        other => panic!("expected StreamedTextureRequest, got {:?}", other),
    }
}

#[test]
fn wide_rate_values_round_trip() {
    for rate in [1u16, 127, 128, 255, 256, 300, 65535] {
        let m = Message::StreamedTextureRequest {
            identifier: "f16/ded".to_owned(),
            command: Command::Start,
            refresh_rate: Some(rate),
            quality: Some(100),
        };
        match round_trip(&m) {
            Message::StreamedTextureRequest { refresh_rate, .. } => {
                assert_eq!(refresh_rate, Some(rate));
            },
            other => panic!("expected StreamedTextureRequest, got {:?}", other),
        }
    }
}

#[test]
fn unknown_kind_decodes_to_unknown() {
    // A well-formed map whose type tag this server does not know.
    let mut bytes = vec![0x81u8];
    bytes.push(0xa4);
    bytes.extend_from_slice(b"type");
    bytes.push(0xa5);
    bytes.extend_from_slice(b"bogus");
    match decode(&bytes) {
        Some(Message::Unknown) => {},
        other => panic!("expected Unknown, got {:?}", other),
    }
}

#[test]
fn unknown_cannot_be_encoded() {
    assert!(encode(&Message::Unknown).is_none());
}

#[test]
fn malformed_bytes_are_rejected() {
    assert!(decode(&[]).is_none());
    // Not a map at all.
    assert!(decode(&[0xa3, b'a', b'b', b'c']).is_none());
    // A map whose first key is not "type".
    let mut bytes = vec![0x81u8];
    bytes.push(0xa4);
    bytes.extend_from_slice(b"kind");
    bytes.push(0xa5);
    bytes.extend_from_slice(b"hello");
    assert!(decode(&bytes).is_none());
    // Truncated: the tag string promises more bytes than there are.
    assert!(decode(&[0x81, 0xa4, b't', b'y', b'p', b'e', 0xa5, b'h', b'e']).is_none());
    // A hello map that claims a second entry it does not have.
    let mut short = vec![0x82u8];
    short.push(0xa4);
    short.extend_from_slice(b"type");
    short.push(0xa5);
    short.extend_from_slice(b"hello");
    assert!(decode(&short).is_none());
    // A string field holding invalid UTF-8.
    let mut bad = vec![0x81u8];
    bad.push(0xa4);
    bad.extend_from_slice(b"type");
    bad.push(0xa2);
    bad.extend_from_slice(&[0xff, 0xfe]);
    assert!(decode(&bad).is_none());
}

#[test]
fn agrees_with_independent_writer_on_hello() {
    let mut reference = Vec::new();
    rmp::encode::write_map_len(&mut reference, 1).unwrap();
    rmp::encode::write_str(&mut reference, "type").unwrap();
    rmp::encode::write_str(&mut reference, "hello").unwrap();
    assert_eq!(encode(&Message::Hello).unwrap(), reference);
    match decode(&reference) {
        Some(Message::Hello) => {},
        other => panic!("expected Hello, got {:?}", other),
    }
}

#[test]
fn agrees_with_independent_writer_on_stream_request() {
    let mut reference = Vec::new();
    rmp::encode::write_map_len(&mut reference, 5).unwrap();
    rmp::encode::write_str(&mut reference, "type").unwrap();
    rmp::encode::write_str(&mut reference, "streamed-texture").unwrap();
    rmp::encode::write_str(&mut reference, "identifier").unwrap();
    rmp::encode::write_str(&mut reference, "f16/left-mfd").unwrap();
    rmp::encode::write_str(&mut reference, "command").unwrap();
    rmp::encode::write_str(&mut reference, "start").unwrap();
    rmp::encode::write_str(&mut reference, "refresh_rate").unwrap();
    rmp::encode::write_uint(&mut reference, 30).unwrap();
    rmp::encode::write_str(&mut reference, "quality").unwrap();
    rmp::encode::write_uint(&mut reference, 65).unwrap();
    let ours = encode(&Message::StreamedTextureRequest {
        identifier: "f16/left-mfd".to_owned(),
        command: Command::Start,
        refresh_rate: Some(30),
        quality: Some(65),
    })
    .unwrap();
    assert_eq!(ours, reference);
    match decode(&reference) {
        Some(Message::StreamedTextureRequest { identifier, command, refresh_rate, quality }) => {
            assert_eq!(identifier, "f16/left-mfd");
            assert_eq!(command, Command::Start);
            assert_eq!(refresh_rate, Some(30));
            assert_eq!(quality, Some(65));
        },
        other => panic!("expected StreamedTextureRequest, got {:?}", other),
    }
}
