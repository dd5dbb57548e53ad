use infinite_flux::messages::{ClientMessage, ServerMessage, WorldSnapshot};
use infinite_flux::protocol::{
    frame, try_read_frame, FrameError, BUILDING_CODE_GENERATOR, BUILDING_CODE_MINING_DRILL,
    DEFAULT_SERVER_PORT, MAX_FRAME_SIZE, PROTOCOL_VERSION,
};
use infinite_flux::server::{respond, NetInbound, NetOutbound};

/// The bincode encoding of `ClientMessage::Ping { timestamp_ms }`: the
/// variant index as a little-endian `u32`, then the timestamp as a
/// little-endian `u64`.
fn ping_payload(timestamp_ms: u64) -> Vec<u8> {
    let mut v = 4u32.to_le_bytes().to_vec();
    v.extend_from_slice(&timestamp_ms.to_le_bytes());
    v
}

#[test]
fn frame_roundtrip_single() {
    let payload = ping_payload(1);
    let framed = frame(&payload).unwrap();
    let (read, consumed) = try_read_frame(&framed).unwrap();
    assert_eq!(consumed, framed.len());
    assert_eq!(read, payload);
}

#[test]
fn frame_roundtrip_multiple_concatenated() {
    let a = frame(&ping_payload(1)).unwrap();
    let b = frame(&ping_payload(2)).unwrap();
    let mut stream = Vec::new();
    stream.extend_from_slice(&a);
    stream.extend_from_slice(&b);
    let (p1, n1) = try_read_frame(&stream).unwrap();
    assert_eq!(n1, a.len());
    assert_eq!(p1, ping_payload(1));
    let (p2, n2) = try_read_frame(&stream[n1..]).unwrap();
    assert_eq!(n2, b.len());
    assert_eq!(p2, ping_payload(2));
}

#[test]
fn frame_incomplete_header() {
    let err = try_read_frame(&[0, 0, 0]).unwrap_err();
    assert!(matches!(err, FrameError::Incomplete));
}

#[test]
fn frame_incomplete_payload() {
    let mut buf = Vec::new();
    buf.extend_from_slice(&10u32.to_be_bytes());
    buf.extend_from_slice(&[1, 2]);
    let err = try_read_frame(&buf).unwrap_err();
    assert!(matches!(err, FrameError::Incomplete));
}

#[test]
fn frame_rejects_empty() {
    let mut buf = Vec::new();
    buf.extend_from_slice(&0u32.to_be_bytes());
    let err = try_read_frame(&buf).unwrap_err();
    assert!(matches!(err, FrameError::EmptyFrame));
}

#[test]
fn frame_rejects_too_large() {
    let mut buf = Vec::new();
    buf.extend_from_slice(&(MAX_FRAME_SIZE + 1).to_be_bytes());
    let err = try_read_frame(&buf).unwrap_err();
    assert!(matches!(err, FrameError::TooLarge(_)));
}

#[test]
fn frame_prefix_is_big_endian_length() {
    let framed = frame(&[9u8; 258]).unwrap();
    assert_eq!(&framed[..4], &[0, 0, 1, 2]);
    assert_eq!(framed.len(), 262);
    match try_read_frame(&[0, 0, 0, 5, 1, 2, 3, 4, 5, 6, 7]) {
        Ok((payload, used)) => {
            assert_eq!(payload, vec![1, 2, 3, 4, 5]);
            assert_eq!(used, 9);
        }
        Err(e) => panic!("unexpected error: {e:?}"),
    }
}

#[test]
fn frame_refuses_oversized_payload() {
    let big = vec![0u8; MAX_FRAME_SIZE as usize + 1];
    match frame(&big) {
        Err(FrameError::TooLarge(n)) => assert_eq!(n, MAX_FRAME_SIZE + 1),
        other => panic!("unexpected result: {:?}", other.map(|v| v.len())),
    }
}

#[test]
fn frame_too_large_reports_declared_length() {
    match try_read_frame(&[0xff, 0xff, 0xff, 0xff]) {
        Err(FrameError::TooLarge(n)) => assert_eq!(n, u32::MAX),
        other => panic!("unexpected result: {:?}", other.map(|p| p.1)),
    }
}

#[test]
fn protocol_constants() {
    assert_eq!(PROTOCOL_VERSION, 1);
    assert_eq!(DEFAULT_SERVER_PORT, 7777);
    assert_eq!(MAX_FRAME_SIZE, 16 * 1024 * 1024);
    assert_eq!(BUILDING_CODE_MINING_DRILL, 0);
    assert_eq!(BUILDING_CODE_GENERATOR, 4);
}

// ------------------------------------------------------------------ server

#[test]
fn server_welcomes_new_connection() {
    match respond(NetInbound::Connected { client_id: 42 }) {
        Some(NetOutbound::ToClient { client_id, msg: ServerMessage::Welcome { player_id, snapshot } }) => {
            assert_eq!(client_id, 42);
            assert_eq!(player_id, 42);
            assert_eq!(snapshot.tick, 0);
            assert!(snapshot.buildings.is_empty());
            assert!(snapshot.resources.is_empty());
        }
        other => panic!("unexpected reply: {other:?}"),
    }
}

#[test]
fn server_answers_ping_with_pong() {
    let reply = respond(NetInbound::Message { client_id: 3, msg: ClientMessage::Ping { timestamp_ms: 424242 } });
    match reply {
        Some(NetOutbound::ToClient { client_id: 3, msg: ServerMessage::Pong { timestamp_ms } }) => {
            assert_eq!(timestamp_ms, 424242)
        }
        other => panic!("unexpected reply: {other:?}"),
    }
}

#[test]
fn server_relays_chat_under_player_label() {
    let reply = respond(NetInbound::Message { client_id: 17, msg: ClientMessage::Chat { text: "hello".to_string() } });
    match reply {
        Some(NetOutbound::Broadcast { msg: ServerMessage::Chat { from, text } }) => {
            assert_eq!(from, "player17");
            assert_eq!(text, "hello");
        }
        other => panic!("unexpected reply: {other:?}"),
    }
}

#[test]
fn server_ignores_other_events() {
    assert!(respond(NetInbound::Disconnected { client_id: 1 }).is_none());
    assert!(respond(NetInbound::Message {
        client_id: 1,
        msg: ClientMessage::Hello { player_name: "alice".to_string() }
    })
    .is_none());
    assert!(respond(NetInbound::Message {
        client_id: 1,
        msg: ClientMessage::RemoveBuilding { pos: infinite_flux::common::GridPosition::new(1, 2) }
    })
    .is_none());
    let snapshot = WorldSnapshot::default();
    assert_eq!(snapshot.tick, 0);
}
