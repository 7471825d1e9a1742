use session_server::codec::{
    decode_client_event, decode_server_event, encode_client_event, encode_server_event,
};
use session_server::events::{ClientEvent, ServerEvent};
use session_server::player::WorldCoordinate;

fn client_round_trip(e: ClientEvent) {
    let bytes = encode_client_event(&e);
    assert_eq!(decode_client_event(&bytes), Some(e));
}

fn server_round_trip(e: ServerEvent) {
    let bytes = encode_server_event(&e).expect("event should fit in a datagram");
    assert_eq!(decode_server_event(&bytes), Some(e));
}

#[test]
fn client_connect_round_trips() {
    client_round_trip(ClientEvent::Connect);
}

#[test]
fn client_disconnect_round_trips() {
    client_round_trip(ClientEvent::Disconnect);
}

#[test]
fn client_move_round_trips() {
    client_round_trip(ClientEvent::Move { position: WorldCoordinate::new(1, 2, 3) });
    client_round_trip(ClientEvent::Move { position: WorldCoordinate::new(-7, 0, i64::MIN) });
    client_round_trip(ClientEvent::Move {
        position: WorldCoordinate::new(i64::MAX, i64::MIN, -1),
    });
}

#[test]
fn server_session_info_round_trips() {
    server_round_trip(ServerEvent::SessionInfo { seed: 0xdead_beef, known_ids: vec![] });
    server_round_trip(ServerEvent::SessionInfo {
        seed: u64::MAX,
        known_ids: vec![1, u128::MAX, 42],
    });
}

#[test]
fn server_player_events_round_trip() {
    server_round_trip(ServerEvent::PlayerConnected { id: 7 });
    server_round_trip(ServerEvent::PlayerDisconnected { id: u128::MAX });
    server_round_trip(ServerEvent::PlayerMoved {
        id: 9,
        position: WorldCoordinate::new(-1, 2, -3),
    });
}

#[test]
fn decode_of_empty_buffer_is_no_event() {
    assert_eq!(decode_client_event(&[]), None);
    assert!(decode_server_event(&[]).is_none());
}

#[test]
fn decode_of_unknown_tag_is_no_event() {
    assert_eq!(decode_client_event(&[9, 0, 0]), None);
    assert!(decode_server_event(&[200]).is_none());
}

#[test]
fn decode_of_truncated_buffer_is_no_event() {
    // A move event cut short at every length.
    let full = encode_client_event(&ClientEvent::Move { position: WorldCoordinate::new(5, 6, 7) });
    for cut in 1..full.len() {
        assert_eq!(decode_client_event(&full[..cut]), None);
    }
    // A snapshot cut short inside its id list.
    let info = encode_server_event(&ServerEvent::SessionInfo { seed: 3, known_ids: vec![10, 11] })
        .unwrap();
    for cut in 1..info.len() {
        assert!(decode_server_event(&info[..cut]).is_none());
    }
}

#[test]
fn decode_ignores_trailing_bytes() {
    let mut bytes = encode_client_event(&ClientEvent::Disconnect);
    bytes.extend_from_slice(&[1, 2, 3]);
    assert_eq!(decode_client_event(&bytes), Some(ClientEvent::Disconnect));
}

#[test]
fn oversized_session_info_is_refused() {
    let ids: Vec<u128> = (0..4096u128).collect();
    assert!(encode_server_event(&ServerEvent::SessionInfo { seed: 0, known_ids: ids }).is_none());
    let ids: Vec<u128> = (0..4095u128).collect();
    let bytes = encode_server_event(&ServerEvent::SessionInfo { seed: 0, known_ids: ids })
        .unwrap();
    assert!(bytes.len() <= 65535);
}

#[test]
fn encoded_events_have_the_fixed_layout() {
    assert_eq!(encode_client_event(&ClientEvent::Connect), vec![0]);
    assert_eq!(encode_client_event(&ClientEvent::Disconnect), vec![1]);
    let moved = encode_client_event(&ClientEvent::Move { position: WorldCoordinate::new(1, 2, 3) });
    assert_eq!(moved.len(), 25);
    assert_eq!(moved[0], 2);
    // Axis values ride as offset binary, little endian: 1 maps to 2^63 + 1.
    assert_eq!(&moved[1..9], &[1, 0, 0, 0, 0, 0, 0, 0x80]);
    let info = encode_server_event(&ServerEvent::SessionInfo { seed: 5, known_ids: vec![1] })
        .unwrap();
    assert_eq!(info.len(), 27);
    assert_eq!(info[0], 0);
    assert_eq!(&info[1..9], &[5, 0, 0, 0, 0, 0, 0, 0]);
    assert_eq!(&info[9..11], &[1, 0]);
}
