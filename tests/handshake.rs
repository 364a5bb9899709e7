use rust_minecraft_proxy::error::ProtocolError;
use rust_minecraft_proxy::packet_utils::{HandshakeRequest, NextState};
use rust_minecraft_proxy::varint::write_var_int;

fn handshake_frame(id: i32, version: i32, host: &str, port: u16, next_state: i32) -> Vec<u8> {
    let mut body = Vec::new();
    write_var_int(&mut body, id);
    write_var_int(&mut body, version);
    write_var_int(&mut body, host.len() as i32);
    body.extend_from_slice(host.as_bytes());
    body.extend_from_slice(&port.to_be_bytes());
    write_var_int(&mut body, next_state);
    let mut frame = Vec::new();
    write_var_int(&mut frame, body.len() as i32);
    frame.extend_from_slice(&body);
    frame
}

#[test]
fn handshake_parses_fields() {
    let frame = handshake_frame(0, 754, "play.example.com", 25565, 2);
    let mut expected = vec![23u8, 0x00, 0xf2, 0x05, 16];
    expected.extend_from_slice(b"play.example.com");
    expected.extend_from_slice(&[0x63, 0xdd, 0x02]);
    assert_eq!(frame, expected);
    let h = HandshakeRequest::read(&frame).unwrap();
    assert_eq!(h.get_packet_id(), 0);
    assert_eq!(h.get_protocol_version(), 754);
    assert_eq!(h.get_host(), "play.example.com");
    assert_eq!(h.get_port(), 25565);
    assert_eq!(*h.get_next_state(), NextState::Login);
    assert_eq!(h.get_size(), 23);
    assert_eq!(h.get_raw_body(), &frame[1..]);
    assert_eq!(h.get_raw_frame(), &frame[..]);
}

#[test]
fn handshake_status_state() {
    let frame = handshake_frame(0, 47, "hub.example.com", 25565, 1);
    let h = HandshakeRequest::read(&frame).unwrap();
    assert_eq!(*h.get_next_state(), NextState::Status);
    assert_eq!(h.get_next_state().name(), "Status");
}

#[test]
fn handshake_keeps_only_first_frame() {
    let frame = handshake_frame(0, 754, "a.b", 1, 2);
    let mut bytes = frame.clone();
    bytes.extend_from_slice(&[1, 2, 3]);
    let h = HandshakeRequest::read(&bytes).unwrap();
    assert_eq!(h.get_raw_frame(), &frame[..]);
}

#[test]
fn handshake_wrong_packet_id() {
    let frame = handshake_frame(1, 754, "play.example.com", 25565, 2);
    assert_eq!(HandshakeRequest::read(&frame).unwrap_err(), ProtocolError::UnexpectedPacketId(1));
}

#[test]
fn handshake_invalid_next_state() {
    let frame = handshake_frame(0, 754, "play.example.com", 25565, 7);
    assert_eq!(HandshakeRequest::read(&frame).unwrap_err(), ProtocolError::InvalidNextState(7));
}

#[test]
fn handshake_truncated_frame() {
    let frame = handshake_frame(0, 754, "play.example.com", 25565, 2);
    assert_eq!(
        HandshakeRequest::read(&frame[..10]).unwrap_err(),
        ProtocolError::IncompleteFrame
    );
}

#[test]
fn handshake_payload_ends_early() {
    // a frame whose payload stops inside the port
    let frame = vec![5u8, 0x00, 0x01, 0x01, b'x', 0x63];
    assert_eq!(HandshakeRequest::read(&frame).unwrap_err(), ProtocolError::UnexpectedEnd);
}

#[test]
fn next_state_from_i32() {
    assert_eq!(NextState::from_i32(1), Ok(NextState::Status));
    assert_eq!(NextState::from_i32(2), Ok(NextState::Login));
    assert_eq!(NextState::from_i32(0), Err(ProtocolError::InvalidNextState(0)));
    assert_eq!(NextState::from_i32(3), Err(ProtocolError::InvalidNextState(3)));
    assert_eq!(NextState::Login.name(), "Login");
}
