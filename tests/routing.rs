use rust_minecraft_proxy::config::{Config, ConfigError, Server};
use rust_minecraft_proxy::packet_utils::{read_frame, read_string, HandshakeRequest};
use rust_minecraft_proxy::session::{
    plan_session, unknown_host_response, write_string, SessionAction,
};
use rust_minecraft_proxy::packet_utils::NextState;
use rust_minecraft_proxy::varint::{read_var_int, write_var_int};

fn settings(entries: &[(&str, &str)]) -> Vec<(String, String)> {
    entries.iter().map(|(k, v)| (k.to_string(), v.to_string())).collect()
}

fn table(entries: &[(&str, &str)]) -> Vec<(String, Server)> {
    entries
        .iter()
        .map(|(k, v)| (k.to_string(), Server { ip: v.to_string() }))
        .collect()
}

fn sample_config() -> Config {
    Config::new(
        "0.0.0.0:25565".to_string(),
        settings(&[("kick_message", "Bad host"), ("motd", "Unknown!"), ("protocol_name", "proxy")]),
        table(&[("hub.example.com", "127.0.0.1:35560")]),
    )
    .unwrap()
}

fn handshake(host: &str, next_state: i32) -> Vec<u8> {
    let mut body = Vec::new();
    write_var_int(&mut body, 0);
    write_var_int(&mut body, 754);
    write_var_int(&mut body, host.len() as i32);
    body.extend_from_slice(host.as_bytes());
    body.extend_from_slice(&25565u16.to_be_bytes());
    write_var_int(&mut body, next_state);
    let mut frame = Vec::new();
    write_var_int(&mut frame, body.len() as i32);
    frame.extend_from_slice(&body);
    frame
}

/// Reads a reply as one frame holding a packet with id zero and one string.
fn reply_text(reply: &[u8]) -> String {
    let (payload, end) = read_frame(reply, 0).unwrap();
    assert_eq!(end, reply.len());
    let (id, p) = read_var_int(&payload, 0).unwrap();
    assert_eq!(id, 0);
    let (text, q) = read_string(&payload, p).unwrap();
    assert_eq!(q, payload.len());
    text
}

#[test]
fn resolve_known_and_unknown_host() {
    let config = sample_config();
    assert_eq!(config.get_addr_by_host("hub.example.com").unwrap().ip, "127.0.0.1:35560");
    assert!(config.get_addr_by_host("nowhere.example.com").is_none());
}

#[test]
fn resolve_is_exact_and_case_sensitive() {
    let config = sample_config();
    assert!(config.get_addr_by_host("HUB.example.com").is_none());
    assert!(config.get_addr_by_host("hub.example.com.").is_none());
    assert!(config.get_addr_by_host("example.com").is_none());
}

#[test]
fn duplicate_hostname_is_refused() {
    let r = Config::new(
        "a:1".to_string(),
        settings(&[("motd", "m"), ("protocol_name", "p")]),
        table(&[("h", "first:1"), ("g", "other:3"), ("h", "second:2")]),
    );
    assert_eq!(r.unwrap_err(), ConfigError::DuplicateHost);
}

#[test]
fn table_and_listen_address() {
    let config = Config::new(
        "a:1".to_string(),
        settings(&[("motd", "m"), ("protocol_name", "p")]),
        table(&[("h", "first:1"), ("H", "second:2")]),
    )
    .unwrap();
    assert_eq!(config.get_addr_by_host("h").unwrap().ip, "first:1");
    assert_eq!(config.get_addr_by_host("H").unwrap().ip, "second:2");
    assert_eq!(config.get_hosts().len(), 2);
    assert_eq!(config.get_listen_addr(), "a:1");
}

#[test]
fn kick_and_motd_texts() {
    let config = sample_config();
    assert_eq!(config.get_unknown_host_kick_msg(), "{\"text\":\"Bad host\"}");
    assert_eq!(
        config.get_unknown_host_motd(),
        "{\"version\": {\"name\": \"proxy\", \"protocol\": -1 }, \"players\": {\"max\": 0, \"online\": 0, \"sample\": [] }, \"description\": { \"text\": \"Unknown!\" }}"
    );
}

#[test]
fn kick_text_defaults_when_absent() {
    let config = Config::new(
        "a:1".to_string(),
        settings(&[("motd", "m"), ("protocol_name", "p")]),
        Vec::new(),
    )
    .unwrap();
    assert_eq!(config.get_unknown_host_kick_msg(), "{\"text\":\"§cInvalid Address\"}");
}

#[test]
fn config_missing_entries() {
    let r = Config::new("a:1".to_string(), settings(&[("motd", "m")]), Vec::new());
    assert_eq!(r.unwrap_err(), ConfigError::MissingProtocolName);
    let r = Config::new("a:1".to_string(), settings(&[("protocol_name", "p")]), Vec::new());
    assert_eq!(r.unwrap_err(), ConfigError::MissingMotd);
}

#[test]
fn config_accepts_long_texts() {
    let long = "x".repeat(70000);
    let config = Config::new(
        "a:1".to_string(),
        settings(&[("motd", &long), ("protocol_name", "p")]),
        Vec::new(),
    )
    .unwrap();
    let reply = unknown_host_response(&config, NextState::Status);
    let text = reply_text(&reply);
    assert!(text.contains(&long));
}

#[test]
fn write_string_frame_bytes() {
    assert_eq!(write_string("hi"), vec![4, 0, 2, b'h', b'i']);
    assert_eq!(write_string("§"), vec![4, 0, 2, 0xc2, 0xa7]);
    let long = "y".repeat(200);
    let frame = write_string(&long);
    assert_eq!(&frame[..5], &[0xcb, 0x01, 0x00, 0xc8, 0x01]);
    assert_eq!(frame.len(), 205);
}

#[test]
fn known_host_is_bridged_with_exact_frame() {
    let config = sample_config();
    let frame = handshake("hub.example.com", 2);
    let h = HandshakeRequest::read(&frame).unwrap();
    match plan_session(&config, &h) {
        SessionAction::Bridge { backend, replay } => {
            assert_eq!(backend, "127.0.0.1:35560");
            assert_eq!(replay, frame);
        }
        SessionAction::Reject(_) => panic!("a known host must be bridged"),
    }
}

#[test]
fn unknown_host_login_gets_kick_frame() {
    let config = sample_config();
    let h = HandshakeRequest::read(&handshake("nowhere.example.com", 2)).unwrap();
    match plan_session(&config, &h) {
        SessionAction::Reject(reply) => {
            assert_eq!(reply_text(&reply), "{\"text\":\"Bad host\"}");
        }
        SessionAction::Bridge { .. } => panic!("an unknown host must not reach a backend"),
    }
}

#[test]
fn unknown_host_status_gets_status_frame() {
    let config = sample_config();
    let h = HandshakeRequest::read(&handshake("nowhere.example.com", 1)).unwrap();
    match plan_session(&config, &h) {
        SessionAction::Reject(reply) => {
            assert_eq!(reply_text(&reply), config.get_unknown_host_motd());
            assert_eq!(reply, unknown_host_response(&config, NextState::Status));
        }
        SessionAction::Bridge { .. } => panic!("an unknown host must not reach a backend"),
    }
}
