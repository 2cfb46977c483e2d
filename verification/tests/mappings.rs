use mc_protocol::encoding::{PacketEncodable, PacketToCursor, ProtocolEncodable, ProtocolVersion};
use mc_protocol::encryption::encryption_from_secret;
use mc_protocol::protocol::handshake::{Handshake, NextState};
use mc_protocol::codec::TransportError;
use mc_protocol::protocol::login::{Disconnect, EncryptionRequest, LoginStart, SetCompression};
use mc_protocol::protocol::mappings::StaticProtocolMappings;
use mc_protocol::protocol::status::{Ping, Pong, Response};
use mc_protocol::protocol::play::{cb, sb};
use mc_protocol::registry::{RegistrationCandidate, UNKNOWN_VERSION};

#[test]
fn registrations_give_the_ids_of_the_current_version() {
    assert_eq!(LoginStart::scoped_registration(760), Some(0));
    assert_eq!(SetCompression::scoped_registration(760), Some(3));
    assert_eq!(SetCompression::scoped_registration(759), None);
    assert_eq!(Handshake::scoped_registration(UNKNOWN_VERSION), Some(0));
    let mut keys = vec![(1, 1)];
    Pong::register_all(&mut keys);
    assert_eq!(keys, vec![(1, 1), (760, 1)]);
}

#[test]
fn packets_frame_themselves_under_their_version() {
    let pong = Pong { start_time: 5 };
    let mut none = None;
    let frame = pong.to_cursor(ProtocolVersion::V118R2, &mut none, None).unwrap();
    assert_eq!(frame, vec![9, 1, 0, 0, 0, 0, 0, 0, 0, 5]);
    assert!(pong.to_cursor(ProtocolVersion::V118R1, &mut none, None).is_err());
    assert_eq!(Ping::get_protocol_mappings(), vec![(ProtocolVersion::V118R2, 1)]);
    assert_eq!(<SetCompression as PacketEncodable>::size_packet_id(ProtocolVersion::V118R2), Ok(1));
    assert_eq!(SetCompression { threshold: 300 }.size_from_protocol(ProtocolVersion::V118R2), Ok(2));

    let h = Handshake {
        protocol_version: 758,
        server_address: "localhost".to_string(),
        server_port: 25565,
        next_state: NextState::Login,
    };
    let frame = h.to_cursor(ProtocolVersion::Handshake, &mut none, None).unwrap();
    assert_eq!(frame[0] as usize, frame.len() - 1);
    assert!(h.to_cursor(ProtocolVersion::V118R2, &mut none, None).is_err());

    let req = EncryptionRequest { server_id: "x".repeat(21), public_key: vec![], verify_token: vec![] };
    assert!(req.to_cursor(ProtocolVersion::V118R2, &mut none, None).is_err());
}

#[test]
fn frames_are_encrypted_when_the_cipher_is_on() {
    let pong = Pong { start_time: 5 };
    let secret = [3u8; 16];
    let (enc, mut dec) = encryption_from_secret(&secret).unwrap();
    let mut on = Some(enc);
    let mut frame = pong.to_cursor(ProtocolVersion::V118R2, &mut on, None).unwrap();
    assert_ne!(frame, vec![9, 1, 0, 0, 0, 0, 0, 0, 0, 5]);
    dec.apply(&mut frame);
    assert_eq!(frame, vec![9, 1, 0, 0, 0, 0, 0, 0, 0, 5]);
}

#[test]
fn json_bodies_are_framed_as_strings() {
    assert_eq!(Response::scoped_registration(760), Some(0));
    assert_eq!(Disconnect::scoped_registration(760), Some(0));
    assert_eq!(Disconnect::scoped_registration(761), None);
    let mut body = vec![9];
    Disconnect::encode_json("{\"text\":\"x\"}", &mut body).unwrap();
    assert_eq!(body, [vec![9, 12], b"{\"text\":\"x\"}".to_vec()].concat());
    let (json, end) = Disconnect::decode_json(&body, 1).unwrap();
    assert_eq!(json, "{\"text\":\"x\"}");
    assert_eq!(end, body.len());
    let long = "a".repeat(32768);
    let mut out = Vec::new();
    assert!(matches!(
        Response::encode_json(&long, &mut out),
        Err(TransportError::LimitExceeded(32767, 32768))
    ));
    assert!(out.is_empty());
    Disconnect::encode_json(&long, &mut out).unwrap();
    assert_eq!(Response::decode_json(&out, 0).unwrap_err().message(), "Length 32768 exceeds the limit of 32767.");
}

#[test]
fn play_packets_are_registered_under_their_ids() {
    assert_eq!(sb::KeepAlive::scoped_registration(760), Some(0x12));
    assert_eq!(sb::UpdateSign::scoped_registration(760), Some(0x2E));
    assert_eq!(cb::KeepAlive::scoped_registration(760), Some(0x20));
    assert_eq!(cb::SetTitleAnimationTimes::scoped_registration(760), Some(0x5E));
    assert_eq!(cb::PluginMessage::scoped_registration(759), None);
}

#[test]
fn play_chat_packets_carry_json_text() {
    assert_eq!(cb::Disconnect::scoped_registration(760), Some(0x19));
    assert_eq!(cb::SetSubtitle::scoped_registration(760), Some(0x5B));
    assert_eq!(cb::SetTitle::scoped_registration(760), Some(0x5D));
    let mut body = Vec::new();
    cb::SetTitle::encode_json("\"hi\"", &mut body).unwrap();
    assert_eq!(body, vec![4, b'"', b'h', b'i', b'"']);
    assert_eq!(cb::SetSubtitle::decode_json(&body, 0).unwrap(), ("\"hi\"".to_string(), 5));
    let long = "b".repeat(32768);
    assert!(cb::Disconnect::encode_json(&long, &mut body).is_err());
    assert_eq!(body.len(), 5);
}
