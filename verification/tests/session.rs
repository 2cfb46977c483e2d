use mc_protocol::codec::{write_string, write_uuid, write_var_int, TransportError};
use mc_protocol::protocol::handshake::{Handshake, NextState, SERVER_ADDRESS_LIMIT};
use mc_protocol::protocol::login::{
    EncryptionRequest, EncryptionResponse, EncryptionResponseData, LoginPluginRequest,
    LoginPluginResponse, LoginStart, SetCompression,
};
use mc_protocol::protocol::status::{Ping, Pong, Request, StatusResponsePlayers};
use mc_protocol::registry::{
    Importer, MCPacketWriter, MappedAsyncPacketRegistry, RegistryError, ALL_VERSIONS,
    UNKNOWN_VERSION,
};
use mc_protocol::server_loop::{
    handshake_address_limit, route_client, status_result, ClientRoute,
    IncomingAuthenticationOption,
};
use mc_protocol::status::{
    answer_ping, answer_request, handle_ping, handle_request, proto_to_string, StatusBuilder,
    StatusFunctionResponse,
};
use mc_protocol::common::chat::Chat;

#[test]
fn handshake_roundtrip_and_limit() {
    let h = Handshake {
        protocol_version: 760,
        server_address: "localhost".to_string(),
        server_port: 25565,
        next_state: NextState::Status,
    };
    let mut out = Vec::new();
    h.encode(&mut out, SERVER_ADDRESS_LIMIT).unwrap();
    let mut expected = vec![0xf8, 0x05, 9];
    expected.extend_from_slice(b"localhost");
    expected.extend_from_slice(&[0x63, 0xdd, 0x01]);
    assert_eq!(out, expected);
    let (back, end) = Handshake::decode(&out, 0, SERVER_ADDRESS_LIMIT).unwrap();
    assert_eq!(end, out.len());
    assert_eq!(back.protocol_version, 760);
    assert_eq!(back.server_address, "localhost");
    assert_eq!(back.server_port, 25565);
    assert_eq!(back.next_state, NextState::Status);
    assert_eq!(Handshake::decode(&out, 0, 4).map(|x| x.1), Err(TransportError::LimitExceeded(4, 9)));
}

#[test]
fn handshake_unknown_next_state() {
    let bytes = vec![0x01, 0x00, 0x00, 0x00, 0x05];
    assert_eq!(
        Handshake::decode(&bytes, 0, 255).map(|x| x.1),
        Err(TransportError::Explain("Unknown next state.".to_string()))
    );
}

#[test]
fn ping_pong_time_roundtrip() {
    let ping = Ping { start_time: -42 };
    let mut out = Vec::new();
    ping.encode(&mut out);
    assert_eq!(out, (-42i64).to_be_bytes().to_vec());
    assert_eq!(Ping::decode(&out, 0).unwrap(), (ping, 8));
    let pong: Pong = Pong::from(ping);
    assert_eq!(pong.start_time, -42);
    assert_eq!(Ping::from(pong), ping);
    assert_eq!(Pong::decode(&out[..7], 0), Err(TransportError::EndOfInput));
}

#[test]
fn status_exchange_order() {
    assert_eq!(handle_request(Request), StatusFunctionResponse::RequestForward);
    assert_eq!(
        handle_ping(Ping { start_time: 7 }),
        StatusFunctionResponse::PingForward { start_time: 7 }
    );
    let builder = || StatusBuilder {
        players: StatusResponsePlayers { max: 20, online: 1, sample: vec![] },
        description: Chat::text("hi".to_string()),
        favicon: None,
    };
    let status = answer_request(StatusFunctionResponse::RequestForward, builder(), 760).unwrap();
    assert_eq!(status.version.name, "1.19.2");
    assert_eq!(status.version.protocol, 760);
    assert_eq!(status.previews_chat, Some(false));
    assert_eq!(status.players.max, 20);
    let out_of_order = answer_request(StatusFunctionResponse::PingForward { start_time: 1 }, builder(), 760);
    assert!(matches!(
        out_of_order,
        Err(RegistryError::DraxTransportError(TransportError::Explain(t))) if t == "Invalid ping forward when request expected."
    ));
    assert_eq!(answer_ping(StatusFunctionResponse::PingForward { start_time: 9 }).unwrap().start_time, 9);
    assert!(answer_ping(StatusFunctionResponse::RequestForward).is_err());
    assert_eq!(proto_to_string(1), "???");
}

#[test]
fn routing_after_handshake() {
    let velocity = IncomingAuthenticationOption::VELOCITY { secret_key: "k".to_string() };
    assert!(matches!(route_client(&velocity, NextState::Login), ClientRoute::VelocityLogin { secret_key } if secret_key == "k"));
    assert!(matches!(route_client(&IncomingAuthenticationOption::MOJANG, NextState::Login), ClientRoute::MojangLogin));
    assert!(matches!(route_client(&IncomingAuthenticationOption::BUNGEE, NextState::Status), ClientRoute::Status));
    assert!(matches!(route_client(&IncomingAuthenticationOption::BUNGEE, NextState::Handshaking), ClientRoute::Close));
    assert_eq!(handshake_address_limit(&IncomingAuthenticationOption::BUNGEE), i32::MAX);
    assert_eq!(handshake_address_limit(&IncomingAuthenticationOption::MOJANG), 255);
    assert!(status_result(Err(RegistryError::DraxTransportError(TransportError::EndOfInput))).is_ok());
    assert!(status_result(Err(RegistryError::DraxTransportError(TransportError::InvalidUtf8))).is_err());
}

#[test]
fn dispatch_by_version_and_id() {
    let mut reg = MappedAsyncPacketRegistry::new(760);
    reg.register(&[(760, 0), (761, 0)], Some(1), 4);
    assert_eq!(reg.execute(None, &[0x01, 0xaa]).unwrap(), (4, 1));
    match reg.execute(None, &[0x00, 0xaa]) {
        Err(RegistryError::NoHandlerFound((v, id), rest)) => {
            assert_eq!((v, id), (760, 0));
            assert_eq!(rest, vec![0x00, 0xaa]);
        }
        _ => panic!("expected no handler"),
    }
    let mut any = MappedAsyncPacketRegistry::empty();
    any.register(&[(760, 0), (761, 2)], None, 9);
    assert_eq!(any.execute(Some(761), &[0x02]).unwrap(), (9, 1));
    assert!(any.execute(None, &[0x02]).is_err());
    assert!(matches!(any.execute(None, &[0x80]), Err(RegistryError::DraxTransportError(TransportError::EndOfInput))));
    assert_eq!(UNKNOWN_VERSION, -2);
    assert_eq!(ALL_VERSIONS, -1);
}

#[test]
fn importer_and_packet_writer() {
    assert_eq!(Importer::from_range(757, 759, 3).consume(), vec![(757, 3), (758, 3), (759, 3)]);
    assert_eq!(Importer::from_single(760, 1).consume(), vec![(760, 1)]);
    assert!(Importer::from_range(5, 4, 0).consume().is_empty());
    assert_eq!(MCPacketWriter.process(0x7f, &[1, 2]), vec![0x7f, 1, 2]);
    assert_eq!(MCPacketWriter.process(300, &[]), vec![0xac, 0x02]);
}

#[test]
fn login_start_decode_with_holder() {
    let mut bytes = Vec::new();
    write_string(&mut bytes, "Steve", 16).unwrap();
    bytes.push(0);
    bytes.push(1);
    write_uuid(&mut bytes, 99);
    let (l, end): (LoginStart, usize) = LoginStart::decode(&bytes, 0).unwrap();
    assert_eq!(end, bytes.len());
    assert_eq!(l.name, "Steve");
    assert!(l.sig_data.is_none());
    assert_eq!(l.sig_holder, Some(99));
    let mut long_name = Vec::new();
    write_string(&mut long_name, "SeventeenLetters!", 100).unwrap();
    assert_eq!(LoginStart::decode(&long_name, 0).map(|x| x.1), Err(TransportError::LimitExceeded(16, 17)));
}

#[test]
fn login_start_decode_with_key() {
    let mut bytes = Vec::new();
    write_string(&mut bytes, "Alex", 16).unwrap();
    bytes.push(1);
    bytes.extend_from_slice(&5u64.to_be_bytes());
    bytes.extend_from_slice(&[2, 0xaa, 0xbb, 1, 0xcc]);
    bytes.push(0);
    let (l, _) = LoginStart::decode(&bytes, 0).unwrap();
    let key = l.sig_data.unwrap();
    assert_eq!(key.timestamp, 5);
    assert_eq!(key.public_key, vec![0xaa, 0xbb]);
    assert_eq!(key.signature, vec![0xcc]);
    assert!(l.sig_holder.is_none());
}

#[test]
fn encryption_response_decode_variants() {
    let token = vec![2, 9, 9, 1, 1, 7];
    let (r, end): (EncryptionResponse, usize) = EncryptionResponse::decode(&token, 0).unwrap();
    assert_eq!(end, 6);
    assert_eq!(r.shared_secret, vec![9, 9]);
    assert!(matches!(r.response_data, EncryptionResponseData::VerifyTokenData(ref t) if t == &vec![7]));
    let mut signed = vec![0, 0];
    signed.extend_from_slice(&(-1i64).to_be_bytes());
    signed.extend_from_slice(&[1, 4]);
    let (r, _) = EncryptionResponse::decode(&signed, 0).unwrap();
    assert!(matches!(r.response_data, EncryptionResponseData::MessageSignature { salt: -1, ref message_signature } if message_signature == &vec![4]));
}

#[test]
fn plugin_response_takes_remaining_bytes() {
    let r = LoginPluginResponse::decode(&[0x05, 0x01, 9, 8, 7], 0).unwrap();
    assert_eq!(r.message_id, 5);
    assert!(r.successful);
    assert_eq!(r.data, vec![9, 8, 7]);
    assert!(matches!(LoginPluginResponse::decode(&[0x05], 0), Err(TransportError::EndOfInput)));
}

#[test]
fn login_packets_encode() {
    let req = EncryptionRequest { server_id: String::new(), public_key: vec![1, 2], verify_token: vec![3] };
    let mut out = Vec::new();
    req.encode(&mut out).unwrap();
    assert_eq!(out, vec![0, 2, 1, 2, 1, 3]);
    let too_long = EncryptionRequest { server_id: "x".repeat(21), public_key: vec![], verify_token: vec![] };
    assert_eq!(too_long.encode(&mut Vec::new()), Err(TransportError::LimitExceeded(20, 21)));
    let mut out = Vec::new();
    SetCompression { threshold: 256 }.encode(&mut out);
    assert_eq!(out, vec![0x80, 0x02]);
    let plugin = LoginPluginRequest { message_id: -1, channel: "a:b".to_string(), data: vec![3] };
    let mut out = Vec::new();
    plugin.encode(&mut out).unwrap();
    let mut expected = Vec::new();
    write_var_int(&mut expected, -1);
    expected.extend_from_slice(&[3, b'a', b':', b'b', 3]);
    assert_eq!(out, expected);
}
