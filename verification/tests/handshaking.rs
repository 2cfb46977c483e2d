use mc_protocol::handshaking::{ConnectionProtocol, HandshakingRegistry};

#[test]
fn regression_test() {
    let mut out: Vec<u8> = Vec::new();
    let packet = HandshakingRegistry::ClientIntention {
        protocol_version: 754,
        host_name: "localhost".to_string(),
        port: 25565,
        intention: ConnectionProtocol::Play,
    };
    assert!(matches!(packet.encode(&mut out), Ok(_)));
}

#[test]
fn client_intention_bytes() {
    let mut out: Vec<u8> = Vec::new();
    let packet = HandshakingRegistry::ClientIntention {
        protocol_version: 754,
        host_name: "localhost".to_string(),
        port: 25565,
        intention: ConnectionProtocol::Login,
    };
    packet.encode(&mut out).unwrap();
    let mut expected = vec![0x00, 0xF2, 0x05, 9];
    expected.extend_from_slice(b"localhost");
    expected.extend_from_slice(&[0x63, 0xDD, 0x02]);
    assert_eq!(out, expected);
    let (back, end) = HandshakingRegistry::decode(&out, 0).unwrap();
    assert_eq!(end, out.len());
    match back {
        HandshakingRegistry::ClientIntention { protocol_version, host_name, port, intention } => {
            assert_eq!(protocol_version, 754);
            assert_eq!(host_name, "localhost");
            assert_eq!(port, 25565);
            assert_eq!(intention, ConnectionProtocol::Login);
        }
    }
}

#[test]
fn client_intention_host_too_long() {
    let mut out: Vec<u8> = Vec::new();
    let packet = HandshakingRegistry::ClientIntention {
        protocol_version: 754,
        host_name: "a".repeat(256),
        port: 1,
        intention: ConnectionProtocol::Status,
    };
    assert!(packet.encode(&mut out).is_err());
    assert!(out.is_empty());
}
