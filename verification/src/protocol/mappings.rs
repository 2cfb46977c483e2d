//! The packets' tables: under which (protocol version, packet id) pairs each packet is
//! registered for dispatch, and, for the protocol sheets of 1.18, each packet's id and body
//! under a protocol version.
use vstd::prelude::*;
use vstd::string::StringExecFns;

use crate::clientbound::play::STRING_DEFAULT_CAP;
use crate::codec::{size_var_int, spec_var_int, utf8_bytes, write_var_int, TransportError};
use crate::encoding::{PacketEncodable, ProtocolEncodable, ProtocolVersion};
use crate::protocol::handshake::{spec_handshake, Handshake, SERVER_ADDRESS_LIMIT};
use crate::protocol::login::{
    spec_encryption_request, spec_plugin_request, Disconnect, EncryptionRequest, EncryptionResponse,
    LoginPluginRequest, LoginPluginResponse, LoginStart, SetCompression, SERVER_ID_LIMIT,
};
use crate::protocol::status::{spec_time, Ping, Pong, Request, Response};
use crate::registry::{scoped_in, RegistrationCandidate, UNKNOWN_VERSION};

verus! {

/// The protocol version whose packet ids the dispatch tables give.
pub const CURRENT_PROTOCOL: i32 = 760;

/// A packet with a table of ids by protocol version.
pub trait StaticProtocolMappings {
    /// The packet's (version, id) pairs.
    spec fn spec_mappings() -> Seq<(ProtocolVersion, i32)>;

    fn get_protocol_mappings() -> (r: Vec<(ProtocolVersion, i32)>)
        ensures
            r@ == Self::spec_mappings(),
    ;
}

/// The error of a packet asked for under a version it has no mapping for.
fn unsupported() -> (r: TransportError)
    ensures
        r matches TransportError::Explain(_),
{
    TransportError::Explain(String::from_str("Protocol unsupported for this packet."))
}

/// The size of an encoding, when it fits an `i32`.
fn size_of_encoding(bytes: &Vec<u8>) -> (r: Result<i32, TransportError>)
    ensures
        r is Ok <==> bytes@.len() <= i32::MAX,
        r matches Ok(n) ==> n == bytes@.len(),
{
    if bytes.len() > i32::MAX as usize {
        Err(TransportError::Explain(String::from_str("Packet too large.")))
    } else {
        Ok(bytes.len() as i32)
    }
}

/// The handshake is registered under id 0x00.
impl RegistrationCandidate for Handshake {
    open spec fn spec_registrations() -> Seq<(i32, i32)> {
        seq![(UNKNOWN_VERSION, 0x00i32)]
    }

    fn register_all(keys: &mut Vec<(i32, i32)>) {
        keys.push((UNKNOWN_VERSION, 0x00));
        assert(keys@ =~= old(keys)@ + seq![(UNKNOWN_VERSION, 0x00i32)]);
    }

    fn scoped_registration(protocol_version: i32) -> (r: Option<i32>)
        ensures
            r == (if protocol_version == UNKNOWN_VERSION { Some(0x00i32) } else { None }),
    {
        proof {
            reveal_with_fuel(scoped_in, 2);
            assert(Self::spec_registrations().drop_first() =~= Seq::<(i32, i32)>::empty());
        }
        if protocol_version == UNKNOWN_VERSION {
            Some(0x00)
        } else {
            None
        }
    }
}

/// The status request is registered under id 0x00.
impl RegistrationCandidate for Request {
    open spec fn spec_registrations() -> Seq<(i32, i32)> {
        seq![(CURRENT_PROTOCOL, 0x00i32)]
    }

    fn register_all(keys: &mut Vec<(i32, i32)>) {
        keys.push((CURRENT_PROTOCOL, 0x00));
        assert(keys@ =~= old(keys)@ + seq![(CURRENT_PROTOCOL, 0x00i32)]);
    }

    fn scoped_registration(protocol_version: i32) -> (r: Option<i32>)
        ensures
            r == (if protocol_version == CURRENT_PROTOCOL { Some(0x00i32) } else { None }),
    {
        proof {
            reveal_with_fuel(scoped_in, 2);
            assert(Self::spec_registrations().drop_first() =~= Seq::<(i32, i32)>::empty());
        }
        if protocol_version == CURRENT_PROTOCOL {
            Some(0x00)
        } else {
            None
        }
    }
}

/// The status response is registered under id 0x00.
impl RegistrationCandidate for Response {
    open spec fn spec_registrations() -> Seq<(i32, i32)> {
        seq![(CURRENT_PROTOCOL, 0x00i32)]
    }

    fn register_all(keys: &mut Vec<(i32, i32)>) {
        keys.push((CURRENT_PROTOCOL, 0x00));
        assert(keys@ =~= old(keys)@ + seq![(CURRENT_PROTOCOL, 0x00i32)]);
    }

    fn scoped_registration(protocol_version: i32) -> (r: Option<i32>)
        ensures
            r == (if protocol_version == CURRENT_PROTOCOL { Some(0x00i32) } else { None }),
    {
        proof {
            reveal_with_fuel(scoped_in, 2);
            assert(Self::spec_registrations().drop_first() =~= Seq::<(i32, i32)>::empty());
        }
        if protocol_version == CURRENT_PROTOCOL {
            Some(0x00)
        } else {
            None
        }
    }
}

/// The login disconnect is registered under id 0x00.
impl RegistrationCandidate for Disconnect {
    open spec fn spec_registrations() -> Seq<(i32, i32)> {
        seq![(CURRENT_PROTOCOL, 0x00i32)]
    }

    fn register_all(keys: &mut Vec<(i32, i32)>) {
        keys.push((CURRENT_PROTOCOL, 0x00));
        assert(keys@ =~= old(keys)@ + seq![(CURRENT_PROTOCOL, 0x00i32)]);
    }

    fn scoped_registration(protocol_version: i32) -> (r: Option<i32>)
        ensures
            r == (if protocol_version == CURRENT_PROTOCOL { Some(0x00i32) } else { None }),
    {
        proof {
            reveal_with_fuel(scoped_in, 2);
            assert(Self::spec_registrations().drop_first() =~= Seq::<(i32, i32)>::empty());
        }
        if protocol_version == CURRENT_PROTOCOL {
            Some(0x00)
        } else {
            None
        }
    }
}

/// The ping is registered under id 0x01.
impl RegistrationCandidate for Ping {
    open spec fn spec_registrations() -> Seq<(i32, i32)> {
        seq![(CURRENT_PROTOCOL, 0x01i32)]
    }

    fn register_all(keys: &mut Vec<(i32, i32)>) {
        keys.push((CURRENT_PROTOCOL, 0x01));
        assert(keys@ =~= old(keys)@ + seq![(CURRENT_PROTOCOL, 0x01i32)]);
    }

    fn scoped_registration(protocol_version: i32) -> (r: Option<i32>)
        ensures
            r == (if protocol_version == CURRENT_PROTOCOL { Some(0x01i32) } else { None }),
    {
        proof {
            reveal_with_fuel(scoped_in, 2);
            assert(Self::spec_registrations().drop_first() =~= Seq::<(i32, i32)>::empty());
        }
        if protocol_version == CURRENT_PROTOCOL {
            Some(0x01)
        } else {
            None
        }
    }
}

/// The pong is registered under id 0x01.
impl RegistrationCandidate for Pong {
    open spec fn spec_registrations() -> Seq<(i32, i32)> {
        seq![(CURRENT_PROTOCOL, 0x01i32)]
    }

    fn register_all(keys: &mut Vec<(i32, i32)>) {
        keys.push((CURRENT_PROTOCOL, 0x01));
        assert(keys@ =~= old(keys)@ + seq![(CURRENT_PROTOCOL, 0x01i32)]);
    }

    fn scoped_registration(protocol_version: i32) -> (r: Option<i32>)
        ensures
            r == (if protocol_version == CURRENT_PROTOCOL { Some(0x01i32) } else { None }),
    {
        proof {
            reveal_with_fuel(scoped_in, 2);
            assert(Self::spec_registrations().drop_first() =~= Seq::<(i32, i32)>::empty());
        }
        if protocol_version == CURRENT_PROTOCOL {
            Some(0x01)
        } else {
            None
        }
    }
}

/// The login start is registered under id 0x00.
impl RegistrationCandidate for LoginStart {
    open spec fn spec_registrations() -> Seq<(i32, i32)> {
        seq![(CURRENT_PROTOCOL, 0x00i32)]
    }

    fn register_all(keys: &mut Vec<(i32, i32)>) {
        keys.push((CURRENT_PROTOCOL, 0x00));
        assert(keys@ =~= old(keys)@ + seq![(CURRENT_PROTOCOL, 0x00i32)]);
    }

    fn scoped_registration(protocol_version: i32) -> (r: Option<i32>)
        ensures
            r == (if protocol_version == CURRENT_PROTOCOL { Some(0x00i32) } else { None }),
    {
        proof {
            reveal_with_fuel(scoped_in, 2);
            assert(Self::spec_registrations().drop_first() =~= Seq::<(i32, i32)>::empty());
        }
        if protocol_version == CURRENT_PROTOCOL {
            Some(0x00)
        } else {
            None
        }
    }
}

/// The encryption response is registered under id 0x01.
impl RegistrationCandidate for EncryptionResponse {
    open spec fn spec_registrations() -> Seq<(i32, i32)> {
        seq![(CURRENT_PROTOCOL, 0x01i32)]
    }

    fn register_all(keys: &mut Vec<(i32, i32)>) {
        keys.push((CURRENT_PROTOCOL, 0x01));
        assert(keys@ =~= old(keys)@ + seq![(CURRENT_PROTOCOL, 0x01i32)]);
    }

    fn scoped_registration(protocol_version: i32) -> (r: Option<i32>)
        ensures
            r == (if protocol_version == CURRENT_PROTOCOL { Some(0x01i32) } else { None }),
    {
        proof {
            reveal_with_fuel(scoped_in, 2);
            assert(Self::spec_registrations().drop_first() =~= Seq::<(i32, i32)>::empty());
        }
        if protocol_version == CURRENT_PROTOCOL {
            Some(0x01)
        } else {
            None
        }
    }
}

/// The plugin response is registered under id 0x02.
impl RegistrationCandidate for LoginPluginResponse {
    open spec fn spec_registrations() -> Seq<(i32, i32)> {
        seq![(CURRENT_PROTOCOL, 0x02i32)]
    }

    fn register_all(keys: &mut Vec<(i32, i32)>) {
        keys.push((CURRENT_PROTOCOL, 0x02));
        assert(keys@ =~= old(keys)@ + seq![(CURRENT_PROTOCOL, 0x02i32)]);
    }

    fn scoped_registration(protocol_version: i32) -> (r: Option<i32>)
        ensures
            r == (if protocol_version == CURRENT_PROTOCOL { Some(0x02i32) } else { None }),
    {
        proof {
            reveal_with_fuel(scoped_in, 2);
            assert(Self::spec_registrations().drop_first() =~= Seq::<(i32, i32)>::empty());
        }
        if protocol_version == CURRENT_PROTOCOL {
            Some(0x02)
        } else {
            None
        }
    }
}

/// The encryption request is registered under id 0x01.
impl RegistrationCandidate for EncryptionRequest {
    open spec fn spec_registrations() -> Seq<(i32, i32)> {
        seq![(CURRENT_PROTOCOL, 0x01i32)]
    }

    fn register_all(keys: &mut Vec<(i32, i32)>) {
        keys.push((CURRENT_PROTOCOL, 0x01));
        assert(keys@ =~= old(keys)@ + seq![(CURRENT_PROTOCOL, 0x01i32)]);
    }

    fn scoped_registration(protocol_version: i32) -> (r: Option<i32>)
        ensures
            r == (if protocol_version == CURRENT_PROTOCOL { Some(0x01i32) } else { None }),
    {
        proof {
            reveal_with_fuel(scoped_in, 2);
            assert(Self::spec_registrations().drop_first() =~= Seq::<(i32, i32)>::empty());
        }
        if protocol_version == CURRENT_PROTOCOL {
            Some(0x01)
        } else {
            None
        }
    }
}

/// The compression announcement is registered under id 0x03.
impl RegistrationCandidate for SetCompression {
    open spec fn spec_registrations() -> Seq<(i32, i32)> {
        seq![(CURRENT_PROTOCOL, 0x03i32)]
    }

    fn register_all(keys: &mut Vec<(i32, i32)>) {
        keys.push((CURRENT_PROTOCOL, 0x03));
        assert(keys@ =~= old(keys)@ + seq![(CURRENT_PROTOCOL, 0x03i32)]);
    }

    fn scoped_registration(protocol_version: i32) -> (r: Option<i32>)
        ensures
            r == (if protocol_version == CURRENT_PROTOCOL { Some(0x03i32) } else { None }),
    {
        proof {
            reveal_with_fuel(scoped_in, 2);
            assert(Self::spec_registrations().drop_first() =~= Seq::<(i32, i32)>::empty());
        }
        if protocol_version == CURRENT_PROTOCOL {
            Some(0x03)
        } else {
            None
        }
    }
}

/// The plugin request is registered under id 0x04.
impl RegistrationCandidate for LoginPluginRequest {
    open spec fn spec_registrations() -> Seq<(i32, i32)> {
        seq![(CURRENT_PROTOCOL, 0x04i32)]
    }

    fn register_all(keys: &mut Vec<(i32, i32)>) {
        keys.push((CURRENT_PROTOCOL, 0x04));
        assert(keys@ =~= old(keys)@ + seq![(CURRENT_PROTOCOL, 0x04i32)]);
    }

    fn scoped_registration(protocol_version: i32) -> (r: Option<i32>)
        ensures
            r == (if protocol_version == CURRENT_PROTOCOL { Some(0x04i32) } else { None }),
    {
        proof {
            reveal_with_fuel(scoped_in, 2);
            assert(Self::spec_registrations().drop_first() =~= Seq::<(i32, i32)>::empty());
        }
        if protocol_version == CURRENT_PROTOCOL {
            Some(0x04)
        } else {
            None
        }
    }
}

/// The error of a string longer than its limit, its length capped to an `i32`.
fn unsupported_length(len: usize, limit: i32) -> (r: TransportError)
    ensures
        r matches TransportError::LimitExceeded(l, _) && l == limit,
{
    let shown: i32 = if len > i32::MAX as usize {
        i32::MAX
    } else {
        len as i32
    };
    TransportError::LimitExceeded(limit, shown)
}

/// Under V118R2: the status request, with an empty body.
impl ProtocolEncodable for Request {
    open spec fn protocol_bytes(&self, protocol_target: ProtocolVersion) -> Seq<u8> {
        seq![]
    }

    fn encode_from_protocol(&self, protocol_target: ProtocolVersion, out: &mut Vec<u8>) -> (r: Result<
        (),
        TransportError,
    >)
        ensures
            r is Ok <==> (protocol_target == ProtocolVersion::V118R2),
            r is Err ==> final(out)@ == old(out)@,
    {
        if protocol_target != ProtocolVersion::V118R2 {
            return Err(unsupported());
        }
        Ok(())
    }

    fn size_from_protocol(&self, protocol_target: ProtocolVersion) -> (r: Result<i32, TransportError>)
        ensures
            r is Ok ==> (protocol_target == ProtocolVersion::V118R2),
    {
        let mut bytes: Vec<u8> = Vec::new();
        self.encode_from_protocol(protocol_target, &mut bytes)?;
        size_of_encoding(&bytes)
    }
}

/// Under V118R2, the status request, with an empty body has id 0x00.
impl PacketEncodable for Request {
    open spec fn packet_id_bytes(protocol_target: ProtocolVersion) -> Seq<u8> {
        spec_var_int(0x00i32)
    }

    fn encode_packet_id(protocol_target: ProtocolVersion, out: &mut Vec<u8>) -> (r: Result<(), TransportError>)
        ensures
            r is Ok <==> protocol_target == ProtocolVersion::V118R2,
            r is Err ==> final(out)@ == old(out)@,
    {
        if protocol_target != ProtocolVersion::V118R2 {
            return Err(unsupported());
        }
        write_var_int(out, 0x00);
        Ok(())
    }

    fn size_packet_id(protocol_target: ProtocolVersion) -> (r: Result<i32, TransportError>)
        ensures
            r is Ok <==> protocol_target == ProtocolVersion::V118R2,
    {
        if protocol_target != ProtocolVersion::V118R2 {
            return Err(unsupported());
        }
        Ok(size_var_int(0x00) as i32)
    }
}

impl StaticProtocolMappings for Request {
    open spec fn spec_mappings() -> Seq<(ProtocolVersion, i32)> {
        seq![(ProtocolVersion::V118R2, 0x00i32)]
    }

    fn get_protocol_mappings() -> (r: Vec<(ProtocolVersion, i32)>) {
        let mut r: Vec<(ProtocolVersion, i32)> = Vec::new();
        r.push((ProtocolVersion::V118R2, 0x00));
        assert(r@ =~= seq![(ProtocolVersion::V118R2, 0x00i32)]);
        r
    }
}

/// Under V118R2: the ping.
impl ProtocolEncodable for Ping {
    open spec fn protocol_bytes(&self, protocol_target: ProtocolVersion) -> Seq<u8> {
        spec_time(self.start_time)
    }

    fn encode_from_protocol(&self, protocol_target: ProtocolVersion, out: &mut Vec<u8>) -> (r: Result<
        (),
        TransportError,
    >)
        ensures
            r is Ok <==> (protocol_target == ProtocolVersion::V118R2),
            r is Err ==> final(out)@ == old(out)@,
    {
        if protocol_target != ProtocolVersion::V118R2 {
            return Err(unsupported());
        }
        self.encode(out);
        Ok(())
    }

    fn size_from_protocol(&self, protocol_target: ProtocolVersion) -> (r: Result<i32, TransportError>)
        ensures
            r is Ok ==> (protocol_target == ProtocolVersion::V118R2),
    {
        let mut bytes: Vec<u8> = Vec::new();
        self.encode_from_protocol(protocol_target, &mut bytes)?;
        size_of_encoding(&bytes)
    }
}

/// Under V118R2, the ping has id 0x01.
impl PacketEncodable for Ping {
    open spec fn packet_id_bytes(protocol_target: ProtocolVersion) -> Seq<u8> {
        spec_var_int(0x01i32)
    }

    fn encode_packet_id(protocol_target: ProtocolVersion, out: &mut Vec<u8>) -> (r: Result<(), TransportError>)
        ensures
            r is Ok <==> protocol_target == ProtocolVersion::V118R2,
            r is Err ==> final(out)@ == old(out)@,
    {
        if protocol_target != ProtocolVersion::V118R2 {
            return Err(unsupported());
        }
        write_var_int(out, 0x01);
        Ok(())
    }

    fn size_packet_id(protocol_target: ProtocolVersion) -> (r: Result<i32, TransportError>)
        ensures
            r is Ok <==> protocol_target == ProtocolVersion::V118R2,
    {
        if protocol_target != ProtocolVersion::V118R2 {
            return Err(unsupported());
        }
        Ok(size_var_int(0x01) as i32)
    }
}

impl StaticProtocolMappings for Ping {
    open spec fn spec_mappings() -> Seq<(ProtocolVersion, i32)> {
        seq![(ProtocolVersion::V118R2, 0x01i32)]
    }

    fn get_protocol_mappings() -> (r: Vec<(ProtocolVersion, i32)>) {
        let mut r: Vec<(ProtocolVersion, i32)> = Vec::new();
        r.push((ProtocolVersion::V118R2, 0x01));
        assert(r@ =~= seq![(ProtocolVersion::V118R2, 0x01i32)]);
        r
    }
}

/// Under V118R2: the pong.
impl ProtocolEncodable for Pong {
    open spec fn protocol_bytes(&self, protocol_target: ProtocolVersion) -> Seq<u8> {
        spec_time(self.start_time)
    }

    fn encode_from_protocol(&self, protocol_target: ProtocolVersion, out: &mut Vec<u8>) -> (r: Result<
        (),
        TransportError,
    >)
        ensures
            r is Ok <==> (protocol_target == ProtocolVersion::V118R2),
            r is Err ==> final(out)@ == old(out)@,
    {
        if protocol_target != ProtocolVersion::V118R2 {
            return Err(unsupported());
        }
        self.encode(out);
        Ok(())
    }

    fn size_from_protocol(&self, protocol_target: ProtocolVersion) -> (r: Result<i32, TransportError>)
        ensures
            r is Ok ==> (protocol_target == ProtocolVersion::V118R2),
    {
        let mut bytes: Vec<u8> = Vec::new();
        self.encode_from_protocol(protocol_target, &mut bytes)?;
        size_of_encoding(&bytes)
    }
}

/// Under V118R2, the pong has id 0x01.
impl PacketEncodable for Pong {
    open spec fn packet_id_bytes(protocol_target: ProtocolVersion) -> Seq<u8> {
        spec_var_int(0x01i32)
    }

    fn encode_packet_id(protocol_target: ProtocolVersion, out: &mut Vec<u8>) -> (r: Result<(), TransportError>)
        ensures
            r is Ok <==> protocol_target == ProtocolVersion::V118R2,
            r is Err ==> final(out)@ == old(out)@,
    {
        if protocol_target != ProtocolVersion::V118R2 {
            return Err(unsupported());
        }
        write_var_int(out, 0x01);
        Ok(())
    }

    fn size_packet_id(protocol_target: ProtocolVersion) -> (r: Result<i32, TransportError>)
        ensures
            r is Ok <==> protocol_target == ProtocolVersion::V118R2,
    {
        if protocol_target != ProtocolVersion::V118R2 {
            return Err(unsupported());
        }
        Ok(size_var_int(0x01) as i32)
    }
}

impl StaticProtocolMappings for Pong {
    open spec fn spec_mappings() -> Seq<(ProtocolVersion, i32)> {
        seq![(ProtocolVersion::V118R2, 0x01i32)]
    }

    fn get_protocol_mappings() -> (r: Vec<(ProtocolVersion, i32)>) {
        let mut r: Vec<(ProtocolVersion, i32)> = Vec::new();
        r.push((ProtocolVersion::V118R2, 0x01));
        assert(r@ =~= seq![(ProtocolVersion::V118R2, 0x01i32)]);
        r
    }
}

/// Under V118R2: the compression announcement.
impl ProtocolEncodable for SetCompression {
    open spec fn protocol_bytes(&self, protocol_target: ProtocolVersion) -> Seq<u8> {
        spec_var_int(self.threshold)
    }

    fn encode_from_protocol(&self, protocol_target: ProtocolVersion, out: &mut Vec<u8>) -> (r: Result<
        (),
        TransportError,
    >)
        ensures
            r is Ok <==> (protocol_target == ProtocolVersion::V118R2),
            r is Err ==> final(out)@ == old(out)@,
    {
        if protocol_target != ProtocolVersion::V118R2 {
            return Err(unsupported());
        }
        self.encode(out);
        Ok(())
    }

    fn size_from_protocol(&self, protocol_target: ProtocolVersion) -> (r: Result<i32, TransportError>)
        ensures
            r is Ok ==> (protocol_target == ProtocolVersion::V118R2),
    {
        let mut bytes: Vec<u8> = Vec::new();
        self.encode_from_protocol(protocol_target, &mut bytes)?;
        size_of_encoding(&bytes)
    }
}

/// Under V118R2, the compression announcement has id 0x03.
impl PacketEncodable for SetCompression {
    open spec fn packet_id_bytes(protocol_target: ProtocolVersion) -> Seq<u8> {
        spec_var_int(0x03i32)
    }

    fn encode_packet_id(protocol_target: ProtocolVersion, out: &mut Vec<u8>) -> (r: Result<(), TransportError>)
        ensures
            r is Ok <==> protocol_target == ProtocolVersion::V118R2,
            r is Err ==> final(out)@ == old(out)@,
    {
        if protocol_target != ProtocolVersion::V118R2 {
            return Err(unsupported());
        }
        write_var_int(out, 0x03);
        Ok(())
    }

    fn size_packet_id(protocol_target: ProtocolVersion) -> (r: Result<i32, TransportError>)
        ensures
            r is Ok <==> protocol_target == ProtocolVersion::V118R2,
    {
        if protocol_target != ProtocolVersion::V118R2 {
            return Err(unsupported());
        }
        Ok(size_var_int(0x03) as i32)
    }
}

impl StaticProtocolMappings for SetCompression {
    open spec fn spec_mappings() -> Seq<(ProtocolVersion, i32)> {
        seq![(ProtocolVersion::V118R2, 0x03i32)]
    }

    fn get_protocol_mappings() -> (r: Vec<(ProtocolVersion, i32)>) {
        let mut r: Vec<(ProtocolVersion, i32)> = Vec::new();
        r.push((ProtocolVersion::V118R2, 0x03));
        assert(r@ =~= seq![(ProtocolVersion::V118R2, 0x03i32)]);
        r
    }
}

/// Under Handshake: the handshake, its address at most 255 bytes.
impl ProtocolEncodable for Handshake {
    open spec fn protocol_bytes(&self, protocol_target: ProtocolVersion) -> Seq<u8> {
        spec_handshake(*self)
    }

    fn encode_from_protocol(&self, protocol_target: ProtocolVersion, out: &mut Vec<u8>) -> (r: Result<
        (),
        TransportError,
    >)
        ensures
            r is Ok <==> (protocol_target == ProtocolVersion::Handshake && utf8_bytes(self.server_address@).len() <= SERVER_ADDRESS_LIMIT),
            r is Err ==> final(out)@ == old(out)@,
    {
        if protocol_target != ProtocolVersion::Handshake {
            return Err(unsupported());
        }
        if self.server_address.as_str().as_bytes().len() > SERVER_ADDRESS_LIMIT as usize {
            return Err(unsupported_length(self.server_address.as_str().as_bytes().len(), SERVER_ADDRESS_LIMIT));
        }
        self.encode(out, SERVER_ADDRESS_LIMIT)?;
        Ok(())
    }

    fn size_from_protocol(&self, protocol_target: ProtocolVersion) -> (r: Result<i32, TransportError>)
        ensures
            r is Ok ==> (protocol_target == ProtocolVersion::Handshake && utf8_bytes(self.server_address@).len() <= SERVER_ADDRESS_LIMIT),
    {
        let mut bytes: Vec<u8> = Vec::new();
        self.encode_from_protocol(protocol_target, &mut bytes)?;
        size_of_encoding(&bytes)
    }
}

/// Under Handshake, the handshake, its address at most 255 bytes has id 0x00.
impl PacketEncodable for Handshake {
    open spec fn packet_id_bytes(protocol_target: ProtocolVersion) -> Seq<u8> {
        spec_var_int(0x00i32)
    }

    fn encode_packet_id(protocol_target: ProtocolVersion, out: &mut Vec<u8>) -> (r: Result<(), TransportError>)
        ensures
            r is Ok <==> protocol_target == ProtocolVersion::Handshake,
            r is Err ==> final(out)@ == old(out)@,
    {
        if protocol_target != ProtocolVersion::Handshake {
            return Err(unsupported());
        }
        write_var_int(out, 0x00);
        Ok(())
    }

    fn size_packet_id(protocol_target: ProtocolVersion) -> (r: Result<i32, TransportError>)
        ensures
            r is Ok <==> protocol_target == ProtocolVersion::Handshake,
    {
        if protocol_target != ProtocolVersion::Handshake {
            return Err(unsupported());
        }
        Ok(size_var_int(0x00) as i32)
    }
}

impl StaticProtocolMappings for Handshake {
    open spec fn spec_mappings() -> Seq<(ProtocolVersion, i32)> {
        seq![(ProtocolVersion::Handshake, 0x00i32)]
    }

    fn get_protocol_mappings() -> (r: Vec<(ProtocolVersion, i32)>) {
        let mut r: Vec<(ProtocolVersion, i32)> = Vec::new();
        r.push((ProtocolVersion::Handshake, 0x00));
        assert(r@ =~= seq![(ProtocolVersion::Handshake, 0x00i32)]);
        r
    }
}

/// Under V118R2: the encryption request, its server id at most 20 bytes.
impl ProtocolEncodable for EncryptionRequest {
    open spec fn protocol_bytes(&self, protocol_target: ProtocolVersion) -> Seq<u8> {
        spec_encryption_request(*self)
    }

    fn encode_from_protocol(&self, protocol_target: ProtocolVersion, out: &mut Vec<u8>) -> (r: Result<
        (),
        TransportError,
    >)
        ensures
            r is Ok <==> (protocol_target == ProtocolVersion::V118R2 && utf8_bytes(self.server_id@).len() <= SERVER_ID_LIMIT && self.public_key@.len() <= i32::MAX && self.verify_token@.len() <= i32::MAX),
            r is Err ==> final(out)@ == old(out)@,
    {
        if protocol_target != ProtocolVersion::V118R2 {
            return Err(unsupported());
        }
        if self.server_id.as_str().as_bytes().len() > SERVER_ID_LIMIT as usize {
            return Err(unsupported_length(self.server_id.as_str().as_bytes().len(), SERVER_ID_LIMIT));
        }
        if self.public_key.len() > i32::MAX as usize || self.verify_token.len() > i32::MAX as usize {
            return Err(TransportError::Explain(String::from_str("Packet too large.")));
        }
        self.encode(out)?;
        Ok(())
    }

    fn size_from_protocol(&self, protocol_target: ProtocolVersion) -> (r: Result<i32, TransportError>)
        ensures
            r is Ok ==> (protocol_target == ProtocolVersion::V118R2 && utf8_bytes(self.server_id@).len() <= SERVER_ID_LIMIT && self.public_key@.len() <= i32::MAX && self.verify_token@.len() <= i32::MAX),
    {
        let mut bytes: Vec<u8> = Vec::new();
        self.encode_from_protocol(protocol_target, &mut bytes)?;
        size_of_encoding(&bytes)
    }
}

/// Under V118R2, the encryption request, its server id at most 20 bytes has id 0x01.
impl PacketEncodable for EncryptionRequest {
    open spec fn packet_id_bytes(protocol_target: ProtocolVersion) -> Seq<u8> {
        spec_var_int(0x01i32)
    }

    fn encode_packet_id(protocol_target: ProtocolVersion, out: &mut Vec<u8>) -> (r: Result<(), TransportError>)
        ensures
            r is Ok <==> protocol_target == ProtocolVersion::V118R2,
            r is Err ==> final(out)@ == old(out)@,
    {
        if protocol_target != ProtocolVersion::V118R2 {
            return Err(unsupported());
        }
        write_var_int(out, 0x01);
        Ok(())
    }

    fn size_packet_id(protocol_target: ProtocolVersion) -> (r: Result<i32, TransportError>)
        ensures
            r is Ok <==> protocol_target == ProtocolVersion::V118R2,
    {
        if protocol_target != ProtocolVersion::V118R2 {
            return Err(unsupported());
        }
        Ok(size_var_int(0x01) as i32)
    }
}

impl StaticProtocolMappings for EncryptionRequest {
    open spec fn spec_mappings() -> Seq<(ProtocolVersion, i32)> {
        seq![(ProtocolVersion::V118R2, 0x01i32)]
    }

    fn get_protocol_mappings() -> (r: Vec<(ProtocolVersion, i32)>) {
        let mut r: Vec<(ProtocolVersion, i32)> = Vec::new();
        r.push((ProtocolVersion::V118R2, 0x01));
        assert(r@ =~= seq![(ProtocolVersion::V118R2, 0x01i32)]);
        r
    }
}

/// Under V118R2: the plugin request.
impl ProtocolEncodable for LoginPluginRequest {
    open spec fn protocol_bytes(&self, protocol_target: ProtocolVersion) -> Seq<u8> {
        spec_plugin_request(*self)
    }

    fn encode_from_protocol(&self, protocol_target: ProtocolVersion, out: &mut Vec<u8>) -> (r: Result<
        (),
        TransportError,
    >)
        ensures
            r is Ok <==> (protocol_target == ProtocolVersion::V118R2 && utf8_bytes(self.channel@).len() <= STRING_DEFAULT_CAP),
            r is Err ==> final(out)@ == old(out)@,
    {
        if protocol_target != ProtocolVersion::V118R2 {
            return Err(unsupported());
        }
        if self.channel.as_str().as_bytes().len() > STRING_DEFAULT_CAP as usize {
            return Err(unsupported_length(self.channel.as_str().as_bytes().len(), STRING_DEFAULT_CAP));
        }
        self.encode(out)?;
        Ok(())
    }

    fn size_from_protocol(&self, protocol_target: ProtocolVersion) -> (r: Result<i32, TransportError>)
        ensures
            r is Ok ==> (protocol_target == ProtocolVersion::V118R2 && utf8_bytes(self.channel@).len() <= STRING_DEFAULT_CAP),
    {
        let mut bytes: Vec<u8> = Vec::new();
        self.encode_from_protocol(protocol_target, &mut bytes)?;
        size_of_encoding(&bytes)
    }
}

/// Under V118R2, the plugin request has id 0x04.
impl PacketEncodable for LoginPluginRequest {
    open spec fn packet_id_bytes(protocol_target: ProtocolVersion) -> Seq<u8> {
        spec_var_int(0x04i32)
    }

    fn encode_packet_id(protocol_target: ProtocolVersion, out: &mut Vec<u8>) -> (r: Result<(), TransportError>)
        ensures
            r is Ok <==> protocol_target == ProtocolVersion::V118R2,
            r is Err ==> final(out)@ == old(out)@,
    {
        if protocol_target != ProtocolVersion::V118R2 {
            return Err(unsupported());
        }
        write_var_int(out, 0x04);
        Ok(())
    }

    fn size_packet_id(protocol_target: ProtocolVersion) -> (r: Result<i32, TransportError>)
        ensures
            r is Ok <==> protocol_target == ProtocolVersion::V118R2,
    {
        if protocol_target != ProtocolVersion::V118R2 {
            return Err(unsupported());
        }
        Ok(size_var_int(0x04) as i32)
    }
}

impl StaticProtocolMappings for LoginPluginRequest {
    open spec fn spec_mappings() -> Seq<(ProtocolVersion, i32)> {
        seq![(ProtocolVersion::V118R2, 0x04i32)]
    }

    fn get_protocol_mappings() -> (r: Vec<(ProtocolVersion, i32)>) {
        let mut r: Vec<(ProtocolVersion, i32)> = Vec::new();
        r.push((ProtocolVersion::V118R2, 0x04));
        assert(r@ =~= seq![(ProtocolVersion::V118R2, 0x04i32)]);
        r
    }
}



/// Serverbound in play, the difficulty change is registered under id 0x02.
impl RegistrationCandidate for crate::protocol::play::sb::ChangeDifficulty {
    open spec fn spec_registrations() -> Seq<(i32, i32)> {
        seq![(CURRENT_PROTOCOL, 0x02i32)]
    }

    fn register_all(keys: &mut Vec<(i32, i32)>) {
        keys.push((CURRENT_PROTOCOL, 0x02));
        assert(keys@ =~= old(keys)@ + seq![(CURRENT_PROTOCOL, 0x02i32)]);
    }

    fn scoped_registration(protocol_version: i32) -> (r: Option<i32>)
        ensures
            r == (if protocol_version == CURRENT_PROTOCOL { Some(0x02i32) } else { None }),
    {
        proof {
            reveal_with_fuel(scoped_in, 2);
            assert(Self::spec_registrations().drop_first() =~= Seq::<(i32, i32)>::empty());
        }
        if protocol_version == CURRENT_PROTOCOL {
            Some(0x02)
        } else {
            None
        }
    }
}

/// Serverbound in play, the container button click is registered under id 0x0A.
impl RegistrationCandidate for crate::protocol::play::sb::ContainerButtonClick {
    open spec fn spec_registrations() -> Seq<(i32, i32)> {
        seq![(CURRENT_PROTOCOL, 0x0Ai32)]
    }

    fn register_all(keys: &mut Vec<(i32, i32)>) {
        keys.push((CURRENT_PROTOCOL, 0x0A));
        assert(keys@ =~= old(keys)@ + seq![(CURRENT_PROTOCOL, 0x0Ai32)]);
    }

    fn scoped_registration(protocol_version: i32) -> (r: Option<i32>)
        ensures
            r == (if protocol_version == CURRENT_PROTOCOL { Some(0x0Ai32) } else { None }),
    {
        proof {
            reveal_with_fuel(scoped_in, 2);
            assert(Self::spec_registrations().drop_first() =~= Seq::<(i32, i32)>::empty());
        }
        if protocol_version == CURRENT_PROTOCOL {
            Some(0x0A)
        } else {
            None
        }
    }
}

/// Serverbound in play, the container close is registered under id 0x0C.
impl RegistrationCandidate for crate::protocol::play::sb::ContainerClose {
    open spec fn spec_registrations() -> Seq<(i32, i32)> {
        seq![(CURRENT_PROTOCOL, 0x0Ci32)]
    }

    fn register_all(keys: &mut Vec<(i32, i32)>) {
        keys.push((CURRENT_PROTOCOL, 0x0C));
        assert(keys@ =~= old(keys)@ + seq![(CURRENT_PROTOCOL, 0x0Ci32)]);
    }

    fn scoped_registration(protocol_version: i32) -> (r: Option<i32>)
        ensures
            r == (if protocol_version == CURRENT_PROTOCOL { Some(0x0Ci32) } else { None }),
    {
        proof {
            reveal_with_fuel(scoped_in, 2);
            assert(Self::spec_registrations().drop_first() =~= Seq::<(i32, i32)>::empty());
        }
        if protocol_version == CURRENT_PROTOCOL {
            Some(0x0C)
        } else {
            None
        }
    }
}

/// Serverbound in play, the plugin message is registered under id 0x0D.
impl RegistrationCandidate for crate::protocol::play::sb::PluginMessage {
    open spec fn spec_registrations() -> Seq<(i32, i32)> {
        seq![(CURRENT_PROTOCOL, 0x0Di32)]
    }

    fn register_all(keys: &mut Vec<(i32, i32)>) {
        keys.push((CURRENT_PROTOCOL, 0x0D));
        assert(keys@ =~= old(keys)@ + seq![(CURRENT_PROTOCOL, 0x0Di32)]);
    }

    fn scoped_registration(protocol_version: i32) -> (r: Option<i32>)
        ensures
            r == (if protocol_version == CURRENT_PROTOCOL { Some(0x0Di32) } else { None }),
    {
        proof {
            reveal_with_fuel(scoped_in, 2);
            assert(Self::spec_registrations().drop_first() =~= Seq::<(i32, i32)>::empty());
        }
        if protocol_version == CURRENT_PROTOCOL {
            Some(0x0D)
        } else {
            None
        }
    }
}

/// Serverbound in play, the keep-alive answer is registered under id 0x12.
impl RegistrationCandidate for crate::protocol::play::sb::KeepAlive {
    open spec fn spec_registrations() -> Seq<(i32, i32)> {
        seq![(CURRENT_PROTOCOL, 0x12i32)]
    }

    fn register_all(keys: &mut Vec<(i32, i32)>) {
        keys.push((CURRENT_PROTOCOL, 0x12));
        assert(keys@ =~= old(keys)@ + seq![(CURRENT_PROTOCOL, 0x12i32)]);
    }

    fn scoped_registration(protocol_version: i32) -> (r: Option<i32>)
        ensures
            r == (if protocol_version == CURRENT_PROTOCOL { Some(0x12i32) } else { None }),
    {
        proof {
            reveal_with_fuel(scoped_in, 2);
            assert(Self::spec_registrations().drop_first() =~= Seq::<(i32, i32)>::empty());
        }
        if protocol_version == CURRENT_PROTOCOL {
            Some(0x12)
        } else {
            None
        }
    }
}

/// Serverbound in play, the difficulty lock is registered under id 0x13.
impl RegistrationCandidate for crate::protocol::play::sb::LockDifficulty {
    open spec fn spec_registrations() -> Seq<(i32, i32)> {
        seq![(CURRENT_PROTOCOL, 0x13i32)]
    }

    fn register_all(keys: &mut Vec<(i32, i32)>) {
        keys.push((CURRENT_PROTOCOL, 0x13));
        assert(keys@ =~= old(keys)@ + seq![(CURRENT_PROTOCOL, 0x13i32)]);
    }

    fn scoped_registration(protocol_version: i32) -> (r: Option<i32>)
        ensures
            r == (if protocol_version == CURRENT_PROTOCOL { Some(0x13i32) } else { None }),
    {
        proof {
            reveal_with_fuel(scoped_in, 2);
            assert(Self::spec_registrations().drop_first() =~= Seq::<(i32, i32)>::empty());
        }
        if protocol_version == CURRENT_PROTOCOL {
            Some(0x13)
        } else {
            None
        }
    }
}

/// Serverbound in play, the on-ground update is registered under id 0x17.
impl RegistrationCandidate for crate::protocol::play::sb::GroundPlayer {
    open spec fn spec_registrations() -> Seq<(i32, i32)> {
        seq![(CURRENT_PROTOCOL, 0x17i32)]
    }

    fn register_all(keys: &mut Vec<(i32, i32)>) {
        keys.push((CURRENT_PROTOCOL, 0x17));
        assert(keys@ =~= old(keys)@ + seq![(CURRENT_PROTOCOL, 0x17i32)]);
    }

    fn scoped_registration(protocol_version: i32) -> (r: Option<i32>)
        ensures
            r == (if protocol_version == CURRENT_PROTOCOL { Some(0x17i32) } else { None }),
    {
        proof {
            reveal_with_fuel(scoped_in, 2);
            assert(Self::spec_registrations().drop_first() =~= Seq::<(i32, i32)>::empty());
        }
        if protocol_version == CURRENT_PROTOCOL {
            Some(0x17)
        } else {
            None
        }
    }
}

/// Serverbound in play, the boat paddles is registered under id 0x19.
impl RegistrationCandidate for crate::protocol::play::sb::PaddleBoat {
    open spec fn spec_registrations() -> Seq<(i32, i32)> {
        seq![(CURRENT_PROTOCOL, 0x19i32)]
    }

    fn register_all(keys: &mut Vec<(i32, i32)>) {
        keys.push((CURRENT_PROTOCOL, 0x19));
        assert(keys@ =~= old(keys)@ + seq![(CURRENT_PROTOCOL, 0x19i32)]);
    }

    fn scoped_registration(protocol_version: i32) -> (r: Option<i32>)
        ensures
            r == (if protocol_version == CURRENT_PROTOCOL { Some(0x19i32) } else { None }),
    {
        proof {
            reveal_with_fuel(scoped_in, 2);
            assert(Self::spec_registrations().drop_first() =~= Seq::<(i32, i32)>::empty());
        }
        if protocol_version == CURRENT_PROTOCOL {
            Some(0x19)
        } else {
            None
        }
    }
}

/// Serverbound in play, the seen recipe is registered under id 0x22.
impl RegistrationCandidate for crate::protocol::play::sb::SetSeenRecipe {
    open spec fn spec_registrations() -> Seq<(i32, i32)> {
        seq![(CURRENT_PROTOCOL, 0x22i32)]
    }

    fn register_all(keys: &mut Vec<(i32, i32)>) {
        keys.push((CURRENT_PROTOCOL, 0x22));
        assert(keys@ =~= old(keys)@ + seq![(CURRENT_PROTOCOL, 0x22i32)]);
    }

    fn scoped_registration(protocol_version: i32) -> (r: Option<i32>)
        ensures
            r == (if protocol_version == CURRENT_PROTOCOL { Some(0x22i32) } else { None }),
    {
        proof {
            reveal_with_fuel(scoped_in, 2);
            assert(Self::spec_registrations().drop_first() =~= Seq::<(i32, i32)>::empty());
        }
        if protocol_version == CURRENT_PROTOCOL {
            Some(0x22)
        } else {
            None
        }
    }
}

/// Serverbound in play, the item rename is registered under id 0x23.
impl RegistrationCandidate for crate::protocol::play::sb::RenameItem {
    open spec fn spec_registrations() -> Seq<(i32, i32)> {
        seq![(CURRENT_PROTOCOL, 0x23i32)]
    }

    fn register_all(keys: &mut Vec<(i32, i32)>) {
        keys.push((CURRENT_PROTOCOL, 0x23));
        assert(keys@ =~= old(keys)@ + seq![(CURRENT_PROTOCOL, 0x23i32)]);
    }

    fn scoped_registration(protocol_version: i32) -> (r: Option<i32>)
        ensures
            r == (if protocol_version == CURRENT_PROTOCOL { Some(0x23i32) } else { None }),
    {
        proof {
            reveal_with_fuel(scoped_in, 2);
            assert(Self::spec_registrations().drop_first() =~= Seq::<(i32, i32)>::empty());
        }
        if protocol_version == CURRENT_PROTOCOL {
            Some(0x23)
        } else {
            None
        }
    }
}

/// Serverbound in play, the held item change is registered under id 0x28.
impl RegistrationCandidate for crate::protocol::play::sb::SetHeldItem {
    open spec fn spec_registrations() -> Seq<(i32, i32)> {
        seq![(CURRENT_PROTOCOL, 0x28i32)]
    }

    fn register_all(keys: &mut Vec<(i32, i32)>) {
        keys.push((CURRENT_PROTOCOL, 0x28));
        assert(keys@ =~= old(keys)@ + seq![(CURRENT_PROTOCOL, 0x28i32)]);
    }

    fn scoped_registration(protocol_version: i32) -> (r: Option<i32>)
        ensures
            r == (if protocol_version == CURRENT_PROTOCOL { Some(0x28i32) } else { None }),
    {
        proof {
            reveal_with_fuel(scoped_in, 2);
            assert(Self::spec_registrations().drop_first() =~= Seq::<(i32, i32)>::empty());
        }
        if protocol_version == CURRENT_PROTOCOL {
            Some(0x28)
        } else {
            None
        }
    }
}

/// Serverbound in play, the jigsaw block program is registered under id 0x2C.
impl RegistrationCandidate for crate::protocol::play::sb::ProgramJigsawBlock {
    open spec fn spec_registrations() -> Seq<(i32, i32)> {
        seq![(CURRENT_PROTOCOL, 0x2Ci32)]
    }

    fn register_all(keys: &mut Vec<(i32, i32)>) {
        keys.push((CURRENT_PROTOCOL, 0x2C));
        assert(keys@ =~= old(keys)@ + seq![(CURRENT_PROTOCOL, 0x2Ci32)]);
    }

    fn scoped_registration(protocol_version: i32) -> (r: Option<i32>)
        ensures
            r == (if protocol_version == CURRENT_PROTOCOL { Some(0x2Ci32) } else { None }),
    {
        proof {
            reveal_with_fuel(scoped_in, 2);
            assert(Self::spec_registrations().drop_first() =~= Seq::<(i32, i32)>::empty());
        }
        if protocol_version == CURRENT_PROTOCOL {
            Some(0x2C)
        } else {
            None
        }
    }
}

/// Serverbound in play, the sign update is registered under id 0x2E.
impl RegistrationCandidate for crate::protocol::play::sb::UpdateSign {
    open spec fn spec_registrations() -> Seq<(i32, i32)> {
        seq![(CURRENT_PROTOCOL, 0x2Ei32)]
    }

    fn register_all(keys: &mut Vec<(i32, i32)>) {
        keys.push((CURRENT_PROTOCOL, 0x2E));
        assert(keys@ =~= old(keys)@ + seq![(CURRENT_PROTOCOL, 0x2Ei32)]);
    }

    fn scoped_registration(protocol_version: i32) -> (r: Option<i32>)
        ensures
            r == (if protocol_version == CURRENT_PROTOCOL { Some(0x2Ei32) } else { None }),
    {
        proof {
            reveal_with_fuel(scoped_in, 2);
            assert(Self::spec_registrations().drop_first() =~= Seq::<(i32, i32)>::empty());
        }
        if protocol_version == CURRENT_PROTOCOL {
            Some(0x2E)
        } else {
            None
        }
    }
}

/// Clientbound in play, the plugin message is registered under id 0x16.
impl RegistrationCandidate for crate::protocol::play::cb::PluginMessage {
    open spec fn spec_registrations() -> Seq<(i32, i32)> {
        seq![(CURRENT_PROTOCOL, 0x16i32)]
    }

    fn register_all(keys: &mut Vec<(i32, i32)>) {
        keys.push((CURRENT_PROTOCOL, 0x16));
        assert(keys@ =~= old(keys)@ + seq![(CURRENT_PROTOCOL, 0x16i32)]);
    }

    fn scoped_registration(protocol_version: i32) -> (r: Option<i32>)
        ensures
            r == (if protocol_version == CURRENT_PROTOCOL { Some(0x16i32) } else { None }),
    {
        proof {
            reveal_with_fuel(scoped_in, 2);
            assert(Self::spec_registrations().drop_first() =~= Seq::<(i32, i32)>::empty());
        }
        if protocol_version == CURRENT_PROTOCOL {
            Some(0x16)
        } else {
            None
        }
    }
}

/// Clientbound in play, the keep-alive is registered under id 0x20.
impl RegistrationCandidate for crate::protocol::play::cb::KeepAlive {
    open spec fn spec_registrations() -> Seq<(i32, i32)> {
        seq![(CURRENT_PROTOCOL, 0x20i32)]
    }

    fn register_all(keys: &mut Vec<(i32, i32)>) {
        keys.push((CURRENT_PROTOCOL, 0x20));
        assert(keys@ =~= old(keys)@ + seq![(CURRENT_PROTOCOL, 0x20i32)]);
    }

    fn scoped_registration(protocol_version: i32) -> (r: Option<i32>)
        ensures
            r == (if protocol_version == CURRENT_PROTOCOL { Some(0x20i32) } else { None }),
    {
        proof {
            reveal_with_fuel(scoped_in, 2);
            assert(Self::spec_registrations().drop_first() =~= Seq::<(i32, i32)>::empty());
        }
        if protocol_version == CURRENT_PROTOCOL {
            Some(0x20)
        } else {
            None
        }
    }
}

/// Clientbound in play, the title timings is registered under id 0x5E.
impl RegistrationCandidate for crate::protocol::play::cb::SetTitleAnimationTimes {
    open spec fn spec_registrations() -> Seq<(i32, i32)> {
        seq![(CURRENT_PROTOCOL, 0x5Ei32)]
    }

    fn register_all(keys: &mut Vec<(i32, i32)>) {
        keys.push((CURRENT_PROTOCOL, 0x5E));
        assert(keys@ =~= old(keys)@ + seq![(CURRENT_PROTOCOL, 0x5Ei32)]);
    }

    fn scoped_registration(protocol_version: i32) -> (r: Option<i32>)
        ensures
            r == (if protocol_version == CURRENT_PROTOCOL { Some(0x5Ei32) } else { None }),
    {
        proof {
            reveal_with_fuel(scoped_in, 2);
            assert(Self::spec_registrations().drop_first() =~= Seq::<(i32, i32)>::empty());
        }
        if protocol_version == CURRENT_PROTOCOL {
            Some(0x5E)
        } else {
            None
        }
    }
}

/// Clientbound in play, the disconnect is registered under id 0x19.
impl RegistrationCandidate for crate::protocol::play::cb::Disconnect {
    open spec fn spec_registrations() -> Seq<(i32, i32)> {
        seq![(CURRENT_PROTOCOL, 0x19i32)]
    }

    fn register_all(keys: &mut Vec<(i32, i32)>) {
        keys.push((CURRENT_PROTOCOL, 0x19));
        assert(keys@ =~= old(keys)@ + seq![(CURRENT_PROTOCOL, 0x19i32)]);
    }

    fn scoped_registration(protocol_version: i32) -> (r: Option<i32>)
        ensures
            r == (if protocol_version == CURRENT_PROTOCOL { Some(0x19i32) } else { None }),
    {
        proof {
            reveal_with_fuel(scoped_in, 2);
            assert(Self::spec_registrations().drop_first() =~= Seq::<(i32, i32)>::empty());
        }
        if protocol_version == CURRENT_PROTOCOL {
            Some(0x19)
        } else {
            None
        }
    }
}

/// Clientbound in play, the subtitle is registered under id 0x5B.
impl RegistrationCandidate for crate::protocol::play::cb::SetSubtitle {
    open spec fn spec_registrations() -> Seq<(i32, i32)> {
        seq![(CURRENT_PROTOCOL, 0x5Bi32)]
    }

    fn register_all(keys: &mut Vec<(i32, i32)>) {
        keys.push((CURRENT_PROTOCOL, 0x5B));
        assert(keys@ =~= old(keys)@ + seq![(CURRENT_PROTOCOL, 0x5Bi32)]);
    }

    fn scoped_registration(protocol_version: i32) -> (r: Option<i32>)
        ensures
            r == (if protocol_version == CURRENT_PROTOCOL { Some(0x5Bi32) } else { None }),
    {
        proof {
            reveal_with_fuel(scoped_in, 2);
            assert(Self::spec_registrations().drop_first() =~= Seq::<(i32, i32)>::empty());
        }
        if protocol_version == CURRENT_PROTOCOL {
            Some(0x5B)
        } else {
            None
        }
    }
}

/// Clientbound in play, the title is registered under id 0x5D.
impl RegistrationCandidate for crate::protocol::play::cb::SetTitle {
    open spec fn spec_registrations() -> Seq<(i32, i32)> {
        seq![(CURRENT_PROTOCOL, 0x5Di32)]
    }

    fn register_all(keys: &mut Vec<(i32, i32)>) {
        keys.push((CURRENT_PROTOCOL, 0x5D));
        assert(keys@ =~= old(keys)@ + seq![(CURRENT_PROTOCOL, 0x5Di32)]);
    }

    fn scoped_registration(protocol_version: i32) -> (r: Option<i32>)
        ensures
            r == (if protocol_version == CURRENT_PROTOCOL { Some(0x5Di32) } else { None }),
    {
        proof {
            reveal_with_fuel(scoped_in, 2);
            assert(Self::spec_registrations().drop_first() =~= Seq::<(i32, i32)>::empty());
        }
        if protocol_version == CURRENT_PROTOCOL {
            Some(0x5D)
        } else {
            None
        }
    }
}

} // verus!
