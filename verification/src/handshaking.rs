//! The handshake: the first packet of every connection, which names the protocol version, the
//! address used and the phase the client wants next.
use vstd::prelude::*;
use vstd::string::StringExecFns;

use crate::codec::{
    be_bytes, be_value, read_be, read_string, read_var_int, spec_read_string, spec_read_var_int,
    spec_string, utf8_bytes, spec_var_int, write_be, write_string, write_var_int, ErrorKind,
    TransportError,
};

verus! {

/// Where a connection goes after the handshake.
#[derive(Debug, Clone, Copy, PartialEq, Eq, Structural)]
pub enum ConnectionProtocol {
    /// The play phase.
    Play,
    /// The status phase: the client asks for the server's status and pings it.
    Status,
    /// The login phase: the client is authenticated; it ends with a login success.
    Login,
}

impl ConnectionProtocol {
    /// The key of the phase on the wire: its position in declaration order.
    pub open spec fn spec_key(self) -> i32 {
        match self {
            ConnectionProtocol::Play => 0,
            ConnectionProtocol::Status => 1,
            ConnectionProtocol::Login => 2,
        }
    }

    pub open spec fn spec_from_key(k: i32) -> Option<ConnectionProtocol> {
        if k == 0 {
            Some(ConnectionProtocol::Play)
        } else if k == 1 {
            Some(ConnectionProtocol::Status)
        } else if k == 2 {
            Some(ConnectionProtocol::Login)
        } else {
            None
        }
    }

    pub fn key(self) -> (r: i32)
        ensures
            r == self.spec_key(),
    {
        match self {
            ConnectionProtocol::Play => 0,
            ConnectionProtocol::Status => 1,
            ConnectionProtocol::Login => 2,
        }
    }

    pub fn from_key(k: i32) -> (r: Option<ConnectionProtocol>)
        ensures
            r == ConnectionProtocol::spec_from_key(k),
    {
        match k {
            0 => Some(ConnectionProtocol::Play),
            1 => Some(ConnectionProtocol::Status),
            2 => Some(ConnectionProtocol::Login),
            _ => None,
        }
    }
}

/// The longest host name a handshake carries, in bytes.
pub const HOST_NAME_LIMIT: i32 = 255;

/// The packets of the handshaking phase.
#[derive(Debug)]
pub enum HandshakingRegistry {
    /// Opens a connection.
    ClientIntention {
        /// The client's protocol version.
        protocol_version: i32,
        /// The address the client connected to.
        host_name: String,
        /// The port the client connected to.
        port: u16,
        /// The phase the client wants next.
        intention: ConnectionProtocol,
    },
}

/// A handshake packet with the host name as characters.
pub ghost struct ClientIntentionView {
    pub protocol_version: i32,
    pub host_name: Seq<char>,
    pub port: u16,
    pub intention: ConnectionProtocol,
}

impl View for HandshakingRegistry {
    type V = ClientIntentionView;

    open spec fn view(&self) -> ClientIntentionView {
        match self {
            HandshakingRegistry::ClientIntention { protocol_version, host_name, port, intention } =>
                ClientIntentionView {
                protocol_version: *protocol_version,
                host_name: host_name@,
                port: *port,
                intention: *intention,
            },
        }
    }
}

/// The encoding of a handshake: packet id 0, then the version, the host name, the port as two
/// big-endian bytes and the intention's key, VarInts but for the port.
pub open spec fn spec_client_intention(v: ClientIntentionView) -> Seq<u8> {
    spec_var_int(0) + spec_var_int(v.protocol_version) + spec_string(v.host_name) + be_bytes(
        v.port as nat,
        2,
    ) + spec_var_int(v.intention.spec_key())
}

/// What reading a handshake from the start of `s` gives.
pub open spec fn spec_read_client_intention(s: Seq<u8>) -> Result<(ClientIntentionView, nat), ErrorKind> {
    match spec_read_var_int(s) {
        Err(e) => Err(e),
        Ok((id, k0)) => if id != 0 {
            Err(ErrorKind::Explain("Unknown handshaking packet id."@))
        } else {
            match spec_read_var_int(s.skip(k0 as int)) {
                Err(e) => Err(e),
                Ok((version, k1)) => match spec_read_string(s.skip((k0 + k1) as int), HOST_NAME_LIMIT) {
                    Err(e) => Err(e),
                    Ok((host, k2)) => {
                        let o = k0 + k1 + k2;
                        if o + 2 > s.len() {
                            Err(ErrorKind::EndOfInput)
                        } else {
                            match spec_read_var_int(s.skip((o + 2) as int)) {
                                Err(e) => Err(e),
                                Ok((key, k3)) => match ConnectionProtocol::spec_from_key(key) {
                                    None => Err(ErrorKind::Explain("Unknown connection protocol."@)),
                                    Some(intention) => Ok(
                                        (
                                            ClientIntentionView {
                                                protocol_version: version,
                                                host_name: vstd::utf8::decode_utf8(host),
                                                port: be_value(s.subrange(o as int, (o + 2) as int)) as u16,
                                                intention,
                                            },
                                            o + 2 + k3,
                                        ),
                                    ),
                                },
                            }
                        }
                    },
                },
            }
        },
    }
}

impl HandshakingRegistry {
    /// Appends the packet; refused, with nothing appended, when the host name is longer than
    /// 255 bytes.
    pub fn encode(&self, out: &mut Vec<u8>) -> (r: Result<(), TransportError>)
        requires
            utf8_bytes(self@.host_name).len() <= i32::MAX,
        ensures
            utf8_bytes(self@.host_name).len() <= HOST_NAME_LIMIT ==> r is Ok && final(out)@ == old(out)@
                + spec_client_intention(self@),
            utf8_bytes(self@.host_name).len() > HOST_NAME_LIMIT ==> r == Err::<(), TransportError>(
                TransportError::LimitExceeded(
                    HOST_NAME_LIMIT,
                    utf8_bytes(self@.host_name).len() as i32,
                ),
            ) && final(out)@ == old(out)@,
    {
        match self {
            HandshakingRegistry::ClientIntention { protocol_version, host_name, port, intention } => {
                let mut buf: Vec<u8> = Vec::new();
                write_var_int(&mut buf, 0);
                write_var_int(&mut buf, *protocol_version);
                write_string(&mut buf, host_name.as_str(), HOST_NAME_LIMIT)?;
                write_be(&mut buf, *port as u64, 2);
                write_var_int(&mut buf, intention.key());
                crate::encoding::append_bytes(out, buf.as_slice());
                assert(buf@ =~= spec_client_intention(self@));
                Ok(())
            },
        }
    }

    /// Reads the packet.
    #[verifier::rlimit(50)]
    pub fn decode(buf: &[u8], pos: usize) -> (r: Result<(HandshakingRegistry, usize), TransportError>)
        requires
            pos <= buf@.len(),
        ensures
            match spec_read_client_intention(buf@.skip(pos as int)) {
                Ok((v, k)) => r matches Ok((p, q)) && p@ == v && q == pos + k,
                Err(e) => r is Err && r->Err_0.kind() == e,
            },
    {
        let ghost s = buf@.skip(pos as int);
        let blen = buf.len();
        proof {
            crate::codec::lemma_scan_range(s, 0, 5);
        }
        let (id, p0) = match read_var_int(buf, pos) {
            Ok(x) => x,
            Err(e) => {
                return Err(e);
            },
        };
        if id != 0 {
            return Err(TransportError::Explain(String::from_str("Unknown handshaking packet id.")));
        }
        assert(s.skip((p0 - pos) as int) =~= buf@.skip(p0 as int));
        proof {
            crate::codec::lemma_scan_range(buf@.skip(p0 as int), 0, 5);
        }
        let (protocol_version, p1) = match read_var_int(buf, p0) {
            Ok(x) => x,
            Err(e) => {
                return Err(e);
            },
        };
        assert(s.skip((p1 - pos) as int) =~= buf@.skip(p1 as int));
        let (host_name, p2) = match read_string(buf, p1, HOST_NAME_LIMIT) {
            Ok(x) => x,
            Err(e) => {
                return Err(e);
            },
        };
        assert(s.skip((p2 - pos) as int) =~= buf@.skip(p2 as int));
        proof {
            vstd::utf8::encode_utf8_decode_utf8(host_name@);
        }
        if blen - p2 < 2 {
            return Err(TransportError::EndOfInput);
        }
        let (port, p3) = match read_be(buf, p2, 2) {
            Ok(x) => x,
            Err(e) => {
                return Err(e);
            },
        };
        assert(s.subrange((p2 - pos) as int, (p2 - pos) + 2) =~= buf@.subrange(p2 as int, p2 + 2));
        proof {
            assert(crate::codec::pow256(2) == 65536) by {
                reveal_with_fuel(crate::codec::pow256, 3);
            }
            crate::codec::lemma_be_value_bound(buf@.subrange(p2 as int, p2 + 2));
        }
        assert(s.skip((p3 - pos) as int) =~= buf@.skip(p3 as int));
        proof {
            crate::codec::lemma_scan_range(buf@.skip(p3 as int), 0, 5);
        }
        let (key, p4) = match read_var_int(buf, p3) {
            Ok(x) => x,
            Err(e) => {
                return Err(e);
            },
        };
        let intention = match ConnectionProtocol::from_key(key) {
            Some(i) => i,
            None => {
                return Err(TransportError::Explain(String::from_str("Unknown connection protocol.")));
            },
        };
        Ok((
            HandshakingRegistry::ClientIntention {
                protocol_version,
                host_name,
                port: port as u16,
                intention,
            },
            p4,
        ))
    }
}

/// A handshake whose host name fits the limit reads back as written.
#[verifier::rlimit(100)]
pub proof fn law_client_intention_roundtrip(v: ClientIntentionView, rest: Seq<u8>)
    requires
        utf8_bytes(v.host_name).len() <= HOST_NAME_LIMIT,
    ensures
        spec_read_client_intention(spec_client_intention(v) + rest) == Ok::<(ClientIntentionView, nat), ErrorKind>(
            (v, spec_client_intention(v).len()),
        ),
{
    let h0 = spec_var_int(0);
    let h1 = spec_var_int(v.protocol_version);
    let h2 = spec_string(v.host_name);
    let h3 = be_bytes(v.port as nat, 2);
    let h4 = spec_var_int(v.intention.spec_key());
    let all = spec_client_intention(v) + rest;
    assert(all =~= h0 + (h1 + (h2 + (h3 + (h4 + rest)))));
    let o = h0.len() + h1.len() + h2.len();
    crate::codec::lemma_be_roundtrip(v.port as nat, 2);
    assert(spec_read_var_int(all) == Ok::<(i32, nat), ErrorKind>((0, h0.len()))) by {
        crate::codec::lemma_var_int_roundtrip(0, h1 + (h2 + (h3 + (h4 + rest))));
    }
    assert(spec_read_var_int(all.skip(h0.len() as int)) == Ok::<(i32, nat), ErrorKind>(
        (v.protocol_version, h1.len()),
    )) by {
        assert(all.skip(h0.len() as int) =~= h1 + (h2 + (h3 + (h4 + rest))));
        crate::codec::lemma_var_int_roundtrip(v.protocol_version, h2 + (h3 + (h4 + rest)));
    }
    assert(spec_read_string(all.skip((h0.len() + h1.len()) as int), HOST_NAME_LIMIT) == Ok::<
        (Seq<u8>, nat),
        ErrorKind,
    >((utf8_bytes(v.host_name), h2.len()))) by {
        assert(all.skip((h0.len() + h1.len()) as int) =~= h2 + (h3 + (h4 + rest)));
        crate::codec::law_string_roundtrip(v.host_name, HOST_NAME_LIMIT, h3 + (h4 + rest));
    }
    assert(vstd::utf8::decode_utf8(utf8_bytes(v.host_name)) == v.host_name) by {
        vstd::utf8::encode_utf8_decode_utf8(v.host_name);
    }
    assert(be_value(all.subrange(o as int, (o + 2) as int)) as u16 == v.port) by {
        assert(all.subrange(o as int, (o + 2) as int) =~= h3);
        assert(crate::codec::pow256(2) == 65536) by {
            reveal_with_fuel(crate::codec::pow256, 3);
        }
    }
    assert(spec_read_var_int(all.skip((o + 2) as int)) == Ok::<(i32, nat), ErrorKind>(
        (v.intention.spec_key(), h4.len()),
    )) by {
        assert(all.skip((o + 2) as int) =~= h4 + rest);
        crate::codec::lemma_var_int_roundtrip(v.intention.spec_key(), rest);
    }
    assert(ConnectionProtocol::spec_from_key(v.intention.spec_key()) == Some(v.intention));
    assert(o + 2 + h4.len() == spec_client_intention(v).len());
}


/// The protocol's key for each connection phase an intention names: 0 play, 1 status,
/// 2 login; each is written as that key and read back from it.
pub proof fn law_connection_protocol_wire_keys(c: ConnectionProtocol)
    ensures
        ({
            let k: i32 = match c {
                ConnectionProtocol::Play => 0i32,
                ConnectionProtocol::Status => 1i32,
                ConnectionProtocol::Login => 2i32,
            };
            c.spec_key() == k && ConnectionProtocol::spec_from_key(k) == Some(c)
        }),
{
}

} // verus!
