//! The handshake body as the connection's first phase reads it, after the packet id: the
//! protocol version, the address the client used, the port and the phase it wants next.
use vstd::prelude::*;
use vstd::string::StringExecFns;

use crate::codec::{
    be_bytes, be_value, lemma_be_value_bound, lemma_scan_range, pow256, read_be, read_string,
    read_var_int, spec_read_string, spec_read_var_int, spec_string, spec_var_int, utf8_bytes,
    write_be, write_string, write_var_int, ErrorKind, TransportError,
};

verus! {

/// The phase a client asks for after the handshake.
#[derive(Debug, Clone, Copy, PartialEq, Eq, Structural)]
pub enum NextState {
    Handshaking,
    Status,
    Login,
}

impl NextState {
    /// The key of the phase on the wire: its position in declaration order.
    pub open spec fn spec_key(self) -> i32 {
        match self {
            NextState::Handshaking => 0,
            NextState::Status => 1,
            NextState::Login => 2,
        }
    }

    pub open spec fn spec_from_key(k: i32) -> Option<NextState> {
        if k == 0 {
            Some(NextState::Handshaking)
        } else if k == 1 {
            Some(NextState::Status)
        } else if k == 2 {
            Some(NextState::Login)
        } else {
            None
        }
    }

    pub fn key(self) -> (r: i32)
        ensures
            r == self.spec_key(),
    {
        match self {
            NextState::Handshaking => 0,
            NextState::Status => 1,
            NextState::Login => 2,
        }
    }

    pub fn from_key(k: i32) -> (r: Option<NextState>)
        ensures
            r == NextState::spec_from_key(k),
    {
        match k {
            0 => Some(NextState::Handshaking),
            1 => Some(NextState::Status),
            2 => Some(NextState::Login),
            _ => None,
        }
    }
}

/// The longest server address a plain handshake carries, in bytes.
pub const SERVER_ADDRESS_LIMIT: i32 = 255;

/// The handshake.
#[derive(Debug)]
pub struct Handshake {
    pub protocol_version: i32,
    pub server_address: String,
    pub server_port: u16,
    pub next_state: NextState,
}

/// The encoding of a handshake body: the version as a VarInt, the address, the port as two
/// big-endian bytes, and the next phase's key as a VarInt.
pub open spec fn spec_handshake(h: Handshake) -> Seq<u8> {
    spec_var_int(h.protocol_version) + spec_string(h.server_address@) + be_bytes(
        h.server_port as nat,
        2,
    ) + spec_var_int(h.next_state.spec_key())
}

/// A handshake as read: the address as UTF-8 bytes.
pub ghost struct HandshakeBytes {
    pub protocol_version: i32,
    pub server_address: Seq<u8>,
    pub server_port: u16,
    pub next_state: NextState,
}

/// `h` is the handshake `v` describes.
pub open spec fn handshake_is(h: Handshake, v: HandshakeBytes) -> bool {
    &&& h.protocol_version == v.protocol_version
    &&& utf8_bytes(h.server_address@) == v.server_address
    &&& h.server_port == v.server_port
    &&& h.next_state == v.next_state
}

/// What reading a handshake body from the start of `s` gives, with the address limited to
/// `limit` bytes.
pub open spec fn spec_read_handshake(s: Seq<u8>, limit: i32) -> Result<(HandshakeBytes, nat), ErrorKind> {
    match spec_read_var_int(s) {
        Err(e) => Err(e),
        Ok((version, k1)) => match spec_read_string(s.skip(k1 as int), limit) {
            Err(e) => Err(e),
            Ok((address, k2)) => {
                let o = k1 + k2;
                if o + 2 > s.len() {
                    Err(ErrorKind::EndOfInput)
                } else {
                    match spec_read_var_int(s.skip((o + 2) as int)) {
                        Err(e) => Err(e),
                        Ok((key, k3)) => match NextState::spec_from_key(key) {
                            None => Err(ErrorKind::Explain("Unknown next state."@)),
                            Some(next_state) => Ok(
                                (
                                    HandshakeBytes {
                                        protocol_version: version,
                                        server_address: address,
                                        server_port: be_value(
                                            s.subrange(o as int, (o + 2) as int),
                                        ) as u16,
                                        next_state,
                                    },
                                    o + 2 + k3,
                                ),
                            ),
                        },
                    }
                }
            },
        },
    }
}

impl Handshake {
    /// Appends the body; refused, with nothing appended, when the address is longer than
    /// `limit` bytes.
    pub fn encode(&self, out: &mut Vec<u8>, limit: i32) -> (r: Result<(), TransportError>)
        requires
            utf8_bytes(self.server_address@).len() <= i32::MAX,
        ensures
            utf8_bytes(self.server_address@).len() <= limit ==> r is Ok && final(out)@ == old(out)@
                + spec_handshake(*self),
            utf8_bytes(self.server_address@).len() > limit ==> r == Err::<(), TransportError>(
                TransportError::LimitExceeded(limit, utf8_bytes(self.server_address@).len() as i32),
            ) && final(out)@ == old(out)@,
    {
        let mut buf: Vec<u8> = Vec::new();
        write_var_int(&mut buf, self.protocol_version);
        write_string(&mut buf, self.server_address.as_str(), limit)?;
        write_be(&mut buf, self.server_port as u64, 2);
        write_var_int(&mut buf, self.next_state.key());
        crate::encoding::append_bytes(out, buf.as_slice());
        assert(buf@ =~= spec_handshake(*self));
        Ok(())
    }

    /// Reads a body at `pos` with the address limited to `limit` bytes: 255 for a plain
    /// handshake, more where a proxy forwards data in the address.
    pub fn decode(buf: &[u8], pos: usize, limit: i32) -> (r: Result<(Handshake, usize), TransportError>)
        requires
            pos <= buf@.len(),
        ensures
            match spec_read_handshake(buf@.skip(pos as int), limit) {
                Ok((v, k)) => r matches Ok((h, q)) && handshake_is(h, v) && q == pos + k,
                Err(e) => r matches Err(err) && err.kind() == e,
            },
    {
        let ghost s = buf@.skip(pos as int);
        let blen = buf.len();
        proof {
            lemma_scan_range(s, 0, 5);
        }
        let (protocol_version, p1) = read_var_int(buf, pos)?;
        assert(s.skip((p1 - pos) as int) =~= buf@.skip(p1 as int));
        let (server_address, p2) = read_string(buf, p1, limit)?;
        if blen - p2 < 2 {
            return Err(TransportError::EndOfInput);
        }
        let (port, p3) = read_be(buf, p2, 2)?;
        assert(s.subrange((p2 - pos) as int, (p2 - pos) + 2) =~= buf@.subrange(p2 as int, p2 + 2));
        proof {
            assert(pow256(2) == 65536) by {
                reveal_with_fuel(pow256, 3);
            }
            lemma_be_value_bound(buf@.subrange(p2 as int, p2 + 2));
        }
        assert(s.skip((p3 - pos) as int) =~= buf@.skip(p3 as int));
        proof {
            lemma_scan_range(buf@.skip(p3 as int), 0, 5);
        }
        let (key, p4) = read_var_int(buf, p3)?;
        let next_state = match NextState::from_key(key) {
            Some(n) => n,
            None => {
                return Err(TransportError::Explain(String::from_str("Unknown next state.")));
            },
        };
        Ok((Handshake { protocol_version, server_address, server_port: port as u16, next_state }, p4))
    }
}

/// A handshake whose address fits the limit reads back as written.
#[verifier::rlimit(80)]
pub proof fn law_handshake_roundtrip(h: Handshake, limit: i32, rest: Seq<u8>)
    requires
        utf8_bytes(h.server_address@).len() <= limit,
    ensures
        spec_read_handshake(spec_handshake(h) + rest, limit) == Ok::<(HandshakeBytes, nat), ErrorKind>(
            (
                HandshakeBytes {
                    protocol_version: h.protocol_version,
                    server_address: utf8_bytes(h.server_address@),
                    server_port: h.server_port,
                    next_state: h.next_state,
                },
                spec_handshake(h).len(),
            ),
        ),
{
    let h1 = spec_var_int(h.protocol_version);
    let h2 = spec_string(h.server_address@);
    let h3 = be_bytes(h.server_port as nat, 2);
    let h4 = spec_var_int(h.next_state.spec_key());
    let all = spec_handshake(h) + rest;
    assert(all =~= h1 + (h2 + (h3 + (h4 + rest))));
    crate::codec::lemma_var_int_roundtrip(h.protocol_version, h2 + (h3 + (h4 + rest)));
    assert(all.skip(h1.len() as int) =~= h2 + (h3 + (h4 + rest)));
    crate::codec::law_string_roundtrip(h.server_address@, limit, h3 + (h4 + rest));
    let o = h1.len() + h2.len();
    crate::codec::lemma_be_roundtrip(h.server_port as nat, 2);
    assert(all.subrange(o as int, (o + 2) as int) =~= h3);
    assert(pow256(2) == 65536) by {
        reveal_with_fuel(pow256, 3);
    }
    assert(all.skip((o + 2) as int) =~= h4 + rest);
    crate::codec::lemma_var_int_roundtrip(h.next_state.spec_key(), rest);
    assert(spec_read_var_int(all) == Ok::<(i32, nat), ErrorKind>((h.protocol_version, h1.len())));
    assert(spec_read_string(all.skip(h1.len() as int), limit) == Ok::<(Seq<u8>, nat), ErrorKind>(
        (utf8_bytes(h.server_address@), h2.len()),
    ));
    assert(spec_read_var_int(all.skip((o + 2) as int)) == Ok::<(i32, nat), ErrorKind>(
        (h.next_state.spec_key(), h4.len()),
    ));
    assert(NextState::spec_from_key(h.next_state.spec_key()) == Some(h.next_state));
}

/// The next phase is written as its protocol key: 0 for handshaking, 1 for status, 2 for
/// login.
pub proof fn law_next_state_written(h: Handshake)
    ensures
        spec_handshake(h) == spec_var_int(h.protocol_version) + spec_string(h.server_address@)
            + be_bytes(h.server_port as nat, 2) + spec_var_int(
            match h.next_state {
                NextState::Handshaking => 0i32,
                NextState::Status => 1i32,
                NextState::Login => 2i32,
            },
        ),
{
}

/// A handshake body read back names the phase by its protocol key: 0 asks for handshaking,
/// 1 for status, 2 for login, and any other key is refused.
#[verifier::rlimit(80)]
pub proof fn law_next_state_read(version: i32, address: Seq<char>, port: u16, key: i32, limit: i32, rest: Seq<u8>)
    requires
        utf8_bytes(address).len() <= limit,
    ensures
        ({
            let s = spec_var_int(version) + spec_string(address) + be_bytes(port as nat, 2)
                + spec_var_int(key) + rest;
            &&& key == 0 ==> (spec_read_handshake(s, limit) matches Ok((v, _)) && v.next_state
                == NextState::Handshaking)
            &&& key == 1 ==> (spec_read_handshake(s, limit) matches Ok((v, _)) && v.next_state
                == NextState::Status)
            &&& key == 2 ==> (spec_read_handshake(s, limit) matches Ok((v, _)) && v.next_state
                == NextState::Login)
            &&& (key < 0 || key > 2) ==> spec_read_handshake(s, limit) == Err::<(HandshakeBytes, nat), ErrorKind>(
                ErrorKind::Explain("Unknown next state."@),
            )
        }),
{
    let h1 = spec_var_int(version);
    let h2 = spec_string(address);
    let h3 = be_bytes(port as nat, 2);
    let h4 = spec_var_int(key);
    let all = h1 + h2 + h3 + h4 + rest;
    assert(all =~= h1 + (h2 + (h3 + (h4 + rest))));
    crate::codec::lemma_var_int_roundtrip(version, h2 + (h3 + (h4 + rest)));
    assert(all.skip(h1.len() as int) =~= h2 + (h3 + (h4 + rest)));
    crate::codec::law_string_roundtrip(address, limit, h3 + (h4 + rest));
    let o = h1.len() + h2.len();
    crate::codec::lemma_be_roundtrip(port as nat, 2);
    assert(all.subrange(o as int, (o + 2) as int) =~= h3);
    assert(all.skip((o + 2) as int) =~= h4 + rest);
    crate::codec::lemma_var_int_roundtrip(key, rest);
    assert(spec_read_var_int(all) == Ok::<(i32, nat), ErrorKind>((version, h1.len())));
    assert(spec_read_string(all.skip(h1.len() as int), limit) == Ok::<(Seq<u8>, nat), ErrorKind>(
        (utf8_bytes(address), h2.len()),
    ));
    assert(spec_read_var_int(all.skip((o + 2) as int)) == Ok::<(i32, nat), ErrorKind>((key, h4.len())));
}


/// The protocol's key for each next phase: 0 handshaking, 1 status, 2 login; each is written
/// as that key and read back from it.
pub proof fn law_next_state_wire_keys(n: NextState)
    ensures
        ({
            let k: i32 = match n {
                NextState::Handshaking => 0i32,
                NextState::Status => 1i32,
                NextState::Login => 2i32,
            };
            n.spec_key() == k && NextState::spec_from_key(k) == Some(n)
        }),
{
}

} // verus!
