//! The packets of the status phase: the client's request and ping, the server's response and
//! pong. The response's body is JSON, which the driver writes from these values.
use vstd::prelude::*;

use crate::codec::{
    be_bytes, be_value, read_be, read_string, spec_read_string, spec_string, utf8_bytes, write_be,
    write_string, ErrorKind, TransportError,
};
use crate::common::chat::Chat;

verus! {

/// The client's request for the server's status.
#[derive(Debug, Clone, Copy)]
pub struct Request;

/// The client's ping, carrying a time the server sends back.
#[derive(Debug, Clone, Copy, PartialEq, Eq, Structural)]
pub struct Ping {
    pub start_time: i64,
}

/// The server's answer to a ping, carrying the ping's time.
#[derive(Debug, Clone, Copy, PartialEq, Eq, Structural)]
pub struct Pong {
    pub start_time: i64,
}

impl From<Pong> for Ping {
    fn from(pong: Pong) -> (r: Self) {
        Ping { start_time: pong.start_time }
    }
}

impl vstd::std_specs::convert::FromSpecImpl<Pong> for Ping {
    open spec fn obeys_from_spec() -> bool {
        true
    }

    open spec fn from_spec(pong: Pong) -> Ping {
        Ping { start_time: pong.start_time }
    }
}

impl From<Ping> for Pong {
    fn from(ping: Ping) -> (r: Self) {
        Pong { start_time: ping.start_time }
    }
}

impl vstd::std_specs::convert::FromSpecImpl<Ping> for Pong {
    open spec fn obeys_from_spec() -> bool {
        true
    }

    open spec fn from_spec(ping: Ping) -> Pong {
        Pong { start_time: ping.start_time }
    }
}

/// A ping answered with its pong, and that pong turned back into a ping, is the ping.
pub proof fn law_ping_pong_roundtrip(ping: Ping)
    ensures
        <Ping as vstd::std_specs::convert::FromSpec<Pong>>::from_spec(
            <Pong as vstd::std_specs::convert::FromSpec<Ping>>::from_spec(ping),
        ) == ping,
{
}

/// The eight big-endian bytes of a time.
pub open spec fn spec_time(t: i64) -> Seq<u8> {
    be_bytes(t as u64 as nat, 8)
}

/// What reading a time from the start of `s` gives.
pub open spec fn spec_read_time(s: Seq<u8>) -> Result<(i64, nat), ErrorKind> {
    if s.len() < 8 {
        Err(ErrorKind::EndOfInput)
    } else {
        Ok(((be_value(s.subrange(0, 8)) as u64) as i64, 8))
    }
}

fn read_time(buf: &[u8], pos: usize) -> (r: Result<(i64, usize), TransportError>)
    requires
        pos <= buf@.len(),
    ensures
        match spec_read_time(buf@.skip(pos as int)) {
            Ok((t, k)) => r == Ok::<(i64, usize), TransportError>((t, (pos + k) as usize)),
            Err(e) => r matches Err(err) && err.kind() == e,
        },
{
    let blen = buf.len();
    let (v, q) = read_be(buf, pos, 8)?;
    assert(buf@.skip(pos as int).subrange(0, 8) =~= buf@.subrange(pos as int, pos + 8));
    Ok((v as i64, q))
}

impl Ping {
    pub fn encode(&self, out: &mut Vec<u8>)
        ensures
            final(out)@ == old(out)@ + spec_time(self.start_time),
    {
        write_be(out, self.start_time as u64, 8);
    }

    pub fn decode(buf: &[u8], pos: usize) -> (r: Result<(Ping, usize), TransportError>)
        requires
            pos <= buf@.len(),
        ensures
            match spec_read_time(buf@.skip(pos as int)) {
                Ok((t, k)) => r == Ok::<(Ping, usize), TransportError>(
                    (Ping { start_time: t }, (pos + k) as usize),
                ),
                Err(e) => r matches Err(err) && err.kind() == e,
            },
    {
        let (t, q) = read_time(buf, pos)?;
        Ok((Ping { start_time: t }, q))
    }
}

impl Pong {
    pub fn encode(&self, out: &mut Vec<u8>)
        ensures
            final(out)@ == old(out)@ + spec_time(self.start_time),
    {
        write_be(out, self.start_time as u64, 8);
    }

    pub fn decode(buf: &[u8], pos: usize) -> (r: Result<(Pong, usize), TransportError>)
        requires
            pos <= buf@.len(),
        ensures
            match spec_read_time(buf@.skip(pos as int)) {
                Ok((t, k)) => r == Ok::<(Pong, usize), TransportError>(
                    (Pong { start_time: t }, (pos + k) as usize),
                ),
                Err(e) => r matches Err(err) && err.kind() == e,
            },
    {
        let (t, q) = read_time(buf, pos)?;
        Ok((Pong { start_time: t }, q))
    }
}

/// A time reads back as written.
pub proof fn law_time_roundtrip(t: i64, rest: Seq<u8>)
    ensures
        spec_read_time(spec_time(t) + rest) == Ok::<(i64, nat), ErrorKind>((t, 8)),
{
    crate::codec::lemma_be_roundtrip(t as u64 as nat, 8);
    assert((spec_time(t) + rest).subrange(0, 8) =~= spec_time(t));
    assert(crate::codec::pow256(8) == 0x1_0000_0000_0000_0000) by {
        reveal_with_fuel(crate::codec::pow256, 9);
    }
    assert(((t as u64) as i64) == t) by (bit_vector);
}

/// The protocol version in a status response: its name and number.
#[derive(Debug)]
pub struct StatusResponseVersion {
    pub name: String,
    pub protocol: i32,
}

/// One player shown in a status response.
#[derive(Debug)]
pub struct StatusResponsePlayerSample {
    pub name: String,
    pub id: u128,
}

/// The player counts of a status response, with a sample of who is online.
#[derive(Debug)]
pub struct StatusResponsePlayers {
    pub max: i32,
    pub online: i32,
    pub sample: Vec<StatusResponsePlayerSample>,
}

/// The server's status.
#[derive(Debug)]
pub struct StatusResponse {
    pub version: StatusResponseVersion,
    pub players: StatusResponsePlayers,
    pub description: Chat,
    pub favicon: Option<String>,
    pub previews_chat: Option<bool>,
}

/// The longest status JSON text, in bytes.
pub const STATUS_JSON_LIMIT: i32 = 32767;

/// The server's answer to a status request: the status, sent as JSON text.
#[derive(Debug)]
pub struct Response(pub StatusResponse);

impl Response {
    /// Appends the packet's body from the status's JSON text: the text as a string of at most
    /// `STATUS_JSON_LIMIT` bytes; a longer text is refused and nothing is written.
    pub fn encode_json(json: &str, out: &mut Vec<u8>) -> (r: Result<(), TransportError>)
        requires
            utf8_bytes(json@).len() <= i32::MAX,
        ensures
            r is Ok <==> utf8_bytes(json@).len() <= STATUS_JSON_LIMIT,
            r is Ok ==> final(out)@ == old(out)@ + spec_string(json@),
            r matches Err(e) ==> e == TransportError::LimitExceeded(
                STATUS_JSON_LIMIT,
                utf8_bytes(json@).len() as i32,
            ) && final(out)@ == old(out)@,
    {
        write_string(out, json, STATUS_JSON_LIMIT)
    }

    /// Reads the packet's body at `pos`: the status's JSON text.
    pub fn decode_json(buf: &[u8], pos: usize) -> (r: Result<(String, usize), TransportError>)
        requires
            pos <= buf@.len(),
        ensures
            match spec_read_string(buf@.skip(pos as int), STATUS_JSON_LIMIT) {
                Ok((bytes, k)) => r matches Ok((s, p)) && utf8_bytes(s@) == bytes && p == pos + k,
                Err(e) => r is Err && r->Err_0.kind() == e,
            },
    {
        read_string(buf, pos, STATUS_JSON_LIMIT)
    }
}

} // verus!
