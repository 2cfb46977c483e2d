//! Clientbound play packets whose bodies are plain fields in order, and those whose body is
//! one chat component sent as JSON text, which the driver writes.
use vstd::prelude::*;

use crate::clientbound::play::STRING_DEFAULT_CAP;
use crate::codec::{
    be_bytes, be_value, law_string_roundtrip, lemma_be_roundtrip, lemma_be_value_bound, pow256,
    read_be, read_string, spec_read_string, spec_string, utf8_bytes, write_be, write_string,
    ErrorKind, TransportError,
};
use crate::common::chat::Chat;
use crate::encoding::append_bytes;
use crate::protocol::play::sb::{fixed_read, over_limit, read_rest};

verus! {

/// A message on a plugin channel, the data running to the end of the packet.
#[derive(Debug)]
pub struct PluginMessage {
    pub identifier: String,
    pub data: Vec<u8>,
}

impl PluginMessage {
    pub open spec fn spec_encode(&self) -> Seq<u8> {
        spec_string(self.identifier@) + self.data@
    }

    /// What reading a plugin message from `s` gives: the channel's bytes and the data.
    pub open spec fn spec_read(s: Seq<u8>) -> Result<(Seq<u8>, Seq<u8>), ErrorKind> {
        match spec_read_string(s, STRING_DEFAULT_CAP) {
            Err(e) => Err(e),
            Ok((identifier, k)) => Ok((identifier, s.skip(k as int))),
        }
    }

    /// Appends the message; refused, with nothing appended, when the channel is too long.
    pub fn encode(&self, out: &mut Vec<u8>) -> (r: Result<(), TransportError>)
        requires
            utf8_bytes(self.identifier@).len() <= i32::MAX,
        ensures
            utf8_bytes(self.identifier@).len() <= STRING_DEFAULT_CAP ==> r is Ok && final(out)@
                == old(out)@ + self.spec_encode(),
            utf8_bytes(self.identifier@).len() > STRING_DEFAULT_CAP ==> r == Err::<(), TransportError>(
                over_limit(self.identifier@, STRING_DEFAULT_CAP),
            ) && final(out)@ == old(out)@,
    {
        write_string(out, self.identifier.as_str(), STRING_DEFAULT_CAP)?;
        append_bytes(out, self.data.as_slice());
        Ok(())
    }

    /// Reads a plugin message at `pos`: the channel, then every byte after it as the data.
    pub fn decode(buf: &[u8], pos: usize) -> (r: Result<PluginMessage, TransportError>)
        requires
            pos <= buf@.len(),
        ensures
            match Self::spec_read(buf@.skip(pos as int)) {
                Ok((identifier, data)) => r matches Ok(m) && utf8_bytes(m.identifier@) == identifier
                    && m.data@ == data,
                Err(e) => r matches Err(err) && err.kind() == e,
            },
    {
        let blen = buf.len();
        let (identifier, p) = read_string(buf, pos, STRING_DEFAULT_CAP)?;
        let data = read_rest(buf, p);
        assert(buf@.skip(pos as int).skip((p - pos) as int) =~= buf@.skip(p as int));
        Ok(PluginMessage { identifier, data })
    }
}

/// A plugin message reads back as written: its channel's bytes and its data.
pub proof fn law_plugin_message_roundtrip(m: PluginMessage)
    requires
        utf8_bytes(m.identifier@).len() <= STRING_DEFAULT_CAP,
    ensures
        PluginMessage::spec_read(m.spec_encode()) == Ok::<(Seq<u8>, Seq<u8>), ErrorKind>(
            (utf8_bytes(m.identifier@), m.data@),
        ),
{
    law_string_roundtrip(m.identifier@, STRING_DEFAULT_CAP, m.data@);
    let k = spec_string(m.identifier@).len();
    assert(m.spec_encode().skip(k as int) =~= m.data@);
}

/// The server's keep-alive, with an id the client echoes.
#[derive(Debug, Clone, Copy, PartialEq, Eq, Structural)]
pub struct KeepAlive {
    pub id: u64,
}

impl KeepAlive {
    pub open spec fn spec_encode(self) -> Seq<u8> {
        be_bytes(self.id as nat, 8)
    }

    pub open spec fn spec_read(s: Seq<u8>) -> Result<(KeepAlive, nat), ErrorKind> {
        fixed_read(s, 8, KeepAlive { id: be_value(s.subrange(0, 8)) as u64 })
    }

    pub fn encode(&self, out: &mut Vec<u8>)
        ensures
            final(out)@ == old(out)@ + self.spec_encode(),
    {
        write_be(out, self.id, 8);
    }

    pub fn decode(buf: &[u8], pos: usize) -> (r: Result<(KeepAlive, usize), TransportError>)
        requires
            pos <= buf@.len(),
        ensures
            match Self::spec_read(buf@.skip(pos as int)) {
                Ok((p, k)) => r == Ok::<(KeepAlive, usize), TransportError>((p, (pos + k) as usize)),
                Err(e) => r matches Err(err) && err.kind() == e,
            },
    {
        let blen = buf.len();
        let (v, q) = read_be(buf, pos, 8)?;
        assert(buf@.skip(pos as int).subrange(0, 8) =~= buf@.subrange(pos as int, pos + 8));
        Ok((KeepAlive { id: v }, q))
    }
}

/// A keep-alive reads back as written.
pub proof fn law_keep_alive_roundtrip(p: KeepAlive, rest: Seq<u8>)
    ensures
        KeepAlive::spec_read(p.spec_encode() + rest) == Ok::<(KeepAlive, nat), ErrorKind>((p, 8)),
{
    lemma_be_roundtrip(p.id as nat, 8);
    assert((p.spec_encode() + rest).subrange(0, 8) =~= p.spec_encode());
    assert(pow256(8) == 0x1_0000_0000_0000_0000) by {
        reveal_with_fuel(pow256, 9);
    }
}

/// The four big-endian bytes of an `i32`.
pub open spec fn spec_i32(v: i32) -> Seq<u8> {
    be_bytes(v as u32 as nat, 4)
}

/// The `i32` in the first four bytes of `s`, which must hold them.
pub open spec fn i32_at(s: Seq<u8>) -> i32 {
    be_value(s.subrange(0, 4)) as u32 as i32
}

/// Reads a big-endian `i32` at `pos`.
fn read_i32(buf: &[u8], pos: usize) -> (r: Result<(i32, usize), TransportError>)
    requires
        pos <= buf@.len(),
    ensures
        pos + 4 > buf@.len() ==> r == Err::<(i32, usize), TransportError>(TransportError::EndOfInput),
        pos + 4 <= buf@.len() ==> r == Ok::<(i32, usize), TransportError>(
            (i32_at(buf@.skip(pos as int)), (pos + 4) as usize),
        ),
{
    let blen = buf.len();
    let (v, q) = read_be(buf, pos, 4)?;
    assert(buf@.skip(pos as int).subrange(0, 4) =~= buf@.subrange(pos as int, pos + 4));
    proof {
        lemma_be_value_bound(buf@.subrange(pos as int, pos + 4));
        assert(pow256(4) == 0x1_0000_0000) by {
            reveal_with_fuel(pow256, 5);
        }
    }
    Ok((v as u32 as i32, q))
}

/// An `i32` reads back as written.
pub proof fn lemma_i32_roundtrip(v: i32, rest: Seq<u8>)
    ensures
        spec_i32(v).len() == 4,
        i32_at(spec_i32(v) + rest) == v,
{
    lemma_be_roundtrip(v as u32 as nat, 4);
    assert((spec_i32(v) + rest).subrange(0, 4) =~= spec_i32(v));
    assert(pow256(4) == 0x1_0000_0000) by {
        reveal_with_fuel(pow256, 5);
    }
    assert(((v as u32) as i32) == v) by (bit_vector);
}

/// How long a title fades in, stays and fades out, in ticks.
#[derive(Debug, Clone, Copy, PartialEq, Eq, Structural)]
pub struct SetTitleAnimationTimes {
    pub fade_in: i32,
    pub stay: i32,
    pub fade_out: i32,
}

impl SetTitleAnimationTimes {
    pub open spec fn spec_encode(self) -> Seq<u8> {
        spec_i32(self.fade_in) + spec_i32(self.stay) + spec_i32(self.fade_out)
    }

    pub open spec fn spec_read(s: Seq<u8>) -> Result<(SetTitleAnimationTimes, nat), ErrorKind> {
        fixed_read(
            s,
            12,
            SetTitleAnimationTimes {
                fade_in: i32_at(s),
                stay: i32_at(s.skip(4)),
                fade_out: i32_at(s.skip(8)),
            },
        )
    }

    pub fn encode(&self, out: &mut Vec<u8>)
        ensures
            final(out)@ == old(out)@ + self.spec_encode(),
    {
        write_be(out, self.fade_in as u32 as u64, 4);
        write_be(out, self.stay as u32 as u64, 4);
        write_be(out, self.fade_out as u32 as u64, 4);
    }

    pub fn decode(buf: &[u8], pos: usize) -> (r: Result<(SetTitleAnimationTimes, usize), TransportError>)
        requires
            pos <= buf@.len(),
        ensures
            match Self::spec_read(buf@.skip(pos as int)) {
                Ok((p, k)) => r == Ok::<(SetTitleAnimationTimes, usize), TransportError>(
                    (p, (pos + k) as usize),
                ),
                Err(e) => r matches Err(err) && err.kind() == e,
            },
    {
        let blen = buf.len();
        let ghost s = buf@.skip(pos as int);
        let (fade_in, p1) = read_i32(buf, pos)?;
        assert(s.skip(4) =~= buf@.skip(p1 as int));
        let (stay, p2) = read_i32(buf, p1)?;
        assert(s.skip(8) =~= buf@.skip(p2 as int));
        let (fade_out, p3) = read_i32(buf, p2)?;
        Ok((SetTitleAnimationTimes { fade_in, stay, fade_out }, p3))
    }
}

/// Title times read back as written.
pub proof fn law_set_title_animation_times_roundtrip(p: SetTitleAnimationTimes, rest: Seq<u8>)
    ensures
        SetTitleAnimationTimes::spec_read(p.spec_encode() + rest) == Ok::<(SetTitleAnimationTimes, nat), ErrorKind>(
            (p, 12),
        ),
{
    let all = p.spec_encode() + rest;
    lemma_i32_roundtrip(p.fade_out, rest);
    lemma_i32_roundtrip(p.stay, spec_i32(p.fade_out) + rest);
    lemma_i32_roundtrip(p.fade_in, spec_i32(p.stay) + spec_i32(p.fade_out) + rest);
    assert(all =~= spec_i32(p.fade_in) + (spec_i32(p.stay) + spec_i32(p.fade_out) + rest));
    assert(all.skip(4) =~= spec_i32(p.stay) + (spec_i32(p.fade_out) + rest));
    assert(all.skip(8) =~= spec_i32(p.fade_out) + rest);
}

/// The longest JSON text of a chat component in a play packet, in bytes.
pub const CHAT_JSON_LIMIT: i32 = 32767;

/// Ends the play session, with the reason shown to the player.
#[derive(Debug)]
pub struct Disconnect {
    pub reason: Chat,
}

impl Disconnect {
    /// Appends the packet's body from the component's JSON text: the text as a string of at most
    /// `CHAT_JSON_LIMIT` bytes; a longer text is refused and nothing is written.
    pub fn encode_json(json: &str, out: &mut Vec<u8>) -> (r: Result<(), TransportError>)
        requires
            utf8_bytes(json@).len() <= i32::MAX,
        ensures
            r is Ok <==> utf8_bytes(json@).len() <= CHAT_JSON_LIMIT,
            r is Ok ==> final(out)@ == old(out)@ + spec_string(json@),
            r matches Err(e) ==> e == TransportError::LimitExceeded(
                CHAT_JSON_LIMIT,
                utf8_bytes(json@).len() as i32,
            ) && final(out)@ == old(out)@,
    {
        write_string(out, json, CHAT_JSON_LIMIT)
    }

    /// Reads the packet's body at `pos`: the component's JSON text.
    pub fn decode_json(buf: &[u8], pos: usize) -> (r: Result<(String, usize), TransportError>)
        requires
            pos <= buf@.len(),
        ensures
            match spec_read_string(buf@.skip(pos as int), CHAT_JSON_LIMIT) {
                Ok((bytes, k)) => r matches Ok((s, p)) && utf8_bytes(s@) == bytes && p == pos + k,
                Err(e) => r is Err && r->Err_0.kind() == e,
            },
    {
        read_string(buf, pos, CHAT_JSON_LIMIT)
    }
}

/// The subtitle shown with the next title.
#[derive(Debug)]
pub struct SetSubtitle {
    pub text: Chat,
}

impl SetSubtitle {
    /// Appends the packet's body from the component's JSON text: the text as a string of at most
    /// `CHAT_JSON_LIMIT` bytes; a longer text is refused and nothing is written.
    pub fn encode_json(json: &str, out: &mut Vec<u8>) -> (r: Result<(), TransportError>)
        requires
            utf8_bytes(json@).len() <= i32::MAX,
        ensures
            r is Ok <==> utf8_bytes(json@).len() <= CHAT_JSON_LIMIT,
            r is Ok ==> final(out)@ == old(out)@ + spec_string(json@),
            r matches Err(e) ==> e == TransportError::LimitExceeded(
                CHAT_JSON_LIMIT,
                utf8_bytes(json@).len() as i32,
            ) && final(out)@ == old(out)@,
    {
        write_string(out, json, CHAT_JSON_LIMIT)
    }

    /// Reads the packet's body at `pos`: the component's JSON text.
    pub fn decode_json(buf: &[u8], pos: usize) -> (r: Result<(String, usize), TransportError>)
        requires
            pos <= buf@.len(),
        ensures
            match spec_read_string(buf@.skip(pos as int), CHAT_JSON_LIMIT) {
                Ok((bytes, k)) => r matches Ok((s, p)) && utf8_bytes(s@) == bytes && p == pos + k,
                Err(e) => r is Err && r->Err_0.kind() == e,
            },
    {
        read_string(buf, pos, CHAT_JSON_LIMIT)
    }
}

/// The title shown on the player's screen.
#[derive(Debug)]
pub struct SetTitle {
    pub text: Chat,
}

impl SetTitle {
    /// Appends the packet's body from the component's JSON text: the text as a string of at most
    /// `CHAT_JSON_LIMIT` bytes; a longer text is refused and nothing is written.
    pub fn encode_json(json: &str, out: &mut Vec<u8>) -> (r: Result<(), TransportError>)
        requires
            utf8_bytes(json@).len() <= i32::MAX,
        ensures
            r is Ok <==> utf8_bytes(json@).len() <= CHAT_JSON_LIMIT,
            r is Ok ==> final(out)@ == old(out)@ + spec_string(json@),
            r matches Err(e) ==> e == TransportError::LimitExceeded(
                CHAT_JSON_LIMIT,
                utf8_bytes(json@).len() as i32,
            ) && final(out)@ == old(out)@,
    {
        write_string(out, json, CHAT_JSON_LIMIT)
    }

    /// Reads the packet's body at `pos`: the component's JSON text.
    pub fn decode_json(buf: &[u8], pos: usize) -> (r: Result<(String, usize), TransportError>)
        requires
            pos <= buf@.len(),
        ensures
            match spec_read_string(buf@.skip(pos as int), CHAT_JSON_LIMIT) {
                Ok((bytes, k)) => r matches Ok((s, p)) && utf8_bytes(s@) == bytes && p == pos + k,
                Err(e) => r is Err && r->Err_0.kind() == e,
            },
    {
        read_string(buf, pos, CHAT_JSON_LIMIT)
    }
}

} // verus!
