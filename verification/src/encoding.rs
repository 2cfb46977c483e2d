//! Protocol versions and the framing of an encoded packet: the length prefix, zlib compression
//! above a threshold, and the packet stream's encryption.
use std::io::Read;
use vstd::prelude::*;

use crate::encryption::Cfb8Stream;
use vstd::string::StringExecFns;

use crate::codec::{size_var_int, spec_read_var_int, spec_var_int, write_var_int, TransportError};

verus! {

/// A protocol version's number and its name.
pub type ProtocolVersionSpec = (i32, String);

/// The protocol versions this library speaks.
#[derive(Debug, Eq, PartialEq, Hash, Copy, Clone, Structural)]
pub enum ProtocolVersion {
    Handshake,
    V118R1,
    V118R2,
}

impl ProtocolVersion {
    /// The version's number, with its name.
    pub open spec fn spec_number(self) -> i32 {
        match self {
            ProtocolVersion::Handshake => -1i32,
            ProtocolVersion::V118R1 => 757,
            ProtocolVersion::V118R2 => 758,
        }
    }

    pub open spec fn spec_name(self) -> Seq<char> {
        match self {
            ProtocolVersion::Handshake => "n/a"@,
            ProtocolVersion::V118R1 => "1.18.1"@,
            ProtocolVersion::V118R2 => "1.18.2"@,
        }
    }

    pub fn to_spec(&self) -> (r: ProtocolVersionSpec)
        ensures
            r.0 == self.spec_number(),
            r.1@ == self.spec_name(),
    {
        match self {
            ProtocolVersion::Handshake => (-1, String::from_str("n/a")),
            ProtocolVersion::V118R1 => (757, String::from_str("1.18.1")),
            ProtocolVersion::V118R2 => (758, String::from_str("1.18.2")),
        }
    }

    /// The version a client announces by number; the handshake pseudo-version has none.
    pub fn from_varint(varint: i32) -> (r: Option<ProtocolVersion>)
        ensures
            varint == 757 ==> r == Some(ProtocolVersion::V118R1),
            varint == 758 ==> r == Some(ProtocolVersion::V118R2),
            varint != 757 && varint != 758 ==> r is None,
    {
        match varint {
            757 => Some(ProtocolVersion::V118R1),
            758 => Some(ProtocolVersion::V118R2),
            _ => None,
        }
    }
}

/// A version announced by number is read back by `from_varint`.
pub proof fn law_protocol_version_number_roundtrip(v: ProtocolVersion)
    requires
        v != ProtocolVersion::Handshake,
    ensures
        (v.spec_number() == 757 && v == ProtocolVersion::V118R1) || (v.spec_number() == 758 && v
            == ProtocolVersion::V118R2),
{
}

/// What zlib at the default level makes of `data`.
pub uninterp spec fn zlib_default(data: Seq<u8>) -> Seq<u8>;

#[verifier::external_type_specification]
#[verifier::external_body]
pub struct ExIoError(std::io::Error);

/// Compresses `data` with flate2's buffered `ZlibEncoder` at `Compression::default()`, read to
/// the end. The claim is that a successful result is the function of `data` named
/// `zlib_default`; reading from a byte slice does not fail, but the signature allows it.
#[verifier::external_body]
fn zlib_compress(data: &[u8]) -> (r: Result<Vec<u8>, std::io::Error>)
    ensures
        r matches Ok(v) ==> v@ == zlib_default(data@),
{
    let mut encoder = flate2::bufread::ZlibEncoder::new(data, flate2::Compression::default());
    let mut compressed = Vec::new();
    match encoder.read_to_end(&mut compressed) {
        Ok(_) => Ok(compressed),
        Err(e) => Err(e),
    }
}

/// The frame `frame_packet` makes of a payload of `initial_size` bytes, with `compressed` the
/// zlib form of the payload.
pub open spec fn spec_frame(
    initial_size: i32,
    payload: Seq<u8>,
    compression: Option<i32>,
    compressed: Seq<u8>,
) -> Seq<u8> {
    match compression {
        Some(threshold) => if initial_size > threshold {
            spec_var_int((compressed.len() + spec_var_int(initial_size).len()) as i32) + spec_var_int(
                initial_size,
            ) + compressed
        } else {
            spec_var_int((1 + initial_size) as i32) + spec_var_int(initial_size) + payload
        },
        None => spec_var_int(initial_size) + payload,
    }
}

/// Every frame announces its own length: the VarInt that opens it counts exactly the bytes
/// that follow it (for a compressed frame, the data-length VarInt and the compressed bytes), for
/// a payload as long as its given size. Below the threshold the count is the size plus one,
/// which is the length of what follows while the size fits one VarInt byte.
pub proof fn law_frame_length_prefix(initial_size: i32, payload: Seq<u8>, compression: Option<i32>, compressed: Seq<u8>)
    requires
        0 <= initial_size < i32::MAX,
        payload.len() == initial_size,
        compression matches Some(t) && initial_size > t ==> compressed.len() + spec_var_int(
            initial_size,
        ).len() <= i32::MAX,
        compression matches Some(t) && initial_size <= t ==> initial_size < 128,
    ensures
        ({
            let f = spec_frame(initial_size, payload, compression, compressed);
            spec_read_var_int(f) matches Ok((n, k)) && n == f.len() - k
        }),
{
    let d = spec_var_int(initial_size);
    crate::codec::lemma_var_int_roundtrip(initial_size, seq![]);
    match compression {
        Some(t) => if initial_size > t {
            let n = (compressed.len() + d.len()) as i32;
            crate::codec::lemma_var_int_roundtrip(n, d + compressed);
            assert(spec_frame(initial_size, payload, compression, compressed) =~= spec_var_int(n) + (d
                + compressed));
        } else {
            crate::codec::lemma_var_int_roundtrip((1 + initial_size) as i32, d + payload);
            assert(d =~= seq![initial_size as u8]) by {
                reveal_with_fuel(crate::codec::var_num_bytes, 2);
            }
            assert(spec_frame(initial_size, payload, compression, compressed) =~= spec_var_int(
                (1 + initial_size) as i32,
            ) + (d + payload));
        },
        None => {
            crate::codec::lemma_var_int_roundtrip(initial_size, payload);
        },
    }
}

/// A frame carries the payload compressed exactly when a threshold is set and the size
/// exceeds it: then the length prefix is followed by the size as a VarInt and the compressed
/// bytes; otherwise the frame ends with the payload as is.
pub proof fn law_frame_compresses_above_threshold(initial_size: i32, payload: Seq<u8>, compression: Option<i32>, compressed: Seq<u8>)
    requires
        0 <= initial_size < i32::MAX,
    ensures
        ({
            let f = spec_frame(initial_size, payload, compression, compressed);
            &&& spec_read_var_int(f) matches Ok((_, k)) && (compression matches Some(t) ==> (spec_read_var_int(
                f.skip(k as int),
            ) matches Ok((size, k2)) && size == initial_size && (initial_size > t ==> f.skip(
                (k + k2) as int,
            ) == compressed) && (initial_size <= t ==> f.skip((k + k2) as int) == payload)))
            &&& compression is None ==> (spec_read_var_int(f) matches Ok((size, k)) && size == initial_size
                && f.skip(k as int) == payload)
        }),
{
    let d = spec_var_int(initial_size);
    match compression {
        Some(t) => if initial_size > t {
            let n = (compressed.len() + d.len()) as i32;
            let f = spec_var_int(n) + (d + compressed);
            crate::codec::lemma_var_int_roundtrip(n, d + compressed);
            assert(spec_frame(initial_size, payload, compression, compressed) =~= f);
            assert(f.skip(spec_var_int(n).len() as int) =~= d + compressed);
            crate::codec::lemma_var_int_roundtrip(initial_size, compressed);
            assert(f.skip((spec_var_int(n).len() + d.len()) as int) =~= compressed);
        } else {
            let n = (1 + initial_size) as i32;
            let f = spec_var_int(n) + (d + payload);
            crate::codec::lemma_var_int_roundtrip(n, d + payload);
            assert(spec_frame(initial_size, payload, compression, compressed) =~= f);
            assert(f.skip(spec_var_int(n).len() as int) =~= d + payload);
            crate::codec::lemma_var_int_roundtrip(initial_size, payload);
            assert(f.skip((spec_var_int(n).len() + d.len()) as int) =~= payload);
        },
        None => {
            crate::codec::lemma_var_int_roundtrip(initial_size, payload);
            assert((d + payload).skip(d.len() as int) =~= payload);
        },
    }
}

/// Frames the encoded packet id and body `payload`, said to be `initial_size` bytes long.
/// Without compression: the size as a VarInt, then the payload. With a threshold the size
/// exceeds: the length of what follows, the size, then the zlib-compressed payload. With a
/// threshold the size does not exceed: the size plus one, the size, then the payload as is.
pub fn frame_packet(initial_size: i32, payload: &[u8], compression: Option<i32>) -> (r: Result<
    Vec<u8>,
    TransportError,
>)
    requires
        0 <= initial_size < i32::MAX,
    ensures
        match r {
            Ok(v) => match compression {
                Some(t) => if initial_size > t {
                    v@ == spec_frame(initial_size, payload@, compression, zlib_default(payload@))
                        && zlib_default(payload@).len() + spec_var_int(initial_size).len() <= i32::MAX
                } else {
                    v@ == spec_frame(initial_size, payload@, compression, seq![])
                },
                None => v@ == spec_frame(initial_size, payload@, compression, seq![]),
            },
            Err(e) => compression matches Some(t) && initial_size > t,
        },
        compression matches Some(t) && initial_size > t && r is Err ==> r->Err_0 is Explain,
{
    let mut out: Vec<u8> = Vec::new();
    match compression {
        Some(compression_threshold) => {
            if initial_size > compression_threshold {
                let compressed = match zlib_compress(payload) {
                    Ok(c) => c,
                    Err(_) => {
                        return Err(TransportError::Explain(String::from_str("Failed to compress packet.")));
                    },
                };
                let uncompressed_length_length = size_var_int(initial_size);
                if compressed.len() > (i32::MAX as usize) - uncompressed_length_length {
                    return Err(TransportError::Explain(String::from_str("Compressed packet too large.")));
                }
                let total_length_data = (compressed.len() + uncompressed_length_length) as i32;
                write_var_int(&mut out, total_length_data);
                write_var_int(&mut out, initial_size);
                let ghost mid = out@;
                let mut i: usize = 0;
                while i < compressed.len()
                    invariant
                        i <= compressed@.len(),
                        out@ == mid + compressed@.subrange(0, i as int),
                    decreases compressed@.len() - i,
                {
                    out.push(compressed[i]);
                    i = i + 1;
                    assert(compressed@.subrange(0, i as int) == compressed@.subrange(0, i - 1).push(
                        compressed@[i - 1],
                    ));
                }
                assert(compressed@.subrange(0, compressed@.len() as int) == compressed@);
            } else {
                write_var_int(&mut out, 1 + initial_size);
                write_var_int(&mut out, initial_size);
                append_bytes(&mut out, payload);
            }
        },
        None => {
            write_var_int(&mut out, initial_size);
            append_bytes(&mut out, payload);
        },
    }
    Ok(out)
}

/// Appends `bytes`.
pub fn append_bytes(out: &mut Vec<u8>, bytes: &[u8])
    ensures
        final(out)@ == old(out)@ + bytes@,
{
    let ghost mid = out@;
    let mut i: usize = 0;
    while i < bytes.len()
        invariant
            i <= bytes@.len(),
            out@ == mid + bytes@.subrange(0, i as int),
        decreases bytes@.len() - i,
    {
        out.push(bytes[i]);
        i = i + 1;
        assert(bytes@.subrange(0, i as int) == bytes@.subrange(0, i - 1).push(bytes@[i - 1]));
    }
    assert(bytes@.subrange(0, bytes@.len() as int) == bytes@);
}

/// A value that reads itself from bytes.
pub trait Decodable: Sized {
    fn decode(buf: &[u8], pos: usize) -> Result<(Self, usize), TransportError>;
}

/// A value that reads itself as a given protocol version lays it out.
pub trait ProtocolDecodable: Sized {
    fn decode_from_protocol(protocol: ProtocolVersion, buf: &[u8], pos: usize) -> Result<
        (Self, usize),
        TransportError,
    >;
}

/// A value whose reading needs the size announced before it.
pub trait SizeDecodable: Sized {
    fn decode_sized(buf: &[u8], pos: usize, size: i32) -> Result<(Self, usize), TransportError>;
}

/// A value that writes itself as bytes and knows how many.
pub trait Encodable {
    fn encode(&self, out: &mut Vec<u8>) -> Result<(), TransportError>;

    fn size(&self) -> Result<i32, TransportError>;
}

/// A value that writes itself as a given protocol version lays it out.
pub trait ProtocolEncodable: Sized {
    /// The bytes the value is written as under `protocol_target`.
    spec fn protocol_bytes(&self, protocol_target: ProtocolVersion) -> Seq<u8>;

    /// Appends the value's bytes; an error leaves no promise on `out`.
    fn encode_from_protocol(&self, protocol_target: ProtocolVersion, out: &mut Vec<u8>) -> (r: Result<
        (),
        TransportError,
    >)
        ensures
            r is Ok ==> final(out)@ == old(out)@ + self.protocol_bytes(protocol_target),
    ;

    /// The number of the value's bytes.
    fn size_from_protocol(&self, protocol_target: ProtocolVersion) -> (r: Result<i32, TransportError>)
        ensures
            r matches Ok(n) ==> n == self.protocol_bytes(protocol_target).len(),
    ;
}

/// A packet: a value with an id that depends on the protocol version.
pub trait PacketEncodable: ProtocolEncodable {
    /// The bytes of the packet's id under `protocol_target`.
    spec fn packet_id_bytes(protocol_target: ProtocolVersion) -> Seq<u8>;

    /// Appends the packet's id; an error leaves no promise on `out`.
    fn encode_packet_id(protocol_target: ProtocolVersion, out: &mut Vec<u8>) -> (r: Result<
        (),
        TransportError,
    >)
        ensures
            r is Ok ==> final(out)@ == old(out)@ + Self::packet_id_bytes(protocol_target),
    ;

    /// The number of the id's bytes.
    fn size_packet_id(protocol_target: ProtocolVersion) -> (r: Result<i32, TransportError>)
        ensures
            r matches Ok(n) ==> n == Self::packet_id_bytes(protocol_target).len(),
    ;
}

/// A value whose writing announces its size first.
pub trait SizeEncodable {
    fn encode_sized(&self, out: &mut Vec<u8>, size: i32) -> Result<(), TransportError>;

    fn predicted_size(&self) -> Result<i32, TransportError>;
}

/// A packet framed for the wire, encrypted when the connection's outgoing cipher is on.
pub trait PacketToCursor {
    fn to_cursor(
        &self,
        protocol_version: ProtocolVersion,
        encryption: &mut Option<Cfb8Stream>,
        compression: Option<i32>,
    ) -> Result<Vec<u8>, TransportError>
        requires
            (*old(encryption)) matches Some(e) ==> e.wf(),
    ;
}

/// The frame of the packet whose id and body are `payload`, under `compression`.
pub open spec fn packet_frame(payload: Seq<u8>, compression: Option<i32>) -> Seq<u8> {
    let size = payload.len() as i32;
    match compression {
        Some(t) => if size > t {
            spec_frame(size, payload, compression, zlib_default(payload))
        } else {
            spec_frame(size, payload, compression, seq![])
        },
        None => spec_frame(size, payload, compression, seq![]),
    }
}

impl<P: PacketEncodable> PacketToCursor for P {
    /// Sizes the packet id and body, encodes them, and frames the result (`frame_packet`);
    /// a size below zero or at `i32::MAX` is refused.
    fn to_cursor(
        &self,
        protocol_version: ProtocolVersion,
        encryption: &mut Option<Cfb8Stream>,
        compression: Option<i32>,
    ) -> (r: Result<Vec<u8>, TransportError>)
        ensures
            ({
                let payload = P::packet_id_bytes(protocol_version) + self.protocol_bytes(protocol_version);
                let frame = packet_frame(payload, compression);
                &&& payload.len() >= i32::MAX ==> r is Err
                &&& r is Err ==> *final(encryption) == *old(encryption)
                &&& r matches Ok(v) ==> payload.len() < i32::MAX && match *old(encryption) {
                    None => v@ == frame && (*final(encryption)) is None,
                    Some(e) => v@ == e.spec_step(frame).0 && ((*final(encryption)) matches Some(e2)
                        && e2.wf() && e2.spec_encrypts() == e.spec_encrypts() && e2.spec_key()
                        == e.spec_key() && e2.spec_register() == e.spec_step(frame).1),
                }
            }),
    {
        let id_size = P::size_packet_id(protocol_version)?;
        let body_size = self.size_from_protocol(protocol_version)?;
        if id_size < 0 || body_size < 0 || id_size >= i32::MAX - body_size {
            return Err(TransportError::Explain(String::from_str("Packet size out of range.")));
        }
        let initial_size = id_size + body_size;
        let mut payload: Vec<u8> = Vec::new();
        P::encode_packet_id(protocol_version, &mut payload)?;
        self.encode_from_protocol(protocol_version, &mut payload)?;
        assert(payload@ =~= P::packet_id_bytes(protocol_version) + self.protocol_bytes(protocol_version));
        let mut frame = frame_packet(initial_size, payload.as_slice(), compression)?;
        match encryption {
            Some(stream) => {
                stream.apply(&mut frame);
            },
            None => {},
        }
        Ok(frame)
    }
}


/// The protocol numbers of the versions: 757 for 1.18.1, 758 for 1.18.2, and -1 for the
/// handshake, which precedes any version.
pub proof fn law_protocol_version_numbers(v: ProtocolVersion)
    ensures
        v.spec_number() == match v {
            ProtocolVersion::Handshake => -1i32,
            ProtocolVersion::V118R1 => 757i32,
            ProtocolVersion::V118R2 => 758i32,
        },
{
}

} // verus!
