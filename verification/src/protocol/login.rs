//! The packets of the login phase and the player keys they carry.
use vstd::prelude::*;

use crate::codec::{
    be_bytes, be_value, lemma_scan_range, read_be, read_bool, read_sized_bytes, read_string,
    read_uuid, read_var_int, spec_byte_vec, spec_read_sized_bytes, spec_read_string,
    spec_read_var_int, spec_string, spec_var_int, utf8_bytes, uuid_bytes, uuid_value, write_be,
    write_byte_vec, write_string, write_uuid, write_var_int, ErrorKind, TransportError,
};
use crate::clientbound::play::STRING_DEFAULT_CAP;
use crate::common::chat::Chat;
use crate::crypto::{
    check_public_key_der, public_key_der_valid, sha256_signature_valid, sha1, sha1_digest,
    sha1_signature_valid, unix_time_nanos, verify_sha1_signature, verify_sha256_signature,
};

verus! {

/// A player's key as Mojang signed it: the expiry (milliseconds since the Unix epoch), the
/// public key in DER and Mojang's signature.
#[derive(Debug)]
pub struct MojangIdentifiedKey {
    pub timestamp: u64,
    pub public_key: Vec<u8>,
    pub signature: Vec<u8>,
}

impl MojangIdentifiedKey {
    /// Whether the key's expiry lies before `now` (nanoseconds since the epoch, none when the
    /// clock is set before the epoch).
    pub open spec fn spec_expired_at(&self, now: Option<u128>) -> bool {
        now matches Some(n) && n > self.timestamp as int * 1_000_000
    }

    /// Whether the key's expiry lies before `now`.
    pub fn has_expired_at(&self, now: Option<u128>) -> (r: bool)
        ensures
            r == self.spec_expired_at(now),
    {
        match now {
            Some(n) => n > self.timestamp as u128 * 1_000_000,
            None => false,
        }
    }

    /// Whether the key's expiry has passed, by the system clock.
    pub fn has_expired(&self) -> (r: bool)
        ensures
            exists|now: Option<u128>| r == #[trigger] self.spec_expired_at(now),
    {
        let now = unix_time_nanos();
        self.has_expired_at(now)
    }

    /// The bytes whose SHA-1 digest Mojang's signature covers for the key's `holder`: the
    /// holder's uuid, the expiry as eight big-endian bytes, then the signature itself.
    pub open spec fn verify_data(&self, holder: u128) -> Seq<u8> {
        uuid_bytes(holder) + be_bytes(self.timestamp as nat, 8) + self.signature@
    }

    pub fn key_verify_data(&self, holder: u128) -> (r: Vec<u8>)
        ensures
            r@ == self.verify_data(holder),
    {
        let mut out: Vec<u8> = Vec::new();
        write_uuid(&mut out, holder);
        write_be(&mut out, self.timestamp, 8);
        let mut i: usize = 0;
        let ghost head = out@;
        while i < self.signature.len()
            invariant
                i <= self.signature@.len(),
                out@ == head + self.signature@.subrange(0, i as int),
            decreases self.signature@.len() - i,
        {
            out.push(self.signature[i]);
            i = i + 1;
            assert(self.signature@.subrange(0, i as int) =~= self.signature@.subrange(
                0,
                i - 1,
            ).push(self.signature@[i - 1]));
        }
        assert(self.signature@.subrange(0, self.signature@.len() as int) =~= self.signature@);
        out
    }

    /// Whether Mojang's signature checks out under the Mojang key `mojang_der`.
    pub open spec fn spec_incoming_valid(&self, mojang_der: Seq<u8>, holder: u128) -> bool {
        sha1_signature_valid(mojang_der, sha1_digest(self.verify_data(holder)), self.signature@)
    }

    /// Checks Mojang's signature, over the SHA-1 digest of the verify data, under the Mojang key.
    pub fn verify_incoming_data(&self, mojang_der: &[u8], holder: u128) -> (r: bool)
        ensures
            r == self.spec_incoming_valid(mojang_der@, holder),
    {
        let data = self.key_verify_data(holder);
        let digest = sha1(data.as_slice());
        verify_sha1_signature(mojang_der, digest.as_slice(), self.signature.as_slice())
    }

    /// The same key, field by field.
    pub fn same_as(&self, other: &MojangIdentifiedKey) -> (r: bool)
        ensures
            r == (self.timestamp == other.timestamp && self.public_key@ == other.public_key@
                && self.signature@ == other.signature@),
    {
        self.timestamp == other.timestamp && bytes_equal(&self.public_key, &other.public_key)
            && bytes_equal(&self.signature, &other.signature)
    }
}

/// A Mojang-signed key as read.
pub ghost struct MojangKeyBytes {
    pub timestamp: u64,
    pub public_key: Seq<u8>,
    pub signature: Seq<u8>,
}

/// `k` is the key that `v` describes.
pub open spec fn mojang_key_is(k: MojangIdentifiedKey, v: MojangKeyBytes) -> bool {
    k.timestamp == v.timestamp && k.public_key@ == v.public_key && k.signature@ == v.signature
}

/// What reading a Mojang-signed key from the start of `s` gives: the expiry as eight
/// big-endian bytes, then the public key and the signature, each with its length first.
#[verifier::opaque]
pub open spec fn spec_read_mojang_key(s: Seq<u8>) -> Result<(MojangKeyBytes, nat), ErrorKind> {
    if s.len() < 8 {
        Err(ErrorKind::EndOfInput)
    } else {
        match spec_read_sized_bytes(s.skip(8)) {
            Err(e) => Err(e),
            Ok((public_key, k1)) => match spec_read_sized_bytes(s.skip((8 + k1) as int)) {
                Err(e) => Err(e),
                Ok((signature, k2)) => Ok(
                    (
                        MojangKeyBytes {
                            timestamp: be_value(s.subrange(0, 8)) as u64,
                            public_key,
                            signature,
                        },
                        8 + k1 + k2,
                    ),
                ),
            },
        }
    }
}

impl MojangIdentifiedKey {
    /// Reads a Mojang-signed key at `pos`.
    pub fn decode(buf: &[u8], pos: usize) -> (r: Result<(MojangIdentifiedKey, usize), TransportError>)
        requires
            pos <= buf@.len(),
        ensures
            match spec_read_mojang_key(buf@.skip(pos as int)) {
                Ok((v, k)) => r matches Ok((key, q)) && mojang_key_is(key, v) && q == pos + k,
                Err(e) => r matches Err(err) && err.kind() == e,
            },
            r matches Ok((_, q)) ==> pos <= q <= buf@.len(),
    {
        reveal(spec_read_mojang_key);
        let ghost s = buf@.skip(pos as int);
        let blen = buf.len();
        let (timestamp, p1) = read_be(buf, pos, 8)?;
        assert(s.subrange(0, 8) =~= buf@.subrange(pos as int, pos + 8));
        assert(s.skip(8) =~= buf@.skip(p1 as int));
        let (public_key, p2) = read_sized_bytes(buf, p1)?;
        assert(s.skip((p2 - pos) as int) =~= buf@.skip(p2 as int));
        let (signature, p3) = read_sized_bytes(buf, p2)?;
        Ok((MojangIdentifiedKey { timestamp, public_key, signature }, p3))
    }
}

/// Whether two byte strings are equal.
pub fn bytes_equal(a: &[u8], b: &[u8]) -> (r: bool)
    ensures
        r == (a@ == b@),
{
    if a.len() != b.len() {
        return false;
    }
    let mut i: usize = 0;
    while i < a.len()
        invariant
            a@.len() == b@.len(),
            i <= a@.len(),
            forall|j: int| 0 <= j < i ==> a@[j] == b@[j],
        decreases a@.len() - i,
    {
        if a[i] != b[i] {
            return false;
        }
        i = i + 1;
    }
    assert(a@ =~= b@);
    true
}

/// A DER string that is no RSA public key.
#[derive(Debug)]
pub struct KeyFormatError;

/// A player's RSA public key, kept in its (valid) DER form.
#[derive(Debug)]
pub struct IdentifiedKey {
    public_key: Vec<u8>,
}

impl IdentifiedKey {
    /// The DER form of the key.
    pub closed spec fn der(&self) -> Seq<u8> {
        self.public_key@
    }

    /// The key whose DER form is `key`, when it is one.
    pub fn new(key: &[u8]) -> (r: Result<IdentifiedKey, KeyFormatError>)
        ensures
            r is Ok <==> public_key_der_valid(key@),
            r matches Ok(k) ==> k.der() == key@,
    {
        if check_public_key_der(key) {
            Ok(IdentifiedKey { public_key: vstd::slice::slice_to_vec(key) })
        } else {
            Err(KeyFormatError)
        }
    }

    /// Whether `signature` signs the SHA-256 digest `data` under this key.
    pub fn verify_data_signature(&self, signature: &[u8], data: &[u8]) -> (r: bool)
        ensures
            r == sha256_signature_valid(self.der(), data@, signature@),
    {
        verify_sha256_signature(self.public_key.as_slice(), data, signature)
    }
}

/// The packet that opens a login: the player's name and, optionally, their Mojang-signed key
/// and its holder.
#[derive(Debug)]
pub struct LoginStart {
    pub name: String,
    pub sig_data: Option<MojangIdentifiedKey>,
    pub sig_holder: Option<u128>,
}

/// How a client proves it holds the verify token: the token encrypted with the server key, or,
/// for a client with a key, a signature over the token and a salt.
#[derive(Debug)]
pub enum EncryptionResponseData {
    VerifyTokenData(Vec<u8>),
    MessageSignature { salt: i64, message_signature: Vec<u8> },
}

/// The client's answer to the encryption request: the shared secret encrypted with the server
/// key, and the proof about the verify token.
#[derive(Debug)]
pub struct EncryptionResponse {
    pub shared_secret: Vec<u8>,
    pub response_data: EncryptionResponseData,
}

/// The client's answer to a login plugin request.
#[derive(Debug)]
pub struct LoginPluginResponse {
    pub message_id: i32,
    pub successful: bool,
    pub data: Vec<u8>,
}

/// The server's request to begin encryption: its id, its public key in DER and a verify token.
#[derive(Debug)]
pub struct EncryptionRequest {
    pub server_id: String,
    pub public_key: Vec<u8>,
    pub verify_token: Vec<u8>,
}

/// The server's announcement of the compression threshold.
#[derive(Debug)]
pub struct SetCompression {
    pub threshold: i32,
}

/// A request on a plugin channel during login.
#[derive(Debug)]
pub struct LoginPluginRequest {
    pub message_id: i32,
    pub channel: String,
    pub data: Vec<u8>,
}

/// A profile property sent on login success.
#[derive(Debug)]
pub struct LoginProperty {
    pub name: String,
    pub value: String,
    pub signature: Option<String>,
}

/// The longest player name a login start carries, in bytes.
pub const PLAYER_NAME_LIMIT: i32 = 16;

/// The longest server id an encryption request carries, in bytes.
pub const SERVER_ID_LIMIT: i32 = 20;

/// A login start as read, with the name as UTF-8 bytes.
pub ghost struct LoginStartBytes {
    pub name: Seq<u8>,
    pub sig_data: Option<MojangKeyBytes>,
    pub sig_holder: Option<u128>,
}

/// `l` is the login start `v` describes.
pub open spec fn login_start_is(l: LoginStart, v: LoginStartBytes) -> bool {
    &&& utf8_bytes(l.name@) == v.name
    &&& match (l.sig_data, v.sig_data) {
        (None, None) => true,
        (Some(k), Some(kv)) => mojang_key_is(k, kv),
        _ => false,
    }
    &&& l.sig_holder == v.sig_holder
}

/// What reading a login start from the start of `s` gives: the name (at most 16 bytes), then
/// the key and its holder, each present when a boolean byte before it is set.
pub open spec fn spec_read_login_start(s: Seq<u8>) -> Result<(LoginStartBytes, nat), ErrorKind> {
    match spec_read_string(s, PLAYER_NAME_LIMIT) {
        Err(e) => Err(e),
        Ok((name, k1)) => if k1 >= s.len() {
            Err(ErrorKind::EndOfInput)
        } else {
            let key_part: Result<(Option<MojangKeyBytes>, nat), ErrorKind> = if s[k1 as int] == 0 {
                Ok((None, 1))
            } else {
                match spec_read_mojang_key(s.skip((k1 + 1) as int)) {
                    Err(e) => Err(e),
                    Ok((key, k2)) => Ok((Some(key), 1 + k2)),
                }
            };
            match key_part {
                Err(e) => Err(e),
                Ok((sig_data, k2)) => {
                    let o = k1 + k2;
                    if o >= s.len() {
                        Err(ErrorKind::EndOfInput)
                    } else if s[o as int] == 0 {
                        Ok((LoginStartBytes { name, sig_data, sig_holder: None }, o + 1))
                    } else if o + 17 > s.len() {
                        Err(ErrorKind::EndOfInput)
                    } else {
                        Ok(
                            (
                                LoginStartBytes {
                                    name,
                                    sig_data,
                                    sig_holder: Some(uuid_value(s.subrange((o + 1) as int, (o + 17) as int))),
                                },
                                o + 17,
                            ),
                        )
                    }
                },
            }
        },
    }
}

impl LoginStart {
    /// Reads a login start at `pos`.
    pub fn decode(buf: &[u8], pos: usize) -> (r: Result<(LoginStart, usize), TransportError>)
        requires
            pos <= buf@.len(),
        ensures
            match spec_read_login_start(buf@.skip(pos as int)) {
                Ok((v, k)) => r matches Ok((l, q)) && login_start_is(l, v) && q == pos + k,
                Err(e) => r matches Err(err) && err.kind() == e,
            },
    {
        let ghost s = buf@.skip(pos as int);
        let blen = buf.len();
        let (name, p1) = read_string(buf, pos, PLAYER_NAME_LIMIT)?;
        let (has_key, p2) = read_bool(buf, p1)?;
        assert(s[(p1 - pos) as int] == buf@[p1 as int]);
        let (sig_data, p3) = if has_key {
            assert(s.skip((p2 - pos) as int) =~= buf@.skip(p2 as int));
            let (key, q) = MojangIdentifiedKey::decode(buf, p2)?;
            (Some(key), q)
        } else {
            (None, p2)
        };
        let (has_holder, p4) = read_bool(buf, p3)?;
        assert(s[(p3 - pos) as int] == buf@[p3 as int]);
        if !has_holder {
            return Ok((LoginStart { name, sig_data, sig_holder: None }, p4));
        }
        let (holder, p5) = read_uuid(buf, p4)?;
        assert(s.subrange((p4 - pos) as int, (p4 - pos) + 16) =~= buf@.subrange(
            p4 as int,
            p4 + 16,
        ));
        Ok((LoginStart { name, sig_data, sig_holder: Some(holder) }, p5))
    }
}

/// An encryption response as read.
pub ghost enum EncryptionResponseBytes {
    VerifyTokenData { shared_secret: Seq<u8>, token: Seq<u8> },
    MessageSignature { shared_secret: Seq<u8>, salt: i64, signature: Seq<u8> },
}

/// `r` is the encryption response `v` describes.
pub open spec fn encryption_response_is(r: EncryptionResponse, v: EncryptionResponseBytes) -> bool {
    match v {
        EncryptionResponseBytes::VerifyTokenData { shared_secret, token } => {
            &&& r.shared_secret@ == shared_secret
            &&& r.response_data matches EncryptionResponseData::VerifyTokenData(t)
            &&& t@ == token
        },
        EncryptionResponseBytes::MessageSignature { shared_secret, salt, signature } => {
            &&& r.shared_secret@ == shared_secret
            &&& r.response_data matches EncryptionResponseData::MessageSignature {
                salt: s,
                message_signature: m,
            }
            &&& s == salt
            &&& m@ == signature
        },
    }
}

/// What reading an encryption response from the start of `s` gives: the shared secret, then a
/// boolean byte: set, the encrypted verify token; clear, a salt (eight big-endian bytes) and a
/// signature.
pub open spec fn spec_read_encryption_response(s: Seq<u8>) -> Result<(EncryptionResponseBytes, nat), ErrorKind> {
    match spec_read_sized_bytes(s) {
        Err(e) => Err(e),
        Ok((shared_secret, k1)) => if k1 >= s.len() {
            Err(ErrorKind::EndOfInput)
        } else if s[k1 as int] != 0 {
            match spec_read_sized_bytes(s.skip((k1 + 1) as int)) {
                Err(e) => Err(e),
                Ok((token, k2)) => Ok(
                    (EncryptionResponseBytes::VerifyTokenData { shared_secret, token }, k1 + 1 + k2),
                ),
            }
        } else if k1 + 9 > s.len() {
            Err(ErrorKind::EndOfInput)
        } else {
            match spec_read_sized_bytes(s.skip((k1 + 9) as int)) {
                Err(e) => Err(e),
                Ok((signature, k2)) => Ok(
                    (
                        EncryptionResponseBytes::MessageSignature {
                            shared_secret,
                            salt: (be_value(s.subrange((k1 + 1) as int, (k1 + 9) as int)) as u64) as i64,
                            signature,
                        },
                        k1 + 9 + k2,
                    ),
                ),
            }
        },
    }
}

impl EncryptionResponse {
    /// Reads an encryption response at `pos`.
    pub fn decode(buf: &[u8], pos: usize) -> (r: Result<(EncryptionResponse, usize), TransportError>)
        requires
            pos <= buf@.len(),
        ensures
            match spec_read_encryption_response(buf@.skip(pos as int)) {
                Ok((v, k)) => r matches Ok((resp, q)) && encryption_response_is(resp, v) && q == pos
                    + k,
                Err(e) => r matches Err(err) && err.kind() == e,
            },
    {
        let ghost s = buf@.skip(pos as int);
        let blen = buf.len();
        let (shared_secret, p1) = read_sized_bytes(buf, pos)?;
        let (is_token, p2) = read_bool(buf, p1)?;
        assert(s[(p1 - pos) as int] == buf@[p1 as int]);
        assert(s.skip((p2 - pos) as int) =~= buf@.skip(p2 as int));
        if is_token {
            let (token, p3) = read_sized_bytes(buf, p2)?;
            return Ok(
                (
                    EncryptionResponse {
                        shared_secret,
                        response_data: EncryptionResponseData::VerifyTokenData(token),
                    },
                    p3,
                ),
            );
        }
        let (salt, p3) = read_be(buf, p2, 8)?;
        assert(s.subrange((p2 - pos) as int, (p2 - pos) + 8) =~= buf@.subrange(p2 as int, p2 + 8));
        assert(s.skip((p3 - pos) as int) =~= buf@.skip(p3 as int));
        let (message_signature, p4) = read_sized_bytes(buf, p3)?;
        Ok(
            (
                EncryptionResponse {
                    shared_secret,
                    response_data: EncryptionResponseData::MessageSignature {
                        salt: salt as i64,
                        message_signature,
                    },
                },
                p4,
            ),
        )
    }
}

impl LoginPluginResponse {
    /// Reads a plugin response at `pos`: the message id, whether it succeeded, and every byte
    /// after that as its data.
    pub fn decode(buf: &[u8], pos: usize) -> (r: Result<LoginPluginResponse, TransportError>)
        requires
            pos <= buf@.len(),
        ensures
            match spec_read_var_int(buf@.skip(pos as int)) {
                Err(e) => r matches Err(err) && err.kind() == e,
                Ok((id, k)) => if pos + k >= buf@.len() {
                    r matches Err(TransportError::EndOfInput)
                } else {
                    r matches Ok(p) && p.message_id == id && p.successful == (buf@[pos + k] != 0)
                        && p.data@ == buf@.skip(pos + k + 1)
                },
            },
    {
        let blen = buf.len();
        proof {
            lemma_scan_range(buf@.skip(pos as int), 0, 5);
        }
        let (message_id, p1) = read_var_int(buf, pos)?;
        let (successful, p2) = read_bool(buf, p1)?;
        let mut data: Vec<u8> = Vec::new();
        let mut i = p2;
        while i < blen
            invariant
                p2 <= i <= blen,
                blen == buf@.len(),
                data@ == buf@.subrange(p2 as int, i as int),
            decreases blen - i,
        {
            data.push(buf[i]);
            i = i + 1;
        }
        assert(data@ =~= buf@.skip(p2 as int));
        Ok(LoginPluginResponse { message_id, successful, data })
    }
}

/// The encoding of an encryption request: the server id, the public key and the verify token,
/// the latter two with their lengths first.
pub open spec fn spec_encryption_request(r: EncryptionRequest) -> Seq<u8> {
    spec_string(r.server_id@) + spec_byte_vec(r.public_key@) + spec_byte_vec(r.verify_token@)
}

impl EncryptionRequest {
    /// Appends the request; refused, with nothing appended, when the server id is longer than
    /// 20 bytes.
    pub fn encode(&self, out: &mut Vec<u8>) -> (r: Result<(), TransportError>)
        requires
            utf8_bytes(self.server_id@).len() <= i32::MAX,
            self.public_key@.len() <= i32::MAX,
            self.verify_token@.len() <= i32::MAX,
        ensures
            utf8_bytes(self.server_id@).len() <= SERVER_ID_LIMIT ==> r is Ok && final(out)@
                == old(out)@ + spec_encryption_request(*self),
            utf8_bytes(self.server_id@).len() > SERVER_ID_LIMIT ==> r == Err::<(), TransportError>(
                TransportError::LimitExceeded(SERVER_ID_LIMIT, utf8_bytes(self.server_id@).len() as i32),
            ) && final(out)@ == old(out)@,
    {
        let mut buf: Vec<u8> = Vec::new();
        write_string(&mut buf, self.server_id.as_str(), SERVER_ID_LIMIT)?;
        write_byte_vec(&mut buf, self.public_key.as_slice());
        write_byte_vec(&mut buf, self.verify_token.as_slice());
        crate::encoding::append_bytes(out, buf.as_slice());
        assert(buf@ =~= spec_encryption_request(*self));
        Ok(())
    }
}

impl SetCompression {
    /// Appends the threshold as a VarInt.
    pub fn encode(&self, out: &mut Vec<u8>)
        ensures
            final(out)@ == old(out)@ + spec_var_int(self.threshold),
    {
        write_var_int(out, self.threshold);
    }
}

/// The encoding of a plugin request: the message id, the channel, then the data as is.
pub open spec fn spec_plugin_request(r: LoginPluginRequest) -> Seq<u8> {
    spec_var_int(r.message_id) + spec_string(r.channel@) + r.data@
}

impl LoginPluginRequest {
    /// Appends the request; refused, with nothing appended, when the channel is longer than the
    /// default string limit.
    pub fn encode(&self, out: &mut Vec<u8>) -> (r: Result<(), TransportError>)
        requires
            utf8_bytes(self.channel@).len() <= i32::MAX,
        ensures
            utf8_bytes(self.channel@).len() <= STRING_DEFAULT_CAP ==> r is Ok && final(out)@
                == old(out)@ + spec_plugin_request(*self),
            utf8_bytes(self.channel@).len() > STRING_DEFAULT_CAP ==> r == Err::<(), TransportError>(
                TransportError::LimitExceeded(STRING_DEFAULT_CAP, utf8_bytes(self.channel@).len() as i32),
            ) && final(out)@ == old(out)@,
    {
        let mut buf: Vec<u8> = Vec::new();
        write_var_int(&mut buf, self.message_id);
        write_string(&mut buf, self.channel.as_str(), STRING_DEFAULT_CAP)?;
        crate::encoding::append_bytes(&mut buf, self.data.as_slice());
        crate::encoding::append_bytes(out, buf.as_slice());
        assert(buf@ =~= spec_plugin_request(*self));
        Ok(())
    }
}

/// The longest disconnect reason JSON text, in bytes.
pub const REASON_JSON_LIMIT: i32 = 262144;

/// Tells the client why its login ends: the reason, sent as JSON text.
#[derive(Debug)]
pub struct Disconnect {
    pub reason: Chat,
}

impl Disconnect {
    /// Appends the packet's body from the reason's JSON text: the text as a string of at most
    /// `REASON_JSON_LIMIT` bytes; a longer text is refused and nothing is written.
    pub fn encode_json(json: &str, out: &mut Vec<u8>) -> (r: Result<(), TransportError>)
        requires
            utf8_bytes(json@).len() <= i32::MAX,
        ensures
            r is Ok <==> utf8_bytes(json@).len() <= REASON_JSON_LIMIT,
            r is Ok ==> final(out)@ == old(out)@ + spec_string(json@),
            r matches Err(e) ==> e == TransportError::LimitExceeded(
                REASON_JSON_LIMIT,
                utf8_bytes(json@).len() as i32,
            ) && final(out)@ == old(out)@,
    {
        write_string(out, json, REASON_JSON_LIMIT)
    }

    /// Reads the packet's body at `pos`: the reason's JSON text.
    pub fn decode_json(buf: &[u8], pos: usize) -> (r: Result<(String, usize), TransportError>)
        requires
            pos <= buf@.len(),
        ensures
            match spec_read_string(buf@.skip(pos as int), REASON_JSON_LIMIT) {
                Ok((bytes, k)) => r matches Ok((s, p)) && utf8_bytes(s@) == bytes && p == pos + k,
                Err(e) => r is Err && r->Err_0.kind() == e,
            },
    {
        read_string(buf, pos, REASON_JSON_LIMIT)
    }
}


proof fn lemma_sized_bytes_read(b: Seq<u8>, rest: Seq<u8>)
    requires
        b.len() <= i32::MAX,
    ensures
        spec_read_sized_bytes(spec_byte_vec(b) + rest) == Ok::<(Seq<u8>, nat), ErrorKind>(
            (b, spec_byte_vec(b).len()),
        ),
{
    let h = spec_var_int(b.len() as i32);
    crate::codec::lemma_var_int_roundtrip(b.len() as i32, b + rest);
    let s = spec_byte_vec(b) + rest;
    assert(s =~= h + (b + rest));
    assert(s.subrange(h.len() as int, (h.len() + b.len()) as int) =~= b);
}

/// A Mojang-signed key is read as its expiry in eight big-endian bytes, then its public key
/// and then its signature, each with its length first.
pub proof fn law_mojang_key_layout(timestamp: u64, public_key: Seq<u8>, signature: Seq<u8>, rest: Seq<u8>)
    requires
        public_key.len() <= i32::MAX,
        signature.len() <= i32::MAX,
    ensures
        ({
            let b = be_bytes(timestamp as nat, 8) + spec_byte_vec(public_key) + spec_byte_vec(signature);
            spec_read_mojang_key(b + rest) == Ok::<(MojangKeyBytes, nat), ErrorKind>(
                (MojangKeyBytes { timestamp, public_key, signature }, b.len()),
            )
        }),
{
    reveal(spec_read_mojang_key);
    let t = be_bytes(timestamp as nat, 8);
    let p = spec_byte_vec(public_key);
    let g = spec_byte_vec(signature);
    let s = t + p + g + rest;
    crate::codec::lemma_be_roundtrip(timestamp as nat, 8);
    assert(crate::codec::pow256(8) == 0x1_0000_0000_0000_0000) by {
        reveal_with_fuel(crate::codec::pow256, 9);
    }
    assert(s.subrange(0, 8) =~= t);
    assert(s.skip(8) =~= p + (g + rest));
    lemma_sized_bytes_read(public_key, g + rest);
    assert(s.skip((8 + p.len()) as int) =~= g + rest);
    lemma_sized_bytes_read(signature, rest);
}

/// An encryption response with a non-zero flag is read as the shared secret, the flag byte,
/// then the verify token.
pub proof fn law_encryption_response_token_layout(shared_secret: Seq<u8>, token: Seq<u8>, rest: Seq<u8>)
    requires
        shared_secret.len() <= i32::MAX,
        token.len() <= i32::MAX,
    ensures
        ({
            let b = spec_byte_vec(shared_secret) + seq![1u8] + spec_byte_vec(token);
            spec_read_encryption_response(b + rest) == Ok::<(EncryptionResponseBytes, nat), ErrorKind>(
                (EncryptionResponseBytes::VerifyTokenData { shared_secret, token }, b.len()),
            )
        }),
{
    let a = spec_byte_vec(shared_secret);
    let tk = spec_byte_vec(token);
    let s1 = a + seq![1u8] + tk + rest;
    lemma_sized_bytes_read(shared_secret, seq![1u8] + tk + rest);
    assert(s1 =~= a + (seq![1u8] + tk + rest));
    assert(s1[a.len() as int] == 1u8);
    assert(s1.skip((a.len() + 1) as int) =~= tk + rest);
    lemma_sized_bytes_read(token, rest);
}

/// An encryption response with a zero flag is read as the shared secret, the flag byte, the
/// salt in eight big-endian bytes, then the signature.
pub proof fn law_encryption_response_signature_layout(shared_secret: Seq<u8>, salt: i64, signature: Seq<u8>, rest: Seq<u8>)
    requires
        shared_secret.len() <= i32::MAX,
        signature.len() <= i32::MAX,
    ensures
        ({
            let b = spec_byte_vec(shared_secret) + seq![0u8] + be_bytes(salt as u64 as nat, 8)
                + spec_byte_vec(signature);
            spec_read_encryption_response(b + rest) == Ok::<(EncryptionResponseBytes, nat), ErrorKind>(
                (EncryptionResponseBytes::MessageSignature { shared_secret, salt, signature }, b.len()),
            )
        }),
{
    let a = spec_byte_vec(shared_secret);
    let x = be_bytes(salt as u64 as nat, 8);
    let g = spec_byte_vec(signature);
    let s2 = a + seq![0u8] + x + g + rest;
    lemma_sized_bytes_read(shared_secret, seq![0u8] + x + g + rest);
    assert(s2 =~= a + (seq![0u8] + x + g + rest));
    assert(s2[a.len() as int] == 0u8);
    crate::codec::lemma_be_roundtrip(salt as u64 as nat, 8);
    assert(crate::codec::pow256(8) == 0x1_0000_0000_0000_0000) by {
        reveal_with_fuel(crate::codec::pow256, 9);
    }
    assert(s2.subrange((a.len() + 1) as int, (a.len() + 9) as int) =~= x);
    assert(s2.skip((a.len() + 9) as int) =~= g + rest);
    lemma_sized_bytes_read(signature, rest);
    assert(((salt as u64) as i64) == salt) by (bit_vector);
}

/// A login start is read as the player's name, then a flag byte and, when it is set, the
/// player's Mojang-signed key, then a flag byte and, when it is set, the key holder's uuid.
#[verifier::rlimit(60)]
#[verifier::spinoff_prover]
pub proof fn law_login_start_layout(name: Seq<char>, key: Option<MojangKeyBytes>, holder: Option<u128>, rest: Seq<u8>)
    requires
        utf8_bytes(name).len() <= PLAYER_NAME_LIMIT,
        key matches Some(k) ==> k.public_key.len() <= i32::MAX && k.signature.len() <= i32::MAX,
    ensures
        ({
            let kb = match key {
                None => seq![0u8],
                Some(k) => seq![1u8] + (be_bytes(k.timestamp as nat, 8) + spec_byte_vec(k.public_key)
                    + spec_byte_vec(k.signature)),
            };
            let hb = match holder {
                None => seq![0u8],
                Some(h) => seq![1u8] + uuid_bytes(h),
            };
            let b = spec_string(name) + kb + hb;
            spec_read_login_start(b + rest) == Ok::<(LoginStartBytes, nat), ErrorKind>(
                (LoginStartBytes { name: utf8_bytes(name), sig_data: key, sig_holder: holder }, b.len()),
            )
        }),
{
    let kb = match key {
        None => seq![0u8],
        Some(k) => seq![1u8] + (be_bytes(k.timestamp as nat, 8) + spec_byte_vec(k.public_key)
            + spec_byte_vec(k.signature)),
    };
    let hb = match holder {
        None => seq![0u8],
        Some(h) => seq![1u8] + uuid_bytes(h),
    };
    let n = spec_string(name);
    let s = n + kb + hb + rest;
    assert(s =~= n + (kb + (hb + rest)));
    crate::codec::law_string_roundtrip(name, PLAYER_NAME_LIMIT, kb + (hb + rest));
    assert(s.skip(n.len() as int) =~= kb + (hb + rest));
    match key {
        None => {
            assert(s[n.len() as int] == 0u8);
        },
        Some(k) => {
            assert(s[n.len() as int] == 1u8);
            let kk = be_bytes(k.timestamp as nat, 8) + spec_byte_vec(k.public_key) + spec_byte_vec(
                k.signature,
            );
            assert(s.skip((n.len() + 1) as int) =~= kk + (hb + rest));
            law_mojang_key_layout(k.timestamp, k.public_key, k.signature, hb + rest);
        },
    }
    let o = n.len() + kb.len();
    assert(s.skip(o as int) =~= hb + rest);
    match holder {
        None => {
            assert(s[o as int] == 0u8);
        },
        Some(h) => {
            assert(s[o as int] == 1u8);
            crate::codec::lemma_uuid_roundtrip(h);
            assert(s.subrange((o + 1) as int, (o + 17) as int) =~= uuid_bytes(h));
        },
    }
}

/// What a client reads of an encryption request: the server id as a string of at most 20
/// bytes, then the public key, then the verify token, each with its length first.
pub proof fn law_encryption_request_read(r: EncryptionRequest, rest: Seq<u8>)
    requires
        utf8_bytes(r.server_id@).len() <= SERVER_ID_LIMIT,
        r.public_key@.len() <= i32::MAX,
        r.verify_token@.len() <= i32::MAX,
    ensures
        ({
            let s = spec_encryption_request(r) + rest;
            &&& spec_read_string(s, SERVER_ID_LIMIT) matches Ok((id, k1)) && id == utf8_bytes(r.server_id@)
            &&& spec_read_sized_bytes(s.skip(spec_string(r.server_id@).len() as int)) matches Ok((pk, k2))
                && pk == r.public_key@
            &&& spec_read_sized_bytes(s.skip((spec_string(r.server_id@).len() + spec_byte_vec(r.public_key@).len()) as int))
                == Ok::<(Seq<u8>, nat), ErrorKind>((r.verify_token@, spec_byte_vec(r.verify_token@).len()))
        }),
{
    let a = spec_string(r.server_id@);
    let b = spec_byte_vec(r.public_key@);
    let c = spec_byte_vec(r.verify_token@);
    let s = spec_encryption_request(r) + rest;
    assert(s =~= a + (b + (c + rest)));
    crate::codec::law_string_roundtrip(r.server_id@, SERVER_ID_LIMIT, b + (c + rest));
    assert(s.skip(a.len() as int) =~= b + (c + rest));
    lemma_sized_bytes_read(r.public_key@, c + rest);
    assert(s.skip((a.len() + b.len()) as int) =~= c + rest);
    lemma_sized_bytes_read(r.verify_token@, rest);
}

/// What a client reads of a plugin request: the message id as a VarInt, the channel as a
/// string, then every remaining byte as the data.
pub proof fn law_plugin_request_read(r: LoginPluginRequest)
    requires
        utf8_bytes(r.channel@).len() <= STRING_DEFAULT_CAP,
    ensures
        ({
            let s = spec_plugin_request(r);
            let k = spec_var_int(r.message_id).len();
            &&& spec_read_var_int(s) == Ok::<(i32, nat), ErrorKind>((r.message_id, k))
            &&& spec_read_string(s.skip(k as int), STRING_DEFAULT_CAP) == Ok::<(Seq<u8>, nat), ErrorKind>(
                (utf8_bytes(r.channel@), spec_string(r.channel@).len()),
            )
            &&& s.skip((k + spec_string(r.channel@).len()) as int) == r.data@
        }),
{
    let h = spec_var_int(r.message_id);
    let c = spec_string(r.channel@);
    let s = spec_plugin_request(r);
    assert(s =~= h + (c + r.data@));
    crate::codec::lemma_var_int_roundtrip(r.message_id, c + r.data@);
    assert(s.skip(h.len() as int) =~= c + r.data@);
    crate::codec::law_string_roundtrip(r.channel@, STRING_DEFAULT_CAP, r.data@);
    assert(s.skip((h.len() + c.len()) as int) =~= r.data@);
}

} // verus!
