//! The stream cipher of an authenticated connection: AES-128 in CFB-8 mode, keyed by the shared
//! secret, which is also the initial vector. Each direction keeps its key and its shift
//! register; a run of bytes through the cipher gives the transformed bytes and the register that
//! the next run starts from.
use vstd::prelude::*;

use aes::cipher::generic_array::GenericArray;
use aes::cipher::{BlockDecryptMut, BlockEncryptMut, IvState, KeyIvInit};

use crate::auth::mojang::{AuthError, ValidationError};
use crate::protocol::login::bytes_equal;

verus! {

/// What AES-128/CFB-8 encryption of `data` with `key` and the shift register `iv` gives: the
/// ciphertext and the register after it.
pub uninterp spec fn aes_cfb8_encrypt(key: Seq<u8>, iv: Seq<u8>, data: Seq<u8>) -> (Seq<u8>, Seq<u8>);

/// What AES-128/CFB-8 decryption of `data` with `key` and the shift register `iv` gives: the
/// plaintext and the register after it.
pub uninterp spec fn aes_cfb8_decrypt(key: Seq<u8>, iv: Seq<u8>, data: Seq<u8>) -> (Seq<u8>, Seq<u8>);

/// The bytes a run through the cipher gives, and the shift register after them.
#[derive(Debug)]
pub struct CipherRun {
    pub out: Vec<u8>,
    pub register: Vec<u8>,
}

/// Runs `data` through `cfb8::Encryptor<aes::Aes128>` made with `key` and `iv`
/// (`new_from_slices`, one `encrypt_block_mut` per byte, then `iv_state`). The encryptor can be
/// made exactly when both are sixteen bytes long (AES-128's key and block size); the output is
/// as long as the input, the register is one block, and the bytes are named, not stated.
#[verifier::external_body]
fn run_aes_cfb8_encrypt(key: &[u8], iv: &[u8], data: &[u8]) -> (r: Option<CipherRun>)
    ensures
        r is Some <==> (key@.len() == 16 && iv@.len() == 16),
        r matches Some(run) ==> (run.out@, run.register@) == aes_cfb8_encrypt(key@, iv@, data@),
        r matches Some(run) ==> run.out@.len() == data@.len() && run.register@.len() == 16,
{
    let mut cipher = cfb8::Encryptor::<aes::Aes128>::new_from_slices(key, iv).ok()?;
    let mut out = data.to_vec();
    for byte in out.chunks_mut(1) {
        cipher.encrypt_block_mut(GenericArray::from_mut_slice(byte));
    }
    Some(CipherRun { out, register: cipher.iv_state().to_vec() })
}

/// Runs `data` through `cfb8::Decryptor<aes::Aes128>` made with `key` and `iv`
/// (`new_from_slices`, one `decrypt_block_mut` per byte, then `iv_state`). The decryptor can be
/// made exactly when both are sixteen bytes long (AES-128's key and block size); the output is
/// as long as the input, the register is one block, and the bytes are named, not stated.
#[verifier::external_body]
fn run_aes_cfb8_decrypt(key: &[u8], iv: &[u8], data: &[u8]) -> (r: Option<CipherRun>)
    ensures
        r is Some <==> (key@.len() == 16 && iv@.len() == 16),
        r matches Some(run) ==> (run.out@, run.register@) == aes_cfb8_decrypt(key@, iv@, data@),
        r matches Some(run) ==> run.out@.len() == data@.len() && run.register@.len() == 16,
{
    let mut cipher = cfb8::Decryptor::<aes::Aes128>::new_from_slices(key, iv).ok()?;
    let mut out = data.to_vec();
    for byte in out.chunks_mut(1) {
        cipher.decrypt_block_mut(GenericArray::from_mut_slice(byte));
    }
    Some(CipherRun { out, register: cipher.iv_state().to_vec() })
}

/// One direction of the connection's cipher: whether it encrypts (what is sent) or decrypts
/// (what is received), its key, and its current shift register.
#[derive(Debug)]
pub struct Cfb8Stream {
    encrypts: bool,
    key: Vec<u8>,
    register: Vec<u8>,
}

impl Cfb8Stream {
    pub closed spec fn spec_encrypts(&self) -> bool {
        self.encrypts
    }

    pub closed spec fn spec_key(&self) -> Seq<u8> {
        self.key@
    }

    pub closed spec fn spec_register(&self) -> Seq<u8> {
        self.register@
    }

    /// A stream can run: its key and register are sixteen bytes long.
    pub closed spec fn wf(&self) -> bool {
        self.key@.len() == 16 && self.register@.len() == 16
    }

    /// What a run of `data` through the stream gives: the transformed bytes and the register
    /// after them.
    pub open spec fn spec_step(&self, data: Seq<u8>) -> (Seq<u8>, Seq<u8>) {
        if self.spec_encrypts() {
            aes_cfb8_encrypt(self.spec_key(), self.spec_register(), data)
        } else {
            aes_cfb8_decrypt(self.spec_key(), self.spec_register(), data)
        }
    }

    /// Runs `data` through the stream, in place, and moves its register on.
    pub fn apply(&mut self, data: &mut Vec<u8>)
        requires
            old(self).wf(),
        ensures
            final(self).wf(),
            final(self).spec_encrypts() == old(self).spec_encrypts(),
            final(self).spec_key() == old(self).spec_key(),
            final(data)@ == old(self).spec_step(old(data)@).0,
            final(self).spec_register() == old(self).spec_step(old(data)@).1,
    {
        let run = if self.encrypts {
            run_aes_cfb8_encrypt(self.key.as_slice(), self.register.as_slice(), data.as_slice())
        } else {
            run_aes_cfb8_decrypt(self.key.as_slice(), self.register.as_slice(), data.as_slice())
        };
        let run = run.unwrap();
        *data = run.out;
        self.register = run.register;
    }
}

fn copy_bytes(bytes: &[u8]) -> (r: Vec<u8>)
    ensures
        r@ == bytes@,
{
    let r = crate::protocol::play::sb::read_rest(bytes, 0);
    assert(bytes@.skip(0) =~= bytes@);
    r
}

/// A stream of the given direction keyed by `secret`, which is also its initial register.
pub open spec fn keyed_by(s: Cfb8Stream, encrypts: bool, secret: Seq<u8>) -> bool {
    &&& s.wf()
    &&& s.spec_encrypts() == encrypts
    &&& s.spec_key() == secret
    &&& s.spec_register() == secret
}

/// The two streams of a connection keyed by the shared secret: the one that encrypts what is
/// sent and the one that decrypts what is received. None when the secret is no AES-128 key,
/// which the cipher decides.
pub fn encryption_from_secret(shared_secret: &[u8]) -> (r: Option<(Cfb8Stream, Cfb8Stream)>)
    ensures
        r is Some <==> shared_secret@.len() == 16,
        r matches Some((enc, dec)) ==> keyed_by(enc, true, shared_secret@) && keyed_by(
            dec,
            false,
            shared_secret@,
        ),
{
    let empty: Vec<u8> = Vec::new();
    let enc_ok = run_aes_cfb8_encrypt(shared_secret, shared_secret, empty.as_slice()).is_some();
    let dec_ok = run_aes_cfb8_decrypt(shared_secret, shared_secret, empty.as_slice()).is_some();
    if !(enc_ok && dec_ok) {
        return None;
    }
    let enc = Cfb8Stream {
        encrypts: true,
        key: copy_bytes(shared_secret),
        register: copy_bytes(shared_secret),
    };
    let dec = Cfb8Stream {
        encrypts: false,
        key: copy_bytes(shared_secret),
        register: copy_bytes(shared_secret),
    };
    Some((enc, dec))
}

/// The streams of a login once the session server vouched for the player; a secret that is no
/// AES-128 key fails the login as an invalid shared secret.
pub fn enable_encryption(shared_secret: &[u8]) -> (r: Result<(Cfb8Stream, Cfb8Stream), AuthError>)
    ensures
        r is Err <==> shared_secret@.len() != 16,
        r matches Err(e) ==> e == AuthError::ValidationError(ValidationError::InvalidSharedSecret),
        r matches Ok((enc, dec)) ==> keyed_by(enc, true, shared_secret@) && keyed_by(
            dec,
            false,
            shared_secret@,
        ),
{
    match encryption_from_secret(shared_secret) {
        Some(streams) => Ok(streams),
        None => Err(AuthError::ValidationError(ValidationError::InvalidSharedSecret)),
    }
}

/// The two streams of a connection whose client sent back `response_verify` for the verify
/// token `verify`: refused when the two differ, else keyed by the shared secret as
/// `enable_encryption` keys them.
pub fn encryption_from_response(response_verify: &[u8], shared_secret: &[u8], verify: &[u8]) -> (r: Result<
    (Cfb8Stream, Cfb8Stream),
    AuthError,
>)
    ensures
        verify@ != response_verify@ ==> r == Err::<(Cfb8Stream, Cfb8Stream), AuthError>(
            AuthError::ValidationError(ValidationError::VerifyMismatch),
        ),
        verify@ == response_verify@ ==> (r is Err <==> shared_secret@.len() != 16),
        verify@ == response_verify@ && r is Err ==> r == Err::<(Cfb8Stream, Cfb8Stream), AuthError>(
            AuthError::ValidationError(ValidationError::InvalidSharedSecret),
        ),
        r matches Ok((enc, dec)) ==> keyed_by(enc, true, shared_secret@) && keyed_by(
            dec,
            false,
            shared_secret@,
        ),
{
    if !bytes_equal(verify, response_verify) {
        return Err(AuthError::ValidationError(ValidationError::VerifyMismatch));
    }
    enable_encryption(shared_secret)
}

} // verus!
