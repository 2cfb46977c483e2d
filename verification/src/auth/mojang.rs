//! Login through Mojang's session service. The steps, in the order the connection's driver runs
//! them: `login_start` on the login start packet; `begin_encryption`, whose encryption request
//! the driver sends; `encryption_response` on the client's answer, which names the session
//! server query the driver makes; `session_reply` on the answer to that query; and
//! `complete_login`, after which the driver turns encryption on and, where
//! `compression_packet` gives a packet, compression.
use vstd::prelude::*;
use vstd::string::StringExecFns;

use super::{check_login_key_at, key_check_holds, AuthConfiguration, KeyCheck};
use crate::clientbound::play::GameProfile;
use crate::codec::{be_bytes, decimal_string, decimal_text, write_be, TransportError};
use crate::crypto::{
    decrypt_pkcs1v15, pkcs1v15_decrypted, public_key_der_valid, random_verify_token, sha1,
    sha1_digest, sha256, sha256_digest, sha256_signature_valid, signed_hex, signed_hex_text,
    unix_time_nanos,
};
use crate::protocol::login::{
    bytes_equal, EncryptionRequest, EncryptionResponse, EncryptionResponseData, IdentifiedKey,
    LoginStart, SetCompression,
};
use crate::registry::RegistryError;

verus! {

/// Why the key a player announced was refused.
#[derive(Debug, Clone, Copy, PartialEq, Eq, Structural)]
pub enum KeyError {
    Expired,
    NoHolder,
    NoKey,
    MojangKeyServerError,
    InvalidKey,
    InvalidIdentifiedKey,
}

/// Why the encryption response or the session check failed.
#[derive(Debug, Clone, Copy, PartialEq, Eq, Structural)]
pub enum ValidationError {
    VerifyMismatch,
    DataSignatureInvalid,
    InvalidData,
    MojangAuthError,
    MojangAuthFailure,
    InvalidSharedSecret,
}

/// Where a login stands: waiting for the login start, or for the answer to the encryption
/// request, with the verify token sent and the name the player gave.
#[derive(Debug)]
pub enum AuthClientState {
    ExpectingLoginStart,
    ExpectingEncryptionResponse { verify_bytes: Vec<u8>, login_username: String },
}

/// The state of one login and the key the player announced.
#[derive(Debug)]
pub struct AuthClientContext {
    pub state: AuthClientState,
    pub key: Option<IdentifiedKey>,
}

impl AuthClientContext {
    /// A login that waits for its login start.
    pub fn new() -> (r: AuthClientContext)
        ensures
            r.state is ExpectingLoginStart,
            r.key is None,
    {
        AuthClientContext { state: AuthClientState::ExpectingLoginStart, key: None }
    }
}

/// Why a login failed.
#[derive(Debug)]
pub enum AuthError {
    InvalidState,
    KeyError(KeyError),
    ValidationError(ValidationError),
    TransportError(TransportError),
    RegistryError(RegistryError),
}

/// The message of a packet without a handler during login.
pub open spec fn no_login_handler_text(protocol_version: i32, packet_id: i32) -> Seq<char> {
    "No packet handler found for proto: "@ + decimal_text(protocol_version as int) + ", packet: "@
        + decimal_text(packet_id as int)
}

/// Formats the message of a packet without a handler during login.
fn no_login_handler_message(protocol_version: i32, packet_id: i32) -> (r: String)
    ensures
        r@ == no_login_handler_text(protocol_version, packet_id),
{
    let s = String::from_str("No packet handler found for proto: ");
    let s = s.concat(decimal_string(protocol_version as i128).as_str());
    s.concat(", packet: ").concat(decimal_string(packet_id as i128).as_str())
}

impl KeyError {
    pub open spec fn spec_message(self) -> Seq<char> {
        match self {
            KeyError::Expired => "Player key expired."@,
            KeyError::NoHolder => "No holder for player key found."@,
            KeyError::NoKey => "No key when expected."@,
            KeyError::MojangKeyServerError => "Mojang key failed to parse."@,
            KeyError::InvalidKey => "Player key invalid."@,
            KeyError::InvalidIdentifiedKey => "Player key improperly formatted."@,
        }
    }

    pub fn message(self) -> (r: String)
        ensures
            r@ == self.spec_message(),
    {
        match self {
            KeyError::Expired => String::from_str("Player key expired."),
            KeyError::NoHolder => String::from_str("No holder for player key found."),
            KeyError::NoKey => String::from_str("No key when expected."),
            KeyError::MojangKeyServerError => String::from_str("Mojang key failed to parse."),
            KeyError::InvalidKey => String::from_str("Player key invalid."),
            KeyError::InvalidIdentifiedKey => String::from_str("Player key improperly formatted."),
        }
    }
}

impl ValidationError {
    pub open spec fn spec_message(self) -> Seq<char> {
        match self {
            ValidationError::VerifyMismatch => "Encryption verification mismatch."@,
            ValidationError::DataSignatureInvalid => "Encryption data signature is invalid."@,
            ValidationError::InvalidData => "Input encryption data was invalid."@,
            ValidationError::MojangAuthError => "Failed to authenticate with mojang."@,
            ValidationError::MojangAuthFailure => "Mojang failed to respond to authentication."@,
            ValidationError::InvalidSharedSecret =>
                "Invalid shared secret, could not construct encryption stream."@,
        }
    }

    pub fn message(self) -> (r: String)
        ensures
            r@ == self.spec_message(),
    {
        match self {
            ValidationError::VerifyMismatch => String::from_str("Encryption verification mismatch."),
            ValidationError::DataSignatureInvalid => String::from_str(
                "Encryption data signature is invalid.",
            ),
            ValidationError::InvalidData => String::from_str("Input encryption data was invalid."),
            ValidationError::MojangAuthError => String::from_str(
                "Failed to authenticate with mojang.",
            ),
            ValidationError::MojangAuthFailure => String::from_str(
                "Mojang failed to respond to authentication.",
            ),
            ValidationError::InvalidSharedSecret => String::from_str(
                "Invalid shared secret, could not construct encryption stream.",
            ),
        }
    }
}

impl AuthError {
    /// What the error says; the payload of a transport error is not shown.
    pub open spec fn spec_message(&self) -> Seq<char> {
        match self {
            AuthError::InvalidState => "Invalid authentication state during login."@,
            AuthError::KeyError(e) => e.spec_message(),
            AuthError::ValidationError(e) => e.spec_message(),
            AuthError::TransportError(_) => "Generic transport error."@,
            AuthError::RegistryError(RegistryError::NoHandlerFound((v, id), _)) =>
                no_login_handler_text(*v, *id),
            AuthError::RegistryError(RegistryError::DraxTransportError(_)) =>
                "Generic transport error."@,
        }
    }

    pub fn message(&self) -> (r: String)
        ensures
            r@ == self.spec_message(),
    {
        match self {
            AuthError::InvalidState => String::from_str("Invalid authentication state during login."),
            AuthError::KeyError(e) => e.message(),
            AuthError::ValidationError(e) => e.message(),
            AuthError::TransportError(_) => String::from_str("Generic transport error."),
            AuthError::RegistryError(RegistryError::NoHandlerFound((v, id), _)) =>
                no_login_handler_message(*v, *id),
            AuthError::RegistryError(RegistryError::DraxTransportError(_)) => String::from_str(
                "Generic transport error.",
            ),
        }
    }
}

/// What a step of the login made of a packet.
#[derive(Debug)]
pub enum AuthFunctionResponse {
    InvalidState,
    KeyError(KeyError),
    ValidationError(ValidationError),
    TransportError(TransportError),
    /// The login start was accepted: the player's key, name, and the uuid the key was announced
    /// for, which the session server's profile must have.
    LoginStartPass { key: Option<IdentifiedKey>, name: String, expected_uuid: Option<u128> },
    /// The session server vouched for the player.
    AuthComplete { profile: GameProfile, shared_secret: Vec<u8> },
}

/// The answer to a login start at time `now`, with `waiting` whether the login waits for one:
/// the key checks' refusal as a key error, or the player's key, name and announced holder.
pub open spec fn login_start_holds(
    r: AuthFunctionResponse,
    waiting: bool,
    config: AuthConfiguration,
    mojang_der: Seq<u8>,
    login: LoginStart,
    now: Option<u128>,
) -> bool {
    if !waiting {
        r is InvalidState
    } else {
        match login.sig_data {
            Some(d) => match login.sig_holder {
                Some(h) => if d.spec_expired_at(now) {
                    r matches AuthFunctionResponse::KeyError(KeyError::Expired)
                } else if !public_key_der_valid(mojang_der) {
                    r matches AuthFunctionResponse::KeyError(KeyError::MojangKeyServerError)
                } else if !d.spec_incoming_valid(mojang_der, h) {
                    r matches AuthFunctionResponse::KeyError(KeyError::InvalidKey)
                } else if !public_key_der_valid(d.public_key@) {
                    r matches AuthFunctionResponse::KeyError(KeyError::InvalidIdentifiedKey)
                } else {
                    r matches AuthFunctionResponse::LoginStartPass { key: Some(k), name, expected_uuid }
                        && k.der() == d.public_key@ && name@ == login.name@ && expected_uuid == Some(h)
                },
                None => r matches AuthFunctionResponse::KeyError(KeyError::NoHolder),
            },
            None => if config.force_key_authentication {
                r matches AuthFunctionResponse::KeyError(KeyError::NoKey)
            } else {
                r matches AuthFunctionResponse::LoginStartPass { key: None, name, expected_uuid }
                    && name@ == login.name@ && expected_uuid == login.sig_holder
            },
        }
    }
}

/// Answers a login start at time `now`.
pub fn login_start_at(
    context: &AuthClientContext,
    config: &AuthConfiguration,
    mojang_der: &[u8],
    login_start: LoginStart,
    now: Option<u128>,
) -> (r: AuthFunctionResponse)
    ensures
        login_start_holds(r, context.state is ExpectingLoginStart, *config, mojang_der@, login_start, now),
{
    if !matches!(context.state, AuthClientState::ExpectingLoginStart) {
        return AuthFunctionResponse::InvalidState;
    }
    let check = check_login_key_at(
        &login_start,
        mojang_der,
        config.force_key_authentication,
        now,
    );
    let key = match check {
        KeyCheck::Accepted(key) => key,
        KeyCheck::Expired => {
            return AuthFunctionResponse::KeyError(KeyError::Expired);
        },
        KeyCheck::NoHolder => {
            return AuthFunctionResponse::KeyError(KeyError::NoHolder);
        },
        KeyCheck::NoKey => {
            return AuthFunctionResponse::KeyError(KeyError::NoKey);
        },
        KeyCheck::MojangKeyInvalid => {
            return AuthFunctionResponse::KeyError(KeyError::MojangKeyServerError);
        },
        KeyCheck::SignatureInvalid => {
            return AuthFunctionResponse::KeyError(KeyError::InvalidKey);
        },
        KeyCheck::PublicKeyInvalid => {
            return AuthFunctionResponse::KeyError(KeyError::InvalidIdentifiedKey);
        },
    };
    AuthFunctionResponse::LoginStartPass {
        key,
        name: login_start.name,
        expected_uuid: login_start.sig_holder,
    }
}

/// Answers a login start now, by the system clock.
pub fn login_start(
    context: &AuthClientContext,
    config: &AuthConfiguration,
    mojang_der: &[u8],
    login: LoginStart,
) -> (r: AuthFunctionResponse)
    ensures
        exists|now: Option<u128>|
            #[trigger] login_start_holds(
                r,
                context.state is ExpectingLoginStart,
                *config,
                mojang_der@,
                login,
                now,
            ),
{
    let now = unix_time_nanos();
    login_start_at(context, config, mojang_der, login, now)
}

/// What a refused step turns into as a login error: its key, validation or transport error;
/// anything else is out of place.
pub open spec fn spec_response_error(r: AuthFunctionResponse) -> AuthError {
    match r {
        AuthFunctionResponse::KeyError(e) => AuthError::KeyError(e),
        AuthFunctionResponse::ValidationError(e) => AuthError::ValidationError(e),
        AuthFunctionResponse::TransportError(e) => AuthError::TransportError(e),
        _ => AuthError::InvalidState,
    }
}

pub fn response_error(response: AuthFunctionResponse) -> (r: AuthError)
    ensures
        r == spec_response_error(response),
{
    match response {
        AuthFunctionResponse::KeyError(e) => AuthError::KeyError(e),
        AuthFunctionResponse::ValidationError(e) => AuthError::ValidationError(e),
        AuthFunctionResponse::TransportError(e) => AuthError::TransportError(e),
        _ => AuthError::InvalidState,
    }
}

/// After the login start: on a pass, keeps the player's key, moves the login to wait for the
/// encryption response with the verify token `verify_token` and the player's name, and gives
/// the encryption request to send (empty server id, the server's public key, the token) with the
/// uuid the session profile must have; otherwise the login's error.
pub fn begin_encryption_with(
    context: &mut AuthClientContext,
    config: &AuthConfiguration,
    response: AuthFunctionResponse,
    verify_token: Vec<u8>,
) -> (r: Result<(EncryptionRequest, Option<u128>), AuthError>)
    ensures
        match response {
            AuthFunctionResponse::LoginStartPass { key, name, expected_uuid } => {
                &&& r matches Ok((request, expected)) && request.server_id@ == ""@
                    && request.public_key@ == config.server_public_key@
                    && request.verify_token@ == verify_token@ && expected == expected_uuid
                &&& final(context).key == key
                &&& final(context).state matches AuthClientState::ExpectingEncryptionResponse {
                    verify_bytes,
                    login_username,
                } && verify_bytes@ == verify_token@ && login_username@ == name@
            },
            _ => r == Err::<(EncryptionRequest, Option<u128>), AuthError>(spec_response_error(response))
                && *final(context) == *old(context),
        },
{
    match response {
        AuthFunctionResponse::LoginStartPass { key, name, expected_uuid } => {
            context.key = key;
            let request = EncryptionRequest {
                server_id: String::from_str(""),
                public_key: vstd::slice::slice_to_vec(config.server_public_key.as_slice()),
                verify_token: vstd::slice::slice_to_vec(verify_token.as_slice()),
            };
            context.state = AuthClientState::ExpectingEncryptionResponse {
                verify_bytes: verify_token,
                login_username: name,
            };
            Ok((request, expected_uuid))
        },
        other => Err(response_error(other)),
    }
}

/// `begin_encryption_with` and four random bytes as the verify token.
pub fn begin_encryption(
    context: &mut AuthClientContext,
    config: &AuthConfiguration,
    response: AuthFunctionResponse,
) -> (r: Result<(EncryptionRequest, Option<u128>), AuthError>)
    ensures
        match response {
            AuthFunctionResponse::LoginStartPass { key, name, expected_uuid } => {
                &&& r matches Ok((request, expected)) && request.server_id@ == ""@
                    && request.public_key@ == config.server_public_key@
                    && request.verify_token@.len() == 4 && expected == expected_uuid
                &&& final(context).key == key
                &&& final(context).state matches AuthClientState::ExpectingEncryptionResponse {
                    verify_bytes,
                    login_username,
                } && verify_bytes@ == r->Ok_0.0.verify_token@ && login_username@ == name@
            },
            _ => r == Err::<(EncryptionRequest, Option<u128>), AuthError>(spec_response_error(response))
                && *final(context) == *old(context),
        },
{
    let token = random_verify_token();
    begin_encryption_with(context, config, response, token)
}

/// The verify token followed by the salt's eight bytes, as the client signs it.
pub open spec fn salted_token(verify: Seq<u8>, salt: i64) -> Seq<u8> {
    verify + be_bytes(salt as u64 as nat, 8)
}

/// Whether the client's proof about the verify token holds: a client with a key signs the
/// SHA-256 digest of the salted token; one without encrypts the token with the server key.
/// `None` when it holds, else the error.
pub open spec fn token_proof_error(
    key: Option<IdentifiedKey>,
    data: EncryptionResponseData,
    verify: Seq<u8>,
    private_der: Seq<u8>,
) -> Option<ValidationError> {
    match key {
        Some(k) => match data {
            EncryptionResponseData::VerifyTokenData(_) => Some(ValidationError::InvalidData),
            EncryptionResponseData::MessageSignature { salt, message_signature } =>
                if sha256_signature_valid(
                k.der(),
                sha256_digest(salted_token(verify, salt)),
                message_signature@,
            ) {
                None
            } else {
                Some(ValidationError::DataSignatureInvalid)
            },
        },
        None => match data {
            EncryptionResponseData::VerifyTokenData(d) => match pkcs1v15_decrypted(private_der, d@) {
                None => Some(ValidationError::InvalidData),
                Some(plain) => if plain == verify {
                    None
                } else {
                    Some(ValidationError::VerifyMismatch)
                },
            },
            EncryptionResponseData::MessageSignature { .. } => Some(ValidationError::InvalidData),
        },
    }
}

/// The server id hash the session server is asked with: the signed hexadecimal form of the
/// SHA-1 digest of the (empty) server id, the shared secret and the server's public key.
pub open spec fn server_hash(shared_secret: Seq<u8>, public_der: Seq<u8>) -> Seq<char> {
    signed_hex_text(sha1_digest(shared_secret + public_der))
}

/// The session server's base address.
pub open spec fn session_base(auth_url: Option<String>) -> Seq<char> {
    match auth_url {
        Some(u) => u@,
        None => "https://sessionserver.mojang.com"@,
    }
}

/// The query that asks the session server whether the player joined.
pub open spec fn session_url(auth_url: Option<String>, username: Seq<char>, hash: Seq<char>) -> Seq<char> {
    session_base(auth_url) + "/session/minecraft/hasJoined?username="@ + username + "&serverId="@
        + hash
}

/// The session server query to make: its address, and the shared secret it is for.
#[derive(Debug)]
pub struct SessionCheck {
    pub url: String,
    pub shared_secret: Vec<u8>,
}

/// Answers the encryption response: checks the client's proof about the verify token, decrypts
/// the shared secret with the server key, and gives the session server query; a step that fails
/// gives the answer to send back instead.
pub fn encryption_response(
    context: &AuthClientContext,
    config: &AuthConfiguration,
    response: EncryptionResponse,
) -> (r: Result<SessionCheck, AuthFunctionResponse>)
    ensures
        match context.state {
            AuthClientState::ExpectingLoginStart => r matches Err(AuthFunctionResponse::InvalidState),
            AuthClientState::ExpectingEncryptionResponse { verify_bytes, login_username } => match token_proof_error(
                context.key,
                response.response_data,
                verify_bytes@,
                config.server_private_key@,
            ) {
                Some(e) => r matches Err(AuthFunctionResponse::ValidationError(e2)) && e2 == e,
                None => match pkcs1v15_decrypted(
                    config.server_private_key@,
                    response.shared_secret@,
                ) {
                    None => r matches Err(
                        AuthFunctionResponse::ValidationError(ValidationError::InvalidData),
                    ),
                    Some(secret) => r matches Ok(c) && c.shared_secret@ == secret && c.url@
                        == session_url(
                        config.auth_url,
                        login_username@,
                        server_hash(secret, config.server_public_key@),
                    ),
                },
            },
        },
{
    let (expected_verify, username) = match &context.state {
        AuthClientState::ExpectingEncryptionResponse { verify_bytes, login_username } => (
            verify_bytes,
            login_username,
        ),
        _ => {
            return Err(AuthFunctionResponse::InvalidState);
        },
    };
    let server_key = config.server_private_key.as_slice();
    match &context.key {
        Some(key) => match &response.response_data {
            EncryptionResponseData::VerifyTokenData(_) => {
                return Err(AuthFunctionResponse::ValidationError(ValidationError::InvalidData));
            },
            EncryptionResponseData::MessageSignature { salt, message_signature } => {
                let mut message = vstd::slice::slice_to_vec(expected_verify.as_slice());
                write_be(&mut message, *salt as u64, 8);
                let digest = sha256(message.as_slice());
                if !key.verify_data_signature(message_signature.as_slice(), digest.as_slice()) {
                    return Err(
                        AuthFunctionResponse::ValidationError(ValidationError::DataSignatureInvalid),
                    );
                }
            },
        },
        None => match &response.response_data {
            EncryptionResponseData::VerifyTokenData(data) => {
                let resp = match decrypt_pkcs1v15(server_key, data.as_slice()) {
                    Some(resp) => resp,
                    None => {
                        return Err(
                            AuthFunctionResponse::ValidationError(ValidationError::InvalidData),
                        );
                    },
                };
                if !bytes_equal(expected_verify.as_slice(), resp.as_slice()) {
                    return Err(
                        AuthFunctionResponse::ValidationError(ValidationError::VerifyMismatch),
                    );
                }
            },
            EncryptionResponseData::MessageSignature { .. } => {
                return Err(AuthFunctionResponse::ValidationError(ValidationError::InvalidData));
            },
        },
    }
    let shared_secret = match decrypt_pkcs1v15(
        server_key,
        response.shared_secret.as_slice(),
    ) {
        Some(secret) => secret,
        None => {
            return Err(AuthFunctionResponse::ValidationError(ValidationError::InvalidData));
        },
    };
    let mut hashed: Vec<u8> = vstd::slice::slice_to_vec(shared_secret.as_slice());
    crate::encoding::append_bytes(&mut hashed, config.server_public_key.as_slice());
    let digest = sha1(hashed.as_slice());
    let hashed_server_id = signed_hex(digest.as_slice());
    let auth_url = match &config.auth_url {
        Some(url) => url.clone(),
        None => String::from_str("https://sessionserver.mojang.com"),
    };
    let url = auth_url.concat("/session/minecraft/hasJoined?username=").concat(
        username.as_str(),
    ).concat("&serverId=").concat(hashed_server_id.as_str());
    Ok(SessionCheck { url, shared_secret })
}

/// Answers the session server's reply: `status` is the HTTP status (none when the server could
/// not be asked) and `profile` the body read as a profile, if it could be. 204 means the player
/// did not join; anything but 200, or a body that is no profile, is an error.
pub fn session_reply(status: Option<u16>, profile: Option<GameProfile>, shared_secret: Vec<u8>) -> (r: AuthFunctionResponse)
    ensures
        match status {
            None => r matches AuthFunctionResponse::ValidationError(ValidationError::MojangAuthError),
            Some(code) => if code == 204 {
                r matches AuthFunctionResponse::ValidationError(ValidationError::MojangAuthFailure)
            } else if code != 200 {
                r matches AuthFunctionResponse::ValidationError(ValidationError::MojangAuthError)
            } else {
                match profile {
                    None => r matches AuthFunctionResponse::ValidationError(
                        ValidationError::MojangAuthError,
                    ),
                    Some(p) => r == AuthFunctionResponse::AuthComplete { profile: p, shared_secret },
                }
            },
        },
{
    match status {
        None => AuthFunctionResponse::ValidationError(ValidationError::MojangAuthError),
        Some(code) => {
            if code == 204 {
                AuthFunctionResponse::ValidationError(ValidationError::MojangAuthFailure)
            } else if code != 200 {
                AuthFunctionResponse::ValidationError(ValidationError::MojangAuthError)
            } else {
                match profile {
                    None => AuthFunctionResponse::ValidationError(ValidationError::MojangAuthError),
                    Some(p) => AuthFunctionResponse::AuthComplete { profile: p, shared_secret },
                }
            }
        },
    }
}

/// After the session check: the profile and shared secret, unless the profile's uuid is not
/// the one the player's key was announced for; otherwise the login's error.
pub fn complete_login(expected_uuid: Option<u128>, response: AuthFunctionResponse) -> (r: Result<
    (GameProfile, Vec<u8>),
    AuthError,
>)
    ensures
        match response {
            AuthFunctionResponse::AuthComplete { profile, shared_secret } => if expected_uuid is Some
                && expected_uuid != Some(profile.id) {
                r matches Err(AuthError::ValidationError(ValidationError::InvalidData))
            } else {
                r == Ok::<(GameProfile, Vec<u8>), AuthError>((profile, shared_secret))
            },
            _ => r == Err::<(GameProfile, Vec<u8>), AuthError>(spec_response_error(response)),
        },
{
    match response {
        AuthFunctionResponse::AuthComplete { profile, shared_secret } => {
            if let Some(expected) = expected_uuid {
                if profile.id != expected {
                    return Err(AuthError::ValidationError(ValidationError::InvalidData));
                }
            }
            Ok((profile, shared_secret))
        },
        other => Err(response_error(other)),
    }
}

/// The compression announcement to send after login: the threshold, truncated to a VarInt,
/// when it is not negative.
pub fn compression_packet(config: &AuthConfiguration) -> (r: Option<SetCompression>)
    ensures
        config.compression_threshold >= 0 <==> r is Some,
        r matches Some(p) ==> p.threshold == config.compression_threshold as i32,
{
    if config.compression_threshold >= 0 {
        Some(SetCompression { threshold: config.compression_threshold as i32 })
    } else {
        None
    }
}

} // verus!
