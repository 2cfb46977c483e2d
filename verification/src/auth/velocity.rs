//! Login behind a Velocity proxy with modern forwarding. The steps: `handle_login_start` checks
//! the player's key and gives the request the driver sends on the `velocity:player_info`
//! channel; `handle_plugin_response` checks the proxy's signed answer and reads the player's
//! address, profile and key from it; `finish_forwarding` checks that the key the proxy vouches
//! for is the one the player announced.
use vstd::prelude::*;
use vstd::string::StringExecFns;

use super::{check_login_key_at, key_check_holds, AuthenticatedClient, AuthConfiguration, KeyCheck};
use crate::clientbound::play::{
    profile_is, read_profile, spec_read_profile, GameProfile, ProfileBytes, STRING_DEFAULT_CAP,
};
use crate::codec::{
    lemma_scan_range, read_string, read_uuid, read_var_int, spec_read_string, spec_read_var_int,
    spec_var_int,
    utf8_bytes, uuid_value, ErrorKind, TransportError,
};
use crate::crypto::{hmac_sha256, hmac_sha256_verify, public_key_der_valid, unix_time_nanos};
use crate::protocol::login::{
    mojang_key_is, spec_read_mojang_key, IdentifiedKey, LoginPluginRequest, LoginPluginResponse,
    LoginStart, MojangIdentifiedKey, MojangKeyBytes,
};
use crate::registry::RegistryError;

verus! {

/// The forwarding version this server asks the proxy for.
pub const MODERN_FORWARDING_COMPATIBILITY: u8 = 3;

/// What the proxy forwards: the player's address and profile, and their key, with its holder
/// in the linked form.
#[derive(Debug)]
pub enum VelocityForwardingData {
    __Illegal,
    Default { address: String, profile: GameProfile },
    ForwardingWithKey { address: String, profile: GameProfile, key: MojangIdentifiedKey },
    ForwardingWithLinkedKey {
        address: String,
        profile: GameProfile,
        key: MojangIdentifiedKey,
        holder: u128,
    },
}

/// Forwarded data as read, with strings as UTF-8 bytes.
pub ghost enum ForwardingBytes {
    Illegal,
    Default { address: Seq<u8>, profile: ProfileBytes },
    WithKey { address: Seq<u8>, profile: ProfileBytes, key: MojangKeyBytes },
    WithLinkedKey { address: Seq<u8>, profile: ProfileBytes, key: MojangKeyBytes, holder: u128 },
}

/// `d` is the forwarded data that `v` describes.
pub open spec fn forwarding_is(d: VelocityForwardingData, v: ForwardingBytes) -> bool {
    match v {
        ForwardingBytes::Illegal => d is __Illegal,
        ForwardingBytes::Default { address, profile } => d matches VelocityForwardingData::Default {
            address: a,
            profile: p,
        } && utf8_bytes(a@) == address && profile_is(p, profile),
        ForwardingBytes::WithKey { address, profile, key } => d matches VelocityForwardingData::ForwardingWithKey {
            address: a,
            profile: p,
            key: k,
        } && utf8_bytes(a@) == address && profile_is(p, profile) && mojang_key_is(k, key),
        ForwardingBytes::WithLinkedKey { address, profile, key, holder } => d matches VelocityForwardingData::ForwardingWithLinkedKey {
            address: a,
            profile: p,
            key: k,
            holder: h,
        } && utf8_bytes(a@) == address && profile_is(p, profile) && mojang_key_is(k, key) && h
            == holder,
    }
}

/// What reading forwarded data from the start of `s` gives: the variant's key as a VarInt (0
/// to 3, in declaration order), then the address, the profile, the key and the holder, as far
/// as the variant has them.
pub open spec fn spec_read_forwarding(s: Seq<u8>) -> Result<(ForwardingBytes, nat), ErrorKind> {
    match spec_read_var_int(s) {
        Err(e) => Err(e),
        Ok((tag, k0)) => if tag == 0 {
            Ok((ForwardingBytes::Illegal, k0))
        } else if tag < 0 || tag > 3 {
            Err(ErrorKind::Explain("Unknown forwarding data variant."@))
        } else {
            match spec_read_string(s.skip(k0 as int), STRING_DEFAULT_CAP) {
                Err(e) => Err(e),
                Ok((address, k1)) => match spec_read_profile(s.skip((k0 + k1) as int)) {
                    Err(e) => Err(e),
                    Ok((profile, k2)) => if tag == 1 {
                        Ok((ForwardingBytes::Default { address, profile }, k0 + k1 + k2))
                    } else {
                        match spec_read_mojang_key(s.skip((k0 + k1 + k2) as int)) {
                            Err(e) => Err(e),
                            Ok((key, k3)) => {
                                let o = k0 + k1 + k2 + k3;
                                if tag == 2 {
                                    Ok((ForwardingBytes::WithKey { address, profile, key }, o))
                                } else if o + 16 > s.len() {
                                    Err(ErrorKind::EndOfInput)
                                } else {
                                    Ok(
                                        (
                                            ForwardingBytes::WithLinkedKey {
                                                address,
                                                profile,
                                                key,
                                                holder: uuid_value(s.subrange(o as int, (o + 16) as int)),
                                            },
                                            o + 16,
                                        ),
                                    )
                                }
                            },
                        }
                    },
                },
            }
        },
    }
}

/// The variant key of forwarded data is its position in declaration order: 0 is the illegal
/// variant and reads nothing more, any key outside 0 to 3 is refused.
pub proof fn law_forwarding_unknown_keys(tag: i32, body: Seq<u8>)
    ensures
        tag == 0 ==> spec_read_forwarding(spec_var_int(tag) + body) == Ok::<(ForwardingBytes, nat), ErrorKind>(
            (ForwardingBytes::Illegal, spec_var_int(tag).len()),
        ),
        (tag < 0 || tag > 3) ==> spec_read_forwarding(spec_var_int(tag) + body) == Err::<
            (ForwardingBytes, nat),
            ErrorKind,
        >(ErrorKind::Explain("Unknown forwarding data variant."@)),
{
    crate::codec::lemma_var_int_roundtrip(tag, body);
}

/// The variant key of forwarded data is its position in declaration order: after the key come
/// the address and the profile; key 1 stops there (Default), key 2 adds the Mojang key and
/// nothing more (ForwardingWithKey), key 3 adds the Mojang key and then the sixteen bytes of its
/// holder's uuid (ForwardingWithLinkedKey), refused when they are missing.
pub proof fn law_forwarding_variant_keys(
    tag: i32,
    body: Seq<u8>,
    address: Seq<u8>,
    k1: nat,
    profile: ProfileBytes,
    k2: nat,
    key: MojangKeyBytes,
    k3: nat,
)
    requires
        spec_read_string(body, STRING_DEFAULT_CAP) == Ok::<(Seq<u8>, nat), ErrorKind>((address, k1)),
        spec_read_profile(body.skip(k1 as int)) == Ok::<(ProfileBytes, nat), ErrorKind>((profile, k2)),
        spec_read_mojang_key(body.skip((k1 + k2) as int)) == Ok::<(MojangKeyBytes, nat), ErrorKind>(
            (key, k3),
        ),
        k1 + k2 + k3 <= body.len(),
    ensures
        tag == 1 ==> spec_read_forwarding(spec_var_int(tag) + body) == Ok::<(ForwardingBytes, nat), ErrorKind>(
            (ForwardingBytes::Default { address, profile }, spec_var_int(tag).len() + k1 + k2),
        ),
        tag == 2 ==> spec_read_forwarding(spec_var_int(tag) + body) == Ok::<(ForwardingBytes, nat), ErrorKind>(
            (ForwardingBytes::WithKey { address, profile, key }, spec_var_int(tag).len() + k1 + k2 + k3),
        ),
        tag == 3 && k1 + k2 + k3 + 16 <= body.len() ==> spec_read_forwarding(spec_var_int(tag) + body)
            == Ok::<(ForwardingBytes, nat), ErrorKind>(
            (
                ForwardingBytes::WithLinkedKey {
                    address,
                    profile,
                    key,
                    holder: uuid_value(body.subrange((k1 + k2 + k3) as int, (k1 + k2 + k3 + 16) as int)),
                },
                spec_var_int(tag).len() + k1 + k2 + k3 + 16,
            ),
        ),
        tag == 3 && k1 + k2 + k3 + 16 > body.len() ==> spec_read_forwarding(spec_var_int(tag) + body)
            == Err::<(ForwardingBytes, nat), ErrorKind>(ErrorKind::EndOfInput),
{
    let n = spec_var_int(tag).len();
    let s = spec_var_int(tag) + body;
    crate::codec::lemma_var_int_roundtrip(tag, body);
    assert(s.skip(n as int) =~= body);
    assert(s.skip((n + k1) as int) =~= body.skip(k1 as int));
    assert(s.skip((n + k1 + k2) as int) =~= body.skip((k1 + k2) as int));
    let o = n + k1 + k2 + k3;
    if o + 16 <= s.len() {
        assert(s.subrange(o as int, (o + 16) as int) =~= body.subrange(
            (k1 + k2 + k3) as int,
            (k1 + k2 + k3 + 16) as int,
        ));
    }
}

/// Builds the error of an unknown variant key.
fn unknown_variant() -> (r: TransportError)
    ensures
        r.kind() == ErrorKind::Explain("Unknown forwarding data variant."@),
{
    TransportError::Explain(String::from_str("Unknown forwarding data variant."))
}

impl VelocityForwardingData {
    /// Reads forwarded data at `pos`.
    #[verifier::rlimit(60)]
    pub fn decode(buf: &[u8], pos: usize) -> (r: Result<(VelocityForwardingData, usize), TransportError>)
        requires
            pos <= buf@.len(),
        ensures
            match spec_read_forwarding(buf@.skip(pos as int)) {
                Ok((v, k)) => r matches Ok((d, q)) && forwarding_is(d, v) && q == pos + k,
                Err(e) => r matches Err(err) && err.kind() == e,
            },
    {
        let ghost s = buf@.skip(pos as int);
        let blen = buf.len();
        proof {
            lemma_scan_range(s, 0, 5);
        }
        let (tag, p0) = read_var_int(buf, pos)?;
        if tag == 0 {
            return Ok((VelocityForwardingData::__Illegal, p0));
        }
        if tag < 0 || tag > 3 {
            return Err(unknown_variant());
        }
        assert(s.skip((p0 - pos) as int) =~= buf@.skip(p0 as int));
        let (address, p1) = read_string(buf, p0, STRING_DEFAULT_CAP)?;
        assert(s.skip((p1 - pos) as int) =~= buf@.skip(p1 as int));
        let (profile, p2) = read_profile(buf, p1)?;
        if tag == 1 {
            return Ok((VelocityForwardingData::Default { address, profile }, p2));
        }
        assert(s.skip((p2 - pos) as int) =~= buf@.skip(p2 as int));
        let (key, p3) = MojangIdentifiedKey::decode(buf, p2)?;
        if tag == 2 {
            return Ok((VelocityForwardingData::ForwardingWithKey { address, profile, key }, p3));
        }
        let (holder, p4) = read_uuid(buf, p3)?;
        assert(s.subrange((p3 - pos) as int, (p3 - pos) + 16) =~= buf@.subrange(
            p3 as int,
            p3 + 16,
        ));
        Ok((VelocityForwardingData::ForwardingWithLinkedKey { address, profile, key, holder }, p4))
    }
}

/// Where a Velocity login stands.
#[derive(Debug, Clone, Copy, PartialEq, Eq, Structural)]
pub enum AuthClientState {
    ExpectingLoginStart,
    ExpectingModernForwarding,
}

/// The state of one Velocity login and the secret shared with the proxy.
#[derive(Debug)]
pub struct AuthClientContext {
    pub state: AuthClientState,
    pub secret_key: String,
}

impl AuthClientContext {
    /// A login that waits for its login start.
    pub fn new(secret_key: String) -> (r: AuthClientContext)
        ensures
            r.state == AuthClientState::ExpectingLoginStart,
            r.secret_key == secret_key,
    {
        AuthClientContext { state: AuthClientState::ExpectingLoginStart, secret_key }
    }
}

/// What a step of a Velocity login made of a packet.
#[derive(Debug)]
pub enum AuthFunctionResponse {
    LoginStartSuccess { key: Option<IdentifiedKey>, mojang_key: Option<MojangIdentifiedKey> },
    PluginMessageSuccess {
        address: String,
        profile: GameProfile,
        mojang_key: Option<MojangIdentifiedKey>,
    },
}

/// Why a Velocity login failed.
#[derive(Debug)]
pub enum VelocityAuthError {
    InvalidState,
    KeyExpired,
    KeyNotFound,
    KeyHolderNotFound,
    KeyError,
    TransportError(TransportError),
    RegistryError(RegistryError),
    MacError,
    DataMismatch(String),
}

impl VelocityAuthError {
    /// What the error says.
    pub open spec fn spec_message(&self) -> Seq<char> {
        match self {
            VelocityAuthError::InvalidState => "Invalid packet sent during login."@,
            VelocityAuthError::KeyExpired => "Player key expired."@,
            VelocityAuthError::KeyError => "Player key invalid."@,
            VelocityAuthError::TransportError(e) => "Transport error found! "@ + e.spec_message(),
            VelocityAuthError::RegistryError(e) => "Registry error found! "@ + registry_message(*e),
            VelocityAuthError::KeyNotFound => "Player key not found, but expected."@,
            VelocityAuthError::KeyHolderNotFound => "Player key holder not found."@,
            VelocityAuthError::MacError => "Mac error encountered: MAC tag mismatch"@,
            VelocityAuthError::DataMismatch(what) => "Data for `"@ + what@ + "` did not match."@,
        }
    }

    pub fn message(&self) -> (r: String)
        ensures
            r@ == self.spec_message(),
    {
        match self {
            VelocityAuthError::InvalidState => String::from_str("Invalid packet sent during login."),
            VelocityAuthError::KeyExpired => String::from_str("Player key expired."),
            VelocityAuthError::KeyError => String::from_str("Player key invalid."),
            VelocityAuthError::TransportError(e) => String::from_str("Transport error found! ").concat(
                e.message().as_str(),
            ),
            VelocityAuthError::RegistryError(e) => String::from_str("Registry error found! ").concat(
                e.message().as_str(),
            ),
            VelocityAuthError::KeyNotFound => String::from_str("Player key not found, but expected."),
            VelocityAuthError::KeyHolderNotFound => String::from_str("Player key holder not found."),
            VelocityAuthError::MacError => String::from_str("Mac error encountered: MAC tag mismatch"),
            VelocityAuthError::DataMismatch(what) => String::from_str("Data for `").concat(
                what.as_str(),
            ).concat("` did not match."),
        }
    }
}

/// The text of a registry error, as `RegistryError::message` gives it.
pub open spec fn registry_message(e: RegistryError) -> Seq<char> {
    match e {
        RegistryError::NoHandlerFound((v, id), _) => crate::registry::no_handler_text(v, id),
        RegistryError::DraxTransportError(t) => "Error found outside of handler, "@ + t.spec_message(),
    }
}

/// The request asking the proxy for the player's data.
pub open spec fn is_forwarding_request(p: LoginPluginRequest) -> bool {
    p.message_id == -1 && p.channel@ == "velocity:player_info"@ && p.data@ == seq![
        MODERN_FORWARDING_COMPATIBILITY,
    ]
}

/// The answer to a login start at time `now`: refused out of order or by the key checks;
/// otherwise the player's key and Mojang's form of it, the forwarding request to send, and the
/// login moves on to wait for the proxy's answer.
pub fn handle_login_start_at(
    ctx: &mut AuthClientContext,
    config: &AuthConfiguration,
    mojang_der: &[u8],
    login: LoginStart,
    now: Option<u128>,
) -> (r: Result<(AuthFunctionResponse, LoginPluginRequest), VelocityAuthError>)
    ensures
        final(ctx).secret_key == old(ctx).secret_key,
        old(ctx).state == AuthClientState::ExpectingModernForwarding ==> (r matches Err(
            VelocityAuthError::InvalidState,
        ) && final(ctx).state == old(ctx).state),
        old(ctx).state == AuthClientState::ExpectingLoginStart ==> exists|c: KeyCheck|
            #[trigger] key_check_holds(c, login, mojang_der@, config.force_key_authentication, now)
                && match c {
                KeyCheck::Accepted(key) => r matches Ok((response, request)) && response
                    == (AuthFunctionResponse::LoginStartSuccess { key, mojang_key: login.sig_data })
                    && is_forwarding_request(request) && final(ctx).state
                    == AuthClientState::ExpectingModernForwarding,
                KeyCheck::Expired => r matches Err(VelocityAuthError::KeyExpired),
                KeyCheck::NoHolder => r matches Err(VelocityAuthError::KeyHolderNotFound),
                KeyCheck::NoKey => r matches Err(VelocityAuthError::KeyNotFound),
                _ => r matches Err(VelocityAuthError::KeyError),
            } && (r is Err ==> final(ctx).state == old(ctx).state),
{
    if ctx.state == AuthClientState::ExpectingModernForwarding {
        return Err(VelocityAuthError::InvalidState);
    }
    let check = check_login_key_at(&login, mojang_der, config.force_key_authentication, now);
    let key = match check {
        KeyCheck::Accepted(key) => key,
        KeyCheck::Expired => {
            return Err(VelocityAuthError::KeyExpired);
        },
        KeyCheck::NoHolder => {
            return Err(VelocityAuthError::KeyHolderNotFound);
        },
        KeyCheck::NoKey => {
            return Err(VelocityAuthError::KeyNotFound);
        },
        _ => {
            return Err(VelocityAuthError::KeyError);
        },
    };
    let mut data: Vec<u8> = Vec::new();
    data.push(MODERN_FORWARDING_COMPATIBILITY);
    let request = LoginPluginRequest {
        message_id: -1,
        channel: String::from_str("velocity:player_info"),
        data,
    };
    ctx.state = AuthClientState::ExpectingModernForwarding;
    Ok((AuthFunctionResponse::LoginStartSuccess { key, mojang_key: login.sig_data }, request))
}

/// The answer to a login start now, by the system clock.
pub fn handle_login_start(
    ctx: &mut AuthClientContext,
    config: &AuthConfiguration,
    mojang_der: &[u8],
    login: LoginStart,
) -> (r: Result<(AuthFunctionResponse, LoginPluginRequest), VelocityAuthError>)
    ensures
        final(ctx).secret_key == old(ctx).secret_key,
        old(ctx).state == AuthClientState::ExpectingModernForwarding ==> (r matches Err(
            VelocityAuthError::InvalidState,
        ) && final(ctx).state == old(ctx).state),
        old(ctx).state == AuthClientState::ExpectingLoginStart ==> exists|now: Option<u128>, c: KeyCheck|
            #[trigger] key_check_holds(c, login, mojang_der@, config.force_key_authentication, now)
                && match c {
                KeyCheck::Accepted(key) => r matches Ok((response, request)) && response
                    == (AuthFunctionResponse::LoginStartSuccess { key, mojang_key: login.sig_data })
                    && is_forwarding_request(request) && final(ctx).state
                    == AuthClientState::ExpectingModernForwarding,
                KeyCheck::Expired => r matches Err(VelocityAuthError::KeyExpired),
                KeyCheck::NoHolder => r matches Err(VelocityAuthError::KeyHolderNotFound),
                KeyCheck::NoKey => r matches Err(VelocityAuthError::KeyNotFound),
                _ => r matches Err(VelocityAuthError::KeyError),
            } && (r is Err ==> final(ctx).state == old(ctx).state),
{
    let now = unix_time_nanos();
    handle_login_start_at(ctx, config, mojang_der, login, now)
}

/// The answer to the proxy's plugin response: refused out of order, when unsuccessful or
/// shorter than a tag and one byte, when the data after the 32-byte tag cannot be read, when
/// the tag is not the HMAC-SHA256 of that data under the shared secret, and for the illegal
/// variant; otherwise the forwarded address, profile and key.
pub fn handle_plugin_response(ctx: &AuthClientContext, response: LoginPluginResponse) -> (r: Result<
    AuthFunctionResponse,
    VelocityAuthError,
>)
    ensures
        ctx.state == AuthClientState::ExpectingLoginStart ==> r matches Err(
            VelocityAuthError::InvalidState,
        ),
        ctx.state == AuthClientState::ExpectingModernForwarding ==> if !response.successful
            || response.data@.len() < 33 {
            r matches Err(VelocityAuthError::InvalidState)
        } else {
            let signed = response.data@.skip(32);
            match spec_read_forwarding(signed) {
                Err(e) => r matches Err(VelocityAuthError::TransportError(err)) && err.kind() == e,
                Ok((v, _)) => if response.data@.subrange(0, 32) != hmac_sha256(
                    utf8_bytes(ctx.secret_key@),
                    signed,
                ) {
                    r matches Err(VelocityAuthError::MacError)
                } else {
                    match v {
                        ForwardingBytes::Illegal => r matches Err(VelocityAuthError::InvalidState),
                        ForwardingBytes::Default { address, profile } => r matches Ok(
                            AuthFunctionResponse::PluginMessageSuccess { address: a, profile: p, mojang_key: None },
                        ) && utf8_bytes(a@) == address && profile_is(p, profile),
                        ForwardingBytes::WithKey { address, profile, key } => r matches Ok(
                            AuthFunctionResponse::PluginMessageSuccess {
                                address: a,
                                profile: p,
                                mojang_key: Some(k),
                            },
                        ) && utf8_bytes(a@) == address && profile_is(p, profile) && mojang_key_is(k, key),
                        ForwardingBytes::WithLinkedKey { address, profile, key, .. } => r matches Ok(
                            AuthFunctionResponse::PluginMessageSuccess {
                                address: a,
                                profile: p,
                                mojang_key: Some(k),
                            },
                        ) && utf8_bytes(a@) == address && profile_is(p, profile) && mojang_key_is(k, key),
                    }
                }
            }
        },
{
    if ctx.state == AuthClientState::ExpectingLoginStart {
        return Err(VelocityAuthError::InvalidState);
    }
    if !response.successful || response.data.len() < 33 {
        return Err(VelocityAuthError::InvalidState);
    }
    let data = response.data.as_slice();
    let ghost signed = data@.skip(32);
    let mut tag: Vec<u8> = Vec::new();
    let mut remaining: Vec<u8> = Vec::new();
    let mut i: usize = 0;
    while i < data.len()
        invariant
            i <= data@.len(),
            data@.len() >= 33,
            i <= 32 ==> tag@ == data@.subrange(0, i as int) && remaining@.len() == 0,
            i > 32 ==> tag@ == data@.subrange(0, 32) && remaining@ == data@.subrange(32, i as int),
        decreases data@.len() - i,
    {
        if i < 32 {
            tag.push(data[i]);
        } else {
            remaining.push(data[i]);
        }
        i = i + 1;
    }
    assert(remaining@ =~= signed);
    let decoded = VelocityForwardingData::decode(remaining.as_slice(), 0);
    assert(remaining@.skip(0) =~= remaining@);
    let (forwarded, _) = match decoded {
        Ok(x) => x,
        Err(e) => {
            return Err(VelocityAuthError::TransportError(e));
        },
    };
    if !hmac_sha256_verify(ctx.secret_key.as_str().as_bytes(), remaining.as_slice(), tag.as_slice()) {
        return Err(VelocityAuthError::MacError);
    }
    match forwarded {
        VelocityForwardingData::__Illegal => Err(VelocityAuthError::InvalidState),
        VelocityForwardingData::Default { address, profile } => Ok(
            AuthFunctionResponse::PluginMessageSuccess { address, profile, mojang_key: None },
        ),
        VelocityForwardingData::ForwardingWithKey { address, profile, key } => Ok(
            AuthFunctionResponse::PluginMessageSuccess { address, profile, mojang_key: Some(key) },
        ),
        VelocityForwardingData::ForwardingWithLinkedKey { address, profile, key, .. } => Ok(
            AuthFunctionResponse::PluginMessageSuccess { address, profile, mojang_key: Some(key) },
        ),
    }
}

/// After the login start step: the player's key and Mojang's form of it; a plugin message in
/// its place is out of order.
pub fn expect_login_start(r: Result<AuthFunctionResponse, VelocityAuthError>) -> (out: Result<
    (Option<IdentifiedKey>, Option<MojangIdentifiedKey>),
    VelocityAuthError,
>)
    ensures
        match r {
            Ok(AuthFunctionResponse::LoginStartSuccess { key, mojang_key }) => out == Ok::<
                (Option<IdentifiedKey>, Option<MojangIdentifiedKey>),
                VelocityAuthError,
            >((key, mojang_key)),
            Ok(AuthFunctionResponse::PluginMessageSuccess { .. }) => out matches Err(
                VelocityAuthError::InvalidState,
            ),
            Err(e) => out == Err::<(Option<IdentifiedKey>, Option<MojangIdentifiedKey>), VelocityAuthError>(e),
        },
{
    match r {
        Ok(AuthFunctionResponse::LoginStartSuccess { key, mojang_key }) => Ok((key, mojang_key)),
        Ok(AuthFunctionResponse::PluginMessageSuccess { .. }) => Err(VelocityAuthError::InvalidState),
        Err(e) => Err(e),
    }
}

/// Whether two optional keys are both absent or the same key.
pub open spec fn same_key(a: Option<MojangIdentifiedKey>, b: Option<MojangIdentifiedKey>) -> bool {
    match (a, b) {
        (None, None) => true,
        (Some(x), Some(y)) => x.timestamp == y.timestamp && x.public_key@ == y.public_key@
            && x.signature@ == y.signature@,
        _ => false,
    }
}

/// After the plugin response step: the authenticated player, with the forwarded address, when
/// the key the proxy vouches for is the one announced at login start; a login start in its place
/// is out of order.
pub fn finish_forwarding(
    key: Option<IdentifiedKey>,
    mojang_key_init: Option<MojangIdentifiedKey>,
    r: Result<AuthFunctionResponse, VelocityAuthError>,
) -> (out: Result<AuthenticatedClient, VelocityAuthError>)
    ensures
        match r {
            Ok(AuthFunctionResponse::PluginMessageSuccess { address, profile, mojang_key }) => if same_key(
                mojang_key_init,
                mojang_key,
            ) {
                out == Ok::<AuthenticatedClient, VelocityAuthError>(
                    AuthenticatedClient {
                        profile,
                        key,
                        sig_holder: None,
                        mojang_key,
                        overridden_address: Some(address),
                    },
                )
            } else {
                out matches Err(VelocityAuthError::DataMismatch(what)) && what@ == "mojang_key"@
            },
            Ok(AuthFunctionResponse::LoginStartSuccess { .. }) => out matches Err(
                VelocityAuthError::InvalidState,
            ),
            Err(e) => out == Err::<AuthenticatedClient, VelocityAuthError>(e),
        },
{
    match r {
        Ok(AuthFunctionResponse::PluginMessageSuccess { address, profile, mojang_key }) => {
            let same = match (&mojang_key_init, &mojang_key) {
                (None, None) => true,
                (Some(x), Some(y)) => x.same_as(y),
                _ => false,
            };
            if !same {
                return Err(VelocityAuthError::DataMismatch(String::from_str("mojang_key")));
            }
            Ok(
                AuthenticatedClient {
                    profile,
                    key,
                    sig_holder: None,
                    mojang_key,
                    overridden_address: Some(address),
                },
            )
        },
        Ok(AuthFunctionResponse::LoginStartSuccess { .. }) => Err(VelocityAuthError::InvalidState),
        Err(e) => Err(e),
    }
}

} // verus!
