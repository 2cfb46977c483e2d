//! Authentication of a player at login: the server's settings, the checks of the key a player
//! announces, and the message a refused player is shown. The three ways of logging in (Mojang's
//! session service, BungeeCord forwarding and Velocity forwarding) each have a module; each is a
//! sequence of steps that the connection's driver runs between reading and writing packets.
pub mod bungee;
pub mod mojang;
pub mod velocity;

use vstd::prelude::*;
use vstd::string::StringExecFns;

use crate::clientbound::play::GameProfile;
use crate::common::chat::{BaseChat, Chat, Style};
use crate::crypto::{
    check_public_key_der, public_der_of, public_key_der_of, public_key_der_valid, sha1_digest,
    unix_time_nanos,
};
use crate::protocol::login::{IdentifiedKey, LoginStart, MojangIdentifiedKey};

verus! {

/// The server's side of authentication.
#[derive(Debug)]
pub struct AuthConfiguration {
    /// The server's RSA private key, PKCS#8 DER.
    pub server_private_key: Vec<u8>,
    /// Its public half, DER, as sent in the encryption request.
    pub server_public_key: Vec<u8>,
    /// Packets from this size up are compressed; a negative threshold turns compression off.
    pub compression_threshold: isize,
    /// Whether a player must announce a signed key.
    pub force_key_authentication: bool,
    /// The session server to ask, when it is not Mojang's.
    pub auth_url: Option<String>,
}

impl AuthConfiguration {
    /// The settings for a server key, with the key's public half derived from it; none when the
    /// bytes are no private key.
    pub fn new(
        server_private_key: Vec<u8>,
        compression_threshold: isize,
        force_key_authentication: bool,
        auth_url: Option<String>,
    ) -> (r: Option<AuthConfiguration>)
        ensures
            r is Some <==> public_der_of(server_private_key@) is Some,
            r matches Some(c) ==> {
                &&& c.server_private_key@ == server_private_key@
                &&& public_der_of(server_private_key@) == Some(c.server_public_key@)
                &&& c.compression_threshold == compression_threshold
                &&& c.force_key_authentication == force_key_authentication
                &&& c.auth_url == auth_url
            },
    {
        match public_key_der_of(server_private_key.as_slice()) {
            Some(server_public_key) => Some(
                AuthConfiguration {
                    server_private_key,
                    server_public_key,
                    compression_threshold,
                    force_key_authentication,
                    auth_url,
                },
            ),
            None => None,
        }
    }
}

/// A player who passed authentication: their profile, their key if they announced one, the
/// holder the key was announced for, Mojang's signed form of it, and the address a proxy
/// forwarded.
#[derive(Debug)]
pub struct AuthenticatedClient {
    pub profile: GameProfile,
    pub key: Option<IdentifiedKey>,
    pub sig_holder: Option<u128>,
    pub mojang_key: Option<MojangIdentifiedKey>,
    pub overridden_address: Option<String>,
}

/// What the checks of the key announced in a login start found.
#[derive(Debug)]
pub enum KeyCheck {
    /// The key, if any was announced, passed every check.
    Accepted(Option<IdentifiedKey>),
    /// The key's expiry has passed.
    Expired,
    /// A key came without the uuid of its holder.
    NoHolder,
    /// No key came, but the server requires one.
    NoKey,
    /// The Mojang key the signature is checked under is unreadable.
    MojangKeyInvalid,
    /// Mojang's signature over the key does not check out.
    SignatureInvalid,
    /// The announced public key is unreadable.
    PublicKeyInvalid,
}

/// The outcome of the key checks, with `now` the time they are made at: a key with a holder is
/// refused, in this order, when expired, when the Mojang key is unreadable, when Mojang's
/// signature fails and when the key itself is unreadable; a key without a holder is refused; no
/// key at all is refused only when keys are required.
pub open spec fn key_check_holds(
    r: KeyCheck,
    login: LoginStart,
    mojang_der: Seq<u8>,
    force: bool,
    now: Option<u128>,
) -> bool {
    match login.sig_data {
        Some(d) => match login.sig_holder {
            Some(h) => if d.spec_expired_at(now) {
                r is Expired
            } else if !public_key_der_valid(mojang_der) {
                r is MojangKeyInvalid
            } else if !d.spec_incoming_valid(mojang_der, h) {
                r is SignatureInvalid
            } else if !public_key_der_valid(d.public_key@) {
                r is PublicKeyInvalid
            } else {
                r matches KeyCheck::Accepted(Some(k)) && k.der() == d.public_key@
            },
            None => r is NoHolder,
        },
        None => if force {
            r is NoKey
        } else {
            r matches KeyCheck::Accepted(None)
        },
    }
}

/// Checks the key announced in `login` at the time `now`, with `mojang_der` the Mojang session
/// key and `force` whether a key is required.
pub fn check_login_key_at(login: &LoginStart, mojang_der: &[u8], force: bool, now: Option<u128>) -> (r: KeyCheck)
    ensures
        key_check_holds(r, *login, mojang_der@, force, now),
{
    match &login.sig_data {
        Some(sig_data) => match login.sig_holder {
            Some(holder) => {
                if sig_data.has_expired_at(now) {
                    return KeyCheck::Expired;
                }
                if !check_public_key_der(mojang_der) {
                    return KeyCheck::MojangKeyInvalid;
                }
                if !sig_data.verify_incoming_data(mojang_der, holder) {
                    return KeyCheck::SignatureInvalid;
                }
                match IdentifiedKey::new(sig_data.public_key.as_slice()) {
                    Ok(key) => KeyCheck::Accepted(Some(key)),
                    Err(_) => KeyCheck::PublicKeyInvalid,
                }
            },
            None => KeyCheck::NoHolder,
        },
        None => {
            if force {
                KeyCheck::NoKey
            } else {
                KeyCheck::Accepted(None)
            }
        },
    }
}

/// Checks the key announced in `login` now, by the system clock.
pub fn check_login_key(login: &LoginStart, mojang_der: &[u8], force: bool) -> (r: KeyCheck)
    ensures
        exists|now: Option<u128>| #[trigger] key_check_holds(r, *login, mojang_der@, force, now),
{
    let now = unix_time_nanos();
    check_login_key_at(login, mojang_der, force, now)
}

/// The message a refused player is shown: an empty text component whose children are the red
/// text "Failed to login: " and the reason.
pub open spec fn is_login_failure_chat(c: Chat, reason: Seq<char>) -> bool {
    match c {
        Chat::Text { text, base } => {
            &&& text@ == ""@
            &&& base.style == Style::empty()
            &&& base.click_event is None
            &&& base.hover_event is None
            &&& base.extra matches Some(v)
            &&& v@.len() == 2
            &&& is_failure_prompt(v@[0])
            &&& v@[1] matches Chat::Literal(l)
            &&& l@ == reason
        },
        _ => false,
    }
}

/// The red text "Failed to login: ", without children or events.
pub open spec fn is_failure_prompt(c: Chat) -> bool {
    match c {
        Chat::Text { text, base } => {
            &&& text@ == "Failed to login: "@
            &&& base.extra is None
            &&& base.click_event is None
            &&& base.hover_event is None
            &&& base.style.color matches Some(color)
            &&& color@ == "#FF0000"@
            &&& base.style == (Style { color: base.style.color, ..Style::empty() })
        },
        _ => false,
    }
}

/// The message a refused player is shown, with `reason` the error's text.
pub fn login_failure_message(reason: String) -> (r: Chat)
    ensures
        is_login_failure_chat(r, reason@),
{
    let mut prompt_style = Style::default();
    prompt_style.color = Some(String::from_str("#FF0000"));
    let prompt = Chat::Text {
        text: String::from_str("Failed to login: "),
        base: BaseChat {
            extra: None,
            style: prompt_style,
            click_event: None,
            hover_event: None,
        },
    };
    let mut children: Vec<Chat> = Vec::new();
    children.push(prompt);
    children.push(Chat::Literal(reason));
    Chat::Text {
        text: String::from_str(""),
        base: BaseChat {
            extra: Some(children),
            style: Style::default(),
            click_event: None,
            hover_event: None,
        },
    }
}

} // verus!
