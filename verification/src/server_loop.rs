//! The decisions of the server's accept loop: how a new connection's handshake is read, where
//! the connection goes after it, and which outcomes of a status exchange count as failures.
use vstd::prelude::*;

use crate::auth::AuthConfiguration;
use crate::codec::TransportError;
use crate::protocol::handshake::{NextState, SERVER_ADDRESS_LIMIT};
use crate::registry::RegistryError;

verus! {

/// How players are authenticated: by Mojang's session service, or trusted from a BungeeCord or
/// Velocity proxy (the latter with the secret shared with the proxy).
#[derive(Debug)]
pub enum IncomingAuthenticationOption {
    MOJANG,
    BUNGEE,
    VELOCITY { secret_key: String },
}

/// The server's settings as configured.
#[derive(Debug)]
pub struct BaseConfiguration {
    pub auth_option: IncomingAuthenticationOption,
    pub compression_threshold: isize,
    pub force_key_authentication: bool,
    pub auth_url: Option<String>,
}

impl BaseConfiguration {
    /// The authentication settings for the server key `server_private_key` (PKCS#8 DER), with
    /// the way players are authenticated; none when the key is unreadable.
    pub fn into_auth(self, server_private_key: Vec<u8>) -> (r: Option<(AuthConfiguration, IncomingAuthenticationOption)>)
        ensures
            r is Some <==> crate::crypto::public_der_of(server_private_key@) is Some,
            r matches Some((c, option)) ==> {
                &&& c.server_private_key@ == server_private_key@
                &&& crate::crypto::public_der_of(server_private_key@) == Some(c.server_public_key@)
                &&& c.compression_threshold == self.compression_threshold
                &&& c.force_key_authentication == self.force_key_authentication
                &&& c.auth_url == self.auth_url
                &&& option == self.auth_option
            },
    {
        match AuthConfiguration::new(
            server_private_key,
            self.compression_threshold,
            self.force_key_authentication,
            self.auth_url,
        ) {
            Some(c) => Some((c, self.auth_option)),
            None => None,
        }
    }
}

/// The longest server address a handshake may carry: a BungeeCord proxy forwards the player's
/// data in it, so there it is not limited.
pub fn handshake_address_limit(option: &IncomingAuthenticationOption) -> (r: i32)
    ensures
        option is BUNGEE ==> r == i32::MAX,
        !(option is BUNGEE) ==> r == SERVER_ADDRESS_LIMIT,
{
    match option {
        IncomingAuthenticationOption::BUNGEE => i32::MAX,
        _ => SERVER_ADDRESS_LIMIT,
    }
}

/// Where a connection goes after its handshake.
#[derive(Debug)]
pub enum ClientRoute {
    Status,
    MojangLogin,
    BungeeLogin,
    VelocityLogin { secret_key: String },
    Close,
}

/// A status client is answered; a login is authenticated the configured way; a connection
/// asking for the handshaking phase again is closed.
pub fn route_client(option: &IncomingAuthenticationOption, next_state: NextState) -> (r: ClientRoute)
    ensures
        next_state == NextState::Status ==> r is Status,
        next_state == NextState::Handshaking ==> r is Close,
        next_state == NextState::Login ==> match option {
            IncomingAuthenticationOption::MOJANG => r is MojangLogin,
            IncomingAuthenticationOption::BUNGEE => r is BungeeLogin,
            IncomingAuthenticationOption::VELOCITY { secret_key } => r matches ClientRoute::VelocityLogin {
                secret_key: s,
            } && s@ == secret_key@,
        },
{
    match next_state {
        NextState::Status => ClientRoute::Status,
        NextState::Login => match option {
            IncomingAuthenticationOption::MOJANG => ClientRoute::MojangLogin,
            IncomingAuthenticationOption::BUNGEE => ClientRoute::BungeeLogin,
            IncomingAuthenticationOption::VELOCITY { secret_key } => ClientRoute::VelocityLogin {
                secret_key: secret_key.clone(),
            },
        },
        NextState::Handshaking => ClientRoute::Close,
    }
}

/// The outcome of a status exchange: a client that hangs up (the input ends) is no failure.
pub fn status_result(res: Result<(), RegistryError>) -> (r: Result<(), RegistryError>)
    ensures
        res matches Err(RegistryError::DraxTransportError(TransportError::EndOfInput)) ==> r is Ok,
        !(res matches Err(RegistryError::DraxTransportError(TransportError::EndOfInput))) ==> r
            == res,
{
    match res {
        Err(RegistryError::DraxTransportError(TransportError::EndOfInput)) => Ok(()),
        other => other,
    }
}

} // verus!
