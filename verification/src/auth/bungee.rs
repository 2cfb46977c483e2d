//! Login behind a BungeeCord proxy with IP forwarding. The proxy puts the player's address, uuid
//! (without dashes) and profile properties into the handshake's server address, after the host
//! and separated by NUL characters. The steps: `parse_forwarded_address` reads those parts;
//! the driver reads the properties' JSON; `handle_login_start` checks the player's key; and
//! `finish_login` assembles the authenticated player.
use vstd::prelude::*;
use vstd::string::{StrSliceExecFns, StringExecFns};

use super::{check_login_key_at, key_check_holds, AuthenticatedClient, AuthConfiguration, KeyCheck};
use crate::auth::velocity::registry_message;
use crate::clientbound::play::{GameProfile, GameProfileProperty};
use crate::codec::TransportError;
use crate::crypto::{parse_uuid, unix_time_nanos, uuid_text_value};
use crate::protocol::login::{IdentifiedKey, LoginStart, MojangIdentifiedKey};
use crate::registry::RegistryError;

verus! {

/// The position of the first NUL character of `s` at or after `i`, or the length of `s`.
pub open spec fn first_nul_from(s: Seq<char>, i: int) -> int
    decreases s.len() - i,
{
    if i >= s.len() {
        s.len() as int
    } else if s[i] == '\0' {
        i
    } else {
        first_nul_from(s, i + 1)
    }
}

pub proof fn lemma_first_nul_range(s: Seq<char>, i: int)
    requires
        0 <= i,
    ensures
        i <= first_nul_from(s, i) || i > s.len(),
        first_nul_from(s, i) <= s.len(),
        0 <= first_nul_from(s, i),
    decreases s.len() - i,
{
    if i < s.len() && s[i] != '\0' {
        lemma_first_nul_range(s, i + 1);
    }
}

/// The parts of `s` between NUL characters, as `str::split` gives them.
pub open spec fn split_nul(s: Seq<char>) -> Seq<Seq<char>>
    decreases s.len(),
{
    let i = first_nul_from(s, 0);
    if i >= s.len() {
        seq![s]
    } else {
        proof {
            lemma_first_nul_range(s, 0);
        }
        seq![s.take(i)] + split_nul(s.skip(i + 1))
    }
}

/// The position of the first NUL character of `s`, or its length `len`.
fn find_nul(s: &str, len: usize) -> (r: usize)
    requires
        len == s@.len(),
    ensures
        r == first_nul_from(s@, 0),
{
    let mut i: usize = 0;
    while i < len
        invariant
            i <= len,
            len == s@.len(),
            first_nul_from(s@, i as int) == first_nul_from(s@, 0),
        decreases len - i,
    {
        if s.get_char(i) == '\0' {
            return i;
        }
        i = i + 1;
    }
    i
}

/// The parts of `s` between NUL characters.
pub fn split_nul_parts(s: &str) -> (r: Vec<String>)
    ensures
        r@.len() == split_nul(s@).len(),
        forall|k: int| 0 <= k < r@.len() ==> #[trigger] r@[k]@ == split_nul(s@)[k],
    decreases s@.len(),
{
    let len = s.unicode_len();
    let i = find_nul(s, len);
    proof {
        lemma_first_nul_range(s@, 0);
    }
    let mut parts: Vec<String> = Vec::new();
    if i >= len {
        parts.push(String::from_str(s));
        return parts;
    }
    parts.push(String::from_str(s.substring_char(0, i)));
    let tail = s.substring_char(i + 1, len);
    let mut rest = split_nul_parts(tail);
    parts.append(&mut rest);
    proof {
        assert(s@.take(i as int) =~= s@.subrange(0, i as int));
        assert(s@.skip(i + 1) =~= s@.subrange(i + 1, len as int));
    }
    parts
}

/// Why a BungeeCord login failed.
#[derive(Debug)]
pub enum BungeeAuthError {
    InvalidState,
    KeyExpired,
    KeyNotFound,
    KeyHolderNotFound,
    KeyError,
    TransportError(TransportError),
    RegistryError(RegistryError),
    MacError,
    DataMismatch(String),
}

impl BungeeAuthError {
    /// What the error says.
    pub open spec fn spec_message(&self) -> Seq<char> {
        match self {
            BungeeAuthError::InvalidState => "Invalid packet sent during login."@,
            BungeeAuthError::KeyExpired => "Player key expired."@,
            BungeeAuthError::KeyError => "Player key invalid."@,
            BungeeAuthError::TransportError(e) => "Transport error found! "@ + e.spec_message(),
            BungeeAuthError::RegistryError(e) => "Registry error found! "@ + registry_message(*e),
            BungeeAuthError::KeyNotFound => "Player key not found, but expected."@,
            BungeeAuthError::KeyHolderNotFound => "Player key holder not found."@,
            BungeeAuthError::MacError => "Mac error encountered: MAC tag mismatch"@,
            BungeeAuthError::DataMismatch(what) => "Data for `"@ + what@ + "` did not match."@,
        }
    }

    pub fn message(&self) -> (r: String)
        ensures
            r@ == self.spec_message(),
    {
        match self {
            BungeeAuthError::InvalidState => String::from_str("Invalid packet sent during login."),
            BungeeAuthError::KeyExpired => String::from_str("Player key expired."),
            BungeeAuthError::KeyError => String::from_str("Player key invalid."),
            BungeeAuthError::TransportError(e) => String::from_str("Transport error found! ").concat(
                e.message().as_str(),
            ),
            BungeeAuthError::RegistryError(e) => String::from_str("Registry error found! ").concat(
                e.message().as_str(),
            ),
            BungeeAuthError::KeyNotFound => String::from_str("Player key not found, but expected."),
            BungeeAuthError::KeyHolderNotFound => String::from_str("Player key holder not found."),
            BungeeAuthError::MacError => String::from_str("Mac error encountered: MAC tag mismatch"),
            BungeeAuthError::DataMismatch(what) => String::from_str("Data for `").concat(
                what.as_str(),
            ).concat("` did not match."),
        }
    }
}

/// What the proxy forwarded in the handshake's address: the player's address, uuid and the
/// JSON text of their profile properties.
#[derive(Debug)]
pub struct ForwardedAddress {
    pub address: String,
    pub id: u128,
    pub properties: String,
}

/// Reads the forwarded parts of a handshake's server address: after the host, the address, the
/// uuid and the properties' JSON, NUL-separated. A missing part is a mismatch named after it,
/// as is a uuid that does not parse.
pub fn parse_forwarded_address(server_address: &str) -> (r: Result<ForwardedAddress, BungeeAuthError>)
    ensures
        ({
            let parts = split_nul(server_address@);
            if parts.len() < 2 {
                r matches Err(BungeeAuthError::DataMismatch(what)) && what@ == "address"@
            } else if parts.len() < 3 {
                r matches Err(BungeeAuthError::DataMismatch(what)) && what@ == "undashed_id"@
            } else if parts.len() < 4 {
                r matches Err(BungeeAuthError::DataMismatch(what)) && what@ == "properties_str"@
            } else {
                match uuid_text_value(parts[2]) {
                    None => r matches Err(BungeeAuthError::DataMismatch(what)) && what@ == "uuid"@,
                    Some(id) => r matches Ok(f) && f.address@ == parts[1] && f.id == id
                        && f.properties@ == parts[3],
                }
            }
        }),
{
    let mut parts = split_nul_parts(server_address);
    if parts.len() < 2 {
        return Err(BungeeAuthError::DataMismatch(String::from_str("address")));
    }
    if parts.len() < 3 {
        return Err(BungeeAuthError::DataMismatch(String::from_str("undashed_id")));
    }
    if parts.len() < 4 {
        return Err(BungeeAuthError::DataMismatch(String::from_str("properties_str")));
    }
    let id = match parse_uuid(parts[2].as_str()) {
        Some(id) => id,
        None => {
            return Err(BungeeAuthError::DataMismatch(String::from_str("uuid")));
        },
    };
    let ghost before = parts@;
    let properties = parts.remove(3);
    let address = parts.remove(1);
    assert(address@ == before[1]@);
    Ok(ForwardedAddress { address, id, properties })
}

/// What the login start step of a BungeeCord login found.
#[derive(Debug)]
pub enum AuthFunctionResponse {
    LoginStartSuccess {
        key: Option<IdentifiedKey>,
        sig_holder: Option<u128>,
        mojang_key: Option<MojangIdentifiedKey>,
        name: String,
    },
}

/// The answer to a login start at time `now`: the key checks' refusal, or the player's key,
/// holder, Mojang's form of the key and name.
pub fn handle_login_start_at(
    config: &AuthConfiguration,
    mojang_der: &[u8],
    login: LoginStart,
    now: Option<u128>,
) -> (r: Result<AuthFunctionResponse, BungeeAuthError>)
    ensures
        exists|c: KeyCheck|
            #[trigger] key_check_holds(c, login, mojang_der@, config.force_key_authentication, now)
                && match c {
                KeyCheck::Accepted(key) => r == Ok::<AuthFunctionResponse, BungeeAuthError>(
                    AuthFunctionResponse::LoginStartSuccess {
                        key,
                        sig_holder: login.sig_holder,
                        mojang_key: login.sig_data,
                        name: login.name,
                    },
                ),
                KeyCheck::Expired => r matches Err(BungeeAuthError::KeyExpired),
                KeyCheck::NoHolder => r matches Err(BungeeAuthError::KeyHolderNotFound),
                KeyCheck::NoKey => r matches Err(BungeeAuthError::KeyNotFound),
                _ => r matches Err(BungeeAuthError::KeyError),
            },
{
    let check = check_login_key_at(&login, mojang_der, config.force_key_authentication, now);
    let key = match check {
        KeyCheck::Accepted(key) => key,
        KeyCheck::Expired => {
            return Err(BungeeAuthError::KeyExpired);
        },
        KeyCheck::NoHolder => {
            return Err(BungeeAuthError::KeyHolderNotFound);
        },
        KeyCheck::NoKey => {
            return Err(BungeeAuthError::KeyNotFound);
        },
        _ => {
            return Err(BungeeAuthError::KeyError);
        },
    };
    Ok(
        AuthFunctionResponse::LoginStartSuccess {
            key,
            sig_holder: login.sig_holder,
            mojang_key: login.sig_data,
            name: login.name,
        },
    )
}

/// The answer to a login start now, by the system clock.
pub fn handle_login_start(config: &AuthConfiguration, mojang_der: &[u8], login: LoginStart) -> (r: Result<
    AuthFunctionResponse,
    BungeeAuthError,
>)
    ensures
        exists|now: Option<u128>, c: KeyCheck|
            #[trigger] key_check_holds(c, login, mojang_der@, config.force_key_authentication, now)
                && match c {
                KeyCheck::Accepted(key) => r == Ok::<AuthFunctionResponse, BungeeAuthError>(
                    AuthFunctionResponse::LoginStartSuccess {
                        key,
                        sig_holder: login.sig_holder,
                        mojang_key: login.sig_data,
                        name: login.name,
                    },
                ),
                KeyCheck::Expired => r matches Err(BungeeAuthError::KeyExpired),
                KeyCheck::NoHolder => r matches Err(BungeeAuthError::KeyHolderNotFound),
                KeyCheck::NoKey => r matches Err(BungeeAuthError::KeyNotFound),
                _ => r matches Err(BungeeAuthError::KeyError),
            },
{
    let now = unix_time_nanos();
    handle_login_start_at(config, mojang_der, login, now)
}

/// The authenticated player: the forwarded uuid, the name from the login start and the
/// forwarded properties, with the key, its holder, Mojang's form of it and the forwarded
/// address; a failed login start passes its error on.
pub fn finish_login(
    forwarded: ForwardedAddress,
    properties: Vec<GameProfileProperty>,
    r: Result<AuthFunctionResponse, BungeeAuthError>,
) -> (out: Result<AuthenticatedClient, BungeeAuthError>)
    ensures
        match r {
            Ok(AuthFunctionResponse::LoginStartSuccess { key, sig_holder, mojang_key, name }) => out
                == Ok::<AuthenticatedClient, BungeeAuthError>(
                AuthenticatedClient {
                    profile: GameProfile { id: forwarded.id, name, properties },
                    key,
                    sig_holder,
                    mojang_key,
                    overridden_address: Some(forwarded.address),
                },
            ),
            Err(e) => out == Err::<AuthenticatedClient, BungeeAuthError>(e),
        },
{
    match r {
        Ok(AuthFunctionResponse::LoginStartSuccess { key, sig_holder, mojang_key, name }) => Ok(
            AuthenticatedClient {
                profile: GameProfile { id: forwarded.id, name, properties },
                key,
                sig_holder,
                mojang_key,
                overridden_address: Some(forwarded.address),
            },
        ),
        Err(e) => Err(e),
    }
}

} // verus!
