//! The values of a server's status as its list entry shows them; the driver writes them as
//! JSON.
use vstd::prelude::*;

use crate::common::chat::Chat;

verus! {

/// One player in the sample of who is online.
#[derive(Debug, Clone)]
pub struct Player {
    pub id: String,
    pub name: String,
}

/// The player counts, with a sample of who is online.
#[derive(Debug, Clone)]
pub struct StatusPlayers {
    pub max: isize,
    pub online: isize,
    pub sample: Vec<Player>,
}

/// The server's version: its name and protocol number.
#[derive(Debug, Clone)]
pub struct StatusVersion {
    pub name: String,
    pub protocol: i32,
}

/// The server's status: its description, players, version, icon and whether it enforces
/// secure chat.
#[derive(Debug)]
pub struct StatusResponse {
    pub description: Chat,
    pub players: StatusPlayers,
    pub version: StatusVersion,
    pub favicon: Option<String>,
    pub enforces_secure_chat: Option<bool>,
}

} // verus!
