//! Play-state values of the earlier protocol layout: relative-movement masks, identifiers,
//! game types and the player abilities bit map.
pub mod cb;
pub mod sb;

use vstd::prelude::*;
use vstd::string::StringExecFns;

use crate::codec::{TransportError, ErrorKind};

pub use crate::common::play::BlockPos;

verus! {

/// `ceil(log2(n))`; zero for `n <= 0` (see `common::play::ceil_log_2`).
pub fn ceil_log_2(n: i32) -> (r: i32)
    requires
        i32::MIN < n <= 0x4000_0000,
    ensures
        r == crate::common::play::spec_ceil_log2(n as int),
{
    crate::common::play::ceil_log_2(n)
}

/// Which of a teleport's coordinates are relative to the current position, one bit each.
#[derive(Debug, Default)]
pub struct RelativeArgument {
    pub current_mask: u8,
}

impl RelativeArgument {
    pub const X: u8 = 1;

    pub const Y: u8 = 2;

    pub const Z: u8 = 4;

    pub const Y_ROT: u8 = 8;

    pub const X_ROT: u8 = 16;

    pub fn from_mask(current_mask: u8) -> (r: Self)
        ensures
            r.current_mask == current_mask,
    {
        RelativeArgument { current_mask }
    }

    /// Sets every bit of `value`.
    pub fn set(&mut self, value: u8)
        ensures
            final(self).current_mask == old(self).current_mask | value,
    {
        self.current_mask = self.current_mask | value;
    }

    /// Whether every bit of `value` is set.
    pub fn is_set(&self, value: u8) -> (r: bool)
        ensures
            r == ((self.current_mask & value) == value),
    {
        (self.current_mask & value) == value
    }
}

/// After `set(v)`, `is_set(v)` holds, and every bit that was set stays set.
pub proof fn law_relative_argument_set_then_is_set(mask: u8, v: u8, w: u8)
    ensures
        ((mask | v) & v) == v,
        (mask & w) == w ==> ((mask | v) & w) == w,
{
    assert(((mask | v) & v) == v) by (bit_vector);
    assert((mask & w) == w ==> ((mask | v) & w) == w) by (bit_vector);
}

/// A namespaced identifier.
#[derive(Debug)]
pub struct Identifier {
    pub data: String,
}

impl Identifier {
    /// `data` in the `minecraft` namespace.
    pub fn new(data: String) -> (r: Identifier)
        ensures
            r.data@ == "minecraft:"@ + data@,
    {
        Identifier { data: String::from_str("minecraft:").concat(data.as_str()) }
    }
}

/// A player's game mode; `Unset` stands for "no previous mode".
#[derive(Debug, Clone, Copy, PartialEq, Eq, Structural)]
pub enum GameType {
    Survival,
    Creative,
    Adventure,
    Spectator,
    Unset,
}

impl GameType {
    /// The byte that stands for the mode on the wire.
    pub open spec fn spec_key(self) -> u8 {
        match self {
            GameType::Survival => 0,
            GameType::Creative => 1,
            GameType::Adventure => 2,
            GameType::Spectator => 3,
            GameType::Unset => 255,
        }
    }

    /// The mode a byte stands for, if any.
    pub open spec fn spec_from_key(b: u8) -> Option<GameType> {
        if b == 0 {
            Some(GameType::Survival)
        } else if b == 1 {
            Some(GameType::Creative)
        } else if b == 2 {
            Some(GameType::Adventure)
        } else if b == 3 {
            Some(GameType::Spectator)
        } else if b == 255 {
            Some(GameType::Unset)
        } else {
            None
        }
    }

    /// Appends the mode's byte.
    pub fn encode(&self, out: &mut Vec<u8>)
        ensures
            final(out)@ == old(out)@.push(self.spec_key()),
    {
        let b: u8 = match self {
            GameType::Survival => 0,
            GameType::Creative => 1,
            GameType::Adventure => 2,
            GameType::Spectator => 3,
            GameType::Unset => 255,
        };
        out.push(b);
    }

    /// Reads a mode's byte; a byte that stands for no mode is refused.
    pub fn decode(buf: &[u8], pos: usize) -> (r: Result<(GameType, usize), TransportError>)
        requires
            pos <= buf@.len(),
        ensures
            pos >= buf@.len() ==> r == Err::<(GameType, usize), TransportError>(
                TransportError::EndOfInput,
            ),
            pos < buf@.len() ==> match GameType::spec_from_key(buf@[pos as int]) {
                Some(g) => r == Ok::<(GameType, usize), TransportError>((g, (pos + 1) as usize)),
                None => r is Err && r->Err_0.kind() is Explain,
            },
    {
        if pos >= buf.len() {
            return Err(TransportError::EndOfInput);
        }
        match buf[pos] {
            0 => Ok((GameType::Survival, pos + 1)),
            1 => Ok((GameType::Creative, pos + 1)),
            2 => Ok((GameType::Adventure, pos + 1)),
            3 => Ok((GameType::Spectator, pos + 1)),
            255 => Ok((GameType::Unset, pos + 1)),
            _ => Err(TransportError::Explain(String::from_str("Invalid game type key"))),
        }
    }
}

/// Every mode reads back from its byte.
pub proof fn law_game_type_roundtrip(g: GameType)
    ensures
        GameType::spec_from_key(g.spec_key()) == Some(g),
{
}

/// The abilities of a player, one bit each of a byte, in field order from the lowest bit.
#[derive(Debug, Clone, Copy, PartialEq, Eq, Structural)]
pub struct PlayerAbilitiesBitMap {
    pub invulnerable: bool,
    pub flying: bool,
    pub can_fly: bool,
    pub instant_build: bool,
}

impl PlayerAbilitiesBitMap {
    /// The byte of the bit map.
    pub open spec fn spec_bits(self) -> u8 {
        ((if self.invulnerable { 1u8 } else { 0u8 }) | (if self.flying { 2u8 } else { 0u8 }) | (
        if self.can_fly { 4u8 } else { 0u8 }) | (if self.instant_build { 8u8 } else { 0u8 }))
    }

    /// The bit map a byte holds; the high four bits are ignored.
    pub open spec fn spec_from_bits(b: u8) -> PlayerAbilitiesBitMap {
        PlayerAbilitiesBitMap {
            invulnerable: b & 1 != 0,
            flying: b & 2 != 0,
            can_fly: b & 4 != 0,
            instant_build: b & 8 != 0,
        }
    }

    /// Appends the bit map's byte.
    pub fn encode(&self, out: &mut Vec<u8>)
        ensures
            final(out)@ == old(out)@.push(self.spec_bits()),
    {
        let b: u8 = (if self.invulnerable {
            1u8
        } else {
            0u8
        }) | (if self.flying {
            2u8
        } else {
            0u8
        }) | (if self.can_fly {
            4u8
        } else {
            0u8
        }) | (if self.instant_build {
            8u8
        } else {
            0u8
        });
        out.push(b);
    }

    /// Reads the bit map's byte.
    pub fn decode(buf: &[u8], pos: usize) -> (r: Result<(PlayerAbilitiesBitMap, usize), TransportError>)
        requires
            pos <= buf@.len(),
        ensures
            pos >= buf@.len() ==> r == Err::<(PlayerAbilitiesBitMap, usize), TransportError>(
                TransportError::EndOfInput,
            ),
            pos < buf@.len() ==> r == Ok::<(PlayerAbilitiesBitMap, usize), TransportError>(
                (PlayerAbilitiesBitMap::spec_from_bits(buf@[pos as int]), (pos + 1) as usize),
            ),
    {
        if pos >= buf.len() {
            return Err(TransportError::EndOfInput);
        }
        let b = buf[pos];
        Ok((
            PlayerAbilitiesBitMap {
                invulnerable: b & 1 != 0,
                flying: b & 2 != 0,
                can_fly: b & 4 != 0,
                instant_build: b & 8 != 0,
            },
            pos + 1,
        ))
    }
}

/// A bit map reads back from its byte.
pub proof fn law_abilities_roundtrip(m: PlayerAbilitiesBitMap)
    ensures
        PlayerAbilitiesBitMap::spec_from_bits(m.spec_bits()) == m,
{
    let (a, b, c, d) = (m.invulnerable, m.flying, m.can_fly, m.instant_build);
    assert(({
        let x = ((if a { 1u8 } else { 0u8 }) | (if b { 2u8 } else { 0u8 }) | (if c { 4u8 } else { 0u8 })
            | (if d { 8u8 } else { 0u8 }));
        (x & 1 != 0) == a && (x & 2 != 0) == b && (x & 4 != 0) == c && (x & 8 != 0) == d
    })) by (bit_vector);
}


/// The protocol's byte for each game mode: 0 survival, 1 creative, 2 adventure, 3 spectator,
/// 255 for no mode; each is written as that byte and read back from it.
pub proof fn law_game_type_wire_bytes(g: GameType)
    ensures
        ({
            let b: u8 = match g {
                GameType::Survival => 0u8,
                GameType::Creative => 1u8,
                GameType::Adventure => 2u8,
                GameType::Spectator => 3u8,
                GameType::Unset => 255u8,
            };
            g.spec_key() == b && GameType::spec_from_key(b) == Some(g)
        }),
{
}

} // verus!
