//! Serverbound play packets whose bodies are plain fields in order: bytes, booleans,
//! big-endian integers, strings (a VarInt byte length, then UTF-8), packed block positions and
//! trailing raw data.
use vstd::prelude::*;

use crate::codec::{
    be_bytes, be_value, lemma_be_roundtrip, lemma_be_value_bound, pow256, read_be, spec_bool, write_be, write_bool,
    ErrorKind, TransportError,
};
use crate::clientbound::play::STRING_DEFAULT_CAP;
use crate::codec::{law_string_roundtrip, read_string, spec_read_string, spec_string, utf8_bytes, write_string};
use crate::common::play::{spec_pack_block_pos, spec_unpack_block_pos, BlockPos};
use crate::encoding::append_bytes;
use crate::protocol::play::Identifier;
use crate::protocol::status::{law_time_roundtrip, spec_read_time, spec_time};

verus! {

/// Reads one byte at `pos`.
pub(crate) fn read_u8(buf: &[u8], pos: usize) -> (r: Result<(u8, usize), TransportError>)
    requires
        pos <= buf@.len(),
    ensures
        pos >= buf@.len() ==> r == Err::<(u8, usize), TransportError>(TransportError::EndOfInput),
        pos < buf@.len() ==> r == Ok::<(u8, usize), TransportError>((buf@[pos as int], (pos + 1) as usize)),
{
    if pos >= buf.len() {
        return Err(TransportError::EndOfInput);
    }
    Ok((buf[pos], pos + 1))
}

/// The result of reading a packet with fields that take `len` bytes in all: the packet `p`
/// when `s` holds that many bytes.
pub open spec fn fixed_read<T>(s: Seq<u8>, len: nat, p: T) -> Result<(T, nat), ErrorKind> {
    if s.len() < len {
        Err(ErrorKind::EndOfInput)
    } else {
        Ok((p, len))
    }
}

/// The client asks for another difficulty.
#[derive(Debug, Clone, Copy, PartialEq, Eq, Structural)]
pub struct ChangeDifficulty {
    pub difficulty: u8,
}

impl ChangeDifficulty {
    pub open spec fn spec_encode(self) -> Seq<u8> {
        seq![self.difficulty]
    }

    pub open spec fn spec_read(s: Seq<u8>) -> Result<(ChangeDifficulty, nat), ErrorKind> {
        fixed_read(s, 1, ChangeDifficulty { difficulty: s[0] })
    }

    pub fn encode(&self, out: &mut Vec<u8>)
        ensures
            final(out)@ == old(out)@ + self.spec_encode(),
    {
        out.push(self.difficulty);
    }

    pub fn decode(buf: &[u8], pos: usize) -> (r: Result<(ChangeDifficulty, usize), TransportError>)
        requires
            pos <= buf@.len(),
        ensures
            match Self::spec_read(buf@.skip(pos as int)) {
                Ok((p, k)) => r == Ok::<(ChangeDifficulty, usize), TransportError>((p, (pos + k) as usize)),
                Err(e) => r matches Err(err) && err.kind() == e,
            },
    {
        let (difficulty, p) = read_u8(buf, pos)?;
        Ok((ChangeDifficulty { difficulty }, p))
    }
}

/// A difficulty change reads back as written.
pub proof fn law_change_difficulty_roundtrip(p: ChangeDifficulty, rest: Seq<u8>)
    ensures
        ChangeDifficulty::spec_read(p.spec_encode() + rest) == Ok::<(ChangeDifficulty, nat), ErrorKind>((p, 1)),
{
}

/// The client clicks a button of an open container.
#[derive(Debug, Clone, Copy, PartialEq, Eq, Structural)]
pub struct ContainerButtonClick {
    pub window_id: u8,
    pub button_id: u8,
}

impl ContainerButtonClick {
    pub open spec fn spec_encode(self) -> Seq<u8> {
        seq![self.window_id, self.button_id]
    }

    pub open spec fn spec_read(s: Seq<u8>) -> Result<(ContainerButtonClick, nat), ErrorKind> {
        fixed_read(s, 2, ContainerButtonClick { window_id: s[0], button_id: s[1] })
    }

    pub fn encode(&self, out: &mut Vec<u8>)
        ensures
            final(out)@ == old(out)@ + self.spec_encode(),
    {
        out.push(self.window_id);
        out.push(self.button_id);
    }

    pub fn decode(buf: &[u8], pos: usize) -> (r: Result<(ContainerButtonClick, usize), TransportError>)
        requires
            pos <= buf@.len(),
        ensures
            match Self::spec_read(buf@.skip(pos as int)) {
                Ok((p, k)) => r == Ok::<(ContainerButtonClick, usize), TransportError>((p, (pos + k) as usize)),
                Err(e) => r matches Err(err) && err.kind() == e,
            },
    {
        let blen = buf.len();
        let ghost s = buf@.skip(pos as int);
        let (window_id, p1) = read_u8(buf, pos)?;
        let (button_id, p2) = read_u8(buf, p1)?;
        assert(s[0] == window_id && s[1] == button_id);
        Ok((ContainerButtonClick { window_id, button_id }, p2))
    }
}

/// A button click reads back as written.
pub proof fn law_container_button_click_roundtrip(p: ContainerButtonClick, rest: Seq<u8>)
    ensures
        ContainerButtonClick::spec_read(p.spec_encode() + rest) == Ok::<(ContainerButtonClick, nat), ErrorKind>((p, 2)),
{
}

/// The client closes a container window.
#[derive(Debug, Clone, Copy, PartialEq, Eq, Structural)]
pub struct ContainerClose {
    pub window_id: u8,
}

impl ContainerClose {
    pub open spec fn spec_encode(self) -> Seq<u8> {
        seq![self.window_id]
    }

    pub open spec fn spec_read(s: Seq<u8>) -> Result<(ContainerClose, nat), ErrorKind> {
        fixed_read(s, 1, ContainerClose { window_id: s[0] })
    }

    pub fn encode(&self, out: &mut Vec<u8>)
        ensures
            final(out)@ == old(out)@ + self.spec_encode(),
    {
        out.push(self.window_id);
    }

    pub fn decode(buf: &[u8], pos: usize) -> (r: Result<(ContainerClose, usize), TransportError>)
        requires
            pos <= buf@.len(),
        ensures
            match Self::spec_read(buf@.skip(pos as int)) {
                Ok((p, k)) => r == Ok::<(ContainerClose, usize), TransportError>((p, (pos + k) as usize)),
                Err(e) => r matches Err(err) && err.kind() == e,
            },
    {
        let (window_id, p) = read_u8(buf, pos)?;
        Ok((ContainerClose { window_id }, p))
    }
}

/// A container close reads back as written.
pub proof fn law_container_close_roundtrip(p: ContainerClose, rest: Seq<u8>)
    ensures
        ContainerClose::spec_read(p.spec_encode() + rest) == Ok::<(ContainerClose, nat), ErrorKind>((p, 1)),
{
}

/// The client's answer to a keep-alive, with its id.
#[derive(Debug, Clone, Copy, PartialEq, Eq, Structural)]
pub struct KeepAlive {
    pub id: i64,
}

impl KeepAlive {
    pub open spec fn spec_encode(self) -> Seq<u8> {
        spec_time(self.id)
    }

    pub open spec fn spec_read(s: Seq<u8>) -> Result<(KeepAlive, nat), ErrorKind> {
        match spec_read_time(s) {
            Ok((id, k)) => Ok((KeepAlive { id }, k)),
            Err(e) => Err(e),
        }
    }

    pub fn encode(&self, out: &mut Vec<u8>)
        ensures
            final(out)@ == old(out)@ + self.spec_encode(),
    {
        write_be(out, self.id as u64, 8);
    }

    pub fn decode(buf: &[u8], pos: usize) -> (r: Result<(KeepAlive, usize), TransportError>)
        requires
            pos <= buf@.len(),
        ensures
            match Self::spec_read(buf@.skip(pos as int)) {
                Ok((p, k)) => r == Ok::<(KeepAlive, usize), TransportError>((p, (pos + k) as usize)),
                Err(e) => r matches Err(err) && err.kind() == e,
            },
    {
        let blen = buf.len();
        let (v, q) = read_be(buf, pos, 8)?;
        assert(buf@.skip(pos as int).subrange(0, 8) =~= buf@.subrange(pos as int, pos + 8));
        Ok((KeepAlive { id: v as i64 }, q))
    }
}

/// A keep-alive answer reads back as written.
pub proof fn law_keep_alive_roundtrip(p: KeepAlive, rest: Seq<u8>)
    ensures
        KeepAlive::spec_read(p.spec_encode() + rest) == Ok::<(KeepAlive, nat), ErrorKind>((p, 8)),
{
    law_time_roundtrip(p.id, rest);
}

/// The client locks the difficulty, or unlocks it.
#[derive(Debug, Clone, Copy, PartialEq, Eq, Structural)]
pub struct LockDifficulty {
    pub locked: bool,
}

impl LockDifficulty {
    pub open spec fn spec_encode(self) -> Seq<u8> {
        spec_bool(self.locked)
    }

    pub open spec fn spec_read(s: Seq<u8>) -> Result<(LockDifficulty, nat), ErrorKind> {
        fixed_read(s, 1, LockDifficulty { locked: s[0] != 0 })
    }

    pub fn encode(&self, out: &mut Vec<u8>)
        ensures
            final(out)@ == old(out)@ + self.spec_encode(),
    {
        write_bool(out, self.locked);
    }

    pub fn decode(buf: &[u8], pos: usize) -> (r: Result<(LockDifficulty, usize), TransportError>)
        requires
            pos <= buf@.len(),
        ensures
            match Self::spec_read(buf@.skip(pos as int)) {
                Ok((p, k)) => r == Ok::<(LockDifficulty, usize), TransportError>((p, (pos + k) as usize)),
                Err(e) => r matches Err(err) && err.kind() == e,
            },
    {
        let (b, p) = read_u8(buf, pos)?;
        Ok((LockDifficulty { locked: b != 0 }, p))
    }
}

/// A difficulty lock reads back as written.
pub proof fn law_lock_difficulty_roundtrip(p: LockDifficulty, rest: Seq<u8>)
    ensures
        LockDifficulty::spec_read(p.spec_encode() + rest) == Ok::<(LockDifficulty, nat), ErrorKind>((p, 1)),
{
}

/// Whether the player stands on the ground.
#[derive(Debug, Clone, Copy, PartialEq, Eq, Structural)]
pub struct GroundPlayer {
    pub on_ground: bool,
}

impl GroundPlayer {
    pub open spec fn spec_encode(self) -> Seq<u8> {
        spec_bool(self.on_ground)
    }

    pub open spec fn spec_read(s: Seq<u8>) -> Result<(GroundPlayer, nat), ErrorKind> {
        fixed_read(s, 1, GroundPlayer { on_ground: s[0] != 0 })
    }

    pub fn encode(&self, out: &mut Vec<u8>)
        ensures
            final(out)@ == old(out)@ + self.spec_encode(),
    {
        write_bool(out, self.on_ground);
    }

    pub fn decode(buf: &[u8], pos: usize) -> (r: Result<(GroundPlayer, usize), TransportError>)
        requires
            pos <= buf@.len(),
        ensures
            match Self::spec_read(buf@.skip(pos as int)) {
                Ok((p, k)) => r == Ok::<(GroundPlayer, usize), TransportError>((p, (pos + k) as usize)),
                Err(e) => r matches Err(err) && err.kind() == e,
            },
    {
        let (b, p) = read_u8(buf, pos)?;
        Ok((GroundPlayer { on_ground: b != 0 }, p))
    }
}

/// A ground flag reads back as written.
pub proof fn law_ground_player_roundtrip(p: GroundPlayer, rest: Seq<u8>)
    ensures
        GroundPlayer::spec_read(p.spec_encode() + rest) == Ok::<(GroundPlayer, nat), ErrorKind>((p, 1)),
{
}

/// Which of a boat's paddles turn.
#[derive(Debug, Clone, Copy, PartialEq, Eq, Structural)]
pub struct PaddleBoat {
    pub left: bool,
    pub right: bool,
}

impl PaddleBoat {
    pub open spec fn spec_encode(self) -> Seq<u8> {
        spec_bool(self.left) + spec_bool(self.right)
    }

    pub open spec fn spec_read(s: Seq<u8>) -> Result<(PaddleBoat, nat), ErrorKind> {
        fixed_read(s, 2, PaddleBoat { left: s[0] != 0, right: s[1] != 0 })
    }

    pub fn encode(&self, out: &mut Vec<u8>)
        ensures
            final(out)@ == old(out)@ + self.spec_encode(),
    {
        write_bool(out, self.left);
        write_bool(out, self.right);
    }

    pub fn decode(buf: &[u8], pos: usize) -> (r: Result<(PaddleBoat, usize), TransportError>)
        requires
            pos <= buf@.len(),
        ensures
            match Self::spec_read(buf@.skip(pos as int)) {
                Ok((p, k)) => r == Ok::<(PaddleBoat, usize), TransportError>((p, (pos + k) as usize)),
                Err(e) => r matches Err(err) && err.kind() == e,
            },
    {
        let blen = buf.len();
        let ghost s = buf@.skip(pos as int);
        let (l, p1) = read_u8(buf, pos)?;
        let (r, p2) = read_u8(buf, p1)?;
        assert(s[0] == l && s[1] == r);
        Ok((PaddleBoat { left: l != 0, right: r != 0 }, p2))
    }
}

/// A paddle state reads back as written.
pub proof fn law_paddle_boat_roundtrip(p: PaddleBoat, rest: Seq<u8>)
    ensures
        PaddleBoat::spec_read(p.spec_encode() + rest) == Ok::<(PaddleBoat, nat), ErrorKind>((p, 2)),
{
}

/// The hotbar slot the player holds.
#[derive(Debug, Clone, Copy, PartialEq, Eq, Structural)]
pub struct SetHeldItem {
    pub slot: i16,
}

impl SetHeldItem {
    pub open spec fn spec_encode(self) -> Seq<u8> {
        be_bytes(self.slot as u16 as nat, 2)
    }

    pub open spec fn spec_read(s: Seq<u8>) -> Result<(SetHeldItem, nat), ErrorKind> {
        fixed_read(s, 2, SetHeldItem { slot: be_value(s.subrange(0, 2)) as u16 as i16 })
    }

    pub fn encode(&self, out: &mut Vec<u8>)
        ensures
            final(out)@ == old(out)@ + self.spec_encode(),
    {
        write_be(out, self.slot as u16 as u64, 2);
    }

    pub fn decode(buf: &[u8], pos: usize) -> (r: Result<(SetHeldItem, usize), TransportError>)
        requires
            pos <= buf@.len(),
        ensures
            match Self::spec_read(buf@.skip(pos as int)) {
                Ok((p, k)) => r == Ok::<(SetHeldItem, usize), TransportError>((p, (pos + k) as usize)),
                Err(e) => r matches Err(err) && err.kind() == e,
            },
    {
        let blen = buf.len();
        let (v, q) = read_be(buf, pos, 2)?;
        assert(buf@.skip(pos as int).subrange(0, 2) =~= buf@.subrange(pos as int, pos + 2));
        proof {
            lemma_be_value_bound(buf@.subrange(pos as int, pos + 2));
            assert(pow256(2) == 0x1_0000) by {
                reveal_with_fuel(pow256, 3);
            }
        }
        Ok((SetHeldItem { slot: v as u16 as i16 }, q))
    }
}

/// A held slot reads back as written.
pub proof fn law_set_held_item_roundtrip(p: SetHeldItem, rest: Seq<u8>)
    ensures
        SetHeldItem::spec_read(p.spec_encode() + rest) == Ok::<(SetHeldItem, nat), ErrorKind>((p, 2)),
{
    let u = p.slot as u16;
    lemma_be_roundtrip(u as nat, 2);
    assert((p.spec_encode() + rest).subrange(0, 2) =~= p.spec_encode());
    assert(pow256(2) == 0x1_0000) by {
        reveal_with_fuel(pow256, 3);
    }
    let s = p.slot;
    assert(((s as u16) as i16) == s) by (bit_vector);
}

/// Every byte of `buf` from `pos` on.
pub(crate) fn read_rest(buf: &[u8], pos: usize) -> (r: Vec<u8>)
    requires
        pos <= buf@.len(),
    ensures
        r@ == buf@.skip(pos as int),
{
    let blen = buf.len();
    let mut data: Vec<u8> = Vec::new();
    let mut i = pos;
    while i < blen
        invariant
            pos <= i <= blen,
            blen == buf@.len(),
            data@ == buf@.subrange(pos as int, i as int),
        decreases blen - i,
    {
        data.push(buf[i]);
        i = i + 1;
    }
    assert(data@ =~= buf@.skip(pos as int));
    data
}

/// The error of a string longer than its limit.
pub open spec fn over_limit(s: Seq<char>, limit: i32) -> TransportError {
    TransportError::LimitExceeded(limit, utf8_bytes(s).len() as i32)
}

/// A message on a plugin channel, the data running to the end of the packet.
#[derive(Debug)]
pub struct PluginMessage {
    pub channel: Identifier,
    pub data: Vec<u8>,
}

impl PluginMessage {
    pub open spec fn spec_encode(&self) -> Seq<u8> {
        spec_string(self.channel.data@) + self.data@
    }

    /// What reading a plugin message from `s` gives: the channel's bytes and the data.
    pub open spec fn spec_read(s: Seq<u8>) -> Result<(Seq<u8>, Seq<u8>), ErrorKind> {
        match spec_read_string(s, STRING_DEFAULT_CAP) {
            Err(e) => Err(e),
            Ok((channel, k)) => Ok((channel, s.skip(k as int))),
        }
    }

    /// Appends the message; refused, with nothing appended, when the channel is too long.
    pub fn encode(&self, out: &mut Vec<u8>) -> (r: Result<(), TransportError>)
        requires
            utf8_bytes(self.channel.data@).len() <= i32::MAX,
        ensures
            utf8_bytes(self.channel.data@).len() <= STRING_DEFAULT_CAP ==> r is Ok && final(out)@
                == old(out)@ + self.spec_encode(),
            utf8_bytes(self.channel.data@).len() > STRING_DEFAULT_CAP ==> r == Err::<(), TransportError>(
                over_limit(self.channel.data@, STRING_DEFAULT_CAP),
            ) && final(out)@ == old(out)@,
    {
        write_string(out, self.channel.data.as_str(), STRING_DEFAULT_CAP)?;
        append_bytes(out, self.data.as_slice());
        Ok(())
    }

    /// Reads a plugin message at `pos`: the channel, then every byte after it as the data.
    pub fn decode(buf: &[u8], pos: usize) -> (r: Result<PluginMessage, TransportError>)
        requires
            pos <= buf@.len(),
        ensures
            match Self::spec_read(buf@.skip(pos as int)) {
                Ok((channel, data)) => r matches Ok(m) && utf8_bytes(m.channel.data@) == channel
                    && m.data@ == data,
                Err(e) => r matches Err(err) && err.kind() == e,
            },
    {
        let blen = buf.len();
        let (channel, p) = read_string(buf, pos, STRING_DEFAULT_CAP)?;
        let data = read_rest(buf, p);
        assert(buf@.skip(pos as int).skip((p - pos) as int) =~= buf@.skip(p as int));
        Ok(PluginMessage { channel: Identifier { data: channel }, data })
    }
}

/// A plugin message reads back as written: its channel's bytes and its data.
pub proof fn law_plugin_message_roundtrip(m: PluginMessage)
    requires
        utf8_bytes(m.channel.data@).len() <= STRING_DEFAULT_CAP,
    ensures
        PluginMessage::spec_read(m.spec_encode()) == Ok::<(Seq<u8>, Seq<u8>), ErrorKind>(
            (utf8_bytes(m.channel.data@), m.data@),
        ),
{
    law_string_roundtrip(m.channel.data@, STRING_DEFAULT_CAP, m.data@);
    let k = spec_string(m.channel.data@).len();
    assert(m.spec_encode().skip(k as int) =~= m.data@);
}

/// The client asks to fill the crafting grid with a recipe.
#[derive(Debug)]
pub struct PlaceRecipe {
    pub id: u8,
    pub recipe: Identifier,
    pub shift_down: bool,
}

impl PlaceRecipe {
    pub open spec fn spec_encode(&self) -> Seq<u8> {
        seq![self.id] + spec_string(self.recipe.data@) + spec_bool(self.shift_down)
    }

    /// What reading a recipe placement from `s` gives: the window id, the recipe's bytes and
    /// the shift flag, and the length read.
    pub open spec fn spec_read(s: Seq<u8>) -> Result<(u8, Seq<u8>, bool, nat), ErrorKind> {
        if s.len() < 1 {
            Err(ErrorKind::EndOfInput)
        } else {
            match spec_read_string(s.skip(1), STRING_DEFAULT_CAP) {
                Err(e) => Err(e),
                Ok((recipe, k)) => if 1 + k >= s.len() {
                    Err(ErrorKind::EndOfInput)
                } else {
                    Ok((s[0], recipe, s[(1 + k) as int] != 0, 2 + k))
                },
            }
        }
    }

    /// Appends the placement; refused, with nothing appended, when the recipe is too long.
    pub fn encode(&self, out: &mut Vec<u8>) -> (r: Result<(), TransportError>)
        requires
            utf8_bytes(self.recipe.data@).len() <= i32::MAX,
        ensures
            utf8_bytes(self.recipe.data@).len() <= STRING_DEFAULT_CAP ==> r is Ok && final(out)@
                == old(out)@ + self.spec_encode(),
            utf8_bytes(self.recipe.data@).len() > STRING_DEFAULT_CAP ==> r == Err::<(), TransportError>(
                over_limit(self.recipe.data@, STRING_DEFAULT_CAP),
            ) && final(out)@ == old(out)@,
    {
        let mut buf: Vec<u8> = Vec::new();
        buf.push(self.id);
        write_string(&mut buf, self.recipe.data.as_str(), STRING_DEFAULT_CAP)?;
        write_bool(&mut buf, self.shift_down);
        append_bytes(out, buf.as_slice());
        assert(buf@ =~= self.spec_encode());
        Ok(())
    }

    pub fn decode(buf: &[u8], pos: usize) -> (r: Result<(PlaceRecipe, usize), TransportError>)
        requires
            pos <= buf@.len(),
        ensures
            match Self::spec_read(buf@.skip(pos as int)) {
                Ok((id, recipe, shift_down, k)) => r matches Ok((p, q)) && p.id == id && utf8_bytes(
                    p.recipe.data@,
                ) == recipe && p.shift_down == shift_down && q == pos + k,
                Err(e) => r matches Err(err) && err.kind() == e,
            },
    {
        let blen = buf.len();
        let ghost s = buf@.skip(pos as int);
        let (id, p1) = read_u8(buf, pos)?;
        assert(s.skip(1) =~= buf@.skip(p1 as int));
        let (recipe, p2) = read_string(buf, p1, STRING_DEFAULT_CAP)?;
        let (b, p3) = read_u8(buf, p2)?;
        assert(s[(p2 - pos) as int] == b);
        Ok((PlaceRecipe { id, recipe: Identifier { data: recipe }, shift_down: b != 0 }, p3))
    }
}

/// A recipe placement reads back as written.
pub proof fn law_place_recipe_roundtrip(p: PlaceRecipe, rest: Seq<u8>)
    requires
        utf8_bytes(p.recipe.data@).len() <= STRING_DEFAULT_CAP,
    ensures
        PlaceRecipe::spec_read(p.spec_encode() + rest) == Ok::<(u8, Seq<u8>, bool, nat), ErrorKind>(
            (p.id, utf8_bytes(p.recipe.data@), p.shift_down, p.spec_encode().len()),
        ),
{
    let all = p.spec_encode() + rest;
    let tail = spec_bool(p.shift_down) + rest;
    law_string_roundtrip(p.recipe.data@, STRING_DEFAULT_CAP, tail);
    assert(all.skip(1) =~= spec_string(p.recipe.data@) + tail);
}

/// The client marks a recipe as seen.
#[derive(Debug)]
pub struct SetSeenRecipe {
    pub recipe_id: Identifier,
}

impl SetSeenRecipe {
    pub open spec fn spec_encode(&self) -> Seq<u8> {
        spec_string(self.recipe_id.data@)
    }

    /// Appends the recipe; refused, with nothing appended, when it is too long.
    pub fn encode(&self, out: &mut Vec<u8>) -> (r: Result<(), TransportError>)
        requires
            utf8_bytes(self.recipe_id.data@).len() <= i32::MAX,
        ensures
            utf8_bytes(self.recipe_id.data@).len() <= STRING_DEFAULT_CAP ==> r is Ok && final(out)@
                == old(out)@ + self.spec_encode(),
            utf8_bytes(self.recipe_id.data@).len() > STRING_DEFAULT_CAP ==> r == Err::<(), TransportError>(
                over_limit(self.recipe_id.data@, STRING_DEFAULT_CAP),
            ) && final(out)@ == old(out)@,
    {
        write_string(out, self.recipe_id.data.as_str(), STRING_DEFAULT_CAP)
    }

    pub fn decode(buf: &[u8], pos: usize) -> (r: Result<(SetSeenRecipe, usize), TransportError>)
        requires
            pos <= buf@.len(),
        ensures
            match spec_read_string(buf@.skip(pos as int), STRING_DEFAULT_CAP) {
                Ok((b, k)) => r matches Ok((p, q)) && utf8_bytes(p.recipe_id.data@) == b && q == pos + k,
                Err(e) => r matches Err(err) && err.kind() == e,
            },
    {
        let (data, p) = read_string(buf, pos, STRING_DEFAULT_CAP)?;
        Ok((SetSeenRecipe { recipe_id: Identifier { data } }, p))
    }
}

/// The longest name an item can be renamed to, in bytes.
pub const ITEM_NAME_LIMIT: i32 = 32767;

/// The client renames the item in an anvil.
#[derive(Debug)]
pub struct RenameItem {
    pub name: String,
}

impl RenameItem {
    pub open spec fn spec_encode(&self) -> Seq<u8> {
        spec_string(self.name@)
    }

    /// Appends the name; refused, with nothing appended, when it is too long.
    pub fn encode(&self, out: &mut Vec<u8>) -> (r: Result<(), TransportError>)
        requires
            utf8_bytes(self.name@).len() <= i32::MAX,
        ensures
            utf8_bytes(self.name@).len() <= ITEM_NAME_LIMIT ==> r is Ok && final(out)@ == old(out)@
                + self.spec_encode(),
            utf8_bytes(self.name@).len() > ITEM_NAME_LIMIT ==> r == Err::<(), TransportError>(
                over_limit(self.name@, ITEM_NAME_LIMIT),
            ) && final(out)@ == old(out)@,
    {
        write_string(out, self.name.as_str(), ITEM_NAME_LIMIT)
    }

    pub fn decode(buf: &[u8], pos: usize) -> (r: Result<(RenameItem, usize), TransportError>)
        requires
            pos <= buf@.len(),
        ensures
            match spec_read_string(buf@.skip(pos as int), ITEM_NAME_LIMIT) {
                Ok((b, k)) => r matches Ok((p, q)) && utf8_bytes(p.name@) == b && q == pos + k,
                Err(e) => r matches Err(err) && err.kind() == e,
            },
    {
        let (name, p) = read_string(buf, pos, ITEM_NAME_LIMIT)?;
        Ok((RenameItem { name }, p))
    }
}

/// The encoding of strings one after another.
pub open spec fn spec_strings(ss: Seq<Seq<char>>) -> Seq<u8>
    decreases ss.len(),
{
    if ss.len() == 0 {
        seq![]
    } else {
        spec_string(ss[0]) + spec_strings(ss.drop_first())
    }
}

/// The error of writing strings with the given limits one after another: that of the first
/// string over its limit, if any.
pub open spec fn strings_error(ss: Seq<Seq<char>>, limits: Seq<i32>) -> Option<TransportError>
    decreases ss.len(),
{
    if ss.len() == 0 || limits.len() == 0 {
        None
    } else if utf8_bytes(ss[0]).len() > limits[0] {
        Some(over_limit(ss[0], limits[0]))
    } else {
        strings_error(ss.drop_first(), limits.drop_first())
    }
}

/// What reading strings with the given limits one after another from `s` gives: their bytes
/// and the length read.
pub open spec fn spec_read_strings(s: Seq<u8>, limits: Seq<i32>) -> Result<(Seq<Seq<u8>>, nat), ErrorKind>
    decreases limits.len(),
{
    if limits.len() == 0 {
        Ok((seq![], 0))
    } else {
        match spec_read_string(s, limits[0]) {
            Err(e) => Err(e),
            Ok((b, k)) => match spec_read_strings(s.skip(k as int), limits.drop_first()) {
                Err(e) => Err(e),
                Ok((bs, k2)) => Ok((seq![b] + bs, k + k2)),
            },
        }
    }
}

/// Reading strings gives one for each limit.
pub proof fn lemma_read_strings_len(s: Seq<u8>, limits: Seq<i32>)
    ensures
        spec_read_strings(s, limits) matches Ok((bs, _)) ==> bs.len() == limits.len(),
    decreases limits.len(),
{
    if limits.len() > 0 {
        if let Ok((b, k)) = spec_read_string(s, limits[0]) {
            lemma_read_strings_len(s.skip(k as int), limits.drop_first());
        }
    }
}

/// Strings within their limits read back as written.
pub proof fn law_strings_roundtrip(ss: Seq<Seq<char>>, limits: Seq<i32>, rest: Seq<u8>)
    requires
        ss.len() == limits.len(),
        strings_error(ss, limits) is None,
    ensures
        spec_read_strings(spec_strings(ss) + rest, limits) == Ok::<(Seq<Seq<u8>>, nat), ErrorKind>(
            (ss.map_values(|c: Seq<char>| utf8_bytes(c)), spec_strings(ss).len()),
        ),
    decreases ss.len(),
{
    if ss.len() > 0 {
        let tail = spec_strings(ss.drop_first()) + rest;
        law_string_roundtrip(ss[0], limits[0], tail);
        law_strings_roundtrip(ss.drop_first(), limits.drop_first(), rest);
        let all = spec_strings(ss) + rest;
        assert(all =~= spec_string(ss[0]) + tail);
        assert(all.skip(spec_string(ss[0]).len() as int) =~= tail);
        assert(ss.map_values(|c: Seq<char>| utf8_bytes(c)) =~= seq![utf8_bytes(ss[0])]
            + ss.drop_first().map_values(|c: Seq<char>| utf8_bytes(c)));
    } else {
        assert(ss.map_values(|c: Seq<char>| utf8_bytes(c)) =~= Seq::<Seq<u8>>::empty());
    }
}

/// Reads strings with the given limits one after another at `pos`.
pub(crate) fn read_strings(buf: &[u8], pos: usize, limits: &[i32]) -> (r: Result<(Vec<String>, usize), TransportError>)
    requires
        pos <= buf@.len(),
    ensures
        match spec_read_strings(buf@.skip(pos as int), limits@) {
            Ok((bs, k)) => r matches Ok((v, q)) && v@.map_values(|x: String| utf8_bytes(x@)) == bs
                && q == pos + k,
            Err(e) => r matches Err(err) && err.kind() == e,
        },
{
    let blen = buf.len();
    let mut out: Vec<String> = Vec::new();
    let mut p = pos;
    let mut i: usize = 0;
    proof {
        assert(limits@.skip(0) =~= limits@);
        assert(out@.map_values(|x: String| utf8_bytes(x@)) =~= Seq::<Seq<u8>>::empty());
        if let Ok((bs, k)) = spec_read_strings(buf@.skip(pos as int), limits@) {
            assert(Seq::<Seq<u8>>::empty() + bs =~= bs);
        }
    }
    while i < limits.len()
        invariant
            blen == buf@.len(),
            pos <= p <= blen,
            i <= limits@.len(),
            spec_read_strings(buf@.skip(pos as int), limits@) == match spec_read_strings(
                buf@.skip(p as int),
                limits@.skip(i as int),
            ) {
                Ok((bs, k)) => Ok::<(Seq<Seq<u8>>, nat), ErrorKind>(
                    (out@.map_values(|x: String| utf8_bytes(x@)) + bs, (p - pos + k) as nat),
                ),
                Err(e) => Err(e),
            },
        decreases limits@.len() - i,
    {
        let ghost rest = limits@.skip(i as int);
        assert(rest[0] == limits@[i as int]);
        assert(rest.drop_first() =~= limits@.skip(i + 1));
        match read_string(buf, p, limits[i]) {
            Err(e) => {
                return Err(e);
            },
            Ok((st, q)) => {
                assert(buf@.skip(p as int).skip((q - p) as int) =~= buf@.skip(q as int));
                let ghost before = out@;
                out.push(st);
                assert(out@.map_values(|x: String| utf8_bytes(x@)) =~= before.map_values(
                    |x: String| utf8_bytes(x@),
                ) + seq![utf8_bytes(st@)]);
                proof {
                    let tail = spec_read_strings(buf@.skip(q as int), limits@.skip(i + 1));
                    if let Ok((bs, k)) = tail {
                        assert(before.map_values(|x: String| utf8_bytes(x@)) + (seq![
                            utf8_bytes(st@),
                        ] + bs) =~= out@.map_values(|x: String| utf8_bytes(x@)) + bs);
                    }
                }
                p = q;
                i = i + 1;
            },
        }
    }
    assert(limits@.skip(i as int) =~= Seq::<i32>::empty());
    assert(out@.map_values(|x: String| utf8_bytes(x@)) + seq![] =~= out@.map_values(
        |x: String| utf8_bytes(x@),
    ));
    Ok((out, p))
}

/// The longest line of a sign, in bytes.
pub const SIGN_LINE_LIMIT: i32 = 384;

/// The four lines' limits, in order.
pub open spec fn sign_limits() -> Seq<i32> {
    seq![SIGN_LINE_LIMIT, SIGN_LINE_LIMIT, SIGN_LINE_LIMIT, SIGN_LINE_LIMIT]
}

/// The eight bytes of a packed block position.
pub open spec fn spec_block_pos(p: BlockPos) -> Seq<u8> {
    spec_time(spec_pack_block_pos(p.x, p.y, p.z))
}

/// The position packed in the first eight bytes of `s`, which must hold them.
pub open spec fn block_pos_at(s: Seq<u8>) -> BlockPos {
    spec_unpack_block_pos(be_value(s.subrange(0, 8)) as u64 as i64)
}

/// The client writes the lines of a sign.
#[derive(Debug)]
pub struct UpdateSign {
    pub location: BlockPos,
    pub line1: String,
    pub line2: String,
    pub line3: String,
    pub line4: String,
}

impl UpdateSign {
    pub open spec fn lines(&self) -> Seq<Seq<char>> {
        seq![self.line1@, self.line2@, self.line3@, self.line4@]
    }

    pub open spec fn spec_encode(&self) -> Seq<u8> {
        spec_block_pos(self.location) + spec_strings(self.lines())
    }

    /// What reading a sign update from `s` gives: the position, the four lines' bytes, and the
    /// length read.
    pub open spec fn spec_read(s: Seq<u8>) -> Result<(BlockPos, Seq<Seq<u8>>, nat), ErrorKind> {
        if s.len() < 8 {
            Err(ErrorKind::EndOfInput)
        } else {
            match spec_read_strings(s.skip(8), sign_limits()) {
                Err(e) => Err(e),
                Ok((lines, k)) => Ok((block_pos_at(s), lines, 8 + k)),
            }
        }
    }

    /// Appends the update; refused, with nothing appended, at the first line over its limit.
    pub fn encode(&self, out: &mut Vec<u8>) -> (r: Result<(), TransportError>)
        requires
            utf8_bytes(self.line1@).len() <= i32::MAX,
            utf8_bytes(self.line2@).len() <= i32::MAX,
            utf8_bytes(self.line3@).len() <= i32::MAX,
            utf8_bytes(self.line4@).len() <= i32::MAX,
        ensures
            match strings_error(self.lines(), sign_limits()) {
                None => r is Ok && final(out)@ == old(out)@ + self.spec_encode(),
                Some(e) => r == Err::<(), TransportError>(e) && final(out)@ == old(out)@,
            },
    {
        proof {
            reveal_with_fuel(strings_error, 5);
            reveal_with_fuel(spec_strings, 5);
        }
        let mut buf: Vec<u8> = Vec::new();
        write_be(&mut buf, self.location.as_long() as u64, 8);
        write_string(&mut buf, self.line1.as_str(), SIGN_LINE_LIMIT)?;
        write_string(&mut buf, self.line2.as_str(), SIGN_LINE_LIMIT)?;
        write_string(&mut buf, self.line3.as_str(), SIGN_LINE_LIMIT)?;
        write_string(&mut buf, self.line4.as_str(), SIGN_LINE_LIMIT)?;
        append_bytes(out, buf.as_slice());
        assert(buf@ =~= self.spec_encode());
        Ok(())
    }

    pub fn decode(buf: &[u8], pos: usize) -> (r: Result<(UpdateSign, usize), TransportError>)
        requires
            pos <= buf@.len(),
        ensures
            match Self::spec_read(buf@.skip(pos as int)) {
                Ok((location, lines, k)) => r matches Ok((p, q)) && p.location == location
                    && p.lines().map_values(|c: Seq<char>| utf8_bytes(c)) == lines && q == pos + k,
                Err(e) => r matches Err(err) && err.kind() == e,
            },
    {
        let blen = buf.len();
        let ghost s = buf@.skip(pos as int);
        let (location, p0) = BlockPos::decode(buf, pos)?;
        assert(s.subrange(0, 8) =~= buf@.subrange(pos as int, pos + 8));
        assert(s.skip(8) =~= buf@.skip(p0 as int));
        let mut limits: Vec<i32> = Vec::new();
        limits.push(SIGN_LINE_LIMIT);
        limits.push(SIGN_LINE_LIMIT);
        limits.push(SIGN_LINE_LIMIT);
        limits.push(SIGN_LINE_LIMIT);
        assert(limits@ =~= sign_limits());
        proof {
            lemma_read_strings_len(buf@.skip(p0 as int), limits@);
        }
        let (mut lines, q) = read_strings(buf, p0, limits.as_slice())?;
        assert(lines@.len() == 4);
        let ghost read = lines@;
        let line4 = lines.pop().unwrap();
        let line3 = lines.pop().unwrap();
        let line2 = lines.pop().unwrap();
        let line1 = lines.pop().unwrap();
        let p = UpdateSign { location, line1, line2, line3, line4 };
        assert(p.lines().map_values(|c: Seq<char>| utf8_bytes(c)) =~= read.map_values(
            |x: String| utf8_bytes(x@),
        ));
        Ok((p, q))
    }
}

/// A sign update whose position fits and whose lines are within their limit reads back as
/// written.
pub proof fn law_update_sign_roundtrip(p: UpdateSign, rest: Seq<u8>)
    requires
        crate::common::play::block_pos_fits(p.location),
        strings_error(p.lines(), sign_limits()) is None,
    ensures
        UpdateSign::spec_read(p.spec_encode() + rest) == Ok::<(BlockPos, Seq<Seq<u8>>, nat), ErrorKind>(
            (
                p.location,
                p.lines().map_values(|c: Seq<char>| utf8_bytes(c)),
                p.spec_encode().len(),
            ),
        ),
{
    let all = p.spec_encode() + rest;
    let tail = spec_strings(p.lines()) + rest;
    let packed = spec_pack_block_pos(p.location.x, p.location.y, p.location.z);
    law_time_roundtrip(packed, tail);
    lemma_be_roundtrip(packed as u64 as nat, 8);
    crate::common::play::law_block_pos_roundtrip(p.location);
    assert(all =~= spec_time(packed) + tail);
    assert(all.subrange(0, 8) =~= (spec_time(packed) + tail).subrange(0, 8));
    assert(all.skip(8) =~= tail);
    law_strings_roundtrip(p.lines(), sign_limits(), rest);
}

/// The longest final state of a jigsaw block, in bytes.
pub const JIGSAW_STATE_LIMIT: i32 = 32767;

/// The limits of a jigsaw block's strings, in order: name, target, pool, final state, joint
/// type.
pub open spec fn jigsaw_limits() -> Seq<i32> {
    seq![STRING_DEFAULT_CAP, STRING_DEFAULT_CAP, STRING_DEFAULT_CAP, JIGSAW_STATE_LIMIT, STRING_DEFAULT_CAP]
}

/// The client programs a jigsaw block.
#[derive(Debug)]
pub struct ProgramJigsawBlock {
    pub location: BlockPos,
    pub name: Identifier,
    pub target: Identifier,
    pub pool: Identifier,
    pub final_state: String,
    pub joint_type: String,
}

impl ProgramJigsawBlock {
    pub open spec fn strings(&self) -> Seq<Seq<char>> {
        seq![self.name.data@, self.target.data@, self.pool.data@, self.final_state@, self.joint_type@]
    }

    pub open spec fn spec_encode(&self) -> Seq<u8> {
        spec_block_pos(self.location) + spec_strings(self.strings())
    }

    /// What reading a jigsaw block from `s` gives: the position, the five strings' bytes, and
    /// the length read.
    pub open spec fn spec_read(s: Seq<u8>) -> Result<(BlockPos, Seq<Seq<u8>>, nat), ErrorKind> {
        if s.len() < 8 {
            Err(ErrorKind::EndOfInput)
        } else {
            match spec_read_strings(s.skip(8), jigsaw_limits()) {
                Err(e) => Err(e),
                Ok((strings, k)) => Ok((block_pos_at(s), strings, 8 + k)),
            }
        }
    }

    /// Appends the block; refused, with nothing appended, at the first string over its limit.
    pub fn encode(&self, out: &mut Vec<u8>) -> (r: Result<(), TransportError>)
        requires
            utf8_bytes(self.name.data@).len() <= i32::MAX,
            utf8_bytes(self.target.data@).len() <= i32::MAX,
            utf8_bytes(self.pool.data@).len() <= i32::MAX,
            utf8_bytes(self.final_state@).len() <= i32::MAX,
            utf8_bytes(self.joint_type@).len() <= i32::MAX,
        ensures
            match strings_error(self.strings(), jigsaw_limits()) {
                None => r is Ok && final(out)@ == old(out)@ + self.spec_encode(),
                Some(e) => r == Err::<(), TransportError>(e) && final(out)@ == old(out)@,
            },
    {
        proof {
            reveal_with_fuel(strings_error, 6);
            reveal_with_fuel(spec_strings, 6);
        }
        let mut buf: Vec<u8> = Vec::new();
        write_be(&mut buf, self.location.as_long() as u64, 8);
        write_string(&mut buf, self.name.data.as_str(), STRING_DEFAULT_CAP)?;
        write_string(&mut buf, self.target.data.as_str(), STRING_DEFAULT_CAP)?;
        write_string(&mut buf, self.pool.data.as_str(), STRING_DEFAULT_CAP)?;
        write_string(&mut buf, self.final_state.as_str(), JIGSAW_STATE_LIMIT)?;
        write_string(&mut buf, self.joint_type.as_str(), STRING_DEFAULT_CAP)?;
        append_bytes(out, buf.as_slice());
        assert(buf@ =~= self.spec_encode());
        Ok(())
    }

    pub fn decode(buf: &[u8], pos: usize) -> (r: Result<(ProgramJigsawBlock, usize), TransportError>)
        requires
            pos <= buf@.len(),
        ensures
            match Self::spec_read(buf@.skip(pos as int)) {
                Ok((location, strings, k)) => r matches Ok((p, q)) && p.location == location
                    && p.strings().map_values(|c: Seq<char>| utf8_bytes(c)) == strings && q == pos + k,
                Err(e) => r matches Err(err) && err.kind() == e,
            },
    {
        let blen = buf.len();
        let ghost s = buf@.skip(pos as int);
        let (location, p0) = BlockPos::decode(buf, pos)?;
        assert(s.subrange(0, 8) =~= buf@.subrange(pos as int, pos + 8));
        assert(s.skip(8) =~= buf@.skip(p0 as int));
        let mut limits: Vec<i32> = Vec::new();
        limits.push(STRING_DEFAULT_CAP);
        limits.push(STRING_DEFAULT_CAP);
        limits.push(STRING_DEFAULT_CAP);
        limits.push(JIGSAW_STATE_LIMIT);
        limits.push(STRING_DEFAULT_CAP);
        assert(limits@ =~= jigsaw_limits());
        proof {
            lemma_read_strings_len(buf@.skip(p0 as int), limits@);
        }
        let (mut strings, q) = read_strings(buf, p0, limits.as_slice())?;
        assert(strings@.len() == 5);
        let ghost read = strings@;
        let joint_type = strings.pop().unwrap();
        let final_state = strings.pop().unwrap();
        let pool = strings.pop().unwrap();
        let target = strings.pop().unwrap();
        let name = strings.pop().unwrap();
        let p = ProgramJigsawBlock {
            location,
            name: Identifier { data: name },
            target: Identifier { data: target },
            pool: Identifier { data: pool },
            final_state,
            joint_type,
        };
        assert(p.strings().map_values(|c: Seq<char>| utf8_bytes(c)) =~= read.map_values(
            |x: String| utf8_bytes(x@),
        ));
        Ok((p, q))
    }
}

/// A jigsaw block whose position fits and whose strings are within their limits reads back as
/// written.
pub proof fn law_program_jigsaw_block_roundtrip(p: ProgramJigsawBlock, rest: Seq<u8>)
    requires
        crate::common::play::block_pos_fits(p.location),
        strings_error(p.strings(), jigsaw_limits()) is None,
    ensures
        ProgramJigsawBlock::spec_read(p.spec_encode() + rest) == Ok::<(BlockPos, Seq<Seq<u8>>, nat), ErrorKind>(
            (
                p.location,
                p.strings().map_values(|c: Seq<char>| utf8_bytes(c)),
                p.spec_encode().len(),
            ),
        ),
{
    let all = p.spec_encode() + rest;
    let tail = spec_strings(p.strings()) + rest;
    let packed = spec_pack_block_pos(p.location.x, p.location.y, p.location.z);
    law_time_roundtrip(packed, tail);
    lemma_be_roundtrip(packed as u64 as nat, 8);
    crate::common::play::law_block_pos_roundtrip(p.location);
    assert(all =~= spec_time(packed) + tail);
    assert(all.subrange(0, 8) =~= (spec_time(packed) + tail).subrange(0, 8));
    assert(all.skip(8) =~= tail);
    law_strings_roundtrip(p.strings(), jigsaw_limits(), rest);
}

} // verus!
