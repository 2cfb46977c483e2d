//! The nodes of the command graph the server sends: each node's flags, children and redirect,
//! then what its kind carries; an argument node names its parser and the parser's properties.
//! Floating-point bounds are carried as their IEEE 754 bit patterns.
use vstd::prelude::*;
use vstd::string::StringExecFns;

use crate::clientbound::play::{
    append, bytes_outcome, string_bytes, string_result, then_bytes, DelegateStr,
    STRING_DEFAULT_CAP,
};
use crate::codec::{
    be_bytes, be_value, lemma_scan_range, read_be, read_bool, read_string, read_var_int,
    size_var_int, spec_bool, spec_read_string, spec_read_var_int, spec_string, spec_var_int,
    utf8_bytes, write_be, write_bool, write_var_int, ErrorKind, TransportError,
};

verus! {

/// The head of a command graph node: its flags (node kind in the low two bits, 8 for a
/// redirect, 16 for a suggestions type), the redirect target and the children's indices.
#[derive(Debug)]
pub struct CommandEntry {
    pub flags: i8,
    pub redirect: i32,
    pub children: Vec<i32>,
}

/// Bounds as read: the key's low two bits (1: a minimum, 2: a maximum) and the bounds' bit
/// patterns, 0 where absent.
pub ghost struct BoundsRead {
    pub sel: u8,
    pub min: nat,
    pub max: nat,
}

/// The encoding of bounds: the key, then the minimum and the maximum present, `width`
/// big-endian bytes each.
pub open spec fn bounds_bytes(key: u8, min: Option<nat>, max: Option<nat>, width: nat) -> Seq<u8> {
    seq![key] + match min {
        Some(v) => be_bytes(v, width),
        None => seq![],
    } + match max {
        Some(v) => be_bytes(v, width),
        None => seq![],
    }
}

/// Whether the low two bits of a key say a minimum is present.
pub open spec fn has_min(sel: u8) -> bool {
    sel == 1 || sel == 3
}

/// Whether the low two bits of a key say a maximum is present.
pub open spec fn has_max(sel: u8) -> bool {
    sel == 2 || sel == 3
}

/// What reading bounds of `width` bytes from the start of `s` gives.
pub open spec fn spec_read_bounds(s: Seq<u8>, width: nat) -> Result<(BoundsRead, nat), ErrorKind> {
    if s.len() < 1 {
        Err(ErrorKind::EndOfInput)
    } else {
        let sel = (s[0] % 4) as u8;
        let n_min: nat = if has_min(sel) { width } else { 0 };
        let n_max: nat = if has_max(sel) { width } else { 0 };
        if 1 + n_min + n_max > s.len() {
            Err(ErrorKind::EndOfInput)
        } else {
            Ok(
                (
                    BoundsRead {
                        sel,
                        min: if has_min(sel) { be_value(s.subrange(1, (1 + width) as int)) } else { 0 },
                        max: if has_max(sel) {
                            be_value(s.subrange((1 + n_min) as int, (1 + n_min + width) as int))
                        } else {
                            0
                        },
                    },
                    1 + n_min + n_max,
                ),
            )
        }
    }
}

/// Reads bounds of `width` bytes at `pos`.
fn read_bounds(buf: &[u8], pos: usize, width: usize) -> (r: Result<(u8, u64, u64, usize), TransportError>)
    requires
        pos <= buf@.len(),
        width == 4 || width == 8,
    ensures
        match spec_read_bounds(buf@.skip(pos as int), width as nat) {
            Ok((b, k)) => r matches Ok((sel, min, max, q)) && sel == b.sel && min == b.min && max
                == b.max && q == pos + k,
            Err(e) => r matches Err(err) && err.kind() == e,
        },
{
    let ghost s = buf@.skip(pos as int);
    let blen = buf.len();
    if pos >= blen {
        return Err(TransportError::EndOfInput);
    }
    let sel = buf[pos] % 4;
    let mut at = pos + 1;
    let mut min: u64 = 0;
    let mut max: u64 = 0;
    if sel == 1 || sel == 3 {
        let (v, q) = read_be(buf, at, width)?;
        proof {
            crate::codec::lemma_be_value_bound(buf@.subrange(at as int, at + width));
            assert(crate::codec::pow256(8) == 0x1_0000_0000_0000_0000) by {
                reveal_with_fuel(crate::codec::pow256, 9);
            }
            crate::codec::lemma_pow256_monotone(width as nat, 8);
        }
        assert(s.subrange(1, 1 + width) =~= buf@.subrange(at as int, at + width));
        min = v;
        at = q;
    }
    if sel == 2 || sel == 3 {
        let (v, q) = read_be(buf, at, width)?;
        proof {
            crate::codec::lemma_be_value_bound(buf@.subrange(at as int, at + width));
            assert(crate::codec::pow256(8) == 0x1_0000_0000_0000_0000) by {
                reveal_with_fuel(crate::codec::pow256, 9);
            }
            crate::codec::lemma_pow256_monotone(width as nat, 8);
        }
        assert(s.subrange((at - pos) as int, (at - pos) + width) =~= buf@.subrange(at as int, at + width));
        max = v;
        at = q;
    }
    Ok((sel, min, max, at))
}

/// The bounds of an integer argument.
#[derive(Debug, Clone, Copy, PartialEq, Eq, Structural)]
pub enum IntegerArgumentInfo {
    NoMinMax,
    Min { min: i32 },
    Max { max: i32 },
    MinMax { min: i32, max: i32 },
}

impl IntegerArgumentInfo {
    /// The key byte (the variant's position) and the bounds' bit patterns.
    pub open spec fn spec_bytes(self) -> Seq<u8> {
        match self {
            IntegerArgumentInfo::NoMinMax => bounds_bytes(0, None, None, 4),
            IntegerArgumentInfo::Min { min } => bounds_bytes(1, Some((min as u32) as nat), None, 4),
            IntegerArgumentInfo::Max { max } => bounds_bytes(2, None, Some((max as u32) as nat), 4),
            IntegerArgumentInfo::MinMax { min, max } => bounds_bytes(
                3,
                Some((min as u32) as nat),
                Some((max as u32) as nat),
                4,
            ),
        }
    }

    /// The bounds that a read key and bit patterns stand for.
    pub open spec fn spec_from_read(b: BoundsRead) -> IntegerArgumentInfo {
        if b.sel == 0 {
            IntegerArgumentInfo::NoMinMax
        } else if b.sel == 1 {
            IntegerArgumentInfo::Min { min: (b.min as u32) as i32 }
        } else if b.sel == 2 {
            IntegerArgumentInfo::Max { max: (b.max as u32) as i32 }
        } else {
            IntegerArgumentInfo::MinMax { min: (b.min as u32) as i32, max: (b.max as u32) as i32 }
        }
    }

    pub fn encode(&self, out: &mut Vec<u8>)
        ensures
            final(out)@ == old(out)@ + self.spec_bytes(),
    {
        let ghost start = out@;
        match self {
            IntegerArgumentInfo::NoMinMax => {
                out.push(0);
            },
            IntegerArgumentInfo::Min { min } => {
                out.push(1);
                write_be(out, *min as u32 as u64, 4);
            },
            IntegerArgumentInfo::Max { max } => {
                out.push(2);
                write_be(out, *max as u32 as u64, 4);
            },
            IntegerArgumentInfo::MinMax { min, max } => {
                out.push(3);
                write_be(out, *min as u32 as u64, 4);
                write_be(out, *max as u32 as u64, 4);
            },
        }
        assert(out@ =~= start + self.spec_bytes());
    }

    pub fn decode(buf: &[u8], pos: usize) -> (r: Result<(IntegerArgumentInfo, usize), TransportError>)
        requires
            pos <= buf@.len(),
        ensures
            match spec_read_bounds(buf@.skip(pos as int), 4) {
                Ok((b, k)) => r == Ok::<(IntegerArgumentInfo, usize), TransportError>(
                    (IntegerArgumentInfo::spec_from_read(b), (pos + k) as usize),
                ),
                Err(e) => r matches Err(err) && err.kind() == e,
            },
    {
        let (sel, min, max, q) = read_bounds(buf, pos, 4)?;
        let v = if sel == 0 {
            IntegerArgumentInfo::NoMinMax
        } else if sel == 1 {
            IntegerArgumentInfo::Min { min: min as u32 as i32 }
        } else if sel == 2 {
            IntegerArgumentInfo::Max { max: max as u32 as i32 }
        } else {
            IntegerArgumentInfo::MinMax { min: min as u32 as i32, max: max as u32 as i32 }
        };
        Ok((v, q))
    }

    pub fn size(&self) -> (r: usize)
        ensures
            r == self.spec_bytes().len(),
            r <= 17,
    {
        proof {
            crate::codec::lemma_be_roundtrip(0, 4);
        }
        match self {
            IntegerArgumentInfo::NoMinMax => 1,
            IntegerArgumentInfo::Min { min } => {
                proof {
                    crate::codec::lemma_be_roundtrip((*min as u32) as nat, 4);
                }
                1 + 4
            },
            IntegerArgumentInfo::Max { max } => {
                proof {
                    crate::codec::lemma_be_roundtrip((*max as u32) as nat, 4);
                }
                1 + 4
            },
            IntegerArgumentInfo::MinMax { min, max } => {
                proof {
                    crate::codec::lemma_be_roundtrip((*min as u32) as nat, 4);
                    crate::codec::lemma_be_roundtrip((*max as u32) as nat, 4);
                }
                1 + 2 * 4
            },
        }
    }
}

/// The bounds of a long argument.
#[derive(Debug, Clone, Copy, PartialEq, Eq, Structural)]
pub enum LongArgumentInfo {
    NoMinMax,
    Min { min: i64 },
    Max { max: i64 },
    MinMax { min: i64, max: i64 },
}

impl LongArgumentInfo {
    /// The key byte (the variant's position) and the bounds' bit patterns.
    pub open spec fn spec_bytes(self) -> Seq<u8> {
        match self {
            LongArgumentInfo::NoMinMax => bounds_bytes(0, None, None, 8),
            LongArgumentInfo::Min { min } => bounds_bytes(1, Some((min as u64) as nat), None, 8),
            LongArgumentInfo::Max { max } => bounds_bytes(2, None, Some((max as u64) as nat), 8),
            LongArgumentInfo::MinMax { min, max } => bounds_bytes(
                3,
                Some((min as u64) as nat),
                Some((max as u64) as nat),
                8,
            ),
        }
    }

    /// The bounds that a read key and bit patterns stand for.
    pub open spec fn spec_from_read(b: BoundsRead) -> LongArgumentInfo {
        if b.sel == 0 {
            LongArgumentInfo::NoMinMax
        } else if b.sel == 1 {
            LongArgumentInfo::Min { min: (b.min as u64) as i64 }
        } else if b.sel == 2 {
            LongArgumentInfo::Max { max: (b.max as u64) as i64 }
        } else {
            LongArgumentInfo::MinMax { min: (b.min as u64) as i64, max: (b.max as u64) as i64 }
        }
    }

    pub fn encode(&self, out: &mut Vec<u8>)
        ensures
            final(out)@ == old(out)@ + self.spec_bytes(),
    {
        let ghost start = out@;
        match self {
            LongArgumentInfo::NoMinMax => {
                out.push(0);
            },
            LongArgumentInfo::Min { min } => {
                out.push(1);
                write_be(out, *min as u64 as u64, 8);
            },
            LongArgumentInfo::Max { max } => {
                out.push(2);
                write_be(out, *max as u64 as u64, 8);
            },
            LongArgumentInfo::MinMax { min, max } => {
                out.push(3);
                write_be(out, *min as u64 as u64, 8);
                write_be(out, *max as u64 as u64, 8);
            },
        }
        assert(out@ =~= start + self.spec_bytes());
    }

    pub fn decode(buf: &[u8], pos: usize) -> (r: Result<(LongArgumentInfo, usize), TransportError>)
        requires
            pos <= buf@.len(),
        ensures
            match spec_read_bounds(buf@.skip(pos as int), 8) {
                Ok((b, k)) => r == Ok::<(LongArgumentInfo, usize), TransportError>(
                    (LongArgumentInfo::spec_from_read(b), (pos + k) as usize),
                ),
                Err(e) => r matches Err(err) && err.kind() == e,
            },
    {
        let (sel, min, max, q) = read_bounds(buf, pos, 8)?;
        let v = if sel == 0 {
            LongArgumentInfo::NoMinMax
        } else if sel == 1 {
            LongArgumentInfo::Min { min: min as u64 as i64 }
        } else if sel == 2 {
            LongArgumentInfo::Max { max: max as u64 as i64 }
        } else {
            LongArgumentInfo::MinMax { min: min as u64 as i64, max: max as u64 as i64 }
        };
        Ok((v, q))
    }

    pub fn size(&self) -> (r: usize)
        ensures
            r == self.spec_bytes().len(),
            r <= 17,
    {
        proof {
            crate::codec::lemma_be_roundtrip(0, 8);
        }
        match self {
            LongArgumentInfo::NoMinMax => 1,
            LongArgumentInfo::Min { min } => {
                proof {
                    crate::codec::lemma_be_roundtrip((*min as u64) as nat, 8);
                }
                1 + 8
            },
            LongArgumentInfo::Max { max } => {
                proof {
                    crate::codec::lemma_be_roundtrip((*max as u64) as nat, 8);
                }
                1 + 8
            },
            LongArgumentInfo::MinMax { min, max } => {
                proof {
                    crate::codec::lemma_be_roundtrip((*min as u64) as nat, 8);
                    crate::codec::lemma_be_roundtrip((*max as u64) as nat, 8);
                }
                1 + 2 * 8
            },
        }
    }
}

/// The bounds of a float argument, as bit patterns.
#[derive(Debug, Clone, Copy, PartialEq, Eq, Structural)]
pub enum FloatArgumentInfo {
    NoMinMax,
    Min { min: u32 },
    Max { max: u32 },
    MinMax { min: u32, max: u32 },
}

impl FloatArgumentInfo {
    /// The key byte (the variant's position) and the bounds' bit patterns.
    pub open spec fn spec_bytes(self) -> Seq<u8> {
        match self {
            FloatArgumentInfo::NoMinMax => bounds_bytes(0, None, None, 4),
            FloatArgumentInfo::Min { min } => bounds_bytes(1, Some(min as nat), None, 4),
            FloatArgumentInfo::Max { max } => bounds_bytes(2, None, Some(max as nat), 4),
            FloatArgumentInfo::MinMax { min, max } => bounds_bytes(
                3,
                Some(min as nat),
                Some(max as nat),
                4,
            ),
        }
    }

    /// The bounds that a read key and bit patterns stand for.
    pub open spec fn spec_from_read(b: BoundsRead) -> FloatArgumentInfo {
        if b.sel == 0 {
            FloatArgumentInfo::NoMinMax
        } else if b.sel == 1 {
            FloatArgumentInfo::Min { min: b.min as u32 }
        } else if b.sel == 2 {
            FloatArgumentInfo::Max { max: b.max as u32 }
        } else {
            FloatArgumentInfo::MinMax { min: b.min as u32, max: b.max as u32 }
        }
    }

    pub fn encode(&self, out: &mut Vec<u8>)
        ensures
            final(out)@ == old(out)@ + self.spec_bytes(),
    {
        let ghost start = out@;
        match self {
            FloatArgumentInfo::NoMinMax => {
                out.push(0);
            },
            FloatArgumentInfo::Min { min } => {
                out.push(1);
                write_be(out, *min as u64, 4);
            },
            FloatArgumentInfo::Max { max } => {
                out.push(2);
                write_be(out, *max as u64, 4);
            },
            FloatArgumentInfo::MinMax { min, max } => {
                out.push(3);
                write_be(out, *min as u64, 4);
                write_be(out, *max as u64, 4);
            },
        }
        assert(out@ =~= start + self.spec_bytes());
    }

    pub fn decode(buf: &[u8], pos: usize) -> (r: Result<(FloatArgumentInfo, usize), TransportError>)
        requires
            pos <= buf@.len(),
        ensures
            match spec_read_bounds(buf@.skip(pos as int), 4) {
                Ok((b, k)) => r == Ok::<(FloatArgumentInfo, usize), TransportError>(
                    (FloatArgumentInfo::spec_from_read(b), (pos + k) as usize),
                ),
                Err(e) => r matches Err(err) && err.kind() == e,
            },
    {
        let (sel, min, max, q) = read_bounds(buf, pos, 4)?;
        let v = if sel == 0 {
            FloatArgumentInfo::NoMinMax
        } else if sel == 1 {
            FloatArgumentInfo::Min { min: min as u32 }
        } else if sel == 2 {
            FloatArgumentInfo::Max { max: max as u32 }
        } else {
            FloatArgumentInfo::MinMax { min: min as u32, max: max as u32 }
        };
        Ok((v, q))
    }

    pub fn size(&self) -> (r: usize)
        ensures
            r == self.spec_bytes().len(),
            r <= 17,
    {
        proof {
            crate::codec::lemma_be_roundtrip(0, 4);
        }
        match self {
            FloatArgumentInfo::NoMinMax => 1,
            FloatArgumentInfo::Min { min } => {
                proof {
                    crate::codec::lemma_be_roundtrip(*min as nat, 4);
                }
                1 + 4
            },
            FloatArgumentInfo::Max { max } => {
                proof {
                    crate::codec::lemma_be_roundtrip(*max as nat, 4);
                }
                1 + 4
            },
            FloatArgumentInfo::MinMax { min, max } => {
                proof {
                    crate::codec::lemma_be_roundtrip(*min as nat, 4);
                    crate::codec::lemma_be_roundtrip(*max as nat, 4);
                }
                1 + 2 * 4
            },
        }
    }
}

/// The bounds of a double argument, as bit patterns.
#[derive(Debug, Clone, Copy, PartialEq, Eq, Structural)]
pub enum DoubleArgumentInfo {
    NoMinMax,
    Min { min: u64 },
    Max { max: u64 },
    MinMax { min: u64, max: u64 },
}

impl DoubleArgumentInfo {
    /// The key byte (the variant's position) and the bounds' bit patterns.
    pub open spec fn spec_bytes(self) -> Seq<u8> {
        match self {
            DoubleArgumentInfo::NoMinMax => bounds_bytes(0, None, None, 8),
            DoubleArgumentInfo::Min { min } => bounds_bytes(1, Some(min as nat), None, 8),
            DoubleArgumentInfo::Max { max } => bounds_bytes(2, None, Some(max as nat), 8),
            DoubleArgumentInfo::MinMax { min, max } => bounds_bytes(
                3,
                Some(min as nat),
                Some(max as nat),
                8,
            ),
        }
    }

    /// The bounds that a read key and bit patterns stand for.
    pub open spec fn spec_from_read(b: BoundsRead) -> DoubleArgumentInfo {
        if b.sel == 0 {
            DoubleArgumentInfo::NoMinMax
        } else if b.sel == 1 {
            DoubleArgumentInfo::Min { min: b.min as u64 }
        } else if b.sel == 2 {
            DoubleArgumentInfo::Max { max: b.max as u64 }
        } else {
            DoubleArgumentInfo::MinMax { min: b.min as u64, max: b.max as u64 }
        }
    }

    pub fn encode(&self, out: &mut Vec<u8>)
        ensures
            final(out)@ == old(out)@ + self.spec_bytes(),
    {
        let ghost start = out@;
        match self {
            DoubleArgumentInfo::NoMinMax => {
                out.push(0);
            },
            DoubleArgumentInfo::Min { min } => {
                out.push(1);
                write_be(out, *min as u64, 8);
            },
            DoubleArgumentInfo::Max { max } => {
                out.push(2);
                write_be(out, *max as u64, 8);
            },
            DoubleArgumentInfo::MinMax { min, max } => {
                out.push(3);
                write_be(out, *min as u64, 8);
                write_be(out, *max as u64, 8);
            },
        }
        assert(out@ =~= start + self.spec_bytes());
    }

    pub fn decode(buf: &[u8], pos: usize) -> (r: Result<(DoubleArgumentInfo, usize), TransportError>)
        requires
            pos <= buf@.len(),
        ensures
            match spec_read_bounds(buf@.skip(pos as int), 8) {
                Ok((b, k)) => r == Ok::<(DoubleArgumentInfo, usize), TransportError>(
                    (DoubleArgumentInfo::spec_from_read(b), (pos + k) as usize),
                ),
                Err(e) => r matches Err(err) && err.kind() == e,
            },
    {
        let (sel, min, max, q) = read_bounds(buf, pos, 8)?;
        let v = if sel == 0 {
            DoubleArgumentInfo::NoMinMax
        } else if sel == 1 {
            DoubleArgumentInfo::Min { min: min as u64 }
        } else if sel == 2 {
            DoubleArgumentInfo::Max { max: max as u64 }
        } else {
            DoubleArgumentInfo::MinMax { min: min as u64, max: max as u64 }
        };
        Ok((v, q))
    }

    pub fn size(&self) -> (r: usize)
        ensures
            r == self.spec_bytes().len(),
            r <= 17,
    {
        proof {
            crate::codec::lemma_be_roundtrip(0, 8);
        }
        match self {
            DoubleArgumentInfo::NoMinMax => 1,
            DoubleArgumentInfo::Min { min } => {
                proof {
                    crate::codec::lemma_be_roundtrip(*min as nat, 8);
                }
                1 + 8
            },
            DoubleArgumentInfo::Max { max } => {
                proof {
                    crate::codec::lemma_be_roundtrip(*max as nat, 8);
                }
                1 + 8
            },
            DoubleArgumentInfo::MinMax { min, max } => {
                proof {
                    crate::codec::lemma_be_roundtrip(*min as nat, 8);
                    crate::codec::lemma_be_roundtrip(*max as nat, 8);
                }
                1 + 2 * 8
            },
        }
    }
}

/// How a string argument reads its text.
#[derive(Debug, Clone, Copy, PartialEq, Eq, Structural)]
pub enum StringArgumentType {
    SingleWord,
    QuotablePhrase,
    GreedyPhrase,
}

impl StringArgumentType {
    pub open spec fn spec_key(self) -> i32 {
        match self {
            StringArgumentType::SingleWord => 0,
            StringArgumentType::QuotablePhrase => 1,
            StringArgumentType::GreedyPhrase => 2,
        }
    }

    pub open spec fn spec_from_key(k: i32) -> Option<StringArgumentType> {
        if k == 0 {
            Some(StringArgumentType::SingleWord)
        } else if k == 1 {
            Some(StringArgumentType::QuotablePhrase)
        } else if k == 2 {
            Some(StringArgumentType::GreedyPhrase)
        } else {
            None
        }
    }

    pub fn key(self) -> (r: i32)
        ensures
            r == self.spec_key(),
    {
        match self {
            StringArgumentType::SingleWord => 0,
            StringArgumentType::QuotablePhrase => 1,
            StringArgumentType::GreedyPhrase => 2,
        }
    }

    pub fn from_key(k: i32) -> (r: Option<StringArgumentType>)
        ensures
            r == StringArgumentType::spec_from_key(k),
    {
        match k {
            0 => Some(StringArgumentType::SingleWord),
            1 => Some(StringArgumentType::QuotablePhrase),
            2 => Some(StringArgumentType::GreedyPhrase),
            _ => None,
        }
    }
}

/// The parser of an argument node, with the parser's properties.
#[derive(Debug)]
pub enum ArgumentTypeInfo {
    Bool,
    Float { argument_type: FloatArgumentInfo },
    Double { argument_type: DoubleArgumentInfo },
    Integer { argument_type: IntegerArgumentInfo },
    Long { argument_type: LongArgumentInfo },
    String { argument_type: StringArgumentType },
    Entity { mask: i8 },
    GameProfile,
    BlockPos,
    ColumnPos,
    Vec3,
    Vec2,
    BlockState,
    BlockPredicate,
    ItemStack,
    ItemPredicate,
    Color,
    Component,
    Message,
    NbtCompoundTag,
    NbtTag,
    NbtPath,
    Objective,
    ObjectiveCriteria,
    Operation,
    Particle,
    Angle,
    Rotation,
    ScoreboardSlot,
    ScoreHolder { multiple: bool },
    Swizzle,
    Team,
    ItemSlot,
    ResourceLocation,
    MobEffect,
    Function,
    EntityAnchor,
    IntRange,
    FloatRange,
    Dimension,
    Gamemode,
    Time,
    ResourceOrTag { resource_location: String },
    ResourceOrTagKey { resource_location: String },
    Resource { resource_location: String },
    ResourceKey { resource_location: String },
    TemplateMirror,
    TemplateRotation,
    Uuid,
}

impl ArgumentTypeInfo {
    /// The parser's key on the wire: its position in declaration order.
    pub open spec fn spec_key(&self) -> i32 {
        match self {
            ArgumentTypeInfo::Bool => 0,
            ArgumentTypeInfo::Float { .. } => 1,
            ArgumentTypeInfo::Double { .. } => 2,
            ArgumentTypeInfo::Integer { .. } => 3,
            ArgumentTypeInfo::Long { .. } => 4,
            ArgumentTypeInfo::String { .. } => 5,
            ArgumentTypeInfo::Entity { .. } => 6,
            ArgumentTypeInfo::GameProfile => 7,
            ArgumentTypeInfo::BlockPos => 8,
            ArgumentTypeInfo::ColumnPos => 9,
            ArgumentTypeInfo::Vec3 => 10,
            ArgumentTypeInfo::Vec2 => 11,
            ArgumentTypeInfo::BlockState => 12,
            ArgumentTypeInfo::BlockPredicate => 13,
            ArgumentTypeInfo::ItemStack => 14,
            ArgumentTypeInfo::ItemPredicate => 15,
            ArgumentTypeInfo::Color => 16,
            ArgumentTypeInfo::Component => 17,
            ArgumentTypeInfo::Message => 18,
            ArgumentTypeInfo::NbtCompoundTag => 19,
            ArgumentTypeInfo::NbtTag => 20,
            ArgumentTypeInfo::NbtPath => 21,
            ArgumentTypeInfo::Objective => 22,
            ArgumentTypeInfo::ObjectiveCriteria => 23,
            ArgumentTypeInfo::Operation => 24,
            ArgumentTypeInfo::Particle => 25,
            ArgumentTypeInfo::Angle => 26,
            ArgumentTypeInfo::Rotation => 27,
            ArgumentTypeInfo::ScoreboardSlot => 28,
            ArgumentTypeInfo::ScoreHolder { .. } => 29,
            ArgumentTypeInfo::Swizzle => 30,
            ArgumentTypeInfo::Team => 31,
            ArgumentTypeInfo::ItemSlot => 32,
            ArgumentTypeInfo::ResourceLocation => 33,
            ArgumentTypeInfo::MobEffect => 34,
            ArgumentTypeInfo::Function => 35,
            ArgumentTypeInfo::EntityAnchor => 36,
            ArgumentTypeInfo::IntRange => 37,
            ArgumentTypeInfo::FloatRange => 38,
            ArgumentTypeInfo::Dimension => 39,
            ArgumentTypeInfo::Gamemode => 40,
            ArgumentTypeInfo::Time => 41,
            ArgumentTypeInfo::ResourceOrTag { .. } => 42,
            ArgumentTypeInfo::ResourceOrTagKey { .. } => 43,
            ArgumentTypeInfo::Resource { .. } => 44,
            ArgumentTypeInfo::ResourceKey { .. } => 45,
            ArgumentTypeInfo::TemplateMirror => 46,
            ArgumentTypeInfo::TemplateRotation => 47,
            ArgumentTypeInfo::Uuid => 48,
        }
    }

    pub fn key(&self) -> (r: i32)
        ensures
            r == self.spec_key(),
    {
        match self {
            ArgumentTypeInfo::Bool => 0,
            ArgumentTypeInfo::Float { .. } => 1,
            ArgumentTypeInfo::Double { .. } => 2,
            ArgumentTypeInfo::Integer { .. } => 3,
            ArgumentTypeInfo::Long { .. } => 4,
            ArgumentTypeInfo::String { .. } => 5,
            ArgumentTypeInfo::Entity { .. } => 6,
            ArgumentTypeInfo::GameProfile => 7,
            ArgumentTypeInfo::BlockPos => 8,
            ArgumentTypeInfo::ColumnPos => 9,
            ArgumentTypeInfo::Vec3 => 10,
            ArgumentTypeInfo::Vec2 => 11,
            ArgumentTypeInfo::BlockState => 12,
            ArgumentTypeInfo::BlockPredicate => 13,
            ArgumentTypeInfo::ItemStack => 14,
            ArgumentTypeInfo::ItemPredicate => 15,
            ArgumentTypeInfo::Color => 16,
            ArgumentTypeInfo::Component => 17,
            ArgumentTypeInfo::Message => 18,
            ArgumentTypeInfo::NbtCompoundTag => 19,
            ArgumentTypeInfo::NbtTag => 20,
            ArgumentTypeInfo::NbtPath => 21,
            ArgumentTypeInfo::Objective => 22,
            ArgumentTypeInfo::ObjectiveCriteria => 23,
            ArgumentTypeInfo::Operation => 24,
            ArgumentTypeInfo::Particle => 25,
            ArgumentTypeInfo::Angle => 26,
            ArgumentTypeInfo::Rotation => 27,
            ArgumentTypeInfo::ScoreboardSlot => 28,
            ArgumentTypeInfo::ScoreHolder { .. } => 29,
            ArgumentTypeInfo::Swizzle => 30,
            ArgumentTypeInfo::Team => 31,
            ArgumentTypeInfo::ItemSlot => 32,
            ArgumentTypeInfo::ResourceLocation => 33,
            ArgumentTypeInfo::MobEffect => 34,
            ArgumentTypeInfo::Function => 35,
            ArgumentTypeInfo::EntityAnchor => 36,
            ArgumentTypeInfo::IntRange => 37,
            ArgumentTypeInfo::FloatRange => 38,
            ArgumentTypeInfo::Dimension => 39,
            ArgumentTypeInfo::Gamemode => 40,
            ArgumentTypeInfo::Time => 41,
            ArgumentTypeInfo::ResourceOrTag { .. } => 42,
            ArgumentTypeInfo::ResourceOrTagKey { .. } => 43,
            ArgumentTypeInfo::Resource { .. } => 44,
            ArgumentTypeInfo::ResourceKey { .. } => 45,
            ArgumentTypeInfo::TemplateMirror => 46,
            ArgumentTypeInfo::TemplateRotation => 47,
            ArgumentTypeInfo::Uuid => 48,
        }
    }

    /// The parser without properties that a key stands for.
    pub open spec fn spec_unit(k: i32) -> Option<ArgumentTypeInfo> {
        if k == 0 {
            Some(ArgumentTypeInfo::Bool)
        } else if k == 7 {
            Some(ArgumentTypeInfo::GameProfile)
        } else if k == 8 {
            Some(ArgumentTypeInfo::BlockPos)
        } else if k == 9 {
            Some(ArgumentTypeInfo::ColumnPos)
        } else if k == 10 {
            Some(ArgumentTypeInfo::Vec3)
        } else if k == 11 {
            Some(ArgumentTypeInfo::Vec2)
        } else if k == 12 {
            Some(ArgumentTypeInfo::BlockState)
        } else if k == 13 {
            Some(ArgumentTypeInfo::BlockPredicate)
        } else if k == 14 {
            Some(ArgumentTypeInfo::ItemStack)
        } else if k == 15 {
            Some(ArgumentTypeInfo::ItemPredicate)
        } else if k == 16 {
            Some(ArgumentTypeInfo::Color)
        } else if k == 17 {
            Some(ArgumentTypeInfo::Component)
        } else if k == 18 {
            Some(ArgumentTypeInfo::Message)
        } else if k == 19 {
            Some(ArgumentTypeInfo::NbtCompoundTag)
        } else if k == 20 {
            Some(ArgumentTypeInfo::NbtTag)
        } else if k == 21 {
            Some(ArgumentTypeInfo::NbtPath)
        } else if k == 22 {
            Some(ArgumentTypeInfo::Objective)
        } else if k == 23 {
            Some(ArgumentTypeInfo::ObjectiveCriteria)
        } else if k == 24 {
            Some(ArgumentTypeInfo::Operation)
        } else if k == 25 {
            Some(ArgumentTypeInfo::Particle)
        } else if k == 26 {
            Some(ArgumentTypeInfo::Angle)
        } else if k == 27 {
            Some(ArgumentTypeInfo::Rotation)
        } else if k == 28 {
            Some(ArgumentTypeInfo::ScoreboardSlot)
        } else if k == 30 {
            Some(ArgumentTypeInfo::Swizzle)
        } else if k == 31 {
            Some(ArgumentTypeInfo::Team)
        } else if k == 32 {
            Some(ArgumentTypeInfo::ItemSlot)
        } else if k == 33 {
            Some(ArgumentTypeInfo::ResourceLocation)
        } else if k == 34 {
            Some(ArgumentTypeInfo::MobEffect)
        } else if k == 35 {
            Some(ArgumentTypeInfo::Function)
        } else if k == 36 {
            Some(ArgumentTypeInfo::EntityAnchor)
        } else if k == 37 {
            Some(ArgumentTypeInfo::IntRange)
        } else if k == 38 {
            Some(ArgumentTypeInfo::FloatRange)
        } else if k == 39 {
            Some(ArgumentTypeInfo::Dimension)
        } else if k == 40 {
            Some(ArgumentTypeInfo::Gamemode)
        } else if k == 41 {
            Some(ArgumentTypeInfo::Time)
        } else if k == 46 {
            Some(ArgumentTypeInfo::TemplateMirror)
        } else if k == 47 {
            Some(ArgumentTypeInfo::TemplateRotation)
        } else if k == 48 {
            Some(ArgumentTypeInfo::Uuid)
        } else {
            None
        }
    }

    pub fn unit(k: i32) -> (r: Option<ArgumentTypeInfo>)
        ensures
            r == ArgumentTypeInfo::spec_unit(k),
    {
        match k {
            0 => Some(ArgumentTypeInfo::Bool),
            7 => Some(ArgumentTypeInfo::GameProfile),
            8 => Some(ArgumentTypeInfo::BlockPos),
            9 => Some(ArgumentTypeInfo::ColumnPos),
            10 => Some(ArgumentTypeInfo::Vec3),
            11 => Some(ArgumentTypeInfo::Vec2),
            12 => Some(ArgumentTypeInfo::BlockState),
            13 => Some(ArgumentTypeInfo::BlockPredicate),
            14 => Some(ArgumentTypeInfo::ItemStack),
            15 => Some(ArgumentTypeInfo::ItemPredicate),
            16 => Some(ArgumentTypeInfo::Color),
            17 => Some(ArgumentTypeInfo::Component),
            18 => Some(ArgumentTypeInfo::Message),
            19 => Some(ArgumentTypeInfo::NbtCompoundTag),
            20 => Some(ArgumentTypeInfo::NbtTag),
            21 => Some(ArgumentTypeInfo::NbtPath),
            22 => Some(ArgumentTypeInfo::Objective),
            23 => Some(ArgumentTypeInfo::ObjectiveCriteria),
            24 => Some(ArgumentTypeInfo::Operation),
            25 => Some(ArgumentTypeInfo::Particle),
            26 => Some(ArgumentTypeInfo::Angle),
            27 => Some(ArgumentTypeInfo::Rotation),
            28 => Some(ArgumentTypeInfo::ScoreboardSlot),
            30 => Some(ArgumentTypeInfo::Swizzle),
            31 => Some(ArgumentTypeInfo::Team),
            32 => Some(ArgumentTypeInfo::ItemSlot),
            33 => Some(ArgumentTypeInfo::ResourceLocation),
            34 => Some(ArgumentTypeInfo::MobEffect),
            35 => Some(ArgumentTypeInfo::Function),
            36 => Some(ArgumentTypeInfo::EntityAnchor),
            37 => Some(ArgumentTypeInfo::IntRange),
            38 => Some(ArgumentTypeInfo::FloatRange),
            39 => Some(ArgumentTypeInfo::Dimension),
            40 => Some(ArgumentTypeInfo::Gamemode),
            41 => Some(ArgumentTypeInfo::Time),
            46 => Some(ArgumentTypeInfo::TemplateMirror),
            47 => Some(ArgumentTypeInfo::TemplateRotation),
            48 => Some(ArgumentTypeInfo::Uuid),
            _ => None,
        }
    }

    /// The parser's properties as written; a resource location beyond the string limit is
    /// refused.
    pub open spec fn spec_payload(&self) -> Result<Seq<u8>, ErrorKind> {
        match self {
            ArgumentTypeInfo::Float { argument_type } => Ok(argument_type.spec_bytes()),
            ArgumentTypeInfo::Double { argument_type } => Ok(argument_type.spec_bytes()),
            ArgumentTypeInfo::Integer { argument_type } => Ok(argument_type.spec_bytes()),
            ArgumentTypeInfo::Long { argument_type } => Ok(argument_type.spec_bytes()),
            ArgumentTypeInfo::String { argument_type } => Ok(spec_var_int(argument_type.spec_key())),
            ArgumentTypeInfo::Entity { mask } => Ok(seq![*mask as u8]),
            ArgumentTypeInfo::ScoreHolder { multiple } => Ok(spec_bool(*multiple)),
            ArgumentTypeInfo::ResourceOrTag { resource_location } => string_result(resource_location@),
            ArgumentTypeInfo::ResourceOrTagKey { resource_location } => string_result(
                resource_location@,
            ),
            ArgumentTypeInfo::Resource { resource_location } => string_result(resource_location@),
            ArgumentTypeInfo::ResourceKey { resource_location } => string_result(resource_location@),
            _ => Ok(seq![]),
        }
    }

    /// The encoding: the key as a VarInt, then the properties.
    pub open spec fn spec_encode(&self) -> Result<Seq<u8>, ErrorKind> {
        then_bytes(Ok(spec_var_int(self.spec_key())), self.spec_payload())
    }

    /// The resource location's text, for the parsers that carry one.
    pub open spec fn spec_location(&self) -> Option<Seq<char>> {
        match self {
            ArgumentTypeInfo::ResourceOrTag { resource_location } => Some(resource_location@),
            ArgumentTypeInfo::ResourceOrTagKey { resource_location } => Some(resource_location@),
            ArgumentTypeInfo::Resource { resource_location } => Some(resource_location@),
            ArgumentTypeInfo::ResourceKey { resource_location } => Some(resource_location@),
            _ => None,
        }
    }

    /// Its resource location's bytes fit an `i32` length.
    pub open spec fn fits(&self) -> bool {
        self.spec_location() matches Some(l) ==> utf8_bytes(l).len() <= i32::MAX
    }

    /// Appends the parser; refused, with nothing appended, when its resource location is beyond
    /// the string limit.
    pub fn encode(&self, out: &mut Vec<u8>) -> (r: Result<(), TransportError>)
        requires
            self.fits(),
        ensures
            match self.spec_encode() {
                Ok(b) => r is Ok && final(out)@ == old(out)@ + b,
                Err(e) => r matches Err(x) && x.kind() == e && final(out)@ == old(out)@,
            },
    {
        let mut buf: Vec<u8> = Vec::new();
        write_var_int(&mut buf, self.key());
        match self {
            ArgumentTypeInfo::Float { argument_type } => argument_type.encode(&mut buf),
            ArgumentTypeInfo::Double { argument_type } => argument_type.encode(&mut buf),
            ArgumentTypeInfo::Integer { argument_type } => argument_type.encode(&mut buf),
            ArgumentTypeInfo::Long { argument_type } => argument_type.encode(&mut buf),
            ArgumentTypeInfo::String { argument_type } => write_var_int(&mut buf, argument_type.key()),
            ArgumentTypeInfo::Entity { mask } => buf.push(*mask as u8),
            ArgumentTypeInfo::ScoreHolder { multiple } => write_bool(&mut buf, *multiple),
            ArgumentTypeInfo::ResourceOrTag { resource_location } => {
                let b = string_bytes(resource_location)?;
                append(&mut buf, &b);
            },
            ArgumentTypeInfo::ResourceOrTagKey { resource_location } => {
                let b = string_bytes(resource_location)?;
                append(&mut buf, &b);
            },
            ArgumentTypeInfo::Resource { resource_location } => {
                let b = string_bytes(resource_location)?;
                append(&mut buf, &b);
            },
            ArgumentTypeInfo::ResourceKey { resource_location } => {
                let b = string_bytes(resource_location)?;
                append(&mut buf, &b);
            },
            _ => {},
        }
        assert(buf@ =~= self.spec_encode()->Ok_0);
        append(out, &buf);
        Ok(())
    }

    /// The length of the properties as written, whatever their strings' lengths.
    pub open spec fn spec_payload_len(&self) -> nat {
        match self {
            ArgumentTypeInfo::Float { argument_type } => argument_type.spec_bytes().len(),
            ArgumentTypeInfo::Double { argument_type } => argument_type.spec_bytes().len(),
            ArgumentTypeInfo::Integer { argument_type } => argument_type.spec_bytes().len(),
            ArgumentTypeInfo::Long { argument_type } => argument_type.spec_bytes().len(),
            ArgumentTypeInfo::String { argument_type } => spec_var_int(argument_type.spec_key()).len(),
            ArgumentTypeInfo::Entity { .. } => 1,
            ArgumentTypeInfo::ScoreHolder { .. } => 1,
            ArgumentTypeInfo::ResourceOrTag { resource_location } => spec_string(resource_location@).len(),
            ArgumentTypeInfo::ResourceOrTagKey { resource_location } => spec_string(
                resource_location@,
            ).len(),
            ArgumentTypeInfo::Resource { resource_location } => spec_string(resource_location@).len(),
            ArgumentTypeInfo::ResourceKey { resource_location } => spec_string(resource_location@).len(),
            _ => 0,
        }
    }

    /// The length of the encoding, whatever the strings' lengths.
    pub open spec fn spec_size(&self) -> nat {
        spec_var_int(self.spec_key()).len() + self.spec_payload_len()
    }

    /// Number of bytes of the encoding.
    pub fn size(&self) -> (r: usize)
        requires
            self.fits(),
        ensures
            r == self.spec_size(),
            self.spec_encode() matches Ok(b) ==> r == b.len(),
    {
        let k = size_var_int(self.key());
        let payload: usize = match self {
            ArgumentTypeInfo::Float { argument_type } => argument_type.size(),
            ArgumentTypeInfo::Double { argument_type } => argument_type.size(),
            ArgumentTypeInfo::Integer { argument_type } => argument_type.size(),
            ArgumentTypeInfo::Long { argument_type } => argument_type.size(),
            ArgumentTypeInfo::String { argument_type } => size_var_int(argument_type.key()),
            ArgumentTypeInfo::Entity { .. } => 1,
            ArgumentTypeInfo::ScoreHolder { .. } => 1,
            ArgumentTypeInfo::ResourceOrTag { resource_location } => DelegateStr::size(
                resource_location.as_str(),
            ),
            ArgumentTypeInfo::ResourceOrTagKey { resource_location } => DelegateStr::size(
                resource_location.as_str(),
            ),
            ArgumentTypeInfo::Resource { resource_location } => DelegateStr::size(
                resource_location.as_str(),
            ),
            ArgumentTypeInfo::ResourceKey { resource_location } => DelegateStr::size(
                resource_location.as_str(),
            ),
            _ => 0,
        };
        proof {
            crate::codec::lemma_var_int_roundtrip(self.spec_key(), seq![]);
            match self.spec_location() {
                Some(l) => {
                    crate::codec::lemma_var_int_roundtrip(utf8_bytes(l).len() as i32, seq![]);
                },
                None => {},
            }
            match self {
                ArgumentTypeInfo::String { argument_type } => {
                    crate::codec::lemma_var_int_roundtrip(argument_type.spec_key(), seq![]);
                },
                _ => {},
            }
        }
        k + payload
    }
}

/// What a parser's properties were read as.
pub ghost enum ArgumentDetail {
    Plain,
    Bounds(BoundsRead),
    StringKind(StringArgumentType),
    Mask(i8),
    Flag(bool),
    Text(Seq<u8>),
}

/// `a` is the parser read as key `key` with properties `d`.
pub open spec fn argument_is(a: ArgumentTypeInfo, key: i32, d: ArgumentDetail) -> bool {
    &&& a.spec_key() == key
    &&& match d {
        ArgumentDetail::Plain => ArgumentTypeInfo::spec_unit(key) == Some(a),
        ArgumentDetail::Bounds(b) => match a {
            ArgumentTypeInfo::Float { argument_type } => argument_type
                == FloatArgumentInfo::spec_from_read(b),
            ArgumentTypeInfo::Double { argument_type } => argument_type
                == DoubleArgumentInfo::spec_from_read(b),
            ArgumentTypeInfo::Integer { argument_type } => argument_type
                == IntegerArgumentInfo::spec_from_read(b),
            ArgumentTypeInfo::Long { argument_type } => argument_type
                == LongArgumentInfo::spec_from_read(b),
            _ => false,
        },
        ArgumentDetail::StringKind(t) => a == ArgumentTypeInfo::String { argument_type: t },
        ArgumentDetail::Mask(m) => a == ArgumentTypeInfo::Entity { mask: m },
        ArgumentDetail::Flag(f) => a == ArgumentTypeInfo::ScoreHolder { multiple: f },
        ArgumentDetail::Text(t) => a.spec_location() matches Some(l) && utf8_bytes(l) == t,
    }
}

/// The width of the bounds of parser `key`, for the numeric parsers.
pub open spec fn bounds_width(key: i32) -> nat {
    if key == 1 || key == 3 {
        4
    } else {
        8
    }
}

/// What reading a parser from the start of `s` gives: its key as a VarInt, then its
/// properties.
#[verifier::opaque]
pub open spec fn spec_read_argument(s: Seq<u8>) -> Result<((i32, ArgumentDetail), nat), ErrorKind> {
    match spec_read_var_int(s) {
        Err(e) => Err(e),
        Ok((key, k)) => if key < 0 || key > 48 {
            Err(ErrorKind::Explain("Invalid argument type."@))
        } else if 1 <= key <= 4 {
            match spec_read_bounds(s.skip(k as int), bounds_width(key)) {
                Err(e) => Err(e),
                Ok((b, k2)) => Ok(((key, ArgumentDetail::Bounds(b)), k + k2)),
            }
        } else if key == 5 {
            match spec_read_var_int(s.skip(k as int)) {
                Err(e) => Err(e),
                Ok((t, k2)) => match StringArgumentType::spec_from_key(t) {
                    None => Err(ErrorKind::Explain("Invalid string argument type."@)),
                    Some(st) => Ok(((key, ArgumentDetail::StringKind(st)), k + k2)),
                },
            }
        } else if key == 6 {
            if k >= s.len() {
                Err(ErrorKind::EndOfInput)
            } else {
                Ok(((key, ArgumentDetail::Mask(s[k as int] as i8)), k + 1))
            }
        } else if key == 29 {
            if k >= s.len() {
                Err(ErrorKind::EndOfInput)
            } else {
                Ok(((key, ArgumentDetail::Flag(s[k as int] != 0)), k + 1))
            }
        } else if 42 <= key <= 45 {
            match spec_read_string(s.skip(k as int), STRING_DEFAULT_CAP) {
                Err(e) => Err(e),
                Ok((t, k2)) => Ok(((key, ArgumentDetail::Text(t)), k + k2)),
            }
        } else {
            Ok(((key, ArgumentDetail::Plain), k))
        },
    }
}

/// The id the protocol gives each argument parser: its place in the protocol's list of
/// parsers (bool first, uuid last).
pub open spec fn protocol_parser_id(a: ArgumentTypeInfo) -> i32 {
    match a {
        ArgumentTypeInfo::Bool => 0,
        ArgumentTypeInfo::Float { .. } => 1,
        ArgumentTypeInfo::Double { .. } => 2,
        ArgumentTypeInfo::Integer { .. } => 3,
        ArgumentTypeInfo::Long { .. } => 4,
        ArgumentTypeInfo::String { .. } => 5,
        ArgumentTypeInfo::Entity { .. } => 6,
        ArgumentTypeInfo::GameProfile => 7,
        ArgumentTypeInfo::BlockPos => 8,
        ArgumentTypeInfo::ColumnPos => 9,
        ArgumentTypeInfo::Vec3 => 10,
        ArgumentTypeInfo::Vec2 => 11,
        ArgumentTypeInfo::BlockState => 12,
        ArgumentTypeInfo::BlockPredicate => 13,
        ArgumentTypeInfo::ItemStack => 14,
        ArgumentTypeInfo::ItemPredicate => 15,
        ArgumentTypeInfo::Color => 16,
        ArgumentTypeInfo::Component => 17,
        ArgumentTypeInfo::Message => 18,
        ArgumentTypeInfo::NbtCompoundTag => 19,
        ArgumentTypeInfo::NbtTag => 20,
        ArgumentTypeInfo::NbtPath => 21,
        ArgumentTypeInfo::Objective => 22,
        ArgumentTypeInfo::ObjectiveCriteria => 23,
        ArgumentTypeInfo::Operation => 24,
        ArgumentTypeInfo::Particle => 25,
        ArgumentTypeInfo::Angle => 26,
        ArgumentTypeInfo::Rotation => 27,
        ArgumentTypeInfo::ScoreboardSlot => 28,
        ArgumentTypeInfo::ScoreHolder { .. } => 29,
        ArgumentTypeInfo::Swizzle => 30,
        ArgumentTypeInfo::Team => 31,
        ArgumentTypeInfo::ItemSlot => 32,
        ArgumentTypeInfo::ResourceLocation => 33,
        ArgumentTypeInfo::MobEffect => 34,
        ArgumentTypeInfo::Function => 35,
        ArgumentTypeInfo::EntityAnchor => 36,
        ArgumentTypeInfo::IntRange => 37,
        ArgumentTypeInfo::FloatRange => 38,
        ArgumentTypeInfo::Dimension => 39,
        ArgumentTypeInfo::Gamemode => 40,
        ArgumentTypeInfo::Time => 41,
        ArgumentTypeInfo::ResourceOrTag { .. } => 42,
        ArgumentTypeInfo::ResourceOrTagKey { .. } => 43,
        ArgumentTypeInfo::Resource { .. } => 44,
        ArgumentTypeInfo::ResourceKey { .. } => 45,
        ArgumentTypeInfo::TemplateMirror => 46,
        ArgumentTypeInfo::TemplateRotation => 47,
        ArgumentTypeInfo::Uuid => 48,
    }
}

/// A parser is written with its protocol id first.
pub proof fn law_argument_written_with_its_id(a: ArgumentTypeInfo)
    ensures
        a.spec_encode() matches Ok(b) ==> spec_var_int(protocol_parser_id(a)).is_prefix_of(b),
{
    if a.spec_encode() is Ok {
        let b = a.spec_encode()->Ok_0;
        assert(b =~= spec_var_int(protocol_parser_id(a)) + a.spec_payload()->Ok_0);
        assert(b.subrange(0, spec_var_int(protocol_parser_id(a)).len() as int) =~= spec_var_int(
            protocol_parser_id(a),
        ));
    }
}

/// A parser read back is the one whose protocol id was read: reading id 10 gives the vec3
/// parser, 11 the vec2 parser, and so on for every id.
pub proof fn law_argument_read_by_its_id(a: ArgumentTypeInfo, key: i32, d: ArgumentDetail)
    requires
        argument_is(a, key, d),
    ensures
        key == protocol_parser_id(a),
{
}

fn explain(text: &str) -> (r: TransportError)
    ensures
        r.kind() == ErrorKind::Explain(text@),
{
    TransportError::Explain(String::from_str(text))
}

impl ArgumentTypeInfo {
    /// Reads a parser at `pos`.
    #[verifier::rlimit(40)]
    pub fn decode(buf: &[u8], pos: usize) -> (r: Result<(ArgumentTypeInfo, usize), TransportError>)
        requires
            pos <= buf@.len(),
        ensures
            match spec_read_argument(buf@.skip(pos as int)) {
                Ok(((key, d), k)) => r matches Ok((a, q)) && argument_is(a, key, d) && q == pos + k,
                Err(e) => r matches Err(err) && err.kind() == e,
            },
            r matches Ok((_, q)) ==> pos <= q <= buf@.len(),
    {
        reveal(spec_read_argument);
        let ghost s = buf@.skip(pos as int);
        let blen = buf.len();
        proof {
            lemma_scan_range(s, 0, 5);
        }
        let (key, p) = read_var_int(buf, pos)?;
        if key < 0 || key > 48 {
            return Err(explain("Invalid argument type."));
        }
        assert(s.skip((p - pos) as int) =~= buf@.skip(p as int));
        if key == 1 {
            let (t, q) = FloatArgumentInfo::decode(buf, p)?;
            return Ok((ArgumentTypeInfo::Float { argument_type: t }, q));
        }
        if key == 2 {
            let (t, q) = DoubleArgumentInfo::decode(buf, p)?;
            return Ok((ArgumentTypeInfo::Double { argument_type: t }, q));
        }
        if key == 3 {
            let (t, q) = IntegerArgumentInfo::decode(buf, p)?;
            return Ok((ArgumentTypeInfo::Integer { argument_type: t }, q));
        }
        if key == 4 {
            let (t, q) = LongArgumentInfo::decode(buf, p)?;
            return Ok((ArgumentTypeInfo::Long { argument_type: t }, q));
        }
        if key == 5 {
            proof {
                lemma_scan_range(buf@.skip(p as int), 0, 5);
            }
            let (t, q) = read_var_int(buf, p)?;
            return match StringArgumentType::from_key(t) {
                Some(st) => Ok((ArgumentTypeInfo::String { argument_type: st }, q)),
                None => Err(explain("Invalid string argument type.")),
            };
        }
        if key == 6 || key == 29 {
            if p >= blen {
                return Err(TransportError::EndOfInput);
            }
            assert(s[(p - pos) as int] == buf@[p as int]);
            if key == 6 {
                return Ok((ArgumentTypeInfo::Entity { mask: buf[p] as i8 }, p + 1));
            }
            return Ok((ArgumentTypeInfo::ScoreHolder { multiple: buf[p] != 0 }, p + 1));
        }
        if 42 <= key && key <= 45 {
            let (text, q) = read_string(buf, p, STRING_DEFAULT_CAP)?;
            let a = if key == 42 {
                ArgumentTypeInfo::ResourceOrTag { resource_location: text }
            } else if key == 43 {
                ArgumentTypeInfo::ResourceOrTagKey { resource_location: text }
            } else if key == 44 {
                ArgumentTypeInfo::Resource { resource_location: text }
            } else {
                ArgumentTypeInfo::ResourceKey { resource_location: text }
            };
            return Ok((a, q));
        }
        match ArgumentTypeInfo::unit(key) {
            Some(a) => Ok((a, p)),
            None => Err(explain("Invalid argument type.")),
        }
    }
}

/// A node of the command graph.
#[derive(Debug)]
pub enum CommandNode {
    Root { entry: CommandEntry },
    Literal { entry: CommandEntry, literal: String },
    Argument {
        entry: CommandEntry,
        argument_id: String,
        argument_type_info: ArgumentTypeInfo,
        resource_location: Option<String>,
    },
}

/// Whether the flags say the node redirects (bit 8).
pub open spec fn has_redirect(flags: i8) -> bool {
    ((flags as u8) / 8) % 2 == 1
}

/// Whether the flags say the node names a suggestions type (bit 16).
pub open spec fn has_suggestions(flags: i8) -> bool {
    ((flags as u8) / 16) % 2 == 1
}

/// The node kind the flags name (their low two bits): 0 root, 1 literal, 2 argument.
pub open spec fn node_kind(flags: i8) -> u8 {
    ((flags as u8) % 4) as u8
}

/// VarInts one after the other.
pub open spec fn var_ints_bytes(s: Seq<i32>) -> Seq<u8>
    decreases s.len(),
{
    if s.len() == 0 {
        seq![]
    } else {
        var_ints_bytes(s.drop_last()) + spec_var_int(s.last())
    }
}

/// The encoding of a node's head: the flags byte, the children as a counted list of VarInts,
/// then the redirect when the flags say so.
pub open spec fn entry_bytes(e: CommandEntry) -> Seq<u8> {
    seq![e.flags as u8] + spec_var_int(e.children@.len() as i32) + var_ints_bytes(e.children@) + if has_redirect(
        e.flags,
    ) {
        spec_var_int(e.redirect)
    } else {
        seq![]
    }
}

impl CommandNode {
    pub open spec fn spec_entry(&self) -> CommandEntry {
        match self {
            CommandNode::Root { entry } => *entry,
            CommandNode::Literal { entry, .. } => *entry,
            CommandNode::Argument { entry, .. } => *entry,
        }
    }

    /// The encoding: the head, then the literal, or the argument's name, parser and
    /// suggestions type; a string beyond the string limit is refused.
    pub open spec fn spec_encode(&self) -> Result<Seq<u8>, ErrorKind> {
        let head = Ok(entry_bytes(self.spec_entry()));
        match self {
            CommandNode::Root { .. } => head,
            CommandNode::Literal { literal, .. } => then_bytes(head, string_result(literal@)),
            CommandNode::Argument { argument_id, argument_type_info, resource_location, .. } =>
                then_bytes(
                then_bytes(then_bytes(head, string_result(argument_id@)), argument_type_info.spec_encode()),
                match resource_location {
                    None => Ok(seq![]),
                    Some(l) => string_result(l@),
                },
            ),
        }
    }

    /// The node's lengths fit an `i32`.
    pub open spec fn fits(&self) -> bool {
        &&& self.spec_entry().children@.len() <= i32::MAX
        &&& match self {
            CommandNode::Root { .. } => true,
            CommandNode::Literal { literal, .. } => utf8_bytes(literal@).len() <= i32::MAX,
            CommandNode::Argument { argument_id, argument_type_info, resource_location, .. } => {
                &&& utf8_bytes(argument_id@).len() <= i32::MAX
                &&& argument_type_info.fits()
                &&& resource_location matches Some(l) ==> utf8_bytes(l@).len() <= i32::MAX
            },
        }
    }

    fn entry(&self) -> (r: &CommandEntry)
        ensures
            *r == self.spec_entry(),
    {
        match self {
            CommandNode::Root { entry } => entry,
            CommandNode::Literal { entry, .. } => entry,
            CommandNode::Argument { entry, .. } => entry,
        }
    }

    /// Appends the node; refused, with nothing appended, when a string is beyond the string
    /// limit.
    pub fn encode(&self, out: &mut Vec<u8>) -> (r: Result<(), TransportError>)
        requires
            self.fits(),
        ensures
            match self.spec_encode() {
                Ok(b) => r is Ok && final(out)@ == old(out)@ + b,
                Err(e) => r matches Err(x) && x.kind() == e && final(out)@ == old(out)@,
            },
    {
        let entry = self.entry();
        let mut buf: Vec<u8> = Vec::new();
        buf.push(entry.flags as u8);
        write_var_int(&mut buf, entry.children.len() as i32);
        let ghost head = buf@;
        let mut i: usize = 0;
        while i < entry.children.len()
            invariant
                i <= entry.children@.len(),
                buf@ == head + var_ints_bytes(entry.children@.subrange(0, i as int)),
            decreases entry.children@.len() - i,
        {
            write_var_int(&mut buf, entry.children[i]);
            assert(entry.children@.subrange(0, i + 1).drop_last() =~= entry.children@.subrange(0, i as int));
            i = i + 1;
        }
        assert(entry.children@.subrange(0, entry.children@.len() as int) =~= entry.children@);
        if (entry.flags as u8) / 8 % 2 == 1 {
            write_var_int(&mut buf, entry.redirect);
        }
        assert(buf@ =~= entry_bytes(*entry));
        match self {
            CommandNode::Root { .. } => {},
            CommandNode::Literal { literal, .. } => {
                let b = string_bytes(literal)?;
                append(&mut buf, &b);
            },
            CommandNode::Argument { argument_id, argument_type_info, resource_location, .. } => {
                let b = string_bytes(argument_id)?;
                append(&mut buf, &b);
                argument_type_info.encode(&mut buf)?;
                match resource_location {
                    Some(l) => {
                        let lb = string_bytes(l)?;
                        append(&mut buf, &lb);
                    },
                    None => {},
                }
            },
        }
        assert(buf@ =~= self.spec_encode()->Ok_0);
        append(out, &buf);
        Ok(())
    }
}

/// What reading `n` VarInts one after the other from the start of `s` gives.
pub open spec fn spec_read_var_ints(s: Seq<u8>, n: nat) -> Result<(Seq<i32>, nat), ErrorKind>
    decreases n,
{
    if n == 0 {
        Ok((seq![], 0))
    } else {
        match spec_read_var_int(s) {
            Err(e) => Err(e),
            Ok((v, k)) => match spec_read_var_ints(s.skip(k as int), (n - 1) as nat) {
                Err(e) => Err(e),
                Ok((vs, k2)) => Ok((seq![v] + vs, k + k2)),
            },
        }
    }
}

/// Reads `n` VarInts one after the other at `pos`.
fn read_var_ints(buf: &[u8], pos: usize, n: usize) -> (r: Result<(Vec<i32>, usize), TransportError>)
    requires
        pos <= buf@.len(),
    ensures
        match spec_read_var_ints(buf@.skip(pos as int), n as nat) {
            Ok((v, k)) => r matches Ok((vs, q)) && vs@ == v && q == pos + k,
            Err(e) => r matches Err(err) && err.kind() == e,
        },
        r matches Ok((_, q)) ==> pos <= q <= buf@.len(),
{
    let ghost s = buf@.skip(pos as int);
    let blen = buf.len();
    let mut out: Vec<i32> = Vec::new();
    let mut at: usize = pos;
    let mut i: usize = 0;
    while i < n
        invariant
            i <= n,
            pos <= at <= buf@.len(),
            blen == buf@.len(),
            s == buf@.skip(pos as int),
            out@.len() == i,
            match spec_read_var_ints(s, n as nat) {
                Ok((v, k)) => match spec_read_var_ints(buf@.skip(at as int), (n - i) as nat) {
                    Ok((rest, k2)) => v == out@ + rest && k == (at - pos) + k2,
                    Err(_) => false,
                },
                Err(e) => spec_read_var_ints(buf@.skip(at as int), (n - i) as nat) == Err::<
                    (Seq<i32>, nat),
                    ErrorKind,
                >(e),
            },
        decreases n - i,
    {
        let ghost t = buf@.skip(at as int);
        proof {
            lemma_scan_range(t, 0, 5);
        }
        let (v, next) = match read_var_int(buf, at) {
            Ok(x) => x,
            Err(e) => {
                return Err(e);
            },
        };
        proof {
            assert(t.skip((next - at) as int) =~= buf@.skip(next as int));
            match spec_read_var_ints(s, n as nat) {
                Ok((all, k)) => {
                    let rest = spec_read_var_ints(t, (n - i) as nat)->Ok_0.0;
                    let rest2 = spec_read_var_ints(buf@.skip(next as int), (n - i - 1) as nat)->Ok_0.0;
                    assert(rest == seq![v] + rest2);
                    assert(out@.push(v) + rest2 =~= out@ + (seq![v] + rest2));
                },
                Err(e) => {},
            }
        }
        out.push(v);
        at = next;
        i = i + 1;
    }
    proof {
        match spec_read_var_ints(s, n as nat) {
            Ok((v, k)) => {
                assert(v =~= out@);
            },
            Err(e) => {},
        }
    }
    Ok((out, at))
}

/// A node as read, its strings as UTF-8 bytes.
pub ghost enum NodeRead {
    Root { flags: i8, children: Seq<i32>, redirect: i32 },
    Literal { flags: i8, children: Seq<i32>, redirect: i32, literal: Seq<u8> },
    Argument {
        flags: i8,
        children: Seq<i32>,
        redirect: i32,
        id: Seq<u8>,
        key: i32,
        detail: ArgumentDetail,
        location: Option<Seq<u8>>,
    },
}

/// `e` is the head read as `flags`, `children` and `redirect`.
pub open spec fn entry_is(e: CommandEntry, flags: i8, children: Seq<i32>, redirect: i32) -> bool {
    e.flags == flags && e.children@ == children && e.redirect == redirect
}

/// `n` is the node `v` describes.
pub open spec fn node_is(n: CommandNode, v: NodeRead) -> bool {
    match v {
        NodeRead::Root { flags, children, redirect } => n matches CommandNode::Root { entry }
            && entry_is(entry, flags, children, redirect),
        NodeRead::Literal { flags, children, redirect, literal } => n matches CommandNode::Literal {
            entry,
            literal: l,
        } && entry_is(entry, flags, children, redirect) && utf8_bytes(l@) == literal,
        NodeRead::Argument { flags, children, redirect, id, key, detail, location } => {
            &&& n matches CommandNode::Argument {
                entry,
                argument_id,
                argument_type_info,
                resource_location,
            }
            &&& entry_is(entry, flags, children, redirect)
            &&& utf8_bytes(argument_id@) == id
            &&& argument_is(argument_type_info, key, detail)
            &&& match (resource_location, location) {
                (None, None) => true,
                (Some(l), Some(lv)) => utf8_bytes(l@) == lv,
                _ => false,
            }
        },
    }
}

/// The children count after the flags byte is not negative, when it can be read.
pub open spec fn children_count_ok(s: Seq<u8>) -> bool {
    s.len() >= 1 ==> (spec_read_var_int(s.skip(1)) matches Ok((n, _)) ==> n >= 0)
}

/// What reading a node from the start of `s` gives: the flags byte, the children as a counted
/// list of VarInts, the redirect when the flags say so (else 0), then by the flags' kind the
/// literal, or the argument's name, parser and, when the flags say so, suggestions type.
#[verifier::opaque]
pub open spec fn spec_read_node(s: Seq<u8>) -> Result<(NodeRead, nat), ErrorKind> {
    if s.len() < 1 {
        Err(ErrorKind::EndOfInput)
    } else {
        let flags = s[0] as i8;
        match spec_read_var_int(s.skip(1)) {
            Err(e) => Err(e),
            Ok((count, k1)) => if count < 0 {
                Err(ErrorKind::EndOfInput)
            } else {
                match spec_read_var_ints(s.skip((1 + k1) as int), count as nat) {
                    Err(e) => Err(e),
                    Ok((children, k2)) => {
                        let o = 1 + k1 + k2;
                        let red: Result<(i32, nat), ErrorKind> = if has_redirect(flags) {
                            spec_read_var_int(s.skip(o as int))
                        } else {
                            Ok((0, 0))
                        };
                        match red {
                            Err(e) => Err(e),
                            Ok((redirect, k3)) => {
                                let o2 = o + k3;
                                if node_kind(flags) == 0 {
                                    Ok((NodeRead::Root { flags, children, redirect }, o2))
                                } else if node_kind(flags) == 1 {
                                    match spec_read_string(s.skip(o2 as int), STRING_DEFAULT_CAP) {
                                        Err(e) => Err(e),
                                        Ok((literal, k4)) => Ok(
                                            (
                                                NodeRead::Literal { flags, children, redirect, literal },
                                                o2 + k4,
                                            ),
                                        ),
                                    }
                                } else if node_kind(flags) == 2 {
                                    match spec_read_string(s.skip(o2 as int), STRING_DEFAULT_CAP) {
                                        Err(e) => Err(e),
                                        Ok((id, k4)) => match spec_read_argument(s.skip((o2 + k4) as int)) {
                                            Err(e) => Err(e),
                                            Ok(((key, detail), k5)) => if has_suggestions(flags) {
                                                match spec_read_string(
                                                    s.skip((o2 + k4 + k5) as int),
                                                    STRING_DEFAULT_CAP,
                                                ) {
                                                    Err(e) => Err(e),
                                                    Ok((l, k6)) => Ok(
                                                        (
                                                            NodeRead::Argument {
                                                                flags,
                                                                children,
                                                                redirect,
                                                                id,
                                                                key,
                                                                detail,
                                                                location: Some(l),
                                                            },
                                                            o2 + k4 + k5 + k6,
                                                        ),
                                                    ),
                                                }
                                            } else {
                                                Ok(
                                                    (
                                                        NodeRead::Argument {
                                                            flags,
                                                            children,
                                                            redirect,
                                                            id,
                                                            key,
                                                            detail,
                                                            location: None,
                                                        },
                                                        o2 + k4 + k5,
                                                    ),
                                                )
                                            },
                                        },
                                    }
                                } else {
                                    Err(ErrorKind::Explain("Invalid command node type 3"@))
                                }
                            },
                        }
                    },
                }
            },
        }
    }
}

impl CommandNode {
    /// Reads a node at `pos`.
    #[verifier::rlimit(60)]
    pub fn decode(buf: &[u8], pos: usize) -> (r: Result<(CommandNode, usize), TransportError>)
        requires
            pos <= buf@.len(),
            children_count_ok(buf@.skip(pos as int)),
        ensures
            match spec_read_node(buf@.skip(pos as int)) {
                Ok((v, k)) => r matches Ok((n, q)) && node_is(n, v) && q == pos + k,
                Err(e) => r matches Err(err) && err.kind() == e,
            },
    {
        reveal(spec_read_node);
        let ghost s = buf@.skip(pos as int);
        let blen = buf.len();
        if pos >= blen {
            return Err(TransportError::EndOfInput);
        }
        let flags = buf[pos] as i8;
        assert(s[0] == buf@[pos as int]);
        assert(s.skip(1) =~= buf@.skip(pos + 1));
        proof {
            lemma_scan_range(buf@.skip(pos + 1), 0, 5);
        }
        let (count, p1) = read_var_int(buf, pos + 1)?;
        assert(s.skip((p1 - pos) as int) =~= buf@.skip(p1 as int));
        let (children, p2) = read_var_ints(buf, p1, count as usize)?;
        assert(s.skip((p2 - pos) as int) =~= buf@.skip(p2 as int));
        let (redirect, p3) = if (flags as u8) / 8 % 2 == 1 {
            proof {
                lemma_scan_range(buf@.skip(p2 as int), 0, 5);
            }
            read_var_int(buf, p2)?
        } else {
            (0, p2)
        };
        assert(s.skip((p3 - pos) as int) =~= buf@.skip(p3 as int));
        let entry = CommandEntry { flags, redirect, children };
        let kind = (flags as u8) % 4;
        if kind == 0 {
            return Ok((CommandNode::Root { entry }, p3));
        }
        if kind == 1 {
            let (literal, p4) = read_string(buf, p3, STRING_DEFAULT_CAP)?;
            return Ok((CommandNode::Literal { entry, literal }, p4));
        }
        if kind == 2 {
            let (argument_id, p4) = read_string(buf, p3, STRING_DEFAULT_CAP)?;
            assert(s.skip((p4 - pos) as int) =~= buf@.skip(p4 as int));
            let (argument_type_info, p5) = ArgumentTypeInfo::decode(buf, p4)?;
            if (flags as u8) / 16 % 2 == 1 {
                assert(s.skip((p5 - pos) as int) =~= buf@.skip(p5 as int));
                let (location, p6) = read_string(buf, p5, STRING_DEFAULT_CAP)?;
                return Ok(
                    (
                        CommandNode::Argument {
                            entry,
                            argument_id,
                            argument_type_info,
                            resource_location: Some(location),
                        },
                        p6,
                    ),
                );
            }
            return Ok(
                (
                    CommandNode::Argument {
                        entry,
                        argument_id,
                        argument_type_info,
                        resource_location: None,
                    },
                    p5,
                ),
            );
        }
        Err(explain("Invalid command node type 3"))
    }
}

/// The VarInts of a prefix take no more bytes than all of them.
proof fn lemma_var_ints_prefix(s: Seq<i32>, i: int)
    requires
        0 <= i <= s.len(),
    ensures
        var_ints_bytes(s.subrange(0, i)).len() <= var_ints_bytes(s).len(),
    decreases s.len(),
{
    if i < s.len() {
        lemma_var_ints_prefix(s.drop_last(), i);
        assert(s.drop_last().subrange(0, i) =~= s.subrange(0, i));
    } else {
        assert(s.subrange(0, i) =~= s);
    }
}

impl CommandNode {
    /// The length of the encoding, whatever the strings' lengths.
    pub open spec fn spec_size(&self) -> nat {
        entry_bytes(self.spec_entry()).len() + match self {
            CommandNode::Root { .. } => 0,
            CommandNode::Literal { literal, .. } => spec_string(literal@).len(),
            CommandNode::Argument { argument_id, argument_type_info, resource_location, .. } =>
                spec_string(argument_id@).len() + argument_type_info.spec_size() + match resource_location {
                None => 0,
                Some(l) => spec_string(l@).len(),
            },
        }
    }

    /// Number of bytes of the node's encoding; when the encoding succeeds, its length.
    pub fn size(&self) -> (r: usize)
        requires
            self.fits(),
            self.spec_size() <= usize::MAX,
        ensures
            r == self.spec_size(),
            self.spec_encode() matches Ok(b) ==> r == b.len(),
    {
        let entry = self.entry();
        let mut size: usize = 1 + size_var_int(entry.children.len() as i32);
        let ghost total = self.spec_size();
        let mut i: usize = 0;
        while i < entry.children.len()
            invariant
                i <= entry.children@.len(),
                *entry == self.spec_entry(),
                total == self.spec_size(),
                total <= usize::MAX,
                size == 1 + spec_var_int(entry.children@.len() as i32).len() + var_ints_bytes(
                    entry.children@.subrange(0, i as int),
                ).len(),
            decreases entry.children@.len() - i,
        {
            proof {
                lemma_var_ints_prefix(entry.children@, i + 1);
                assert(entry.children@.subrange(0, i + 1).drop_last() =~= entry.children@.subrange(
                    0,
                    i as int,
                ));
            }
            size = size + size_var_int(entry.children[i]);
            i = i + 1;
        }
        assert(entry.children@.subrange(0, entry.children@.len() as int) =~= entry.children@);
        if (entry.flags as u8) / 8 % 2 == 1 {
            size = size + size_var_int(entry.redirect);
        }
        assert(size == entry_bytes(*entry).len());
        match self {
            CommandNode::Root { .. } => {},
            CommandNode::Literal { literal, .. } => {
                size = size + DelegateStr::size(literal.as_str());
            },
            CommandNode::Argument { argument_id, argument_type_info, resource_location, .. } => {
                size = size + DelegateStr::size(argument_id.as_str());
                size = size + argument_type_info.size();
                match resource_location {
                    Some(l) => {
                        size = size + DelegateStr::size(l.as_str());
                    },
                    None => {},
                }
            },
        }
        size
    }
}

/// Bounds written with a key and the values it announces read back as written.
proof fn lemma_bounds_roundtrip(key: u8, min: Option<nat>, max: Option<nat>, width: nat, rest: Seq<u8>)
    requires
        key < 4,
        width == 4 || width == 8,
        has_min(key) <==> min is Some,
        has_max(key) <==> max is Some,
        min matches Some(v) ==> v < crate::codec::pow256(width),
        max matches Some(v) ==> v < crate::codec::pow256(width),
    ensures
        spec_read_bounds(bounds_bytes(key, min, max, width) + rest, width) == Ok::<(BoundsRead, nat), ErrorKind>(
            (
                BoundsRead {
                    sel: key,
                    min: match min { Some(v) => v, None => 0 },
                    max: match max { Some(v) => v, None => 0 },
                },
                bounds_bytes(key, min, max, width).len(),
            ),
        ),
{
    let mb: Seq<u8> = match min { Some(v) => be_bytes(v, width), None => seq![] };
    let xb: Seq<u8> = match max { Some(v) => be_bytes(v, width), None => seq![] };
    let all = bounds_bytes(key, min, max, width) + rest;
    assert(all =~= seq![key] + mb + xb + rest);
    assert(all[0] == key);
    assert((key % 4) as u8 == key);
    if let Some(v) = min {
        crate::codec::lemma_be_roundtrip(v, width);
        crate::codec::lemma_pow256_pos(width);
        vstd::arithmetic::div_mod::lemma_small_mod(v, crate::codec::pow256(width));
        assert(all.subrange(1, (1 + width) as int) =~= mb);
    }
    if let Some(v) = max {
        crate::codec::lemma_be_roundtrip(v, width);
        crate::codec::lemma_pow256_pos(width);
        vstd::arithmetic::div_mod::lemma_small_mod(v, crate::codec::pow256(width));
        assert(all.subrange((1 + mb.len()) as int, (1 + mb.len() + width) as int) =~= xb);
    }
    assert(bounds_bytes(key, min, max, width).len() == 1 + mb.len() + xb.len());
}

proof fn lemma_pow256_4_8()
    ensures
        crate::codec::pow256(4) == 0x1_0000_0000,
        crate::codec::pow256(8) == 0x1_0000_0000_0000_0000,
{
    reveal_with_fuel(crate::codec::pow256, 9);
}

/// An `i8` taken as its byte and back is itself.
proof fn lemma_i8_bits(v: i8)
    ensures
        ((v as u8) as i8) == v,
{
    assert(((v as u8) as i8) == v) by (bit_vector);
}

/// An `i32` taken as its bit pattern and back is itself.
proof fn lemma_i32_bits(v: i32)
    ensures
        ((v as u32) as nat) as u32 as i32 == v,
{
    crate::protocol::play::cb::lemma_i32_roundtrip(v, seq![]);
    crate::codec::lemma_be_roundtrip(v as u32 as nat, 4);
    lemma_pow256_4_8();
    assert(crate::protocol::play::cb::spec_i32(v) + seq![] =~= crate::protocol::play::cb::spec_i32(v));
    assert(crate::protocol::play::cb::spec_i32(v).subrange(0, 4) =~= crate::protocol::play::cb::spec_i32(v));
}

/// An `i64` taken as its bit pattern and back is itself.
proof fn lemma_i64_bits(v: i64)
    ensures
        ((v as u64) as nat) as u64 as i64 == v,
{
    crate::protocol::status::law_time_roundtrip(v, seq![]);
    crate::codec::lemma_be_roundtrip(v as u64 as nat, 8);
    lemma_pow256_4_8();
    assert(crate::protocol::status::spec_time(v) + seq![] =~= crate::protocol::status::spec_time(v));
    assert(crate::protocol::status::spec_time(v).subrange(0, 8) =~= crate::protocol::status::spec_time(v));
}

/// IntegerArgumentInfo bounds read back as written.
proof fn lemma_integer_bounds(i: IntegerArgumentInfo, rest: Seq<u8>)
    ensures
        spec_read_bounds(i.spec_bytes() + rest, 4) matches Ok((b, k)) && IntegerArgumentInfo::spec_from_read(b) == i
            && k == i.spec_bytes().len(),
{
    lemma_pow256_4_8();
    match i {
        IntegerArgumentInfo::NoMinMax => {
            lemma_bounds_roundtrip(0, None, None, 4, rest);
        },
        IntegerArgumentInfo::Min { min } => {
            lemma_i32_bits(min);
            lemma_bounds_roundtrip(1, Some((min as u32) as nat), None, 4, rest);
        },
        IntegerArgumentInfo::Max { max } => {
            lemma_i32_bits(max);
            lemma_bounds_roundtrip(2, None, Some((max as u32) as nat), 4, rest);
        },
        IntegerArgumentInfo::MinMax { min, max } => {
            lemma_i32_bits(min);
            lemma_i32_bits(max);
            lemma_bounds_roundtrip(3, Some((min as u32) as nat), Some((max as u32) as nat), 4, rest);
        },
    }
}

/// LongArgumentInfo bounds read back as written.
proof fn lemma_long_bounds(i: LongArgumentInfo, rest: Seq<u8>)
    ensures
        spec_read_bounds(i.spec_bytes() + rest, 8) matches Ok((b, k)) && LongArgumentInfo::spec_from_read(b) == i
            && k == i.spec_bytes().len(),
{
    lemma_pow256_4_8();
    match i {
        LongArgumentInfo::NoMinMax => {
            lemma_bounds_roundtrip(0, None, None, 8, rest);
        },
        LongArgumentInfo::Min { min } => {
            lemma_i64_bits(min);
            lemma_bounds_roundtrip(1, Some((min as u64) as nat), None, 8, rest);
        },
        LongArgumentInfo::Max { max } => {
            lemma_i64_bits(max);
            lemma_bounds_roundtrip(2, None, Some((max as u64) as nat), 8, rest);
        },
        LongArgumentInfo::MinMax { min, max } => {
            lemma_i64_bits(min);
            lemma_i64_bits(max);
            lemma_bounds_roundtrip(3, Some((min as u64) as nat), Some((max as u64) as nat), 8, rest);
        },
    }
}

/// FloatArgumentInfo bounds read back as written.
proof fn lemma_float_bounds(i: FloatArgumentInfo, rest: Seq<u8>)
    ensures
        spec_read_bounds(i.spec_bytes() + rest, 4) matches Ok((b, k)) && FloatArgumentInfo::spec_from_read(b) == i
            && k == i.spec_bytes().len(),
{
    lemma_pow256_4_8();
    match i {
        FloatArgumentInfo::NoMinMax => {
            lemma_bounds_roundtrip(0, None, None, 4, rest);
        },
        FloatArgumentInfo::Min { min } => {
            lemma_bounds_roundtrip(1, Some(min as nat), None, 4, rest);
        },
        FloatArgumentInfo::Max { max } => {
            lemma_bounds_roundtrip(2, None, Some(max as nat), 4, rest);
        },
        FloatArgumentInfo::MinMax { min, max } => {
            lemma_bounds_roundtrip(3, Some(min as nat), Some(max as nat), 4, rest);
        },
    }
}

/// DoubleArgumentInfo bounds read back as written.
proof fn lemma_double_bounds(i: DoubleArgumentInfo, rest: Seq<u8>)
    ensures
        spec_read_bounds(i.spec_bytes() + rest, 8) matches Ok((b, k)) && DoubleArgumentInfo::spec_from_read(b) == i
            && k == i.spec_bytes().len(),
{
    lemma_pow256_4_8();
    match i {
        DoubleArgumentInfo::NoMinMax => {
            lemma_bounds_roundtrip(0, None, None, 8, rest);
        },
        DoubleArgumentInfo::Min { min } => {
            lemma_bounds_roundtrip(1, Some(min as nat), None, 8, rest);
        },
        DoubleArgumentInfo::Max { max } => {
            lemma_bounds_roundtrip(2, None, Some(max as nat), 8, rest);
        },
        DoubleArgumentInfo::MinMax { min, max } => {
            lemma_bounds_roundtrip(3, Some(min as nat), Some(max as nat), 8, rest);
        },
    }
}

/// An argument's properties read back as written: the parser, its key and what it carries.
pub proof fn law_argument_roundtrip(a: ArgumentTypeInfo, rest: Seq<u8>)
    requires
        a.spec_encode() is Ok,
    ensures
        spec_read_argument(a.spec_encode()->Ok_0 + rest) matches Ok(((key, detail), k)) && argument_is(
            a,
            key,
            detail,
        ) && k == a.spec_encode()->Ok_0.len(),
{
    reveal(spec_read_argument);
    let key = a.spec_key();
    let payload = a.spec_payload()->Ok_0;
    let all = a.spec_encode()->Ok_0 + rest;
    crate::codec::lemma_var_int_roundtrip(key, payload + rest);
    assert(all =~= spec_var_int(key) + (payload + rest));
    let k = spec_var_int(key).len();
    assert(all.skip(k as int) =~= payload + rest);
    lemma_pow256_4_8();
    match a {
        ArgumentTypeInfo::Integer { argument_type } => {
            lemma_integer_bounds(argument_type, rest);
        },
        ArgumentTypeInfo::Entity { mask } => {
            lemma_i8_bits(mask);
        },
        ArgumentTypeInfo::Long { argument_type } => {
            lemma_long_bounds(argument_type, rest);
        },
        ArgumentTypeInfo::Float { argument_type } => {
            lemma_float_bounds(argument_type, rest);
        },
        ArgumentTypeInfo::Double { argument_type } => {
            lemma_double_bounds(argument_type, rest);
        },
        ArgumentTypeInfo::String { argument_type } => {
            crate::codec::lemma_var_int_roundtrip(argument_type.spec_key(), rest);
        },
        ArgumentTypeInfo::ResourceOrTag { resource_location } => {
            crate::codec::law_string_roundtrip(resource_location@, STRING_DEFAULT_CAP, rest);
        },
        ArgumentTypeInfo::ResourceOrTagKey { resource_location } => {
            crate::codec::law_string_roundtrip(resource_location@, STRING_DEFAULT_CAP, rest);
        },
        ArgumentTypeInfo::Resource { resource_location } => {
            crate::codec::law_string_roundtrip(resource_location@, STRING_DEFAULT_CAP, rest);
        },
        ArgumentTypeInfo::ResourceKey { resource_location } => {
            crate::codec::law_string_roundtrip(resource_location@, STRING_DEFAULT_CAP, rest);
        },
        _ => {},
    }
}

/// VarInts written one after the other start with the first one's bytes.
proof fn lemma_var_ints_front(v: i32, t: Seq<i32>)
    ensures
        var_ints_bytes(seq![v] + t) == spec_var_int(v) + var_ints_bytes(t),
    decreases t.len(),
{
    if t.len() == 0 {
        assert(seq![v] + t =~= seq![v]);
        assert((seq![v] + t).drop_last() =~= Seq::<i32>::empty());
        assert(var_ints_bytes(Seq::<i32>::empty()) =~= Seq::<u8>::empty());
        assert(var_ints_bytes(seq![v] + t) =~= spec_var_int(v) + var_ints_bytes(t));
    } else {
        lemma_var_ints_front(v, t.drop_last());
        assert((seq![v] + t).drop_last() =~= seq![v] + t.drop_last());
        assert((seq![v] + t).last() == t.last());
        assert(var_ints_bytes(seq![v] + t) =~= spec_var_int(v) + var_ints_bytes(t));
    }
}

/// VarInts written one after the other read back as written.
proof fn lemma_var_ints_roundtrip(s: Seq<i32>, rest: Seq<u8>)
    ensures
        spec_read_var_ints(var_ints_bytes(s) + rest, s.len()) == Ok::<(Seq<i32>, nat), ErrorKind>(
            (s, var_ints_bytes(s).len()),
        ),
    decreases s.len(),
{
    if s.len() > 0 {
        let v = s[0];
        let t = s.drop_first();
        assert(seq![v] + t =~= s);
        lemma_var_ints_front(v, t);
        let all = var_ints_bytes(s) + rest;
        assert(all =~= spec_var_int(v) + (var_ints_bytes(t) + rest));
        crate::codec::lemma_var_int_roundtrip(v, var_ints_bytes(t) + rest);
        let k = spec_var_int(v).len();
        assert(all.skip(k as int) =~= var_ints_bytes(t) + rest);
        lemma_var_ints_roundtrip(t, rest);
        assert(t.len() == (s.len() - 1) as nat);
        assert(spec_read_var_ints(all, s.len()) == Ok::<(Seq<i32>, nat), ErrorKind>(
            (seq![v] + t, k + var_ints_bytes(t).len()),
        ));
        assert(var_ints_bytes(s).len() == k + var_ints_bytes(t).len());
    } else {
        assert(s =~= Seq::<i32>::empty());
        assert(var_ints_bytes(s) =~= Seq::<u8>::empty());
    }
}

/// A node head written reads back as written, leaving what follows.
proof fn lemma_entry_roundtrip(e: CommandEntry, rest: Seq<u8>)
    requires
        e.children@.len() <= i32::MAX,
        !has_redirect(e.flags) ==> e.redirect == 0,
    ensures
        ({
            let all = entry_bytes(e) + rest;
            let c = e.children@;
            &&& all[0] as i8 == e.flags
            &&& spec_read_var_int(all.skip(1)) == Ok::<(i32, nat), ErrorKind>(
                (c.len() as i32, spec_var_int(c.len() as i32).len()),
            )
            &&& spec_read_var_ints(all.skip((1 + spec_var_int(c.len() as i32).len()) as int), c.len())
                == Ok::<(Seq<i32>, nat), ErrorKind>((c, var_ints_bytes(c).len()))
            &&& has_redirect(e.flags) ==> spec_read_var_int(
                all.skip((1 + spec_var_int(c.len() as i32).len() + var_ints_bytes(c).len()) as int),
            ) == Ok::<(i32, nat), ErrorKind>((e.redirect, spec_var_int(e.redirect).len()))
            &&& entry_bytes(e).len() == 1 + spec_var_int(c.len() as i32).len() + var_ints_bytes(c).len()
                + if has_redirect(e.flags) { spec_var_int(e.redirect).len() } else { 0 }
        }),
{
    let c = e.children@;
    let cb = spec_var_int(c.len() as i32);
    let vb = var_ints_bytes(c);
    let rb: Seq<u8> = if has_redirect(e.flags) { spec_var_int(e.redirect) } else { seq![] };
    let all = entry_bytes(e) + rest;
    lemma_i8_bits(e.flags);
    assert(all =~= seq![e.flags as u8] + (cb + (vb + (rb + rest))));
    assert(all.skip(1) =~= cb + (vb + (rb + rest)));
    crate::codec::lemma_var_int_roundtrip(c.len() as i32, vb + (rb + rest));
    assert(all.skip((1 + cb.len()) as int) =~= vb + (rb + rest));
    lemma_var_ints_roundtrip(c, rb + rest);
    assert(all.skip((1 + cb.len() + vb.len()) as int) =~= rb + rest);
    if has_redirect(e.flags) {
        crate::codec::lemma_var_int_roundtrip(e.redirect, rest);
    }
}

/// The head of a written node, followed by `body` and `rest`, reads back as written; the
/// reader then stands at the body.
proof fn lemma_node_head(e: CommandEntry, body: Seq<u8>, rest: Seq<u8>)
    requires
        e.children@.len() <= i32::MAX,
        !has_redirect(e.flags) ==> e.redirect == 0,
    ensures
        ({
            let all = entry_bytes(e) + body + rest;
            let c = e.children@;
            let k1 = spec_var_int(c.len() as i32).len();
            let k2 = var_ints_bytes(c).len();
            let o = 1 + k1 + k2;
            let k3 = if has_redirect(e.flags) { spec_var_int(e.redirect).len() } else { 0 };
            &&& all.len() >= 1
            &&& all[0] as i8 == e.flags
            &&& spec_read_var_int(all.skip(1)) == Ok::<(i32, nat), ErrorKind>((c.len() as i32, k1))
            &&& spec_read_var_ints(all.skip((1 + k1) as int), c.len()) == Ok::<(Seq<i32>, nat), ErrorKind>(
                (c, k2),
            )
            &&& has_redirect(e.flags) ==> spec_read_var_int(all.skip(o as int)) == Ok::<(i32, nat), ErrorKind>(
                (e.redirect, k3),
            )
            &&& entry_bytes(e).len() == o + k3
            &&& all.skip((o + k3) as int) == body + rest
        }),
{
    let all = entry_bytes(e) + body + rest;
    assert(all =~= entry_bytes(e) + (body + rest));
    lemma_entry_roundtrip(e, body + rest);
    let c = e.children@;
    let k1 = spec_var_int(c.len() as i32).len();
    let k2 = var_ints_bytes(c).len();
    let k3 = if has_redirect(e.flags) { spec_var_int(e.redirect).len() } else { 0 };
    assert(all.skip((1 + k1 + k2 + k3) as int) =~= body + rest);
}

#[verifier::rlimit(100)]
#[verifier::spinoff_prover]
proof fn lemma_root_roundtrip(e: CommandEntry, rest: Seq<u8>)
    requires
        e.children@.len() <= i32::MAX,
        !has_redirect(e.flags) ==> e.redirect == 0,
        node_kind(e.flags) == 0,
    ensures
        spec_read_node(entry_bytes(e) + rest) == Ok::<(NodeRead, nat), ErrorKind>(
            (NodeRead::Root { flags: e.flags, children: e.children@, redirect: e.redirect }, entry_bytes(e).len()),
        ),
{
    reveal(spec_read_node);
    lemma_node_head(e, seq![], rest);
    assert(entry_bytes(e) + seq![] + rest =~= entry_bytes(e) + rest);
}

#[verifier::rlimit(100)]
#[verifier::spinoff_prover]
proof fn lemma_literal_roundtrip(e: CommandEntry, literal: Seq<char>, rest: Seq<u8>)
    requires
        e.children@.len() <= i32::MAX,
        !has_redirect(e.flags) ==> e.redirect == 0,
        node_kind(e.flags) == 1,
        utf8_bytes(literal).len() <= STRING_DEFAULT_CAP,
    ensures
        spec_read_node(entry_bytes(e) + spec_string(literal) + rest) == Ok::<(NodeRead, nat), ErrorKind>(
            (
                NodeRead::Literal {
                    flags: e.flags,
                    children: e.children@,
                    redirect: e.redirect,
                    literal: utf8_bytes(literal),
                },
                entry_bytes(e).len() + spec_string(literal).len(),
            ),
        ),
{
    reveal(spec_read_node);
    lemma_node_head(e, spec_string(literal), rest);
    crate::codec::law_string_roundtrip(literal, STRING_DEFAULT_CAP, rest);
}

#[verifier::rlimit(100)]
#[verifier::spinoff_prover]
proof fn lemma_argument_node_roundtrip(
    e: CommandEntry,
    id: Seq<char>,
    a: ArgumentTypeInfo,
    location: Option<Seq<char>>,
    rest: Seq<u8>,
)
    requires
        e.children@.len() <= i32::MAX,
        !has_redirect(e.flags) ==> e.redirect == 0,
        node_kind(e.flags) == 2,
        has_suggestions(e.flags) <==> location is Some,
        utf8_bytes(id).len() <= STRING_DEFAULT_CAP,
        a.spec_encode() is Ok,
        location matches Some(l) ==> utf8_bytes(l).len() <= STRING_DEFAULT_CAP,
    ensures
        ({
            let lb: Seq<u8> = match location { None => seq![], Some(l) => spec_string(l) };
            let body = spec_string(id) + a.spec_encode()->Ok_0 + lb;
            spec_read_node(entry_bytes(e) + body + rest) matches Ok((v, k)) && k == entry_bytes(e).len()
                + body.len() && (v matches NodeRead::Argument {
                flags,
                children,
                redirect,
                id: idv,
                key,
                detail,
                location: lv,
            } && flags == e.flags && children == e.children@ && redirect == e.redirect && idv
                == utf8_bytes(id) && argument_is(a, key, detail) && lv == match location {
                None => None,
                Some(l) => Some(utf8_bytes(l)),
            })
        }),
{
    reveal(spec_read_node);
    let lb: Seq<u8> = match location { None => seq![], Some(l) => spec_string(l) };
    let ab = a.spec_encode()->Ok_0;
    let idb = spec_string(id);
    let body = idb + ab + lb;
    lemma_node_head(e, body, rest);
    crate::codec::law_string_roundtrip(id, STRING_DEFAULT_CAP, ab + lb + rest);
    assert(body + rest =~= idb + (ab + lb + rest));
    let all = entry_bytes(e) + body + rest;
    let o2 = entry_bytes(e).len();
    assert(all.skip((o2 + idb.len()) as int) =~= ab + (lb + rest)) by {
        assert(all.skip(o2 as int) == body + rest);
        assert(all.skip((o2 + idb.len()) as int) =~= (body + rest).skip(idb.len() as int));
    }
    law_argument_roundtrip(a, lb + rest);
    assert(all.skip((o2 + idb.len() + ab.len()) as int) =~= lb + rest) by {
        assert(all.skip(o2 as int) == body + rest);
        assert(all.skip((o2 + idb.len() + ab.len()) as int) =~= (body + rest).skip(
            (idb.len() + ab.len()) as int,
        ));
    }
    if let Some(l) = location {
        crate::codec::law_string_roundtrip(l, STRING_DEFAULT_CAP, rest);
    }
}

/// A node written reads back as the node: its kind matches its flags, its redirect is zero
/// when the flags announce none, and an argument carries a suggestions type exactly when the
/// flags announce one.
pub proof fn law_node_roundtrip(n: CommandNode, rest: Seq<u8>)
    requires
        n.spec_encode() is Ok,
        n.spec_entry().children@.len() <= i32::MAX,
        !has_redirect(n.spec_entry().flags) ==> n.spec_entry().redirect == 0,
        node_kind(n.spec_entry().flags) == match n {
            CommandNode::Root { .. } => 0u8,
            CommandNode::Literal { .. } => 1u8,
            CommandNode::Argument { .. } => 2u8,
        },
        n matches CommandNode::Argument { resource_location, .. } ==> (has_suggestions(
            n.spec_entry().flags,
        ) <==> resource_location is Some),
    ensures
        spec_read_node(n.spec_encode()->Ok_0 + rest) matches Ok((v, k)) && node_is(n, v) && k
            == n.spec_encode()->Ok_0.len(),
{
    match n {
        CommandNode::Root { entry } => {
            lemma_root_roundtrip(entry, rest);
        },
        CommandNode::Literal { entry, literal } => {
            lemma_literal_roundtrip(entry, literal@, rest);
            assert(n.spec_encode()->Ok_0 + rest =~= entry_bytes(entry) + spec_string(literal@) + rest);
        },
        CommandNode::Argument { entry, argument_id, argument_type_info, resource_location } => {
            let location: Option<Seq<char>> = match resource_location {
                None => None,
                Some(l) => Some(l@),
            };
            lemma_argument_node_roundtrip(entry, argument_id@, argument_type_info, location, rest);
            let lb: Seq<u8> = match location { None => seq![], Some(l) => spec_string(l) };
            assert(n.spec_encode()->Ok_0 =~= entry_bytes(entry) + (spec_string(argument_id@)
                + argument_type_info.spec_encode()->Ok_0 + lb));
        },
    }
}


/// The protocol's key for each string argument kind: 0 single word, 1 quotable phrase,
/// 2 greedy phrase; each is written as that key and read back from it.
pub proof fn law_string_argument_wire_keys(t: StringArgumentType)
    ensures
        ({
            let k: i32 = match t {
                StringArgumentType::SingleWord => 0i32,
                StringArgumentType::QuotablePhrase => 1i32,
                StringArgumentType::GreedyPhrase => 2i32,
            };
            t.spec_key() == k && StringArgumentType::spec_from_key(k) == Some(t)
        }),
{
}

} // verus!
