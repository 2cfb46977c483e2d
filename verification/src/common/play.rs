//! Values that play packets carry: packed block and section positions, block updates, message
//! signatures and map colour patches, with the integer logarithm their bit layouts are derived
//! from.
use vstd::arithmetic::power2::{lemma_pow2_strictly_increases, lemma2_to64, pow2};
use vstd::prelude::*;

use crate::codec::{
    be_bytes, be_value, byte_vec_len_ok, lemma_be_roundtrip, lemma_byte_vec_roundtrip, pow256,
    read_be, read_byte_vec, read_var_int, read_var_long, size_var_int, size_var_long,
    spec_byte_vec, spec_read_byte_vec, spec_read_var_int, spec_read_var_long, spec_var_int,
    spec_var_long, write_be, write_byte_vec, write_var_int, write_var_long, ErrorKind,
    TransportError,
};

verus! {

/// `k` is the exponent of the smallest power of two that is at least `n` (for `n >= 1`).
pub open spec fn is_ceil_log2(n: int, k: int) -> bool {
    &&& 0 <= k
    &&& n <= pow2(k as nat)
    &&& k == 0 || pow2((k - 1) as nat) < n
}

/// The exponent of the smallest power of two that is at least `n`, searching from `k`.
pub open spec fn ceil_log2_from(n: int, k: nat) -> nat
    decreases 31 - k,
{
    if k >= 31 || n <= pow2(k) {
        k
    } else {
        ceil_log2_from(n, k + 1)
    }
}

/// `ceil(log2(n))` for `n >= 1`; zero for `n <= 0`.
pub open spec fn spec_ceil_log2(n: int) -> int {
    if n <= 0 {
        0
    } else {
        ceil_log2_from(n, 0) as int
    }
}

/// The search finds the exponent it is named for.
proof fn lemma_ceil_log2_from(n: int, k: nat)
    requires
        1 <= n <= pow2(30),
        k <= 30,
        k == 0 || pow2((k - 1) as nat) < n,
    ensures
        is_ceil_log2(n, ceil_log2_from(n, k) as int),
        ceil_log2_from(n, k) <= 30,
    decreases 31 - k,
{
    if n > pow2(k) {
        if k == 30 {
            assert(false);
        }
        lemma_ceil_log2_from(n, k + 1);
    }
}

/// The characterization pins the exponent down.
proof fn lemma_ceil_log2_unique(n: int, a: int, b: int)
    requires
        is_ceil_log2(n, a),
        is_ceil_log2(n, b),
    ensures
        a == b,
{
    if a < b {
        lemma_pow2_increases(a as nat, (b - 1) as nat);
    } else if b < a {
        lemma_pow2_increases(b as nat, (a - 1) as nat);
    }
}

proof fn lemma_pow2_increases(a: nat, b: nat)
    requires
        a <= b,
    ensures
        pow2(a) <= pow2(b),
{
    if a < b {
        lemma_pow2_strictly_increases(a, b);
    }
}

/// `ceil_log2` is the exponent the characterization describes.
pub proof fn lemma_spec_ceil_log2(n: int)
    requires
        1 <= n <= pow2(30),
    ensures
        is_ceil_log2(n, spec_ceil_log2(n)),
        0 <= spec_ceil_log2(n) <= 30,
{
    lemma_ceil_log2_from(n, 0);
}

/// The position table of the de Bruijn sequence `0x077CB531`.
pub open spec fn de_bruijn_position_spec(i: int) -> i32 {
    if i == 0 { 0 } else if i == 1 { 1 } else if i == 2 { 28 } else if i == 3 { 2 }
    else if i == 4 { 29 } else if i == 5 { 14 } else if i == 6 { 24 } else if i == 7 { 3 }
    else if i == 8 { 30 } else if i == 9 { 22 } else if i == 10 { 20 } else if i == 11 { 15 }
    else if i == 12 { 25 } else if i == 13 { 17 } else if i == 14 { 4 } else if i == 15 { 8 }
    else if i == 16 { 31 } else if i == 17 { 27 } else if i == 18 { 13 } else if i == 19 { 23 }
    else if i == 20 { 21 } else if i == 21 { 19 } else if i == 22 { 16 } else if i == 23 { 7 }
    else if i == 24 { 26 } else if i == 25 { 12 } else if i == 26 { 18 } else if i == 27 { 6 }
    else if i == 28 { 11 } else if i == 29 { 5 } else if i == 30 { 10 } else { 9 }
}

/// Multiplying `2^k` by the de Bruijn constant puts a distinct 5-bit pattern at the top, and the
/// table maps that pattern back to `k`.
pub open spec fn de_bruijn_finds(k: int) -> bool {
    de_bruijn_position_spec((((pow2(k as nat) * 125613361) / pow2(27)) % 32) as int) == k
}

proof fn lemma_de_bruijn(k: int)
    requires
        0 <= k <= 30,
    ensures
        de_bruijn_finds(k),
{
    lemma2_to64();
    if k == 0 {
        assert(de_bruijn_finds(0));
    } else if k == 1 {
        assert(de_bruijn_finds(1));
    } else if k == 2 {
        assert(de_bruijn_finds(2));
    } else if k == 3 {
        assert(de_bruijn_finds(3));
    } else if k == 4 {
        assert(de_bruijn_finds(4));
    } else if k == 5 {
        assert(de_bruijn_finds(5));
    } else if k == 6 {
        assert(de_bruijn_finds(6));
    } else if k == 7 {
        assert(de_bruijn_finds(7));
    } else if k == 8 {
        assert(de_bruijn_finds(8));
    } else if k == 9 {
        assert(de_bruijn_finds(9));
    } else if k == 10 {
        assert(de_bruijn_finds(10));
    } else if k == 11 {
        assert(de_bruijn_finds(11));
    } else if k == 12 {
        assert(de_bruijn_finds(12));
    } else if k == 13 {
        assert(de_bruijn_finds(13));
    } else if k == 14 {
        assert(de_bruijn_finds(14));
    } else if k == 15 {
        assert(de_bruijn_finds(15));
    } else if k == 16 {
        assert(de_bruijn_finds(16));
    } else if k == 17 {
        assert(de_bruijn_finds(17));
    } else if k == 18 {
        assert(de_bruijn_finds(18));
    } else if k == 19 {
        assert(de_bruijn_finds(19));
    } else if k == 20 {
        assert(de_bruijn_finds(20));
    } else if k == 21 {
        assert(de_bruijn_finds(21));
    } else if k == 22 {
        assert(de_bruijn_finds(22));
    } else if k == 23 {
        assert(de_bruijn_finds(23));
    } else if k == 24 {
        assert(de_bruijn_finds(24));
    } else if k == 25 {
        assert(de_bruijn_finds(25));
    } else if k == 26 {
        assert(de_bruijn_finds(26));
    } else if k == 27 {
        assert(de_bruijn_finds(27));
    } else if k == 28 {
        assert(de_bruijn_finds(28));
    } else if k == 29 {
        assert(de_bruijn_finds(29));
    } else {
        assert(de_bruijn_finds(30));
    }
}

fn de_bruijn_position(i: i32) -> (r: i32)
    requires
        0 <= i < 32,
    ensures
        r == de_bruijn_position_spec(i as int),
{
    match i {
        0 => 0,
        1 => 1,
        2 => 28,
        3 => 2,
        4 => 29,
        5 => 14,
        6 => 24,
        7 => 3,
        8 => 30,
        9 => 22,
        10 => 20,
        11 => 15,
        12 => 25,
        13 => 17,
        14 => 4,
        15 => 8,
        16 => 31,
        17 => 27,
        18 => 13,
        19 => 23,
        20 => 21,
        21 => 19,
        22 => 16,
        23 => 7,
        24 => 26,
        25 => 12,
        26 => 18,
        27 => 6,
        28 => 11,
        29 => 5,
        30 => 10,
        _ => 9,
    }
}

/// `n != 0 && n & (n - 1) == 0`: for a positive `n`, that `n` is a power of two.
pub open spec fn spec_is_power_of_2(n: i32) -> bool {
    n != 0 && (n & ((n - 1) as i32)) == 0
}

/// All the bits below the highest set bit of `x` set too (all ones for a negative `x`).
pub open spec fn smear(x: i32) -> i32 {
    let a = x | (x >> 1u32);
    let b = a | (a >> 2u32);
    let c = b | (b >> 4u32);
    let d = c | (c >> 8u32);
    d | (d >> 16u32)
}

/// Smearing `m - 1` and adding one rounds `m` up to the power of two `1 << k` that bounds it;
/// a power of two is that bound itself.
proof fn lemma_smear_rounds_up(m: i32, k: u32)
    by (bit_vector)
    requires
        k <= 30,
        1 <= m <= (1i32 << k),
        k == 0 || (1i32 << ((k - 1) as u32)) < m,
    ensures
        smear((m - 1) as i32) + 1 == (1i32 << k),
        spec_is_power_of_2(m) <==> m == (1i32 << k),
{
}

/// For a non-positive `n` (but `i32::MIN`) the smear of `n - 1` is all ones, and `n` is no power
/// of two.
proof fn lemma_smear_negative(n: i32)
    by (bit_vector)
    requires
        i32::MIN < n <= 0,
    ensures
        smear((n - 1) as i32) == -1,
        !spec_is_power_of_2(n),
{
}

/// The table index the code computes is the top five bits of the product.
proof fn lemma_top_five_bits(x: u64)
    by (bit_vector)
    ensures
        ((x as i32) & 0x1Fi32) == (x % 32) as i32,
{
}

/// `1 << k` as an `i32` is `2^k`.
proof fn lemma_shl_pow2(k: u32)
    requires
        k <= 30,
    ensures
        (1i32 << k) == pow2(k as nat),
{
    vstd::bits::lemma_u32_pow2_no_overflow(k as nat);
    vstd::bits::lemma_u32_shl_is_mul(1u32, k);
    assert(k < 31 ==> (1i32 << k) >= 0 && (1i32 << k) as u32 == (1u32 << k)) by (bit_vector);
}

fn is_power_of_2(n: i32) -> (r: bool)
    requires
        n > i32::MIN,
    ensures
        r == spec_is_power_of_2(n),
{
    n != 0i32 && (n & (n - 1i32)) == 0i32
}

/// Rounds `n` up to a power of two; zero for a non-positive `n`.
fn shift_2(n: i32) -> (r: i32)
    requires
        i32::MIN < n <= 0x4000_0000,
    ensures
        n >= 1 ==> r == pow2(spec_ceil_log2(n as int) as nat),
        n <= 0 ==> r == 0,
        r == smear((n - 1) as i32) + 1,
{
    let mut n2 = n - 1i32;
    n2 |= n2 >> 1u32;
    n2 |= n2 >> 2u32;
    n2 |= n2 >> 4u32;
    n2 |= n2 >> 8u32;
    n2 |= n2 >> 16u32;
    proof {
        if n >= 1 {
            lemma2_to64();
            lemma_spec_ceil_log2(n as int);
            let k = spec_ceil_log2(n as int) as u32;
            lemma_shl_pow2(k);
            if k > 0 {
                lemma_shl_pow2((k - 1) as u32);
            }
            lemma_smear_rounds_up(n, k);
        } else {
            lemma_smear_negative(n);
        }
    }
    n2 + 1i32
}

/// `ceil(log2(n))`: the exponent of the smallest power of two at least `n`; zero for `n <= 0`.
/// Rounds `n` up to a power of two, then finds its exponent with a de Bruijn multiplication.
pub fn ceil_log_2(n: i32) -> (r: i32)
    requires
        i32::MIN < n <= 0x4000_0000,
    ensures
        r == spec_ceil_log2(n as int),
        n >= 1 ==> is_ceil_log2(n as int, r as int),
{
    let ghost k = spec_ceil_log2(n as int);
    proof {
        lemma2_to64();
        if n >= 1 {
            lemma_spec_ceil_log2(n as int);
            lemma_shl_pow2(k as u32);
            if k > 0 {
                lemma_shl_pow2((k - 1) as u32);
            }
            lemma_smear_rounds_up(n, k as u32);
        } else {
            lemma_smear_negative(n);
        }
    }
    let n = if is_power_of_2(n) {
        n
    } else {
        shift_2(n)
    };
    assert((n as u64) * 125613361u64 < 0x1_0000_0000_0000_0000) by (nonlinear_arith)
        requires
            0 <= n <= 0x4000_0000,
    ;
    let product = (n as u64) * 125613361u64;
    proof {
        vstd::bits::lemma_u64_shr_is_div(product, 27u64);
        lemma_top_five_bits(product >> 27u64);
        if n > 0 {
            lemma_de_bruijn(k);
        }
    }
    de_bruijn_position((((product >> 27u64) as i32) & 0x1Fi32))
}

/// `floor(log2(n))` for `n >= 1`; `-1` for `n <= 0`.
fn log2(n: i32) -> (r: i32)
    requires
        i32::MIN < n <= 0x4000_0000,
    ensures
        n <= 0 ==> r == -1,
        n >= 1 ==> 0 <= r && pow2(r as nat) <= n < pow2((r + 1) as nat),
{
    let c = ceil_log_2(n);
    proof {
        lemma2_to64();
        if n >= 1 {
            lemma_spec_ceil_log2(n as int);
            lemma_shl_pow2(c as u32);
            if c > 0 {
                lemma_shl_pow2((c - 1) as u32);
            }
            lemma_smear_rounds_up(n, c as u32);
            vstd::arithmetic::power2::lemma_pow2_unfold((c + 1) as nat);
        } else {
            lemma_smear_negative(n);
        }
    }
    c - if is_power_of_2(n) {
        0i32
    } else {
        1i32
    }
}

/// Bits of the packed X and Z coordinates: one more than `floor(log2)` of 30000000 rounded up
/// to a power of two (see `lemma_packed_lengths`).
pub const PACKED_Z_LENGTH: i32 = 26;

pub const PACKED_X_LENGTH: i32 = 26;

/// The bits that are left for Y.
pub const PACKED_Y_LENGTH: i32 = 12;

pub const PACKED_X_MASK: i64 = 0x3FF_FFFF;

pub const PACKED_Y_MASK: i64 = 0xFFF;

pub const PACKED_Z_MASK: i64 = 0x3FF_FFFF;

pub const Z_OFFSET: i32 = 12;

pub const X_OFFSET: i32 = 38;

/// The packed lengths come from the world border of 30000000 blocks: rounded up to a power of
/// two it is `2^25`, whose logarithm plus one (for the sign) is 26.
pub proof fn lemma_packed_lengths()
    ensures
        is_ceil_log2(30000000, 25),
        1 + 25 == PACKED_Z_LENGTH,
        64 - PACKED_X_LENGTH - PACKED_Z_LENGTH == PACKED_Y_LENGTH,
        PACKED_X_MASK == pow2(26) - 1,
        PACKED_Y_MASK == pow2(12) - 1,
        X_OFFSET == PACKED_Y_LENGTH + PACKED_Z_LENGTH,
        Z_OFFSET == PACKED_Y_LENGTH,
{
    lemma2_to64();
}

/// A block position.
#[derive(Copy, Clone, Eq, PartialEq, Ord, PartialOrd, Hash, Debug, Structural)]
pub struct BlockPos {
    pub x: i32,
    pub y: i32,
    pub z: i32,
}

/// X in the top 26 bits, Z in the next 26, Y in the low 12, each as two's complement.
pub open spec fn spec_pack_block_pos(x: i32, y: i32, z: i32) -> i64 {
    (((x as i64) & 0x3FF_FFFFi64) << 38u64) | ((y as i64) & 0xFFFi64) | (((z as i64)
        & 0x3FF_FFFFi64) << 12u64)
}

/// The position packed in `v`, each field sign-extended.
pub open spec fn spec_unpack_block_pos(v: i64) -> BlockPos {
    BlockPos {
        x: (v >> 38u64) as i32,
        y: ((v << 52u64) >> 52u64) as i32,
        z: ((v << 26u64) >> 38u64) as i32,
    }
}

/// A position whose coordinates fit their packed widths.
pub open spec fn block_pos_fits(p: BlockPos) -> bool {
    &&& -0x200_0000 <= p.x < 0x200_0000
    &&& -0x800 <= p.y < 0x800
    &&& -0x200_0000 <= p.z < 0x200_0000
}

proof fn lemma_block_pos_bits(x: i32, y: i32, z: i32, v: i64)
    by (bit_vector)
    ensures
        (-0x200_0000 <= x < 0x200_0000 && -0x800 <= y < 0x800 && -0x200_0000 <= z < 0x200_0000)
            ==> {
            let w = (((x as i64) & 0x3FF_FFFFi64) << 38u64) | ((y as i64) & 0xFFFi64) | (((z as i64)
                & 0x3FF_FFFFi64) << 12u64);
            &&& (w >> 38u64) as i32 == x
            &&& ((w << 52u64) >> 52u64) as i32 == y
            &&& ((w << 26u64) >> 38u64) as i32 == z
        },
        ((((v >> 38u64) as i32 as i64) & 0x3FF_FFFFi64) << 38u64) | ((((v << 52u64) >> 52u64) as i32
            as i64) & 0xFFFi64) | (((((v << 26u64) >> 38u64) as i32 as i64) & 0x3FF_FFFFi64) << 12u64)
            == v,
{
}

/// Packing a position whose coordinates fit and unpacking it gives the position back.
pub proof fn law_block_pos_roundtrip(p: BlockPos)
    requires
        block_pos_fits(p),
    ensures
        spec_unpack_block_pos(spec_pack_block_pos(p.x, p.y, p.z)) == p,
{
    lemma_block_pos_bits(p.x, p.y, p.z, 0);
}

/// Every 64-bit value is the packing of the position it unpacks to.
pub proof fn law_block_pos_long_roundtrip(v: i64)
    ensures
        ({
            let p = spec_unpack_block_pos(v);
            spec_pack_block_pos(p.x, p.y, p.z) == v
        }),
{
    lemma_block_pos_bits(0, 0, 0, v);
}

impl BlockPos {
    /// The position as one 64-bit value.
    pub fn as_long(&self) -> (r: i64)
        ensures
            r == spec_pack_block_pos(self.x, self.y, self.z),
    {
        (((self.x as i64) & PACKED_X_MASK) << 38u64) | ((self.y as i64) & PACKED_Y_MASK) | (((
        self.z as i64) & PACKED_Z_MASK) << 12u64)
    }

    /// The position packed in `value`.
    pub fn from_long(value: i64) -> (r: BlockPos)
        ensures
            r == spec_unpack_block_pos(value),
    {
        // X sits at the top and needs no shift left; Y and Z are shifted up to the top first
        // so that the arithmetic shift right extends their sign.
        let x = (value >> 38u64) as i32;
        let y = ((value << 52u64) >> 52u64) as i32;
        let z = ((value << 26u64) >> 38u64) as i32;
        BlockPos { x, y, z }
    }

    /// Appends the packed position as a big-endian 64-bit integer.
    pub fn encode(&self, out: &mut Vec<u8>)
        ensures
            final(out)@ == old(out)@ + be_bytes(
                spec_pack_block_pos(self.x, self.y, self.z) as u64 as nat,
                8,
            ),
    {
        let v = self.as_long();
        write_be(out, v as u64, 8);
    }

    /// Reads a packed position: eight big-endian bytes.
    pub fn decode(buf: &[u8], pos: usize) -> (r: Result<(BlockPos, usize), TransportError>)
        requires
            pos <= buf@.len(),
        ensures
            pos + 8 > buf@.len() ==> r == Err::<(BlockPos, usize), TransportError>(
                TransportError::EndOfInput,
            ),
            pos + 8 <= buf@.len() ==> r == Ok::<(BlockPos, usize), TransportError>(
                (
                    spec_unpack_block_pos(be_value(buf@.subrange(pos as int, pos + 8)) as u64 as i64),
                    (pos + 8) as usize,
                ),
            ),
    {
        let (v, p) = read_be(buf, pos, 8)?;
        Ok((BlockPos::from_long(v as i64), p))
    }

    /// Always eight bytes.
    pub fn size(&self) -> (r: usize)
        ensures
            r == 8,
    {
        8
    }
}

/// A chunk section position.
#[derive(Copy, Clone, Eq, PartialEq, Ord, PartialOrd, Hash, Debug, Structural)]
pub struct SectionPos {
    pub x: i32,
    pub y: i32,
    pub z: i32,
}

/// X in the top 22 bits, Z in the next 22, Y in the low 20, each truncated.
pub open spec fn spec_pack_section_pos(x: i32, y: i32, z: i32) -> u64 {
    (((x as u64) & 4194303u64) << 42u64) | ((y as u64) & 1048575u64) | (((z as u64) & 4194303u64)
        << 20u64)
}

/// The position packed in `v`: each field read back without sign extension.
pub open spec fn spec_unpack_section_pos(v: u64) -> SectionPos {
    SectionPos {
        x: (v >> 42u64) as i32,
        y: ((v << 44u64) >> 44u64) as i32,
        z: ((v << 22u64) >> 42u64) as i32,
    }
}

proof fn lemma_section_pos_bits(x: i32, y: i32, z: i32, v: u64)
    by (bit_vector)
    ensures
        (0 <= x < 0x40_0000 && 0 <= y < 0x10_0000 && 0 <= z < 0x40_0000) ==> {
            let w = (((x as u64) & 4194303u64) << 42u64) | ((y as u64) & 1048575u64) | (((z as u64)
                & 4194303u64) << 20u64);
            &&& (w >> 42u64) as i32 == x
            &&& ((w << 44u64) >> 44u64) as i32 == y
            &&& ((w << 22u64) >> 42u64) as i32 == z
        },
        (((((v >> 42u64) as i32) as u64) & 4194303u64) << 42u64) | (((((v << 44u64) >> 44u64) as i32)
            as u64) & 1048575u64) | (((((v << 22u64) >> 42u64) as i32) as u64 & 4194303u64) << 20u64)
            == v,
{
}

/// A section position with non-negative coordinates that fit their widths survives packing;
/// negative coordinates do not, as unpacking does not sign-extend.
pub proof fn law_section_pos_roundtrip(p: SectionPos)
    requires
        0 <= p.x < 0x40_0000,
        0 <= p.y < 0x10_0000,
        0 <= p.z < 0x40_0000,
    ensures
        spec_unpack_section_pos(spec_pack_section_pos(p.x, p.y, p.z)) == p,
{
    lemma_section_pos_bits(p.x, p.y, p.z, 0);
}

/// Every 64-bit value is the packing of the section position it unpacks to.
pub proof fn law_section_pos_long_roundtrip(v: u64)
    ensures
        ({
            let p = spec_unpack_section_pos(v);
            spec_pack_section_pos(p.x, p.y, p.z) == v
        }),
{
    lemma_section_pos_bits(0, 0, 0, v);
}

impl SectionPos {
    /// Appends the packed position as a big-endian 64-bit integer.
    pub fn encode(&self, out: &mut Vec<u8>)
        ensures
            final(out)@ == old(out)@ + be_bytes(spec_pack_section_pos(self.x, self.y, self.z) as nat, 8),
    {
        let v = (((self.x as u64) & 4194303u64) << 42u64) | ((self.y as u64) & 1048575u64) | (((
        self.z as u64) & 4194303u64) << 20u64);
        write_be(out, v, 8);
    }

    /// Reads a packed section position: eight big-endian bytes.
    pub fn decode(buf: &[u8], pos: usize) -> (r: Result<(SectionPos, usize), TransportError>)
        requires
            pos <= buf@.len(),
        ensures
            pos + 8 > buf@.len() ==> r == Err::<(SectionPos, usize), TransportError>(
                TransportError::EndOfInput,
            ),
            pos + 8 <= buf@.len() ==> r == Ok::<(SectionPos, usize), TransportError>(
                (
                    spec_unpack_section_pos(be_value(buf@.subrange(pos as int, pos + 8)) as u64),
                    (pos + 8) as usize,
                ),
            ),
    {
        let (v, p) = read_be(buf, pos, 8)?;
        Ok((
            SectionPos {
                x: (v >> 42u64) as i32,
                y: ((v << 44u64) >> 44u64) as i32,
                z: ((v << 22u64) >> 42u64) as i32,
            },
            p,
        ))
    }

    /// Always eight bytes.
    pub fn size(&self) -> (r: usize)
        ensures
            r == 8,
    {
        8
    }
}

/// A block change within a chunk section: the new block state and the position, whose low
/// four bits per axis are kept.
#[derive(Copy, Clone, Debug)]
pub struct BlockUpdate {
    pub block_id: i32,
    pub block_pos: BlockPos,
}

/// X, Z and Y of a position within its section, four bits each, X highest.
pub open spec fn spec_pack_pos(p: BlockPos) -> u16 {
    ((((p.x & 15i32) << 8u32) | ((p.z & 15i32) << 4u32) | (p.y & 15i32)) as u16)
}

pub open spec fn spec_unpack_pos(packed: u16) -> BlockPos {
    BlockPos {
        x: ((packed >> 8u16) & 15u16) as i32,
        y: (packed & 15u16) as i32,
        z: ((packed >> 4u16) & 15u16) as i32,
    }
}

/// The block state above the twelve bits of the packed position.
pub open spec fn spec_pack_update(u: BlockUpdate) -> i64 {
    (((u.block_id as u64) << 12u64) | (spec_pack_pos(u.block_pos) as u64)) as i64
}

/// The update packed in `packed`.
pub open spec fn spec_unpack_update(packed: i64) -> BlockUpdate {
    BlockUpdate {
        block_id: (packed >> 12u64) as i32,
        block_pos: spec_unpack_pos(((packed & 4095i64) as u32) as u16),
    }
}

proof fn lemma_block_update_bits(b: i32, x: i32, y: i32, z: i32)
    by (bit_vector)
    ensures
        ({
            let packed = ((((x & 15i32) << 8u32) | ((z & 15i32) << 4u32) | (y & 15i32)) as u16);
            let v = (((b as u64) << 12u64) | (packed as u64)) as i64;
            let q = ((v & 4095i64) as u32) as u16;
            &&& (v >> 12u64) as i32 == b
            &&& ((q >> 8u16) & 15u16) as i32 == x & 15i32
            &&& (q & 15u16) as i32 == y & 15i32
            &&& ((q >> 4u16) & 15u16) as i32 == z & 15i32
        }),
{
}

/// A packed update keeps the block state and the low four bits of each coordinate.
pub proof fn law_block_update_roundtrip(u: BlockUpdate)
    ensures
        spec_unpack_update(spec_pack_update(u)) == (BlockUpdate {
            block_id: u.block_id,
            block_pos: BlockPos {
                x: u.block_pos.x & 15i32,
                y: u.block_pos.y & 15i32,
                z: u.block_pos.z & 15i32,
            },
        }),
{
    lemma_block_update_bits(u.block_id, u.block_pos.x, u.block_pos.y, u.block_pos.z);
}

impl BlockUpdate {
    fn pack_pos(&self) -> (r: u16)
        ensures
            r == spec_pack_pos(self.block_pos),
    {
        let pos = self.block_pos;
        (((pos.x & 15i32) << 8u32) | ((pos.z & 15i32) << 4u32) | (pos.y & 15i32)) as u16
    }

    fn unpack_pos(packed: u16) -> (r: BlockPos)
        ensures
            r == spec_unpack_pos(packed),
    {
        BlockPos {
            x: ((packed >> 8u16) & 15u16) as i32,
            y: (packed & 15u16) as i32,
            z: ((packed >> 4u16) & 15u16) as i32,
        }
    }

    /// Appends the packed update as a VarLong.
    pub fn encode(&self, out: &mut Vec<u8>)
        ensures
            final(out)@ == old(out)@ + spec_var_long(spec_pack_update(*self)),
    {
        let packed_section = self.pack_pos();
        let packed = ((self.block_id as u64) << 12u64) | (packed_section as u64);
        write_var_long(out, packed as i64);
    }

    /// Reads a packed update: a VarLong.
    pub fn decode(buf: &[u8], pos: usize) -> (r: Result<(BlockUpdate, usize), TransportError>)
        requires
            pos <= buf@.len(),
        ensures
            match spec_read_var_long(buf@.skip(pos as int)) {
                Ok((v, k)) => r == Ok::<(BlockUpdate, usize), TransportError>(
                    (spec_unpack_update(v), (pos + k) as usize),
                ),
                Err(e) => r is Err && r->Err_0.kind() == e,
            },
    {
        let (packed, p) = match read_var_long(buf, pos) {
            Ok(x) => x,
            Err(e) => {
                return Err(e);
            },
        };
        let block_id = (packed >> 12u64) as i32;
        let packed_section = ((packed & 4095i64) as u32) as u16;
        let block_pos = BlockUpdate::unpack_pos(packed_section);
        Ok((BlockUpdate { block_id, block_pos }, p))
    }

    /// Number of bytes `encode` appends.
    pub fn size(&self) -> (r: usize)
        ensures
            r == spec_var_long(spec_pack_update(*self)).len(),
    {
        let packed_section = self.pack_pos();
        let packed = ((self.block_id as u64) << 12u64) | (packed_section as u64);
        size_var_long(packed as i64)
    }
}

/// A message signature: 256 bytes.
pub type MessageSignature = [u8; 256];

/// A signature sent in full, or by its index in the cache both sides keep.
#[derive(Debug)]
pub enum PackedMessageSignature {
    IdBase(i32),
    Signature(MessageSignature),
}

/// A packed signature with the signature as a sequence of bytes.
pub ghost enum SignatureView {
    IdBase(i32),
    Signature(Seq<u8>),
}

impl View for PackedMessageSignature {
    type V = SignatureView;

    open spec fn view(&self) -> SignatureView {
        match self {
            PackedMessageSignature::IdBase(id) => SignatureView::IdBase(*id),
            PackedMessageSignature::Signature(sig) => SignatureView::Signature(sig@),
        }
    }
}

/// The encoding of a packed signature: the cache index plus one as a VarInt, or a zero VarInt
/// followed by the 256 signature bytes.
pub open spec fn spec_packed_signature(p: SignatureView) -> Seq<u8> {
    match p {
        SignatureView::IdBase(id) => spec_var_int((id + 1) as i32),
        SignatureView::Signature(sig) => spec_var_int(0) + sig,
    }
}

/// What reading a packed signature from the start of `s` gives.
pub open spec fn spec_read_packed_signature(s: Seq<u8>) -> Result<(SignatureView, nat), ErrorKind> {
    match spec_read_var_int(s) {
        Err(e) => Err(e),
        Ok((v, k)) => if v - 1 != -1 {
            Ok((SignatureView::IdBase((v - 1) as i32), k))
        } else if k + 256 > s.len() {
            Err(ErrorKind::EndOfInput)
        } else {
            Ok((SignatureView::Signature(s.subrange(k as int, (k + 256) as int)), k + 256))
        },
    }
}

impl PackedMessageSignature {
    /// Appends the packed signature.
    pub fn encode(&self, out: &mut Vec<u8>)
        requires
            self matches PackedMessageSignature::IdBase(id) ==> id < i32::MAX,
        ensures
            final(out)@ == old(out)@ + spec_packed_signature(self@),
    {
        match self {
            PackedMessageSignature::IdBase(id) => write_var_int(out, *id + 1),
            PackedMessageSignature::Signature(signature) => {
                write_var_int(out, 0);
                let ghost mid = out@;
                let mut i: usize = 0;
                while i < 256
                    invariant
                        i <= 256,
                        signature@.len() == 256,
                        out@ == mid + signature@.subrange(0, i as int),
                    decreases 256 - i,
                {
                    out.push(signature[i]);
                    i = i + 1;
                    assert(signature@.subrange(0, i as int) == signature@.subrange(0, i - 1).push(
                        signature@[i - 1],
                    ));
                }
                assert(signature@.subrange(0, 256) == signature@);
            },
        }
    }

    /// Reads a packed signature: a VarInt, minus one the cache index, or, when that is `-1`, 256
    /// signature bytes.
    pub fn decode(buf: &[u8], pos: usize) -> (r: Result<(PackedMessageSignature, usize), TransportError>)
        requires
            pos <= buf@.len(),
            spec_read_var_int(buf@.skip(pos as int)) matches Ok((v, _)) ==> v > i32::MIN,
        ensures
            match spec_read_packed_signature(buf@.skip(pos as int)) {
                Ok((v, k)) => r matches Ok((p, q)) && p@ == v && q == pos + k,
                Err(e) => r is Err && r->Err_0.kind() == e,
            },
    {
        let ghost s = buf@.skip(pos as int);
        let blen = buf.len();
        let (v, p) = match read_var_int(buf, pos) {
            Ok(x) => x,
            Err(e) => {
                return Err(e);
            },
        };
        proof {
            crate::codec::lemma_scan_range(s, 0, 5);
            assert(s.len() == blen - pos);
        }
        assert(spec_read_var_int(s)->Ok_0.1 == (p - pos) as nat);
        let id = v - 1;
        if id == -1 {
            if 256 > blen - p {
                return Err(TransportError::EndOfInput);
            }
            let mut signature = [0u8; 256];
            let mut i: usize = 0;
            while i < 256
                invariant
                    i <= 256,
                    blen == buf@.len(),
                    p + 256 <= blen,
                    signature@.len() == 256,
                    forall|j: int| 0 <= j < i ==> signature@[j] == buf@[p + j],
                decreases 256 - i,
            {
                signature[i] = buf[p + i];
                i = i + 1;
            }
            assert(signature@ =~= s.subrange((p - pos) as int, (p - pos) + 256));
            Ok((PackedMessageSignature::Signature(signature), p + 256))
        } else {
            Ok((PackedMessageSignature::IdBase(id), p))
        }
    }

    /// Number of bytes of the encoding: the VarInt size of the index itself (not of the index
    /// plus one that `encode` writes), or 257 for a full signature.
    pub fn size(&self) -> (r: usize)
        ensures
            self matches PackedMessageSignature::IdBase(id) ==> r == spec_var_int(*id).len(),
            self is Signature ==> r == 257,
    {
        match self {
            PackedMessageSignature::IdBase(id) => size_var_int(*id),
            PackedMessageSignature::Signature(_) => 257,
        }
    }
}

/// A packed signature reads back as written.
pub proof fn law_packed_signature_roundtrip(p: SignatureView, rest: Seq<u8>)
    requires
        p matches SignatureView::IdBase(id) ==> id != -1 && id < i32::MAX,
        p matches SignatureView::Signature(sig) ==> sig.len() == 256,
    ensures
        spec_read_packed_signature(spec_packed_signature(p) + rest) == Ok::<(SignatureView, nat), ErrorKind>(
            (p, spec_packed_signature(p).len()),
        ),
{
    match p {
        SignatureView::IdBase(id) => {
            crate::codec::lemma_var_int_roundtrip((id + 1) as i32, rest);
        },
        SignatureView::Signature(sig) => {
            crate::codec::lemma_var_int_roundtrip(0, sig + rest);
            assert(spec_packed_signature(p) + rest =~= spec_var_int(0) + (sig + rest));
            let k = spec_var_int(0).len();
            assert((spec_packed_signature(p) + rest).subrange(k as int, (k + 256) as int) =~= sig);
        },
    }
}

/// A changed rectangle of a map's colours.
#[derive(Debug)]
pub enum MapColorPatch {
    Present { width: u8, height: u8, start_x: u8, start_y: u8, map_colors: Vec<u8> },
    Absent,
}

/// A map colour patch with the colours as a sequence.
pub ghost enum MapColorPatchView {
    Present { width: u8, height: u8, start_x: u8, start_y: u8, map_colors: Seq<u8> },
    Absent,
}

impl View for MapColorPatch {
    type V = MapColorPatchView;

    open spec fn view(&self) -> MapColorPatchView {
        match self {
            MapColorPatch::Present { width, height, start_x, start_y, map_colors } =>
                MapColorPatchView::Present {
                width: *width,
                height: *height,
                start_x: *start_x,
                start_y: *start_y,
                map_colors: map_colors@,
            },
            MapColorPatch::Absent => MapColorPatchView::Absent,
        }
    }
}

/// The encoding of a patch: width, height, start X and start Y as bytes, then the colours as a
/// byte vector; an absent patch is a single zero byte (a width that cannot occur).
pub open spec fn spec_map_color_patch(p: MapColorPatchView) -> Seq<u8> {
    match p {
        MapColorPatchView::Present { width, height, start_x, start_y, map_colors } => seq![
            width,
            height,
            start_x,
            start_y,
        ] + spec_byte_vec(map_colors),
        MapColorPatchView::Absent => seq![0u8],
    }
}

/// What reading a patch from the start of `s` gives.
pub open spec fn spec_read_map_color_patch(s: Seq<u8>) -> Result<(MapColorPatchView, nat), ErrorKind> {
    if s.len() < 1 {
        Err(ErrorKind::EndOfInput)
    } else if s[0] == 0 {
        Ok((MapColorPatchView::Absent, 1))
    } else if s.len() < 4 {
        Err(ErrorKind::EndOfInput)
    } else {
        match spec_read_byte_vec(s.skip(4)) {
            Err(e) => Err(e),
            Ok((colors, k)) => Ok(
                (
                    MapColorPatchView::Present {
                        width: s[0],
                        height: s[1],
                        start_x: s[2],
                        start_y: s[3],
                        map_colors: colors,
                    },
                    4 + k,
                ),
            ),
        }
    }
}

impl MapColorPatch {
    /// Appends the patch.
    pub fn encode(&self, out: &mut Vec<u8>)
        requires
            self matches MapColorPatch::Present { map_colors, .. } ==> map_colors@.len() <= i32::MAX,
        ensures
            final(out)@ == old(out)@ + spec_map_color_patch(self@),
    {
        match self {
            MapColorPatch::Present { width, height, start_x, start_y, map_colors } => {
                let ghost start = out@;
                out.push(*width);
                out.push(*height);
                out.push(*start_x);
                out.push(*start_y);
                assert(out@ == start + seq![*width, *height, *start_x, *start_y]);
                write_byte_vec(out, map_colors.as_slice());
                assert(out@ =~= start + spec_map_color_patch(self@));
            },
            MapColorPatch::Absent => {
                out.push(0);
            },
        }
    }

    /// Reads a patch: a zero byte is an absent patch, any other byte the width of a present one.
    pub fn decode(buf: &[u8], pos: usize) -> (r: Result<(MapColorPatch, usize), TransportError>)
        requires
            pos <= buf@.len(),
            pos + 4 <= buf@.len() && buf@[pos as int] != 0 ==> byte_vec_len_ok(buf@.skip(pos + 4)),
        ensures
            match spec_read_map_color_patch(buf@.skip(pos as int)) {
                Ok((v, k)) => r matches Ok((p, q)) && p@ == v && q == pos + k,
                Err(e) => r is Err && r->Err_0.kind() == e,
            },
    {
        let ghost s = buf@.skip(pos as int);
        let blen = buf.len();
        if pos >= blen {
            return Err(TransportError::EndOfInput);
        }
        let b1 = buf[pos];
        if b1 != 0 {
            if blen - pos < 4 {
                return Err(TransportError::EndOfInput);
            }
            let width = b1;
            let height = buf[pos + 1];
            let start_x = buf[pos + 2];
            let start_y = buf[pos + 3];
            assert(s.skip(4) =~= buf@.skip(pos + 4));
            let (map_colors, p) = match read_byte_vec(buf, pos + 4) {
                Ok(x) => x,
                Err(e) => {
                    return Err(e);
                },
            };
            Ok((MapColorPatch::Present { width, height, start_x, start_y, map_colors }, p))
        } else {
            Ok((MapColorPatch::Absent, pos + 1))
        }
    }

    /// Number of bytes `encode` appends.
    pub fn size(&self) -> (r: usize)
        requires
            self matches MapColorPatch::Present { map_colors, .. } ==> map_colors@.len() <= i32::MAX,
        ensures
            r == spec_map_color_patch(self@).len(),
    {
        match self {
            MapColorPatch::Present { map_colors, .. } => {
                let n = map_colors.len();
                4 + size_var_int(n as i32) + n
            },
            MapColorPatch::Absent => 1,
        }
    }
}

/// A patch reads back as written, but for a present patch of width zero, which reads back as
/// an absent one.
pub proof fn law_map_color_patch_roundtrip(p: MapColorPatchView, rest: Seq<u8>)
    requires
        p matches MapColorPatchView::Present { width, map_colors, .. } ==> width != 0
            && map_colors.len() <= i32::MAX,
    ensures
        spec_read_map_color_patch(spec_map_color_patch(p) + rest) == Ok::<(MapColorPatchView, nat), ErrorKind>(
            (p, spec_map_color_patch(p).len()),
        ),
{
    match p {
        MapColorPatchView::Present { width, height, start_x, start_y, map_colors } => {
            lemma_byte_vec_roundtrip(map_colors, rest);
            let s = spec_map_color_patch(p) + rest;
            assert(s.skip(4) =~= spec_byte_vec(map_colors) + rest);
        },
        MapColorPatchView::Absent => {},
    }
}

} // verus!
