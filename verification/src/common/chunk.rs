//! Chunk columns: sections of paletted block states and biomes over packed bit storages, the
//! height maps, and the wire layout of a section's containers.
use vstd::prelude::*;
use vstd::string::StringExecFns;

use crate::codec::{
    be_bytes, be_value, read_be, read_var_int, size_var_int, spec_read_var_int, spec_var_int,
    write_be, write_var_int, ErrorKind, TransportError,
};
use crate::protocol::bit_storage::{
    lemma_entry_position,
    range_error_text, seeded_length_error_text, spec_expected_size, spec_mask_u64, spec_read_storage, spec_values_per_long,
    BitSetValidationError, BitStorage,
};

verus! {

/// Where a block id sits in a palette, or the palette size it would need to be added.
#[derive(Debug, Clone, Copy, PartialEq, Eq, Structural)]
pub enum Index {
    NewSize(u8),
    CurrentIndex(i32),
}

impl Index {
    /// The index; there is none when a resize is needed.
    pub fn current(self) -> (r: i32)
        requires
            self is CurrentIndex,
        ensures
            r == self->CurrentIndex_0,
    {
        match self {
            Index::CurrentIndex(idx) => idx,
            Index::NewSize(_) => 0,
        }
    }
}

/// What a palette container holds: the 4096 block states of a section or its 64 biomes.
#[derive(Debug, Copy, Clone, PartialEq, Eq, Structural)]
pub enum Strategy {
    Section,
    Biome,
}

pub const BIOME_SIZE_BITS: i32 = 2;

pub const SECTION_SIZE_BITS: i32 = 4;

pub const BIOME_DIRECT_ENTRY_SIZE: i32 = 6;

pub const SECTION_DIRECT_ENTRY_SIZE: i32 = 15;

impl Strategy {
    /// The entry width for a palette of `given` entries: sections use at least 4 bits and go
    /// direct above 8; biomes use what they are given.
    pub open spec fn spec_bit_size(self, given: u8) -> i32 {
        match self {
            Strategy::Section => if given == 0 {
                0
            } else if given <= 4 {
                4
            } else if given <= 8 {
                given as i32
            } else {
                SECTION_DIRECT_ENTRY_SIZE
            },
            Strategy::Biome => given as i32,
        }
    }

    pub open spec fn spec_locked_entry_count(self) -> i32 {
        match self {
            Strategy::Section => 4096,
            Strategy::Biome => 64,
        }
    }

    pub open spec fn spec_entry_size(self) -> i32 {
        match self {
            Strategy::Section => SECTION_DIRECT_ENTRY_SIZE,
            Strategy::Biome => BIOME_DIRECT_ENTRY_SIZE,
        }
    }

    pub open spec fn spec_size_bits(self) -> i32 {
        match self {
            Strategy::Section => SECTION_SIZE_BITS,
            Strategy::Biome => BIOME_SIZE_BITS,
        }
    }

    /// `y`, `z` and `x` side by side, `bits` bits each for `z` and `x`.
    pub open spec fn spec_retrieve_index(self, x: i32, y: i32, z: i32) -> i32 {
        let bits = self.spec_size_bits() as u32;
        (((y << bits) | z) << bits) | x
    }

    pub fn bit_size(self, given: u8) -> (r: i32)
        ensures
            r == self.spec_bit_size(given),
    {
        match self {
            Strategy::Section => match given {
                0 => 0,
                1 | 2 | 3 | 4 => 4,
                x => if x <= 8 {
                    given as i32
                } else {
                    self.entry_size()
                },
            },
            Strategy::Biome => given as i32,
        }
    }

    pub fn locked_entry_count(self) -> (r: i32)
        ensures
            r == self.spec_locked_entry_count(),
    {
        match self {
            Strategy::Section => 4096,
            Strategy::Biome => 64,
        }
    }

    pub fn entry_size(self) -> (r: i32)
        ensures
            r == self.spec_entry_size(),
    {
        match self {
            Strategy::Section => SECTION_DIRECT_ENTRY_SIZE,
            Strategy::Biome => BIOME_DIRECT_ENTRY_SIZE,
        }
    }

    /// Number of entries: `2^(3 * size bits)`.
    pub fn size(self) -> (r: i32)
        ensures
            r == self.spec_locked_entry_count(),
    {
        assert((1i32 << 12u32) == 4096 && (1i32 << 6u32) == 64) by (bit_vector);
        match self {
            Strategy::Section => 1i32 << ((SECTION_SIZE_BITS * 3) as u32),
            Strategy::Biome => 1i32 << ((BIOME_SIZE_BITS * 3) as u32),
        }
    }

    /// The index of the entry at `(x, y, z)` within the container: `y`, then `z`, then `x`.
    pub fn retrieve_index(self, x: i32, y: i32, z: i32) -> (r: i32)
        ensures
            r == self.spec_retrieve_index(x, y, z),
    {
        let bits: u32 = match self {
            Strategy::Section => SECTION_SIZE_BITS as u32,
            Strategy::Biome => BIOME_SIZE_BITS as u32,
        };
        (((y << bits) | z) << bits) | x
    }
}

/// For coordinates within the container, the index is `(y * n + z) * n + x` with `n` entries
/// per axis, so every coordinate triple has its own index below the entry count.
pub proof fn law_retrieve_index_linear(s: Strategy, x: i32, y: i32, z: i32)
    requires
        0 <= x < 16 && 0 <= y < 16 && 0 <= z < 16,
        s is Biome ==> x < 4 && y < 4 && z < 4,
    ensures
        s is Section ==> s.spec_retrieve_index(x, y, z) == (y * 16 + z) * 16 + x,
        s is Biome ==> s.spec_retrieve_index(x, y, z) == (y * 4 + z) * 4 + x,
        0 <= s.spec_retrieve_index(x, y, z) < s.spec_locked_entry_count(),
{
    assert((0 <= x < 16 && 0 <= y < 16 && 0 <= z < 16) ==> (((y << 4u32) | z) << 4u32) | x == (y
        * 16 + z) * 16 + x) by (bit_vector);
    assert((0 <= x < 4 && 0 <= y < 4 && 0 <= z < 4) ==> (((y << 2u32) | z) << 2u32) | x == (y * 4
        + z) * 4 + x) by (bit_vector);
}

/// How a container maps its entries to ids.
#[derive(Debug, Clone)]
pub enum Palette {
    SingleValue { block_type_id: i32 },
    Indirect { palette: Vec<i32> },
    Direct,
}

/// The first index of `v` in `s`, or -1.
pub open spec fn first_index_of(s: Seq<i32>, v: i32) -> int
    decreases s.len(),
{
    if s.len() == 0 {
        -1
    } else if first_index_of(s.drop_last(), v) != -1 {
        first_index_of(s.drop_last(), v)
    } else if s.last() == v {
        s.len() - 1
    } else {
        -1
    }
}

proof fn lemma_first_index_of(s: Seq<i32>, v: i32)
    ensures
        -1 <= first_index_of(s, v) < s.len(),
        first_index_of(s, v) == -1 <==> !s.contains(v),
        first_index_of(s, v) != -1 ==> s[first_index_of(s, v)] == v && forall|j: int|
            0 <= j < first_index_of(s, v) ==> s[j] != v,
    decreases s.len(),
{
    if s.len() > 0 {
        lemma_first_index_of(s.drop_last(), v);
        if first_index_of(s.drop_last(), v) == -1 {
            assert forall|j: int| 0 <= j < s.len() - 1 implies s[j] != v by {
                assert(s.drop_last()[j] == s[j]);
                assert(!s.drop_last().contains(v));
            }
            if s.last() != v {
                assert forall|j: int| 0 <= j < s.len() implies s[j] != v by {
                    if j < s.len() - 1 {
                        assert(s.drop_last()[j] == s[j]);
                    }
                }
            }
        } else {
            let i = first_index_of(s.drop_last(), v);
            assert(s.drop_last()[i] == s[i]);
            assert forall|j: int| 0 <= j < i implies s[j] != v by {
                assert(s.drop_last()[j] == s[j]);
            }
        }
    }
}

impl Palette {
    /// The id that palette entry `id_index` stands for.
    pub open spec fn spec_get(&self, id_index: int) -> i32 {
        match self {
            Palette::SingleValue { block_type_id } => *block_type_id,
            Palette::Indirect { palette } => palette@[id_index],
            Palette::Direct => id_index as i32,
        }
    }

    /// Where `block_id` sits in the palette, or the size the palette would need.
    pub open spec fn spec_id_for(&self, block_id: i32) -> Index {
        match self {
            Palette::SingleValue { block_type_id } => if *block_type_id == block_id {
                Index::CurrentIndex(0)
            } else {
                Index::NewSize(2)
            },
            Palette::Indirect { palette } => if first_index_of(palette@, block_id) != -1 {
                Index::CurrentIndex(first_index_of(palette@, block_id) as i32)
            } else {
                Index::NewSize(((palette@.len() as u8) + 1) as u8)
            },
            Palette::Direct => Index::CurrentIndex(block_id),
        }
    }

    /// `id_for` can be asked for `block_id`: the size an indirect palette would grow to fits a
    /// byte.
    pub open spec fn id_for_fits(&self, block_id: i32) -> bool {
        match self {
            Palette::Indirect { palette } => first_index_of(palette@, block_id) == -1 ==> (
            palette@.len() as u8) < 255,
            _ => true,
        }
    }

    /// The encoding of the palette: the single id, or the count and the ids, or nothing.
    pub open spec fn spec_bytes(&self) -> Seq<u8> {
        match self {
            Palette::SingleValue { block_type_id } => spec_var_int(*block_type_id),
            Palette::Indirect { palette } => spec_var_int(palette@.len() as i32) + var_ints_bytes(
                palette@,
            ),
            Palette::Direct => seq![],
        }
    }

    fn get(&self, id_index: i32) -> (r: i32)
        requires
            self is Indirect ==> 0 <= id_index < self->palette@.len(),
        ensures
            r == self.spec_get(id_index as int),
    {
        match self {
            Palette::SingleValue { block_type_id } => *block_type_id,
            Palette::Indirect { palette } => palette[id_index as usize],
            Palette::Direct => id_index,
        }
    }

    fn id_for(&self, block_id: i32) -> (r: Index)
        requires
            self.id_for_fits(block_id),
        ensures
            r == self.spec_id_for(block_id),
    {
        match self {
            Palette::SingleValue { block_type_id } => {
                if *block_type_id == block_id {
                    Index::CurrentIndex(0)
                } else {
                    Index::NewSize(2)
                }
            },
            Palette::Indirect { palette } => {
                proof {
                    lemma_first_index_of(palette@, block_id);
                }
                let mut index: usize = 0;
                while index < palette.len()
                    invariant
                        index <= palette@.len(),
                        forall|j: int| 0 <= j < index ==> palette@[j] != block_id,
                        -1 <= first_index_of(palette@, block_id) < palette@.len(),
                        first_index_of(palette@, block_id) != -1 ==> index <= first_index_of(
                            palette@,
                            block_id,
                        ) && palette@[first_index_of(palette@, block_id)] == block_id,
                        first_index_of(palette@, block_id) == -1 ==> !palette@.contains(block_id),
                        first_index_of(palette@, block_id) != -1 ==> forall|j: int|
                            0 <= j < first_index_of(palette@, block_id) ==> palette@[j] != block_id,
                        self.id_for_fits(block_id),
                        *self == (Palette::Indirect { palette: *palette }),
                    decreases palette@.len() - index,
                {
                    if palette[index] == block_id {
                        assert(palette@.contains(block_id));
                        assert(index == first_index_of(palette@, block_id));
                        return Index::CurrentIndex(index as i32);
                    }
                    index = index + 1;
                }
                Index::NewSize((palette.len() as u8) + 1)
            },
            Palette::Direct => Index::CurrentIndex(block_id),
        }
    }

    /// Number of bytes of the palette's encoding.
    fn size(&self) -> (r: usize)
        requires
            self matches Palette::Indirect { palette } ==> palette@.len() <= 0x0FFF_FFFF,
        ensures
            r == self.spec_bytes().len(),
            r <= 0x5000_0000,
    {
        match self {
            Palette::SingleValue { block_type_id } => size_var_int(*block_type_id),
            Palette::Indirect { palette } => {
                let mut size = size_var_int(palette.len() as i32);
                let mut i: usize = 0;
                while i < palette.len()
                    invariant
                        i <= palette@.len() <= 0x0FFF_FFFF,
                        size == spec_var_int(palette@.len() as i32).len() + var_ints_bytes(
                            palette@.subrange(0, i as int),
                        ).len(),
                        size <= 5 + 5 * i,
                    decreases palette@.len() - i,
                {
                    proof {
                        lemma_var_ints_bytes_push(palette@.subrange(0, i as int), palette@[i as int]);
                        assert(palette@.subrange(0, i + 1) == palette@.subrange(0, i as int).push(
                            palette@[i as int],
                        ));
                    }
                    size = size + size_var_int(palette[i]);
                    i = i + 1;
                }
                assert(palette@.subrange(0, palette@.len() as int) == palette@);
                size
            },
            Palette::Direct => 0,
        }
    }
}

/// The VarInt encodings of `s`, one after the other.
pub open spec fn var_ints_bytes(s: Seq<i32>) -> Seq<u8>
    decreases s.len(),
{
    if s.len() == 0 {
        seq![]
    } else {
        var_ints_bytes(s.drop_last()) + spec_var_int(s.last())
    }
}

proof fn lemma_var_ints_bytes_push(s: Seq<i32>, v: i32)
    ensures
        var_ints_bytes(s.push(v)) == var_ints_bytes(s) + spec_var_int(v),
        var_ints_bytes(s.push(v)).len() == var_ints_bytes(s).len() + spec_var_int(v).len(),
        spec_var_int(v).len() <= 5,
{
    assert(s.push(v).drop_last() == s);
    crate::codec::lemma_var_int_roundtrip(v, seq![]);
}

/// A palette with its ids as a sequence.
pub ghost enum PaletteView {
    SingleValue(i32),
    Indirect(Seq<i32>),
    Direct,
}

impl View for Palette {
    type V = PaletteView;

    open spec fn view(&self) -> PaletteView {
        match self {
            Palette::SingleValue { block_type_id } => PaletteView::SingleValue(*block_type_id),
            Palette::Indirect { palette } => PaletteView::Indirect(palette@),
            Palette::Direct => PaletteView::Direct,
        }
    }
}

/// A palette and the packed storage of palette indices (or ids, for a direct palette) it
/// interprets.
#[derive(Debug, Clone)]
pub struct PaletteContainer {
    pub bits_per_entry: u8,
    pub palette: Palette,
    pub storage: BitStorage,
}

/// The palette a container grows into when `block_id` does not fit: a linear palette holding
/// the old ids and `block_id` while the new size is at most 3 (or 8, for sections), a direct
/// one beyond.
pub open spec fn spec_grown_palette(old: PaletteView, strategy: Strategy, new_size: u8, block_id: i32) -> PaletteView {
    if new_size <= 3 || (strategy is Section && new_size <= 8) {
        match old {
            PaletteView::SingleValue(id) => PaletteView::Indirect(seq![id, block_id]),
            PaletteView::Indirect(p) => PaletteView::Indirect(p.push(block_id)),
            PaletteView::Direct => PaletteView::Direct,
        }
    } else {
        PaletteView::Direct
    }
}

/// Why copying entry `idx` of `old` into a fresh storage of `count` entries of `bits` bits
/// fails, if it does: `old` refuses to read it, or the fresh storage refuses the index or the
/// value.
pub open spec fn copy_failure(old: BitStorage, count: int, bits: int, idx: int) -> Option<Seq<char>> {
    if !old.valid_index(idx) {
        Some(range_error_text(false, 0, old.spec_size() - 1, idx))
    } else if !(0 <= idx < count - 1) {
        Some(range_error_text(false, 0, count - 1, idx))
    } else if !(0 <= old.spec_get(idx) < spec_mask_u64(bits)) {
        Some(range_error_text(true, 0, spec_mask_u64(bits) as int, old.spec_get(idx) as int))
    } else {
        None
    }
}

/// The first failure of the copy from entry `from` on. Reading the last entry always fails (the
/// range check of `get` excludes it), so a copy of a non-empty storage never completes.
pub open spec fn first_copy_failure(old: BitStorage, count: int, bits: int, from: int) -> Seq<char>
    decreases old.spec_size() - from,
{
    if from >= old.spec_size() - 1 || from < 0 {
        range_error_text(false, 0, old.spec_size() - 1, from)
    } else {
        match copy_failure(old, count, bits, from) {
            Some(t) => t,
            None => first_copy_failure(old, count, bits, from + 1),
        }
    }
}

impl PaletteContainer {
    /// Storage and palette can be read and written.
    pub open spec fn wf(&self) -> bool {
        &&& self.storage.wf()
        &&& self.storage.in_reach()
    }

    /// The entry at `index` names a palette slot (when the palette is indirect).
    pub open spec fn entry_in_palette(&self, index: int) -> bool {
        match self.palette {
            Palette::Indirect { palette } => self.storage.valid_index(index) ==> 0
                <= self.storage.spec_get(index) < palette@.len(),
            _ => true,
        }
    }

    /// The id stored at `index`.
    pub open spec fn spec_get(&self, index: int) -> i32 {
        self.palette.spec_get(self.storage.spec_get(index) as int)
    }

    /// The id at `index`; refused when `index` is not in `0..size - 1`.
    pub fn get(&self, index: i32) -> (r: Result<i32, BitSetValidationError>)
        requires
            self.wf(),
            self.entry_in_palette(index as int),
        ensures
            r is Ok <==> self.storage.valid_index(index as int),
            r matches Ok(v) ==> v == self.spec_get(index as int),
            r matches Err(e) ==> e.0@ == range_error_text(
                false,
                0,
                self.storage.spec_size() - 1,
                index as int,
            ),
    {
        let out = self.storage.get(index)?;
        Ok(self.palette.get(out))
    }

    /// The palette with `new_value` added at the end, as a linear palette.
    pub fn copy_to_new_linear(&self, new_value: i32) -> (r: Palette)
        requires
            !(self.palette is Direct),
        ensures
            r@ == spec_grown_palette(self.palette@, Strategy::Biome, 2, new_value),
    {
        match &self.palette {
            Palette::SingleValue { block_type_id } => {
                let mut palette: Vec<i32> = Vec::new();
                palette.push(*block_type_id);
                palette.push(new_value);
                assert(palette@ =~= seq![*block_type_id, new_value]);
                Palette::Indirect { palette }
            },
            Palette::Indirect { palette } => {
                let mut new_palette = palette.clone();
                new_palette.push(new_value);
                Palette::Indirect { palette: new_palette }
            },
            Palette::Direct => Palette::Direct,
        }
    }
}

/// Where `block_id` lands in the grown palette: at the end of a linear one, as itself in a
/// direct one.
pub open spec fn spec_grown_index(grown: PaletteView, block_id: i32) -> i32 {
    match grown {
        PaletteView::Indirect(p) => (p.len() - 1) as i32,
        _ => block_id,
    }
}

/// What `reassert_storage` answers: the slot of `block_id`, or, when the palette must grow,
/// the copy's failure (for a non-empty storage) or the slot in the grown palette.
pub open spec fn spec_reassert(c: PaletteContainer, strategy: Strategy, block_id: i32) -> Result<i32, Seq<char>> {
    match c.palette.spec_id_for(block_id) {
        Index::CurrentIndex(m) => Ok(m),
        Index::NewSize(n) => if c.storage.spec_size() >= 1 {
            Err(
                first_copy_failure(
                    c.storage,
                    strategy.spec_locked_entry_count() as int,
                    strategy.spec_bit_size(n) as int,
                    0,
                ),
            )
        } else {
            Ok(spec_grown_index(spec_grown_palette(c.palette@, strategy, n, block_id), block_id))
        },
    }
}

/// `after` is `before` grown for `block_id` into a palette of `n` entries: new width, new
/// palette and a fresh, zeroed storage of the strategy's entry count.
pub open spec fn spec_grown(before: PaletteContainer, after: PaletteContainer, strategy: Strategy, n: u8, block_id: i32) -> bool {
    &&& after.bits_per_entry == strategy.spec_bit_size(n) as u8
    &&& after.palette@ == spec_grown_palette(before.palette@, strategy, n, block_id)
    &&& after.storage is SimpleStorage
    &&& after.storage.spec_size() == strategy.spec_locked_entry_count()
    &&& after.storage.spec_bits() == strategy.spec_bit_size(n)
    &&& forall|i: int|
        0 <= i < after.storage.spec_raw().len() ==> #[trigger] after.storage.spec_raw()[i] == 0
}

/// The state `reassert_storage` leaves: unchanged unless the palette grew.
pub open spec fn spec_reasserted(before: PaletteContainer, after: PaletteContainer, strategy: Strategy, block_id: i32) -> bool {
    match before.palette.spec_id_for(block_id) {
        Index::NewSize(n) => if before.storage.spec_size() >= 1 {
            after == before
        } else {
            spec_grown(before, after, strategy, n, block_id)
        },
        _ => after == before,
    }
}

/// Whether the storage left by `reassert_storage` for `block_id` accepts its slot at `index`:
/// the index is in range and the slot is a value the storage can hold.
pub open spec fn store_accepts(c: PaletteContainer, strategy: Strategy, block_id: i32, index: int) -> bool {
    match spec_reassert(c, strategy, block_id) {
        Err(_) => false,
        Ok(m) => match c.palette.spec_id_for(block_id) {
            Index::NewSize(n) => 0 <= index < strategy.spec_locked_entry_count() - 1 && 0 <= m
                < spec_mask_u64(strategy.spec_bit_size(n) as int),
            _ => c.storage.valid_index(index) && c.storage.valid_value(m as int),
        },
    }
}

/// The entry at `index` of the storage left by `reassert_storage` for `block_id`: the stored
/// one, or zero in a freshly grown storage.
pub open spec fn slot_after_reassert(c: PaletteContainer, strategy: Strategy, block_id: i32, index: int) -> i32 {
    match c.palette.spec_id_for(block_id) {
        Index::NewSize(_) => if c.storage.spec_size() >= 1 {
            c.storage.spec_get(index)
        } else {
            0
        },
        _ => c.storage.spec_get(index),
    }
}

/// Every entry of an all-zero word reads zero.
proof fn lemma_zero_word_entry(mask: u64, shift: u64)
    by (bit_vector)
    ensures
        mask & ((0i64 as u64) >> shift) == 0,
{
}

/// What the storage in the middle of a set answers, told over the container before it.
proof fn lemma_reasserted_storage(c: PaletteContainer, mid: PaletteContainer, strategy: Strategy, block_id: i32, index: int)
    requires
        spec_reassert(c, strategy, block_id) is Ok,
        spec_reasserted(c, mid, strategy, block_id),
        mid.wf(),
    ensures
        store_accepts(c, strategy, block_id, index) == (mid.storage.valid_index(index)
            && mid.storage.valid_value(spec_reassert(c, strategy, block_id)->Ok_0 as int)),
        store_accepts(c, strategy, block_id, index) ==> mid.storage.spec_get(index)
            == slot_after_reassert(c, strategy, block_id, index),
{
    match c.palette.spec_id_for(block_id) {
        Index::NewSize(n) => {
            if c.storage.spec_size() < 1 && store_accepts(c, strategy, block_id, index) {
                let st = mid.storage;
                let bits = st.spec_bits() as int;
                lemma_entry_position(index, index, st.spec_size() as int, bits);
                let vpl = spec_values_per_long(bits);
                assert(st.spec_raw()[index / vpl] == 0);
                lemma_zero_word_entry(spec_mask_u64(bits), ((index % vpl) * bits) as u64);
            }
        },
        _ => {},
    }
}

/// `reassert_storage` can be asked for `block_id`: the palette can say where it goes, and a
/// palette that must grow grows to at least two entries, and biome widths stay within 62 bits.
pub open spec fn reassert_allowed(c: PaletteContainer, strategy: Strategy, block_id: i32) -> bool {
    &&& c.palette.id_for_fits(block_id)
    &&& c.palette.spec_id_for(block_id) matches Index::NewSize(n) ==> 2 <= n && (strategy is Biome
        ==> n <= 62)
}

proof fn lemma_first_index_of_push(s: Seq<i32>, v: i32)
    requires
        !s.contains(v),
    ensures
        first_index_of(s.push(v), v) == s.len(),
{
    lemma_first_index_of(s, v);
    assert(s.push(v).drop_last() == s);
}

impl PaletteContainer {
    /// Makes sure `block_id` has a slot: when the palette must grow, the entries are copied into
    /// a fresh storage of the new width and the palette grows (see `spec_reassert` for what
    /// comes back, and `spec_reasserted` for what is left).
    pub fn reassert_storage(&mut self, strategy: Strategy, block_id: i32) -> (r: Result<i32, BitSetValidationError>)
        requires
            old(self).wf(),
            reassert_allowed(*old(self), strategy, block_id),
        ensures
            final(self).wf(),
            spec_reasserted(*old(self), *final(self), strategy, block_id),
            match spec_reassert(*old(self), strategy, block_id) {
                Ok(m) => r matches Ok(v) && v == m,
                Err(t) => r matches Err(e) && e.0@ == t,
            },
    {
        match self.palette.id_for(block_id) {
            Index::NewSize(new_size) => {
                let ghost old_self = *self;
                let bits_per_entry = strategy.bit_size(new_size);
                let is_section = match strategy {
                    Strategy::Section => true,
                    Strategy::Biome => false,
                };
                let new_palette = if new_size <= 3 || (is_section && new_size <= 8) {
                    self.copy_to_new_linear(block_id)
                } else {
                    Palette::Direct
                };
                let count = strategy.locked_entry_count();
                proof {
                    crate::protocol::bit_storage::lemma_vpl_cases(bits_per_entry as int);
                }
                let mut new_bitset = BitStorage::new(count, bits_per_entry);
                let size = self.storage.size();
                let ghost cnt = count as int;
                let ghost b = bits_per_entry as int;
                let mut idx: i32 = 0;
                while idx < size
                    invariant
                        0 <= idx,
                        size >= 1 ==> idx <= size,
                        size < 1 ==> idx == 0,
                        size == old_self.storage.spec_size(),
                        *self == old_self,
                        old_self == *old(self),
                        old_self.palette.spec_id_for(block_id) == Index::NewSize(new_size),
                        bits_per_entry == strategy.spec_bit_size(new_size),
                        count == strategy.spec_locked_entry_count(),
                        cnt == count as int,
                        b == bits_per_entry as int,
                        idx == 0 ==> forall|i: int|
                            0 <= i < new_bitset.spec_raw().len() ==> #[trigger] new_bitset.spec_raw()[i]
                                == 0,
                        self.wf(),
                        new_bitset.wf(),
                        new_bitset.in_reach(),
                        new_bitset is SimpleStorage,
                        new_bitset.spec_size() == cnt,
                        new_bitset.spec_bits() == b,
                        1 <= b <= 62,
                        cnt == 4096 || cnt == 64,
                        forall|j: int| 0 <= j < idx ==> old_self.storage.valid_index(j),
                        first_copy_failure(old_self.storage, cnt, b, 0) == first_copy_failure(
                            old_self.storage,
                            cnt,
                            b,
                            idx as int,
                        ),
                    decreases size - idx,
                {
                    let out = match self.storage.get(idx) {
                        Ok(v) => v,
                        Err(e) => {
                            assert(first_copy_failure(old_self.storage, cnt, b, idx as int)
                                == range_error_text(false, 0, size - 1, idx as int));
                            assert(spec_reassert(old_self, strategy, block_id) == Err::<i32, Seq<char>>(
                                first_copy_failure(old_self.storage, cnt, b, 0)));
                            return Err(e);
                        },
                    };
                    match new_bitset.set(idx, out) {
                        Ok(()) => {},
                        Err(e) => {
                            assert(copy_failure(old_self.storage, cnt, b, idx as int) == Some(e.0@));
                            assert(first_copy_failure(old_self.storage, cnt, b, idx as int) == e.0@);
                            assert(spec_reassert(old_self, strategy, block_id) == Err::<i32, Seq<char>>(
                                first_copy_failure(old_self.storage, cnt, b, 0)));
                            return Err(e);
                        },
                    }
                    idx = idx + 1;
                }
                proof {
                    if size >= 1 {
                        assert(old_self.storage.valid_index(size - 1));
                    }
                }
                self.bits_per_entry = bits_per_entry as u8;
                self.palette = new_palette;
                self.storage = new_bitset;
                proof {
                    match old_self.palette@ {
                        PaletteView::SingleValue(id) => {
                            if self.palette is Indirect {
                                assert(first_index_of(seq![id, block_id], block_id) == 1) by {
                                    assert(!seq![id].contains(block_id));
                                    lemma_first_index_of_push(seq![id], block_id);
                                    assert(seq![id].push(block_id) == seq![id, block_id]);
                                }
                            }
                        },
                        PaletteView::Indirect(p) => {
                            lemma_first_index_of(p, block_id);
                            if self.palette is Indirect {
                                lemma_first_index_of_push(p, block_id);
                            }
                        },
                        PaletteView::Direct => {},
                    }
                }
                let found = self.palette.id_for(block_id);
                Ok(found.current())
            },
            Index::CurrentIndex(map) => Ok(map),
        }
    }
}

/// The first position of `idxs` whose set `st` refuses (an index out of range or a value it
/// cannot hold), or the length of `idxs` when it refuses none.
pub open spec fn first_refused_set(st: BitStorage, idxs: Seq<i32>, v: int, from: int) -> int
    decreases idxs.len() - from,
{
    if from >= idxs.len() || from < 0 {
        idxs.len() as int
    } else if !(st.valid_index(idxs[from] as int) && st.valid_value(v)) {
        from
    } else {
        first_refused_set(st, idxs, v, from + 1)
    }
}

proof fn lemma_first_refused_set(st: BitStorage, idxs: Seq<i32>, v: int, from: int)
    requires
        0 <= from <= idxs.len(),
    ensures
        from <= first_refused_set(st, idxs, v, from) <= idxs.len(),
        forall|j: int|
            from <= j < first_refused_set(st, idxs, v, from) ==> st.valid_index(idxs[j] as int)
                && st.valid_value(v),
        first_refused_set(st, idxs, v, from) < idxs.len() ==> !(st.valid_index(
            idxs[first_refused_set(st, idxs, v, from)] as int,
        ) && st.valid_value(v)),
    decreases idxs.len() - from,
{
    if from < idxs.len() && st.valid_index(idxs[from] as int) && st.valid_value(v) {
        lemma_first_refused_set(st, idxs, v, from + 1);
    }
}

/// `after` is `before` with the entries at the first `k` indexes of `idxs` set to `v`.
pub open spec fn sets_applied(before: BitStorage, after: BitStorage, idxs: Seq<i32>, k: int, v: i32) -> bool {
    &&& k == 0 ==> after == before
    &&& k > 0 ==> {
        &&& after.wf()
        &&& after.in_reach()
        &&& after is SimpleStorage
        &&& after.spec_size() == before.spec_size()
        &&& after.spec_bits() == before.spec_bits()
        &&& forall|n: int|
            #![trigger after.spec_get(n)]
            before.valid_index(n) ==> after.spec_get(n) == if exists|i: int|
                0 <= i < k && idxs[i] == n {
                v
            } else {
                before.spec_get(n)
            }
    }
}

impl PaletteContainer {
    /// Makes sure `block_id` has a slot, then stores it at each index in turn, stopping at the
    /// first index the storage refuses (the entries already set stay set).
    pub fn set_all(&mut self, strategy: Strategy, indexes: Vec<i32>, block_id: i32) -> (r: Result<(), BitSetValidationError>)
        requires
            old(self).wf(),
            reassert_allowed(*old(self), strategy, block_id),
        ensures
            final(self).wf(),
            match spec_reassert(*old(self), strategy, block_id) {
                Err(t) => r matches Err(e) && e.0@ == t && *final(self) == *old(self),
                Ok(m) => exists|mid: PaletteContainer|
                    #![trigger spec_reasserted(*old(self), mid, strategy, block_id)]
                    {
                        &&& spec_reasserted(*old(self), mid, strategy, block_id)
                        &&& mid.wf()
                        &&& final(self).bits_per_entry == mid.bits_per_entry
                        &&& final(self).palette == mid.palette
                        &&& {
                            let k = first_refused_set(mid.storage, indexes@, m as int, 0);
                            &&& sets_applied(mid.storage, final(self).storage, indexes@, k, m)
                            &&& (r is Ok <==> k == indexes@.len())
                            &&& r matches Err(e) ==> e.0@ == mid.storage.set_error_text(
                                indexes@[k] as int,
                                m as int,
                            )
                        }
                    },
            },
            r is Ok && palette_len_small(*old(self)) ==> forall|i: int|
                0 <= i < indexes@.len() ==> #[trigger] final(self).spec_get(indexes@[i] as int)
                    == block_id,
            r is Ok ==> forall|j: int|
                #![trigger final(self).spec_get(j)]
                old(self).storage.valid_index(j) && (forall|i: int|
                    0 <= i < indexes@.len() ==> indexes@[i] != j) ==> final(self).spec_get(j)
                    == old(self).spec_get(j),
            spec_reassert(*old(self), strategy, block_id) is Ok ==> (r is Ok <==> forall|i: int|
                0 <= i < indexes@.len() ==> #[trigger] store_accepts(
                    *old(self),
                    strategy,
                    block_id,
                    indexes@[i] as int,
                )),
    {
        let block_mapping = self.reassert_storage(strategy, block_id)?;
        let ghost mid = *self;
        proof {
            lemma_first_refused_set(mid.storage, indexes@, block_mapping as int, 0);
        }
        let ghost k = first_refused_set(mid.storage, indexes@, block_mapping as int, 0);
        let mut i: usize = 0;
        while i < indexes.len()
            invariant
                i <= indexes@.len(),
                i <= k,
                mid.wf(),
                spec_reasserted(*old(self), mid, strategy, block_id),
                spec_reassert(*old(self), strategy, block_id) == Ok::<i32, Seq<char>>(block_mapping),
                self.wf(),
                self.bits_per_entry == mid.bits_per_entry,
                self.palette == mid.palette,
                k == first_refused_set(mid.storage, indexes@, block_mapping as int, 0),
                0 <= k <= indexes@.len(),
                forall|j: int|
                    0 <= j < k ==> mid.storage.valid_index(indexes@[j] as int)
                        && mid.storage.valid_value(block_mapping as int),
                k < indexes@.len() ==> !(mid.storage.valid_index(indexes@[k] as int)
                    && mid.storage.valid_value(block_mapping as int)),
                sets_applied(mid.storage, self.storage, indexes@, i as int, block_mapping),
            decreases indexes@.len() - i,
        {
            let index = indexes[i];
            let ghost before = self.storage;
            let res = self.storage.set(index, block_mapping);
            proof {
                if i > 0 {
                    assert(before.valid_index(index as int) == mid.storage.valid_index(index as int));
                    assert(before.valid_value(block_mapping as int) == mid.storage.valid_value(
                        block_mapping as int,
                    ));
                }
            }
            match res {
                Ok(()) => {},
                Err(e) => {
                    proof {
                        assert(i as int == k);
                        lemma_reasserted_storage(*old(self), mid, strategy, block_id, indexes@[k] as int);
                        if i > 0 {
                            assert(mid.storage.valid_value(block_mapping as int));
                            assert(mid.storage is SimpleStorage);
                        }
                        assert(before.set_error_text(index as int, block_mapping as int)
                            == mid.storage.set_error_text(index as int, block_mapping as int));
                    }
                    return Err(e);
                },
            }
            proof {
                assert forall|n: int|
                    #![trigger self.storage.spec_get(n)]
                    mid.storage.valid_index(n) implies self.storage.spec_get(n) == if exists|j: int|
                        0 <= j < i + 1 && indexes@[j] == n {
                        block_mapping
                    } else {
                        mid.storage.spec_get(n)
                    } by {
                    if n == index as int {
                        assert(indexes@[i as int] == n);
                    } else {
                        if exists|j: int| 0 <= j < i + 1 && indexes@[j] == n {
                            let j = choose|j: int| 0 <= j < i + 1 && indexes@[j] == n;
                            assert(j < i);
                        }
                        if i > 0 {
                            assert(before.spec_get(n) == if exists|j: int|
                                0 <= j < i && indexes@[j] == n {
                                block_mapping
                            } else {
                                mid.storage.spec_get(n)
                            });
                        }
                    }
                }
            }
            i = i + 1;
        }
        proof {
            law_set_all_then_get(*old(self), mid, *self, strategy, indexes@, block_id, block_mapping);
            assert forall|j: int| 0 <= j < indexes@.len() implies #[trigger] store_accepts(
                *old(self),
                strategy,
                block_id,
                indexes@[j] as int,
            ) by {
                lemma_reasserted_storage(*old(self), mid, strategy, block_id, indexes@[j] as int);
            }
        }
        Ok(())
    }
}

impl PaletteContainer {
    /// Makes sure `block_id` has a slot, then stores it at `index` and returns the slot that
    /// was there.
    pub fn set(&mut self, strategy: Strategy, index: i32, block_id: i32) -> (r: Result<i32, BitSetValidationError>)
        requires
            old(self).wf(),
            reassert_allowed(*old(self), strategy, block_id),
        ensures
            final(self).wf(),
            match spec_reassert(*old(self), strategy, block_id) {
                Err(t) => r matches Err(e) && e.0@ == t && *final(self) == *old(self),
                Ok(m) => exists|mid: PaletteContainer|
                    #![trigger spec_reasserted(*old(self), mid, strategy, block_id)]
                    {
                        &&& spec_reasserted(*old(self), mid, strategy, block_id)
                        &&& mid.wf()
                        &&& final(self).bits_per_entry == mid.bits_per_entry
                        &&& final(self).palette == mid.palette
                        &&& final(self).storage.written(&mid.storage, index as int, m as int, r is Ok)
                        &&& r matches Ok(prev) ==> prev == mid.storage.spec_get(index as int)
                        &&& r matches Err(e) ==> e.0@ == mid.storage.set_error_text(
                            index as int,
                            m as int,
                        )
                    },
            },
            r is Ok && palette_len_small(*old(self)) ==> final(self).spec_get(index as int) == block_id,
            r is Ok ==> forall|j: int|
                #![trigger final(self).spec_get(j)]
                j != index && old(self).storage.valid_index(j) ==> final(self).spec_get(j) == old(
                    self,
                ).spec_get(j),
            spec_reassert(*old(self), strategy, block_id) is Ok ==> (r is Ok <==> store_accepts(
                *old(self),
                strategy,
                block_id,
                index as int,
            )),
            r matches Ok(prev) ==> prev == slot_after_reassert(*old(self), strategy, block_id, index as int),
    {
        let block_mapping = self.reassert_storage(strategy, block_id)?;
        let ghost mid = *self;
        let r = self.storage.get_and_set(index, block_mapping);
        assert(spec_reasserted(*old(self), mid, strategy, block_id));
        proof {
            lemma_reasserted_storage(*old(self), mid, strategy, block_id, index as int);
            if r is Ok && palette_len_small(*old(self)) {
                law_set_then_get(*old(self), mid, *self, strategy, index as int, block_id, block_mapping);
            }
            if r is Ok {
                let after = *self;
                assert forall|j: int|
                    #![trigger after.spec_get(j)]
                    j != index && old(self).storage.valid_index(j) implies after.spec_get(j) == old(
                        self,
                    ).spec_get(j) by {
                    assert(mid == *old(self));
                    assert(after.storage.spec_get(j) == mid.storage.spec_get(j));
                }
            }
        }
        r
    }

    /// The encoding of the container: the entry width as a byte, the palette, the storage.
    pub open spec fn spec_bytes(&self) -> Seq<u8> {
        seq![self.bits_per_entry] + self.palette.spec_bytes() + self.storage.spec_bytes()
    }

    /// Appends the container's encoding.
    pub fn serialize(&self, out: &mut Vec<u8>)
        requires
            self.storage.spec_raw().len() <= i32::MAX,
            self.palette matches Palette::Indirect { palette } ==> palette@.len() <= i32::MAX,
        ensures
            final(out)@ == old(out)@ + self.spec_bytes(),
    {
        let ghost start = out@;
        out.push(self.bits_per_entry);
        match &self.palette {
            Palette::SingleValue { block_type_id } => {
                write_var_int(out, *block_type_id);
            },
            Palette::Indirect { palette } => {
                write_var_int(out, palette.len() as i32);
                let ghost mid = out@;
                let mut i: usize = 0;
                while i < palette.len()
                    invariant
                        i <= palette@.len(),
                        out@ == mid + var_ints_bytes(palette@.subrange(0, i as int)),
                    decreases palette@.len() - i,
                {
                    proof {
                        lemma_var_ints_bytes_push(palette@.subrange(0, i as int), palette@[i as int]);
                        assert(palette@.subrange(0, i + 1) == palette@.subrange(0, i as int).push(
                            palette@[i as int],
                        ));
                    }
                    write_var_int(out, palette[i]);
                    i = i + 1;
                }
                assert(palette@.subrange(0, palette@.len() as int) == palette@);
            },
            Palette::Direct => {},
        }
        self.storage.to_writer(out);
        assert(out@ =~= start + self.spec_bytes());
    }

    /// Number of bytes of the container's encoding.
    pub fn size(&self) -> (r: usize)
        requires
            self.storage.spec_raw().len() <= 0x0FFF_FFFF,
            self.palette matches Palette::Indirect { palette } ==> palette@.len() <= 0x0FFF_FFFF,
        ensures
            r == self.spec_bytes().len(),
    {
        let size = 1 + self.palette.size();
        proof {
            crate::protocol::bit_storage::lemma_words_bytes_len(self.storage.spec_raw());
            crate::codec::lemma_var_int_roundtrip(self.storage.spec_raw().len() as i32, seq![]);
            crate::codec::lemma_var_int_roundtrip(0, seq![]);
        }
        self.storage.check_size() + size
    }
}

/// Reads `n` VarInts from `s` at `off`, after the ids `acc` already read: all the ids and the
/// offset after them.
pub open spec fn read_var_ints_from(s: Seq<u8>, n: nat, acc: Seq<i32>, off: nat) -> Result<(Seq<i32>, nat), ErrorKind>
    decreases n,
{
    if n == 0 {
        Ok((acc, off))
    } else {
        match spec_read_var_int(s.skip(off as int)) {
            Err(e) => Err(e),
            Ok((v, k)) => read_var_ints_from(s, (n - 1) as nat, acc.push(v), off + k),
        }
    }
}

/// The width the storage of a container is read with, for a declared width `b`: none for a
/// single value, 4 for small section palettes (and `b` for small biome ones), `b` up to 8 for
/// sections, and the direct width beyond.
pub open spec fn spec_storage_bits(strategy: Strategy, b: u8) -> int {
    if b == 0 {
        0
    } else if b <= 3 {
        if strategy is Biome {
            b as int
        } else {
            4
        }
    } else if b <= 8 && strategy is Section {
        b as int
    } else {
        strategy.spec_entry_size() as int
    }
}

/// A container as read: its declared width, palette, storage width and words, and the number
/// of bytes read.
pub ghost struct ContainerRead {
    pub bits_per_entry: u8,
    pub palette: PaletteView,
    pub storage_bits: int,
    pub raw: Seq<i64>,
    pub len: nat,
}

/// The declared width `b` is followed by a list of palette ids.
pub open spec fn has_palette_list(strategy: Strategy, b: u8) -> bool {
    1 <= b <= 3 || (4 <= b <= 8 && strategy is Section)
}

/// The palette read after the declared width, and the offset after it.
pub open spec fn spec_read_palette(strategy: Strategy, s: Seq<u8>) -> Result<(PaletteView, nat), ErrorKind> {
    let b = s[0];
    if b == 0 {
        match spec_read_var_int(s.skip(1)) {
            Err(e) => Err(e),
            Ok((id, k)) => Ok((PaletteView::SingleValue(id), 1 + k)),
        }
    } else if has_palette_list(strategy, b) {
        match spec_read_var_int(s.skip(1)) {
            Err(e) => Err(e),
            Ok((n, k)) => match read_var_ints_from(s, n as nat, seq![], 1 + k) {
                Err(e) => Err(e),
                Ok((ids, off)) => Ok((PaletteView::Indirect(ids), off)),
            },
        }
    } else {
        Ok((PaletteView::Direct, 1))
    }
}

/// What reading a container of the given strategy from the start of `s` gives.
pub open spec fn spec_read_container(strategy: Strategy, s: Seq<u8>) -> Result<ContainerRead, ErrorKind> {
    if s.len() == 0 {
        Err(ErrorKind::EndOfInput)
    } else {
        match spec_read_palette(strategy, s) {
            Err(e) => Err(e),
            Ok((palette, off)) => {
                let bits = spec_storage_bits(strategy, s[0]);
                match spec_read_storage(s.skip(off as int), bits, strategy.spec_locked_entry_count() as int) {
                    Err(e) => Err(e),
                    Ok((raw, k)) => Ok(
                        ContainerRead {
                            bits_per_entry: s[0],
                            palette,
                            storage_bits: bits,
                            raw,
                            len: off + k,
                        },
                    ),
                }
            },
        }
    }
}

/// A palette list's declared length, when it is read, is not negative (a negative length asks
/// for an allocation that cannot be made).
pub open spec fn palette_len_ok(strategy: Strategy, s: Seq<u8>) -> bool {
    s.len() > 0 && has_palette_list(strategy, s[0]) ==> (spec_read_var_int(s.skip(1)) matches Ok(
        (n, _),
    ) ==> n >= 0)
}

impl PaletteContainer {
    /// Reads `n` palette ids at `pos`.
    fn read_palette_ids(buf: &[u8], pos: usize, n: i32, Ghost(base): Ghost<usize>) -> (r: Result<(Vec<i32>, usize), TransportError>)
        requires
            base <= pos <= buf@.len(),
            n >= 0,
        ensures
            match read_var_ints_from(buf@.skip(base as int), n as nat, seq![], (pos - base) as nat) {
                Ok((ids, off)) => r matches Ok((v, p)) && v@ == ids && p == base + off,
                Err(e) => r is Err && r->Err_0.kind() == e,
            },
            r matches Ok((_, p)) ==> pos <= p <= buf@.len(),
    {
        let ghost s = buf@.skip(base as int);
        let blen = buf.len();
        let mut palette: Vec<i32> = Vec::new();
        let mut p = pos;
        let mut i: i32 = 0;
        while i < n
            invariant
                0 <= i <= n,
                base <= pos <= p <= blen,
                blen == buf@.len(),
                s == buf@.skip(base as int),
                read_var_ints_from(s, n as nat, seq![], (pos - base) as nat) == read_var_ints_from(
                    s,
                    (n - i) as nat,
                    palette@,
                    (p - base) as nat,
                ),
            decreases n - i,
        {
            assert(s.skip((p - base) as int) =~= buf@.skip(p as int));
            proof {
                crate::codec::lemma_scan_range(buf@.skip(p as int), 0, 5);
            }
            let (v, p2) = match read_var_int(buf, p) {
                Ok(x) => x,
                Err(e) => {
                    return Err(e);
                },
            };
            let ghost k = (p2 - p) as nat;
            assert(spec_read_var_int(s.skip((p - base) as int)) == Ok::<(i32, nat), ErrorKind>((v, k)));
            assert(read_var_ints_from(s, (n - i) as nat, palette@, (p - base) as nat)
                == read_var_ints_from(s, (n - i - 1) as nat, palette@.push(v), (p2 - base) as nat));
            palette.push(v);
            p = p2;
            i = i + 1;
        }
        Ok((palette, p))
    }

    /// Reads a container of the given strategy at `pos`: the declared entry width, then a single
    /// id (width 0), a palette list (small widths), or nothing (a direct palette), then the
    /// storage with the width `spec_storage_bits` gives.
    pub fn deserialize_with_strategy(strategy: Strategy, buf: &[u8], pos: usize) -> (r: Result<(PaletteContainer, usize), TransportError>)
        requires
            pos <= buf@.len(),
            palette_len_ok(strategy, buf@.skip(pos as int)),
        ensures
            match spec_read_container(strategy, buf@.skip(pos as int)) {
                Ok(c) => r matches Ok((v, p)) && v.bits_per_entry == c.bits_per_entry
                    && v.palette@ == c.palette && v.storage.spec_bits() == c.storage_bits
                    && v.storage.spec_raw() == c.raw
                    && v.storage.spec_size() == strategy.spec_locked_entry_count() && v.wf() && p
                    == pos + c.len,
                Err(e) => r is Err && r->Err_0.kind() == e,
            },
            r matches Ok((_, p)) ==> pos < p <= buf@.len(),
    {
        let ghost s = buf@.skip(pos as int);
        let blen = buf.len();
        if pos >= blen {
            return Err(TransportError::EndOfInput);
        }
        let bits_per_entry = buf[pos];
        assert(s[0] == bits_per_entry);
        assert(s.skip(1) =~= buf@.skip(pos + 1));
        let is_section = match strategy {
            Strategy::Section => true,
            Strategy::Biome => false,
        };
        proof {
            crate::codec::lemma_scan_range(buf@.skip(pos + 1), 0, 5);
        }
        let (palette, storage_bits, p) = if bits_per_entry == 0 {
            let (block_type_id, p) = match read_var_int(buf, pos + 1) {
                Ok(x) => x,
                Err(e) => {
                    return Err(e);
                },
            };
            (Palette::SingleValue { block_type_id }, 0u8, p)
        } else if bits_per_entry <= 3 || (bits_per_entry <= 8 && is_section) {
            let (palette_len, p1) = match read_var_int(buf, pos + 1) {
                Ok(x) => x,
                Err(e) => {
                    return Err(e);
                },
            };
            let (ids, p) = match Self::read_palette_ids(buf, p1, palette_len, Ghost(pos)) {
                Ok(x) => x,
                Err(e) => {
                    return Err(e);
                },
            };
            let storage_bits = if bits_per_entry <= 3 && !is_section {
                bits_per_entry
            } else if bits_per_entry <= 4 {
                4u8
            } else {
                bits_per_entry
            };
            (Palette::Indirect { palette: ids }, storage_bits, p)
        } else {
            (Palette::Direct, strategy.entry_size() as u8, pos + 1)
        };
        assert(storage_bits as int == spec_storage_bits(strategy, bits_per_entry));
        assert(s.skip((p - pos) as int) =~= buf@.skip(p as int));
        proof {
            if storage_bits >= 1 {
                crate::protocol::bit_storage::lemma_vpl_cases(storage_bits as int);
            }
        }
        let (storage, q) = match BitStorage::from_reader(
            buf,
            p,
            storage_bits,
            strategy.locked_entry_count(),
        ) {
            Ok(x) => x,
            Err(e) => {
                return Err(e);
            },
        };
        Ok((PaletteContainer { bits_per_entry, palette, storage }, q))
    }
}

proof fn lemma_var_ints_bytes_cons(x: i32, t: Seq<i32>)
    ensures
        var_ints_bytes(seq![x] + t) == spec_var_int(x) + var_ints_bytes(t),
    decreases t.len(),
{
    if t.len() == 0 {
        assert(seq![x] + t =~= seq![x]);
        assert(seq![x].drop_last() =~= Seq::<i32>::empty());
        assert(var_ints_bytes(seq![x]) == var_ints_bytes(Seq::<i32>::empty()) + spec_var_int(x));
        assert(spec_var_int(x) + Seq::<u8>::empty() =~= spec_var_int(x));
        assert(Seq::<u8>::empty() + spec_var_int(x) =~= spec_var_int(x));
    } else {
        lemma_var_ints_bytes_cons(x, t.drop_last());
        assert((seq![x] + t).drop_last() =~= seq![x] + t.drop_last());
        assert((seq![x] + t).last() == t.last());
        assert(spec_var_int(x) + var_ints_bytes(t.drop_last()) + spec_var_int(t.last()) =~= spec_var_int(
            x,
        ) + (var_ints_bytes(t.drop_last()) + spec_var_int(t.last())));
    }
}

proof fn lemma_read_var_ints(s: Seq<u8>, ids: Seq<i32>, acc: Seq<i32>, off: nat)
    requires
        off + var_ints_bytes(ids).len() <= s.len(),
        s.subrange(off as int, (off + var_ints_bytes(ids).len()) as int) == var_ints_bytes(ids),
    ensures
        read_var_ints_from(s, ids.len(), acc, off) == Ok::<(Seq<i32>, nat), ErrorKind>(
            (acc + ids, off + var_ints_bytes(ids).len()),
        ),
    decreases ids.len(),
{
    if ids.len() == 0 {
        assert(acc + ids == acc);
    } else {
        let x = ids[0];
        let t = ids.skip(1);
        assert(ids == seq![x] + t);
        lemma_var_ints_bytes_cons(x, t);
        let hx = spec_var_int(x);
        let rest = s.skip((off + hx.len()) as int);
        assert(s.skip(off as int) =~= hx + rest) by {
            assert(s.subrange(off as int, (off + hx.len()) as int) =~= hx);
        }
        crate::codec::lemma_var_int_roundtrip(x, rest);
        let whole = s.subrange(off as int, (off + var_ints_bytes(ids).len()) as int);
        assert(whole =~= hx + var_ints_bytes(t));
        assert(whole.subrange(hx.len() as int, whole.len() as int) =~= var_ints_bytes(t));
        assert(s.subrange((off + hx.len()) as int, (off + hx.len() + var_ints_bytes(t).len()) as int)
            =~= whole.subrange(hx.len() as int, whole.len() as int));
        lemma_read_var_ints(s, t, acc.push(x), off + hx.len());
        assert(acc.push(x) + t =~= acc + ids);
    }
}

/// A container's encoding reads back as the container: its declared width, palette, storage
/// words and the encoding's length, when the width, the palette's kind and the storage's width
/// agree the way a read lays them out.
#[verifier::rlimit(40)]
pub proof fn law_container_roundtrip(c: PaletteContainer, strategy: Strategy, rest: Seq<u8>)
    requires
        c.storage.wf(),
        c.storage is SimpleStorage || c.storage.spec_raw().len() == 0,
        c.storage.spec_raw().len() <= i32::MAX,
        c.storage.spec_size() == strategy.spec_locked_entry_count(),
        c.storage.spec_bits() == spec_storage_bits(strategy, c.bits_per_entry),
        c.bits_per_entry == 0 <==> c.palette is SingleValue,
        has_palette_list(strategy, c.bits_per_entry) <==> c.palette is Indirect,
        c.palette matches Palette::Indirect { palette } ==> palette@.len() <= i32::MAX,
    ensures
        palette_len_ok(strategy, c.spec_bytes() + rest),
        spec_read_container(strategy, c.spec_bytes() + rest) == Ok::<ContainerRead, ErrorKind>(
            ContainerRead {
                bits_per_entry: c.bits_per_entry,
                palette: c.palette@,
                storage_bits: c.storage.spec_bits(),
                raw: c.storage.spec_raw(),
                len: c.spec_bytes().len(),
            },
        ),
{
    let s = c.spec_bytes() + rest;
    let pb = c.palette.spec_bytes();
    let sb = c.storage.spec_bytes();
    assert(s =~= seq![c.bits_per_entry] + (pb + (sb + rest)));
    assert(s[0] == c.bits_per_entry);
    assert(s.skip(1) =~= pb + (sb + rest));
    assert(s.skip((1 + pb.len()) as int) =~= sb + rest);
    crate::protocol::bit_storage::law_storage_roundtrip(c.storage, rest);
    match c.palette {
        Palette::SingleValue { block_type_id } => {
            crate::codec::lemma_var_int_roundtrip(block_type_id, sb + rest);
        },
        Palette::Indirect { palette } => {
            let n = palette@.len() as i32;
            let hn = spec_var_int(n);
            crate::codec::lemma_var_int_roundtrip(n, var_ints_bytes(palette@) + (sb + rest));
            assert(s.skip(1) =~= hn + (var_ints_bytes(palette@) + (sb + rest)));
            assert(s.subrange((1 + hn.len()) as int, (1 + hn.len() + var_ints_bytes(palette@).len()) as int)
                =~= var_ints_bytes(palette@));
            lemma_read_var_ints(s, palette@, seq![], (1 + hn.len()) as nat);
            assert(Seq::<i32>::empty() + palette@ =~= palette@);
        },
        Palette::Direct => {},
    }
}

/// Two storages hold the same entries in the same shape.
pub open spec fn same_storage(a: BitStorage, b: BitStorage) -> bool {
    &&& a.spec_size() == b.spec_size()
    &&& a.spec_bits() == b.spec_bits()
    &&& a.spec_raw() == b.spec_raw()
    &&& (a is ZeroStorage <==> b is ZeroStorage)
}

/// Two containers hold the same entries in the same shape.
pub open spec fn same_container(a: PaletteContainer, b: PaletteContainer) -> bool {
    &&& a.bits_per_entry == b.bits_per_entry
    &&& a.palette@ == b.palette@
    &&& same_storage(a.storage, b.storage)
}

/// Storages of the same shape and words read the same entries.
pub proof fn lemma_same_storage_reads(a: BitStorage, b: BitStorage, n: int)
    requires
        same_storage(a, b),
    ensures
        a.spec_get(n) == b.spec_get(n),
        a.valid_index(n) == b.valid_index(n),
        a.wf() == b.wf(),
        a.in_reach() == b.in_reach(),
{
}

fn duplicate_storage(st: &BitStorage) -> (r: BitStorage)
    ensures
        same_storage(*st, r),
{
    match st {
        BitStorage::ZeroStorage { size, raw } => BitStorage::ZeroStorage { size: *size, raw: copy_words(raw) },
        BitStorage::SimpleStorage { size, bits, raw } => BitStorage::SimpleStorage {
            size: *size,
            bits: *bits,
            raw: copy_words(raw),
        },
    }
}

fn copy_words(raw: &Vec<i64>) -> (r: Vec<i64>)
    ensures
        r@ == raw@,
{
    let mut out: Vec<i64> = Vec::new();
    let mut i: usize = 0;
    while i < raw.len()
        invariant
            i <= raw@.len(),
            out@ == raw@.subrange(0, i as int),
        decreases raw@.len() - i,
    {
        out.push(raw[i]);
        i = i + 1;
    }
    out
}

fn copy_ids(ids: &Vec<i32>) -> (r: Vec<i32>)
    ensures
        r@ == ids@,
{
    let mut out: Vec<i32> = Vec::new();
    let mut i: usize = 0;
    while i < ids.len()
        invariant
            i <= ids@.len(),
            out@ == ids@.subrange(0, i as int),
        decreases ids@.len() - i,
    {
        out.push(ids[i]);
        i = i + 1;
    }
    out
}

impl PaletteContainer {
    /// A copy of the container.
    pub fn duplicate(&self) -> (r: PaletteContainer)
        ensures
            same_container(*self, r),
    {
        let palette = match &self.palette {
            Palette::SingleValue { block_type_id } => Palette::SingleValue {
                block_type_id: *block_type_id,
            },
            Palette::Indirect { palette } => Palette::Indirect { palette: copy_ids(palette) },
            Palette::Direct => Palette::Direct,
        };
        PaletteContainer {
            bits_per_entry: self.bits_per_entry,
            palette,
            storage: duplicate_storage(&self.storage),
        }
    }
}

/// Sixteen blocks a side: the block states and biomes of one slice of a chunk column.
#[derive(Debug, Clone)]
pub struct ChunkSection {
    pub block_count: u16,
    pub states: PaletteContainer,
    pub biomes: PaletteContainer,
}

/// The 256 indexes of the plane at height `y` of a section, `z` then `x`.
pub open spec fn spec_plane_indexes(y: i32) -> Seq<i32> {
    Seq::new(
        256,
        |i: int| ((((y << 4u32) | (i / 16) as i32) << 4u32) | (i % 16) as i32),
    )
}

/// `j` is one of the plane's indexes.
pub open spec fn plane_has(y: i32, j: int) -> bool {
    exists|i: int| 0 <= i < 256 && #[trigger] spec_plane_indexes(y)[i] == j
}

/// The storage left for `block_id` accepts its slot at every index of the plane at `y`.
pub open spec fn plane_accepted(states: PaletteContainer, y: i32, block_id: i32) -> bool {
    forall|i: int|
        0 <= i < 256 ==> #[trigger] store_accepts(
            states,
            Strategy::Section,
            block_id,
            spec_plane_indexes(y)[i] as int,
        )
}

impl ChunkSection {
    /// A copy of the section.
    pub fn duplicate(&self) -> (r: ChunkSection)
        ensures
            r.block_count == self.block_count,
            same_container(self.states, r.states),
            same_container(self.biomes, r.biomes),
    {
        ChunkSection {
            block_count: self.block_count,
            states: self.states.duplicate(),
            biomes: self.biomes.duplicate(),
        }
    }

    fn increment_non_empty_block_count(&mut self)
        requires
            old(self).block_count < u16::MAX,
        ensures
            final(self).block_count == old(self).block_count + 1,
            final(self).states == old(self).states,
            final(self).biomes == old(self).biomes,
    {
        self.block_count = self.block_count + 1;
    }

    fn decrement_non_empty_block_count(&mut self)
        requires
            old(self).block_count > 0,
        ensures
            final(self).block_count == old(self).block_count - 1,
            final(self).states == old(self).states,
            final(self).biomes == old(self).biomes,
    {
        self.block_count = self.block_count - 1;
    }

    /// The block state at `(x, y, z)` within the section.
    fn get_block_id(&self, x: i32, y: i32, z: i32) -> (r: Result<i32, BitSetValidationError>)
        requires
            self.states.wf(),
            self.states.entry_in_palette(Strategy::Section.spec_retrieve_index(x, y, z) as int),
        ensures
            ({
                let idx = Strategy::Section.spec_retrieve_index(x, y, z) as int;
                &&& r is Ok <==> self.states.storage.valid_index(idx)
                &&& r matches Ok(v) ==> v == self.states.spec_get(idx)
                &&& r matches Err(e) ==> e.0@ == range_error_text(
                    false,
                    0,
                    self.states.storage.spec_size() - 1,
                    idx,
                )
            }),
    {
        self.states.get(Strategy::Section.retrieve_index(x, y, z))
    }

    /// Stores `block_id` at `(x, y, z)` within the section; see `PaletteContainer::set`.
    fn set_block_id(&mut self, x: i32, y: i32, z: i32, block_id: i32) -> (r: Result<i32, BitSetValidationError>)
        requires
            old(self).states.wf(),
            reassert_allowed(old(self).states, Strategy::Section, block_id),
        ensures
            final(self).states.wf(),
            final(self).block_count == old(self).block_count,
            final(self).biomes == old(self).biomes,
            match spec_reassert(old(self).states, Strategy::Section, block_id) {
                Err(t) => r matches Err(e) && e.0@ == t && final(self).states == old(self).states,
                Ok(m) => exists|mid: PaletteContainer|
                    #![trigger spec_reasserted(old(self).states, mid, Strategy::Section, block_id)]
                    {
                        let index = Strategy::Section.spec_retrieve_index(x, y, z) as int;
                        &&& spec_reasserted(old(self).states, mid, Strategy::Section, block_id)
                        &&& mid.wf()
                        &&& final(self).states.bits_per_entry == mid.bits_per_entry
                        &&& final(self).states.palette == mid.palette
                        &&& final(self).states.storage.written(&mid.storage, index, m as int, r is Ok)
                        &&& r matches Ok(prev) ==> prev == mid.storage.spec_get(index)
                        &&& r matches Err(e) ==> e.0@ == mid.storage.set_error_text(index, m as int)
                    },
            },
            r is Ok && palette_len_small(old(self).states) ==> final(self).states.spec_get(
                Strategy::Section.spec_retrieve_index(x, y, z) as int,
            ) == block_id,
            spec_reassert(old(self).states, Strategy::Section, block_id) is Ok ==> (r is Ok
                <==> store_accepts(
                old(self).states,
                Strategy::Section,
                block_id,
                Strategy::Section.spec_retrieve_index(x, y, z) as int,
            )),
            r matches Ok(prev) ==> prev == slot_after_reassert(
                old(self).states,
                Strategy::Section,
                block_id,
                Strategy::Section.spec_retrieve_index(x, y, z) as int,
            ),
    {
        let state_index = Strategy::Section.retrieve_index(x, y, z);
        self.states.set(Strategy::Section, state_index, block_id)
    }

    /// Stores `block_id` at every position of the plane at height `y` of the section; see
    /// `PaletteContainer::set_all`.
    fn rewrite_plane(&mut self, y: i32, block_id: i32) -> (r: Result<(), BitSetValidationError>)
        requires
            old(self).states.wf(),
            reassert_allowed(old(self).states, Strategy::Section, block_id),
        ensures
            final(self).states.wf(),
            final(self).block_count == old(self).block_count,
            final(self).biomes == old(self).biomes,
            match spec_reassert(old(self).states, Strategy::Section, block_id) {
                Err(t) => r matches Err(e) && e.0@ == t && final(self).states == old(self).states,
                Ok(m) => exists|mid: PaletteContainer|
                    #![trigger spec_reasserted(old(self).states, mid, Strategy::Section, block_id)]
                    {
                        &&& spec_reasserted(old(self).states, mid, Strategy::Section, block_id)
                        &&& mid.wf()
                        &&& final(self).states.bits_per_entry == mid.bits_per_entry
                        &&& final(self).states.palette == mid.palette
                        &&& {
                            let idxs = spec_plane_indexes(y);
                            let k = first_refused_set(mid.storage, idxs, m as int, 0);
                            &&& sets_applied(mid.storage, final(self).states.storage, idxs, k, m)
                            &&& (r is Ok <==> k == 256)
                            &&& r matches Err(e) ==> e.0@ == mid.storage.set_error_text(
                                idxs[k] as int,
                                m as int,
                            )
                        }
                    },
            },
            spec_reassert(old(self).states, Strategy::Section, block_id) is Ok ==> (r is Ok
                <==> plane_accepted(old(self).states, y, block_id)),
            r is Ok && palette_len_small(old(self).states) ==> forall|i: int|
                0 <= i < 256 ==> #[trigger] final(self).states.spec_get(spec_plane_indexes(y)[i] as int)
                    == block_id,
            r is Ok ==> forall|j: int|
                #![trigger final(self).states.spec_get(j)]
                old(self).states.storage.valid_index(j) && !plane_has(y, j) ==> final(self).states.spec_get(j)
                    == old(self).states.spec_get(j),
    {
        let mut indexes: Vec<i32> = Vec::new();
        let p1 = y << 4u32;
        let mut z: i32 = 0;
        while z < 16
            invariant
                0 <= z <= 16,
                p1 == y << 4u32,
                indexes@.len() == 16 * z,
                forall|i: int| 0 <= i < 16 * z ==> #[trigger] indexes@[i] == spec_plane_indexes(y)[i],
            decreases 16 - z,
        {
            let p2 = (p1 | z) << 4u32;
            let mut x: i32 = 0;
            while x < 16
                invariant
                    0 <= z < 16,
                    0 <= x <= 16,
                    p1 == y << 4u32,
                    p2 == (p1 | z) << 4u32,
                    indexes@.len() == 16 * z + x,
                    forall|i: int|
                        0 <= i < 16 * z + x ==> #[trigger] indexes@[i] == spec_plane_indexes(y)[i],
                decreases 16 - x,
            {
                let idx = p2 | x;
                proof {
                    let i = 16 * z + x;
                    assert(i / 16 == z as int && i % 16 == x as int);
                }
                indexes.push(idx);
                x = x + 1;
            }
            z = z + 1;
        }
        assert(indexes@ =~= spec_plane_indexes(y));
        let r = self.states.set_all(Strategy::Section, indexes, block_id);
        proof {
            if r is Ok {
                assert forall|j: int|
                    old(self).states.storage.valid_index(j) && !plane_has(y, j) implies (forall|i: int|
                        0 <= i < indexes@.len() ==> indexes@[i] != j) by {
                    if exists|i: int| 0 <= i < indexes@.len() && indexes@[i] == j {
                        let i = choose|i: int| 0 <= i < indexes@.len() && indexes@[i] == j;
                        assert(spec_plane_indexes(y)[i] == j);
                    }
                }
            }
        }
        r
    }
}

/// Encodings are small enough for their lengths to be counted in 32 bits.
pub open spec fn container_encodable(c: PaletteContainer) -> bool {
    &&& c.storage.spec_raw().len() <= 0x0001_0000
    &&& c.palette matches Palette::Indirect { palette } ==> palette@.len() <= 0x0001_0000
}

impl ChunkSection {
    /// The encoding of the section: the block count as two big-endian bytes, then the block
    /// states, then the biomes.
    pub open spec fn spec_bytes(&self) -> Seq<u8> {
        be_bytes(self.block_count as nat, 2) + self.states.spec_bytes() + self.biomes.spec_bytes()
    }

    /// Appends the section's encoding.
    pub fn encode(&self, out: &mut Vec<u8>)
        requires
            container_encodable(self.states),
            container_encodable(self.biomes),
        ensures
            final(out)@ == old(out)@ + self.spec_bytes(),
    {
        let ghost start = out@;
        write_be(out, self.block_count as u64, 2);
        self.states.serialize(out);
        self.biomes.serialize(out);
        assert(out@ =~= start + self.spec_bytes());
    }

    /// Number of bytes of the section's encoding.
    pub fn size(&self) -> (r: usize)
        requires
            container_encodable(self.states),
            container_encodable(self.biomes),
        ensures
            r == self.spec_bytes().len(),
    {
        proof {
            crate::codec::lemma_be_roundtrip(self.block_count as nat, 2);
            bytes_bound(self.states);
            bytes_bound(self.biomes);
        }
        2 + self.states.size() + self.biomes.size()
    }

    /// Reads a section: the block count, then block states and biomes.
    #[verifier::rlimit(30)]
    pub fn decode(buf: &[u8], pos: usize) -> (r: Result<(ChunkSection, usize), TransportError>)
        requires
            pos <= buf@.len(),
            section_decodable(buf@.skip(pos as int)),
        ensures
            match spec_read_section(buf@.skip(pos as int)) {
                Ok((sr, k)) => r matches Ok((sec, p)) && section_read_as(sec, sr) && p == pos + k,
                Err(e) => r is Err && r->Err_0.kind() == e,
            },
            r matches Ok((_, p)) ==> pos < p <= buf@.len(),
    {
        reveal(spec_read_section);
        reveal(section_decodable);
        let blen = buf.len();
        let ghost s = buf@.skip(pos as int);
        let (block_count, p) = match read_be(buf, pos, 2) {
            Ok(x) => x,
            Err(e) => {
                return Err(e);
            },
        };
        assert(p == pos + 2);
        assert(s.skip(2) =~= buf@.skip(p as int));
        assert(s.subrange(0, 2) =~= buf@.subrange(pos as int, pos + 2));
        let (states, p2) = match PaletteContainer::deserialize_with_strategy(
            Strategy::Section,
            buf,
            p,
        ) {
            Ok(x) => x,
            Err(e) => {
                return Err(e);
            },
        };
        let ghost c1 = spec_read_container(Strategy::Section, s.skip(2))->Ok_0;
        assert(s.skip((2 + c1.len) as int) =~= buf@.skip(p2 as int));
        let (biomes, p3) = match PaletteContainer::deserialize_with_strategy(
            Strategy::Biome,
            buf,
            p2,
        ) {
            Ok(x) => x,
            Err(e) => {
                return Err(e);
            },
        };
        proof {
            assert(be_value(buf@.subrange(pos as int, pos + 2)) < 65536) by {
                assert(crate::codec::pow256(2) == 65536) by {
                    reveal_with_fuel(crate::codec::pow256, 3);
                }
                crate::codec::lemma_be_value_bound(buf@.subrange(pos as int, pos + 2));
            }
        }
        Ok((ChunkSection { block_count: block_count as u16, states, biomes }, p3))
    }
}

/// `c` is the container `read` describes.
pub open spec fn container_read_as(c: PaletteContainer, read: ContainerRead, strategy: Strategy) -> bool {
    &&& c.bits_per_entry == read.bits_per_entry
    &&& c.palette@ == read.palette
    &&& c.storage.spec_bits() == read.storage_bits
    &&& c.storage.spec_raw() == read.raw
    &&& c.storage.spec_size() == strategy.spec_locked_entry_count()
    &&& c.wf()
}

proof fn bytes_bound(c: PaletteContainer)
    requires
        container_encodable(c),
    ensures
        c.spec_bytes().len() <= 0x0010_0000,
{
    crate::protocol::bit_storage::lemma_words_bytes_len(c.storage.spec_raw());
    crate::codec::lemma_var_int_roundtrip(c.storage.spec_raw().len() as i32, seq![]);
    crate::codec::lemma_var_int_roundtrip(0, seq![]);
    match c.palette {
        Palette::SingleValue { block_type_id } => {
            crate::codec::lemma_var_int_roundtrip(block_type_id, seq![]);
        },
        Palette::Indirect { palette } => {
            crate::codec::lemma_var_int_roundtrip(palette@.len() as i32, seq![]);
            lemma_var_ints_bytes_len(palette@);
        },
        Palette::Direct => {},
    }
}

proof fn lemma_var_ints_bytes_len(s: Seq<i32>)
    ensures
        var_ints_bytes(s).len() <= 5 * s.len(),
    decreases s.len(),
{
    if s.len() > 0 {
        lemma_var_ints_bytes_len(s.drop_last());
        crate::codec::lemma_var_int_roundtrip(s.last(), seq![]);
    }
}

pub const BLOCKS_PER_SECTION: i32 = 16;

pub const DEFAULT_WORLD_MIN: i32 = -64;

pub const DEFAULT_WORLD_HEIGHT: i32 = 320;

/// A value of the height maps' compound tag, as far as the height maps read it.
#[derive(Debug)]
pub enum NbtValue {
    LongArray(Vec<i64>),
    Other,
}

/// The words of a long array, or none for another value.
pub open spec fn nbt_view(v: NbtValue) -> Option<Seq<i64>> {
    match v {
        NbtValue::LongArray(words) => Some(words@),
        NbtValue::Other => None,
    }
}

/// Tag entries as names and long arrays.
pub open spec fn entries_view(s: Seq<(String, NbtValue)>) -> Seq<(Seq<char>, Option<Seq<i64>>)>
    decreases s.len(),
{
    if s.len() == 0 {
        seq![]
    } else {
        entries_view(s.drop_last()).push((s.last().0@, nbt_view(s.last().1)))
    }
}

/// A compound tag as names and long arrays.
pub open spec fn tag_view(t: Option<Vec<(String, NbtValue)>>) -> Option<Seq<(Seq<char>, Option<Seq<i64>>)>> {
    match t {
        Some(v) => Some(entries_view(v@)),
        None => None,
    }
}

fn duplicate_tag(t: &Option<Vec<(String, NbtValue)>>) -> (r: Option<Vec<(String, NbtValue)>>)
    ensures
        tag_view(r) == tag_view(*t),
{
    match t {
        None => None,
        Some(entries) => {
            let mut out: Vec<(String, NbtValue)> = Vec::new();
            let mut i: usize = 0;
            while i < entries.len()
                invariant
                    i <= entries@.len(),
                    entries_view(out@) == entries_view(entries@.subrange(0, i as int)),
                decreases entries@.len() - i,
            {
                let name = entries[i].0.clone();
                let value = match &entries[i].1 {
                    NbtValue::LongArray(words) => NbtValue::LongArray(copy_words(words)),
                    NbtValue::Other => NbtValue::Other,
                };
                let ghost before = out@;
                out.push((name, value));
                assert(out@.drop_last() == before);
                assert(entries@.subrange(0, i + 1).drop_last() == entries@.subrange(0, i as int));
                i = i + 1;
            }
            assert(entries@.subrange(0, entries@.len() as int) == entries@);
            Some(out)
        },
    }
}

/// For every column, the height above the highest block, per kind of height map; the compound
/// tag they are sent as is kept alongside.
#[derive(Debug)]
pub struct HeightMaps {
    pub world_surface: BitStorage,
    pub motion_blocking: BitStorage,
    pub cached_compound_tag: Option<Vec<(String, NbtValue)>>,
}

/// The entries of a storage of at most 31 bits are not negative.
proof fn lemma_entry_nonneg(st: BitStorage, n: int)
    requires
        st.wf(),
        st.spec_bits() <= 31,
    ensures
        st.spec_get(n) >= 0,
{
    match st {
        BitStorage::ZeroStorage { .. } => {},
        BitStorage::SimpleStorage { bits, raw, .. } => {
            let vpl = spec_values_per_long(bits as int);
            let b = bits as u64;
            let w = (raw@[n / vpl] as u64) >> (((n % vpl) * bits) as u64);
            assert(1 <= b <= 31 ==> (((((1u64 << b) - 1) as u64) & w) as i32) >= 0) by (bit_vector);
        },
    }
}

/// A height map: a storage of one entry per column, at most 31 bits wide.
pub open spec fn height_map_wf(st: BitStorage) -> bool {
    &&& st.wf()
    &&& st.in_reach()
    &&& st.spec_bits() <= 31
}

/// Why raising column `index` of `bs` for a block at `y` fails, if it does: the column cannot
/// be read, or the new height cannot be stored.
pub open spec fn height_update_failure(bs: BitStorage, index: int, y: int, opaque: bool) -> Option<Seq<char>> {
    if !bs.valid_index(index) {
        Some(range_error_text(false, 0, bs.spec_size() - 1, index))
    } else if y > bs.spec_get(index) + DEFAULT_WORLD_MIN + 1 && opaque && !bs.valid_value(
        y + 1 - DEFAULT_WORLD_MIN,
    ) {
        Some(bs.set_error_text(index, y + 1 - DEFAULT_WORLD_MIN))
    } else {
        None
    }
}

/// `after` is `bs` with column `index` raised for a block at `y`, when the block is opaque and
/// above the column's height.
pub open spec fn height_updated(bs: BitStorage, after: BitStorage, index: int, y: int, opaque: bool) -> bool {
    if y > bs.spec_get(index) + DEFAULT_WORLD_MIN + 1 && opaque {
        after.written(&bs, index, y + 1 - DEFAULT_WORLD_MIN, true)
    } else {
        after == bs
    }
}

/// What raising column `index` of both height maps for a block at `y` does: the world surface
/// first, then the motion-blocking map, stopping at the first map that refuses; the cached tag
/// is rebuilt once both took it.
pub open spec fn heights_raised(before: HeightMaps, after: HeightMaps, index: int, y: int, opaque: bool, r: Result<(), BitSetValidationError>) -> bool {
    match height_update_failure(before.world_surface, index, y, opaque) {
        Some(t) => r matches Err(e) && e.0@ == t && after == before,
        None => height_updated(before.world_surface, after.world_surface, index, y, opaque)
            && match height_update_failure(before.motion_blocking, index, y, opaque) {
            Some(t) => r matches Err(e) && e.0@ == t && after.motion_blocking == before.motion_blocking
                && after.cached_compound_tag == before.cached_compound_tag,
            None => r is Ok && height_updated(before.motion_blocking, after.motion_blocking, index, y, opaque)
                && after.tag_cached(),
        },
    }
}

/// The column raised in position `i` of a plane fill: `x = i / 15` outer, `z = i % 15` inner.
pub open spec fn plane_column(i: int) -> int {
    i / 15 + (i % 15) * 16
}

/// Column `c` is one of the first `k` columns a plane fill raises.
pub open spec fn among_first_columns(c: int, k: int) -> bool {
    &&& 0 <= c
    &&& c % 16 < 15
    &&& c / 16 < 15
    &&& (c % 16) * 15 + c / 16 < k
}

/// Why raising column `c` for a block at `y` fails, if it does: the world surface refuses
/// first, then the motion-blocking map.
pub open spec fn column_failure(hm: HeightMaps, c: int, y: int, opaque: bool) -> Option<Seq<char>> {
    match height_update_failure(hm.world_surface, c, y, opaque) {
        Some(t) => Some(t),
        None => height_update_failure(hm.motion_blocking, c, y, opaque),
    }
}

/// The first position, from `from` on, of a plane fill's columns that fails; 225 when none
/// does.
pub open spec fn first_column_failure(hm: HeightMaps, y: int, opaque: bool, from: int) -> int
    decreases 225 - from,
{
    if from >= 225 || from < 0 {
        225
    } else if column_failure(hm, plane_column(from), y, opaque) is Some {
        from
    } else {
        first_column_failure(hm, y, opaque, from + 1)
    }
}

proof fn lemma_first_column_failure(hm: HeightMaps, y: int, opaque: bool, from: int)
    requires
        0 <= from <= 225,
    ensures
        from <= first_column_failure(hm, y, opaque, from) <= 225,
        forall|j: int|
            from <= j < first_column_failure(hm, y, opaque, from) ==> #[trigger] column_failure(
                hm,
                plane_column(j),
                y,
                opaque,
            ) is None,
        first_column_failure(hm, y, opaque, from) < 225 ==> column_failure(
            hm,
            plane_column(first_column_failure(hm, y, opaque, from)),
            y,
            opaque,
        ) is Some,
    decreases 225 - from,
{
    if from < 225 && column_failure(hm, plane_column(from), y, opaque) is None {
        lemma_first_column_failure(hm, y, opaque, from + 1);
    }
}

/// The height of column `c` of `bs` once raised for a block at `y`.
pub open spec fn raised_height(bs: BitStorage, c: int, y: int, opaque: bool) -> int {
    if y > bs.spec_get(c) + DEFAULT_WORLD_MIN + 1 && opaque {
        y + 1 - DEFAULT_WORLD_MIN
    } else {
        bs.spec_get(c) as int
    }
}

/// `after` is the height map `before` with the first `k` columns of a plane fill raised for a
/// block at `y`, and every other column as it was.
pub open spec fn columns_raised(before: BitStorage, after: BitStorage, y: int, opaque: bool, k: int) -> bool {
    &&& height_map_wf(after)
    &&& after.spec_size() == before.spec_size()
    &&& after.spec_bits() == before.spec_bits()
    &&& before is ZeroStorage ==> after == before
    &&& forall|c: int|
        #![trigger after.spec_get(c)]
        before.valid_index(c) ==> after.spec_get(c) as int == if among_first_columns(c, k) {
            raised_height(before, c, y, opaque)
        } else {
            before.spec_get(c) as int
        }
}

proof fn lemma_plane_column(x: int, z: int)
    requires
        0 <= x < 15,
        0 <= z < 15,
    ensures
        plane_column(15 * x + z) == x + z * 16,
        !among_first_columns(x + z * 16, 15 * x + z),
        forall|c: int|
            #[trigger] among_first_columns(c, 15 * x + z + 1) == (among_first_columns(c, 15 * x + z)
                || c == x + z * 16),
{
    assert((15 * x + z) / 15 == x && (15 * x + z) % 15 == z);
    assert((x + z * 16) % 16 == x && (x + z * 16) / 16 == z);
    assert forall|c: int|
        #[trigger] among_first_columns(c, 15 * x + z + 1) == (among_first_columns(c, 15 * x + z)
            || c == x + z * 16) by {
        if 0 <= c && c % 16 < 15 && c / 16 < 15 && (c % 16) * 15 + c / 16 == 15 * x + z {
            assert(c % 16 == x && c / 16 == z);
            assert(c == (c / 16) * 16 + c % 16);
        }
    }
}

/// A column a plane fill has not reached yet fails as it would have at the start.
proof fn lemma_column_unreached(hm0: HeightMaps, hm: HeightMaps, c: int, y: int, opaque: bool, k: int)
    requires
        columns_raised(hm0.world_surface, hm.world_surface, y, opaque, k),
        columns_raised(hm0.motion_blocking, hm.motion_blocking, y, opaque, k),
        !among_first_columns(c, k),
    ensures
        height_update_failure(hm.world_surface, c, y, opaque) == height_update_failure(
            hm0.world_surface,
            c,
            y,
            opaque,
        ),
        height_update_failure(hm.motion_blocking, c, y, opaque) == height_update_failure(
            hm0.motion_blocking,
            c,
            y,
            opaque,
        ),
        hm0.world_surface.valid_index(c) ==> hm.world_surface.spec_get(c) == hm0.world_surface.spec_get(c),
        hm0.motion_blocking.valid_index(c) ==> hm.motion_blocking.spec_get(c)
            == hm0.motion_blocking.spec_get(c),
{
    if hm0.world_surface.valid_index(c) {
        assert(hm.world_surface.spec_get(c) as int == hm0.world_surface.spec_get(c) as int);
    }
    if hm0.motion_blocking.valid_index(c) {
        assert(hm.motion_blocking.spec_get(c) as int == hm0.motion_blocking.spec_get(c) as int);
    }
}

/// Raising column `c`, not reached before, of a map whose first `k` columns are raised
/// raises the first `k + 1`.
proof fn lemma_column_raised(before: BitStorage, cur: BitStorage, after: BitStorage, x: int, z: int, y: int, opaque: bool)
    requires
        0 <= x < 15,
        0 <= z < 15,
        columns_raised(before, cur, y, opaque, 15 * x + z),
        height_map_wf(after),
        height_update_failure(cur, x + z * 16, y, opaque) is None,
        height_updated(cur, after, x + z * 16, y, opaque),
    ensures
        columns_raised(before, after, y, opaque, 15 * x + z + 1),
{
    let c = x + z * 16;
    let k = 15 * x + z;
    lemma_plane_column(x, z);
    assert(before.valid_index(c) ==> cur.spec_get(c) as int == before.spec_get(c) as int);
    assert forall|d: int|
        #![trigger after.spec_get(d)]
        before.valid_index(d) implies after.spec_get(d) as int == if among_first_columns(d, k + 1) {
            raised_height(before, d, y, opaque)
        } else {
            before.spec_get(d) as int
        } by {
        assert(cur.spec_get(d) as int == if among_first_columns(d, k) {
            raised_height(before, d, y, opaque)
        } else {
            before.spec_get(d) as int
        });
    }
}

/// What raising the plane's columns of both height maps for a block at `y` does: the columns
/// before the first one a map refuses are raised in both maps, the world surface also at that
/// one when only the motion-blocking map refuses it, the refusal is reported, and the cached
/// tag is rebuilt once all went through.
pub open spec fn plane_raised(hm: HeightMaps, after: HeightMaps, y: int, opaque: bool, r: Result<(), BitSetValidationError>) -> bool {
    let f = first_column_failure(hm, y, opaque, 0);
    &&& (r is Ok <==> f == 225)
    &&& columns_raised(
        hm.world_surface,
        after.world_surface,
        y,
        opaque,
        if f < 225 && height_update_failure(hm.world_surface, plane_column(f), y, opaque) is None {
            f + 1
        } else {
            f
        },
    )
    &&& columns_raised(hm.motion_blocking, after.motion_blocking, y, opaque, f)
    &&& f < 225 ==> (r matches Err(e) && Some(e.0@) == column_failure(hm, plane_column(f), y, opaque))
    &&& f == 225 ==> after.tag_cached()
}

/// Both height maps take a block at `y` in column `index`.
pub open spec fn heights_accept(hm: HeightMaps, index: int, y: int, opaque: bool) -> bool {
    &&& height_update_failure(hm.world_surface, index, y, opaque) is None
    &&& height_update_failure(hm.motion_blocking, index, y, opaque) is None
}

impl HeightMaps {
    pub open spec fn wf(&self) -> bool {
        &&& height_map_wf(self.world_surface)
        &&& height_map_wf(self.motion_blocking)
    }

    /// The cached tag: the two height maps' words under their names.
    pub open spec fn tag_cached(&self) -> bool {
        tag_view(self.cached_compound_tag) == Some(
            seq![
                ("WORLD_SURFACE"@, Some(self.world_surface.spec_raw())),
                ("MOTION_BLOCKING"@, Some(self.motion_blocking.spec_raw())),
            ],
        )
    }

    /// Rebuilds the cached tag from the height maps.
    pub fn cache_compound_tag(&mut self)
        ensures
            final(self).world_surface == old(self).world_surface,
            final(self).motion_blocking == old(self).motion_blocking,
            final(self).tag_cached(),
    {
        let mut tag: Vec<(String, NbtValue)> = Vec::new();
        let ghost t0 = tag@;
        assert(entries_view(t0) == Seq::<(Seq<char>, Option<Seq<i64>>)>::empty());
        tag.push((String::from_str("WORLD_SURFACE"), NbtValue::LongArray(self.world_surface.get_raw())));
        let ghost t1 = tag@;
        assert(t1.drop_last() == t0);
        assert(entries_view(t1) == entries_view(t0).push(("WORLD_SURFACE"@, Some(self.world_surface.spec_raw()))));
        tag.push(
            (String::from_str("MOTION_BLOCKING"), NbtValue::LongArray(self.motion_blocking.get_raw())),
        );
        assert(tag@.drop_last() == t1);
        assert(entries_view(tag@) =~= seq![
            ("WORLD_SURFACE"@, Some(self.world_surface.spec_raw())),
            ("MOTION_BLOCKING"@, Some(self.motion_blocking.spec_raw())),
        ]);
        self.cached_compound_tag = Some(tag);
    }

    fn get_index(x: i32, z: i32) -> (r: i32)
        requires
            0 <= x < 16,
            0 <= z < 16,
        ensures
            r == x + z * 16,
    {
        x + (z * 16)
    }

    fn get_first_available(bit_set: &BitStorage, index: i32) -> (r: Result<i32, BitSetValidationError>)
        requires
            height_map_wf(*bit_set),
        ensures
            r is Ok <==> bit_set.valid_index(index as int),
            r matches Ok(v) ==> v == bit_set.spec_get(index as int) + DEFAULT_WORLD_MIN,
            r matches Err(e) ==> e.0@ == range_error_text(
                false,
                0,
                bit_set.spec_size() - 1,
                index as int,
            ),
    {
        proof {
            lemma_entry_nonneg(*bit_set, index as int);
        }
        let v = bit_set.get(index)?;
        Ok(v + DEFAULT_WORLD_MIN)
    }

    fn update_one(bit_set: &mut BitStorage, index: i32, y: i32, opaque: bool) -> (r: Result<(), BitSetValidationError>)
        requires
            height_map_wf(*old(bit_set)),
            y <= i32::MAX - 65,
        ensures
            height_map_wf(*final(bit_set)),
            match height_update_failure(*old(bit_set), index as int, y as int, opaque) {
                Some(t) => r matches Err(e) && e.0@ == t && *final(bit_set) == *old(bit_set),
                None => r is Ok && height_updated(
                    *old(bit_set),
                    *final(bit_set),
                    index as int,
                    y as int,
                    opaque,
                ),
            },
    {
        let first_available = Self::get_first_available(bit_set, index)?;
        if y > first_available + 1 && opaque {
            bit_set.set(index, (y + 1) - DEFAULT_WORLD_MIN)?;
        }
        Ok(())
    }

    /// Raises both height maps over the first 15 rows and columns of the plane at `y` for
    /// `new_block`, row by row, stopping at the first column a map refuses.
    #[verifier::loop_isolation(false)]
    fn raise_plane(&mut self, y: i32, new_block: i32) -> (r: Result<(), BitSetValidationError>)
        requires
            old(self).wf(),
            y <= i32::MAX - 65,
        ensures
            final(self).wf(),
            plane_raised(*old(self), *final(self), y as int, new_block != 0, r),
    {
        let ghost hm0 = *self;
        let ghost opaque = new_block != 0;
        let ghost f = first_column_failure(hm0, y as int, opaque, 0);
        proof {
            lemma_first_column_failure(hm0, y as int, opaque, 0);
        }
        let mut x: i32 = 0;
        while x < 15
            invariant
                0 <= x <= 15,
                y <= i32::MAX - 65,
                self.wf(),
                hm0 == *old(self),
                opaque == (new_block != 0),
                f == first_column_failure(hm0, y as int, opaque, 0),
                0 <= f <= 225,
                forall|j: int|
                    0 <= j < f ==> #[trigger] column_failure(hm0, plane_column(j), y as int, opaque)
                        is None,
                f < 225 ==> column_failure(hm0, plane_column(f), y as int, opaque) is Some,
                15 * x <= f,
                columns_raised(hm0.world_surface, self.world_surface, y as int, opaque, 15 * x),
                columns_raised(hm0.motion_blocking, self.motion_blocking, y as int, opaque, 15 * x),
                x > 0 ==> self.tag_cached(),
            decreases 15 - x,
        {
            let mut z: i32 = 0;
            while z < 15
                invariant
                    0 <= x < 15,
                    0 <= z <= 15,
                    y <= i32::MAX - 65,
                    self.wf(),
                    hm0 == *old(self),
                    opaque == (new_block != 0),
                    f == first_column_failure(hm0, y as int, opaque, 0),
                    0 <= f <= 225,
                    forall|j: int|
                        0 <= j < f ==> #[trigger] column_failure(hm0, plane_column(j), y as int, opaque)
                            is None,
                    f < 225 ==> column_failure(hm0, plane_column(f), y as int, opaque) is Some,
                    15 * x + z <= f,
                    columns_raised(hm0.world_surface, self.world_surface, y as int, opaque, 15 * x + z),
                    columns_raised(hm0.motion_blocking, self.motion_blocking, y as int, opaque, 15 * x + z),
                    15 * x + z > 0 ==> self.tag_cached(),
                decreases 15 - z,
            {
                let ghost cur = *self;
                let ghost k = 15 * x + z;
                proof {
                    lemma_plane_column(x as int, z as int);
                    lemma_column_unreached(hm0, cur, x + z * 16, y as int, opaque, k);
                }
                match self.update_inner(x, y, z, new_block) {
                    Ok(()) => {
                        proof {
                            assert(column_failure(hm0, plane_column(k), y as int, opaque) is None);
                            lemma_column_raised(hm0.world_surface, cur.world_surface, self.world_surface, x as int, z as int, y as int, opaque);
                            lemma_column_raised(hm0.motion_blocking, cur.motion_blocking, self.motion_blocking, x as int, z as int, y as int, opaque);
                        }
                    },
                    Err(e) => {
                        proof {
                            assert(column_failure(hm0, plane_column(k), y as int, opaque) is Some);
                            assert(k == f);
                            if height_update_failure(cur.world_surface, x + z * 16, y as int, opaque) is None {
                                lemma_column_raised(hm0.world_surface, cur.world_surface, self.world_surface, x as int, z as int, y as int, opaque);
                            }
                        }
                        return Err(e);
                    },
                }
                z = z + 1;
            }
            x = x + 1;
        }
        Ok(())
    }

    /// Raises the columns of both height maps at `(x, z)` for a block at `y`, when the block is
    /// not air and lies above them, then rebuilds the cached tag.
    fn update_inner(&mut self, x: i32, y: i32, z: i32, new_block: i32) -> (r: Result<(), BitSetValidationError>)
        requires
            old(self).wf(),
            0 <= x < 16,
            0 <= z < 16,
            y <= i32::MAX - 65,
        ensures
            final(self).wf(),
            heights_raised(*old(self), *final(self), x + z * 16, y as int, new_block != 0, r),
    {
        let index = Self::get_index(x, z);
        let opaque = new_block != 0;
        Self::update_one(&mut self.world_surface, index, y, opaque)?;
        Self::update_one(&mut self.motion_blocking, index, y, opaque)?;
        self.cache_compound_tag();
        Ok(())
    }
}

/// What the height map scan has found after the entries it has read: the words of each map, or
/// the text of a map whose words do not fit 256 entries of `bits` bits.
pub open spec fn scan_height_maps(entries: Seq<(String, NbtValue)>, bits: int) -> Result<(Option<Seq<i64>>, Option<Seq<i64>>), Seq<char>>
    decreases entries.len(),
{
    if entries.len() == 0 {
        Ok((None, None))
    } else {
        match scan_height_maps(entries.drop_last(), bits) {
            Err(t) => Err(t),
            Ok((ws, mb)) => {
                let (k, v) = entries.last();
                let expected = spec_expected_size(256, bits);
                match v {
                    NbtValue::LongArray(words) => if k@ == "WORLD_SURFACE"@ || k@ == "MOTION_BLOCKING"@ {
                        if words@.len() != expected {
                            Err(seeded_length_error_text(words@.len() as int, expected))
                        } else if k@ == "WORLD_SURFACE"@ {
                            Ok((Some(words@), mb))
                        } else {
                            Ok((ws, Some(words@)))
                        }
                    } else {
                        Ok((ws, mb))
                    },
                    NbtValue::Other => Ok((ws, mb)),
                }
            },
        }
    }
}

/// Once the scan has failed, reading more entries does not change its failure.
proof fn lemma_scan_err_extends(entries: Seq<(String, NbtValue)>, j: int, bits: int)
    requires
        0 <= j <= entries.len(),
        scan_height_maps(entries.subrange(0, j), bits) is Err,
    ensures
        scan_height_maps(entries, bits) == scan_height_maps(entries.subrange(0, j), bits),
    decreases entries.len() - j,
{
    if j < entries.len() {
        let k = j + 1;
        assert(entries.subrange(0, k).drop_last() == entries.subrange(0, j));
        lemma_scan_err_extends(entries, k, bits);
    } else {
        assert(entries.subrange(0, j) == entries);
    }
}

impl HeightMaps {
    /// The height maps held in a compound tag: the long arrays `WORLD_SURFACE` and
    /// `MOTION_BLOCKING`, each of 256 entries wide enough for heights up to `height`; other
    /// entries are ignored and later entries replace earlier ones. The tag read is kept as the
    /// cached tag.
    pub fn from_compound(tag: Option<Vec<(String, NbtValue)>>, height: i32) -> (r: Result<HeightMaps, TransportError>)
        requires
            1 <= height < 0x4000_0000,
        ensures
            match tag {
                None => r matches Err(e) && e.kind() == ErrorKind::Explain("Failed to load tag, none was found."@),
                Some(entries) => {
                    let bits = crate::common::play::spec_ceil_log2(height + 1);
                    match scan_height_maps(entries@, bits) {
                        Err(t) => r matches Err(e) && e.kind() == ErrorKind::Explain(t),
                        Ok((Some(ws), Some(mb))) => r matches Ok(h) && h.wf()
                            && h.world_surface.spec_raw() == ws && h.motion_blocking.spec_raw() == mb
                            && h.world_surface.spec_size() == 256 && h.motion_blocking.spec_size() == 256
                            && h.world_surface.spec_bits() == bits && h.motion_blocking.spec_bits() == bits
                            && h.cached_compound_tag == tag,
                        Ok(_) => r matches Err(e) && e.kind() == ErrorKind::Explain(
                            "Could not find WORLD_SURFACE and MOTION_BLOCKING as larrs."@,
                        ),
                    }
                },
            },
    {
        let entries = match tag {
            Some(entries) => entries,
            None => {
                return Err(TransportError::Explain(String::from_str("Failed to load tag, none was found.")));
            },
        };
        let bits = crate::common::play::ceil_log_2(height + 1);
        proof {
            vstd::arithmetic::power2::lemma2_to64();
            crate::common::play::lemma_spec_ceil_log2((height + 1) as int);
            crate::protocol::bit_storage::lemma_vpl_cases(bits as int);
        }
        let mut world_surface: Option<BitStorage> = None;
        let mut motion_blocking: Option<BitStorage> = None;
        let mut i: usize = 0;
        while i < entries.len()
            invariant
                i <= entries@.len(),
                tag == Some(entries),
                1 <= bits <= 30,
                bits == crate::common::play::spec_ceil_log2(height + 1),
                scan_height_maps(entries@.subrange(0, i as int), bits as int) matches Ok((ws, mb)) && (
                match ws {
                    Some(w) => world_surface matches Some(st) && st is SimpleStorage && st.spec_size()
                        == 256 && st.spec_bits() == bits && st.spec_raw() == w && st.wf(),
                    None => world_surface is None,
                }) && (match mb {
                    Some(w) => motion_blocking matches Some(st) && st is SimpleStorage && st.spec_size()
                        == 256 && st.spec_bits() == bits && st.spec_raw() == w && st.wf(),
                    None => motion_blocking is None,
                }),
            decreases entries@.len() - i,
        {
            assert(entries@.subrange(0, i + 1).drop_last() == entries@.subrange(0, i as int));
            let entry = &entries[i];
            let is_ws = entry.0 == String::from_str("WORLD_SURFACE");
            let is_mb = entry.0 == String::from_str("MOTION_BLOCKING");
            if is_ws || is_mb {
                match &entry.1 {
                    NbtValue::LongArray(words) => {
                        let raw = copy_longs(words);
                        let st = match BitStorage::with_seeded_raw(256, bits, raw) {
                            Ok(st) => st,
                            Err(err) => {
                                proof {
                                    lemma_scan_err_extends(entries@, i + 1, bits as int);
                                }
                                return Err(TransportError::Explain(err.0));
                            },
                        };
                        if is_ws {
                            world_surface = Some(st);
                        } else {
                            motion_blocking = Some(st);
                        }
                    },
                    NbtValue::Other => {},
                }
            }
            i = i + 1;
        }
        assert(entries@.subrange(0, entries@.len() as int) == entries@);
        match (world_surface, motion_blocking) {
            (Some(world_surface), Some(motion_blocking)) => Ok(
                HeightMaps { world_surface, motion_blocking, cached_compound_tag: Some(entries) },
            ),
            _ => Err(
                TransportError::Explain(
                    String::from_str("Could not find WORLD_SURFACE and MOTION_BLOCKING as larrs."),
                ),
            ),
        }
    }
}

fn copy_longs(raw: &Vec<i64>) -> (r: Vec<i64>)
    ensures
        r@ == raw@,
{
    copy_words(raw)
}

/// A chunk column: its height range, position, height maps and sections bottom to top.
#[derive(Debug)]
pub struct Chunk {
    pub min_height: i32,
    pub max_height: i32,
    pub chunk_x: i32,
    pub chunk_z: i32,
    pub height_maps: HeightMaps,
    pub chunk_sections: Vec<ChunkSection>,
}

/// The section at height `y` of a chunk whose lowest block is at `min_height`.
pub open spec fn spec_section_index(min_height: i32, y: i32) -> int {
    (y >> 4u32) - (min_height >> 4u32)
}

/// A fresh section: no blocks, air everywhere, one biome.
pub open spec fn is_fresh_section(sec: ChunkSection) -> bool {
    &&& sec.block_count == 0
    &&& sec.states.bits_per_entry == 0
    &&& sec.states.palette@ == PaletteView::SingleValue(0)
    &&& sec.states.storage is ZeroStorage
    &&& sec.states.storage.spec_size() == SECTION_DIRECT_ENTRY_SIZE
    &&& sec.states.storage.spec_raw().len() == 0
    &&& sec.biomes.bits_per_entry == 0
    &&& sec.biomes.palette@ == PaletteView::SingleValue(0)
    &&& sec.biomes.storage is ZeroStorage
    &&& sec.biomes.storage.spec_size() == BIOME_DIRECT_ENTRY_SIZE
    &&& sec.biomes.storage.spec_raw().len() == 0
}

impl Chunk {
    /// Every container can be read and written, and so can the height maps.
    pub open spec fn wf(&self) -> bool {
        &&& self.height_maps.wf()
        &&& forall|i: int|
            0 <= i < self.chunk_sections@.len() ==> (#[trigger] self.chunk_sections@[i]).states.wf()
                && self.chunk_sections@[i].biomes.wf()
    }

    /// A chunk at `(x, z)` of the default world height.
    pub fn new(x: i32, z: i32) -> (r: Chunk)
        ensures
            r.wf(),
            r.chunk_x == x && r.chunk_z == z,
            r.min_height == DEFAULT_WORLD_MIN && r.max_height == DEFAULT_WORLD_HEIGHT,
            r.chunk_sections@.len() == (DEFAULT_WORLD_HEIGHT - DEFAULT_WORLD_MIN) / 16,
            forall|i: int| 0 <= i < r.chunk_sections@.len() ==> is_fresh_section(#[trigger] r.chunk_sections@[i]),
    {
        Self::using_world_height(x, z, DEFAULT_WORLD_MIN, DEFAULT_WORLD_HEIGHT)
    }

    /// A chunk at `(x, z)` from `min_height` up to `max_height`: `(max - min) / 16` fresh
    /// sections, and height maps of 256 zero columns wide enough for the height.
    pub fn using_world_height(x: i32, z: i32, min_height: i32, max_height: i32) -> (r: Chunk)
        requires
            0 <= max_height - min_height < 0x4000_0000,
        ensures
            r.wf(),
            r.chunk_x == x && r.chunk_z == z,
            r.min_height == min_height && r.max_height == max_height,
            r.chunk_sections@.len() == (max_height - min_height) / 16,
            forall|i: int| 0 <= i < r.chunk_sections@.len() ==> is_fresh_section(#[trigger] r.chunk_sections@[i]),
            r.height_maps.tag_cached(),
            fresh_height_map(
                r.height_maps.world_surface,
                crate::common::play::spec_ceil_log2(max_height - min_height + 1),
            ),
            fresh_height_map(
                r.height_maps.motion_blocking,
                crate::common::play::spec_ceil_log2(max_height - min_height + 1),
            ),
    {
        let sections = (max_height - min_height) / BLOCKS_PER_SECTION;
        let mut section_vec: Vec<ChunkSection> = Vec::new();
        let mut i: i32 = 0;
        while i < sections
            invariant
                0 <= i <= sections,
                section_vec@.len() == i,
                forall|j: int| 0 <= j < i ==> is_fresh_section(#[trigger] section_vec@[j]),
            decreases sections - i,
        {
            section_vec.push(
                ChunkSection {
                    block_count: 0,
                    states: PaletteContainer {
                        bits_per_entry: 0,
                        palette: Palette::SingleValue { block_type_id: 0 },
                        storage: BitStorage::ZeroStorage {
                            size: SECTION_DIRECT_ENTRY_SIZE,
                            raw: Vec::new(),
                        },
                    },
                    biomes: PaletteContainer {
                        bits_per_entry: 0,
                        palette: Palette::SingleValue { block_type_id: 0 },
                        storage: BitStorage::ZeroStorage { size: BIOME_DIRECT_ENTRY_SIZE, raw: Vec::new() },
                    },
                },
            );
            i = i + 1;
        }
        let height = max_height - min_height;
        let bits = crate::common::play::ceil_log_2(height + 1);
        proof {
            vstd::arithmetic::power2::lemma2_to64();
            crate::common::play::lemma_spec_ceil_log2((height + 1) as int);
            if bits >= 1 {
                crate::protocol::bit_storage::lemma_vpl_cases(bits as int);
            }
        }
        let mut height_maps = HeightMaps {
            world_surface: BitStorage::new(256, bits),
            motion_blocking: BitStorage::new(256, bits),
            cached_compound_tag: None,
        };
        height_maps.cache_compound_tag();
        Chunk {
            chunk_x: x,
            chunk_z: z,
            min_height,
            max_height,
            height_maps,
            chunk_sections: section_vec,
        }
    }

    /// A copy of the chunk placed at `(x, z)`.
    pub fn clone_for(&self, x: i32, z: i32) -> (r: Chunk)
        ensures
            r.chunk_x == x && r.chunk_z == z,
            r.min_height == self.min_height && r.max_height == self.max_height,
            same_storage(r.height_maps.world_surface, self.height_maps.world_surface),
            same_storage(r.height_maps.motion_blocking, self.height_maps.motion_blocking),
            tag_view(r.height_maps.cached_compound_tag) == tag_view(self.height_maps.cached_compound_tag),
            r.chunk_sections@.len() == self.chunk_sections@.len(),
            forall|i: int|
                0 <= i < r.chunk_sections@.len() ==> {
                    let a = #[trigger] r.chunk_sections@[i];
                    let b = self.chunk_sections@[i];
                    &&& a.block_count == b.block_count
                    &&& same_container(a.states, b.states)
                    &&& same_container(a.biomes, b.biomes)
                },
    {
        let mut sections: Vec<ChunkSection> = Vec::new();
        let mut i: usize = 0;
        while i < self.chunk_sections.len()
            invariant
                i <= self.chunk_sections@.len(),
                sections@.len() == i,
                forall|j: int|
                    0 <= j < i ==> {
                        let a = #[trigger] sections@[j];
                        let b = self.chunk_sections@[j];
                        &&& a.block_count == b.block_count
                        &&& same_container(a.states, b.states)
                        &&& same_container(a.biomes, b.biomes)
                    },
            decreases self.chunk_sections@.len() - i,
        {
            sections.push(self.chunk_sections[i].duplicate());
            i = i + 1;
        }
        let height_maps = HeightMaps {
            world_surface: duplicate_storage(&self.height_maps.world_surface),
            motion_blocking: duplicate_storage(&self.height_maps.motion_blocking),
            cached_compound_tag: duplicate_tag(&self.height_maps.cached_compound_tag),
        };
        Chunk {
            min_height: self.min_height,
            max_height: self.max_height,
            chunk_x: x,
            chunk_z: z,
            height_maps,
            chunk_sections: sections,
        }
    }
}

/// An indirect palette's slots can be counted in an `i32`.
pub open spec fn palette_len_small(c: PaletteContainer) -> bool {
    c.palette matches Palette::Indirect { palette } ==> palette@.len() < i32::MAX
}

/// The slot `reassert_storage` answers for `block_id` stands for `block_id` in the palette it
/// leaves: a stored slot reads back as the block it was asked for.
pub proof fn law_reassert_slot_names_block(c: PaletteContainer, mid: PaletteContainer, strategy: Strategy, block_id: i32, m: i32)
    requires
        reassert_allowed(c, strategy, block_id),
        palette_len_small(c),
        spec_reassert(c, strategy, block_id) == Ok::<i32, Seq<char>>(m),
        spec_reasserted(c, mid, strategy, block_id),
    ensures
        mid.palette.spec_get(m as int) == block_id,
{
    match c.palette {
        Palette::Indirect { palette } => {
            lemma_first_index_of(palette@, block_id);
            if first_index_of(palette@, block_id) == -1 {
                lemma_first_index_of_push(palette@, block_id);
            }
        },
        _ => {},
    }
}

/// After `set_all` stored `block_id` at every index of `idxs` (the storage taking each),
/// the container reads `block_id` at each of them, and every other index it read before reads
/// as it did.
pub proof fn law_set_all_then_get(c: PaletteContainer, mid: PaletteContainer, after: PaletteContainer, strategy: Strategy, idxs: Seq<i32>, block_id: i32, m: i32)
    requires
        reassert_allowed(c, strategy, block_id),
        spec_reassert(c, strategy, block_id) == Ok::<i32, Seq<char>>(m),
        spec_reasserted(c, mid, strategy, block_id),
        after.palette == mid.palette,
        forall|i: int| 0 <= i < idxs.len() ==> mid.storage.valid_index(#[trigger] idxs[i] as int),
        sets_applied(mid.storage, after.storage, idxs, idxs.len() as int, m),
    ensures
        palette_len_small(c) ==> forall|i: int|
            0 <= i < idxs.len() ==> #[trigger] after.spec_get(idxs[i] as int) == block_id,
        forall|j: int|
            #![trigger after.spec_get(j)]
            c.storage.valid_index(j) && (forall|i: int| 0 <= i < idxs.len() ==> idxs[i] != j)
                ==> after.spec_get(j) == c.spec_get(j),
{
    if palette_len_small(c) {
        law_reassert_slot_names_block(c, mid, strategy, block_id, m);
        assert forall|i: int| 0 <= i < idxs.len() implies #[trigger] after.spec_get(idxs[i] as int)
            == block_id by {
            let n = idxs[i] as int;
            assert(mid.storage.valid_index(n));
            assert(after.storage.spec_get(n) == m);
        }
    }
    assert forall|j: int|
        #![trigger after.spec_get(j)]
        c.storage.valid_index(j) && (forall|i: int| 0 <= i < idxs.len() ==> idxs[i] != j) implies after.spec_get(j)
        == c.spec_get(j) by {
        assert(mid == c);
        if idxs.len() > 0 {
            assert(!exists|i: int| 0 <= i < idxs.len() && idxs[i] == j);
            assert(after.storage.spec_get(j) == mid.storage.spec_get(j));
        }
    }
}

/// After a successful `set` of `block_id` at `index`, the container reads `block_id` there.
pub proof fn law_set_then_get(c: PaletteContainer, mid: PaletteContainer, after: PaletteContainer, strategy: Strategy, index: int, block_id: i32, m: i32)
    requires
        reassert_allowed(c, strategy, block_id),
        palette_len_small(c),
        spec_reassert(c, strategy, block_id) == Ok::<i32, Seq<char>>(m),
        spec_reasserted(c, mid, strategy, block_id),
        after.palette == mid.palette,
        after.storage.written(&mid.storage, index, m as int, true),
    ensures
        after.spec_get(index) == block_id,
{
    law_reassert_slot_names_block(c, mid, strategy, block_id, m);
}

proof fn lemma_shr4_range(v: i32)
    by (bit_vector)
    ensures
        -0x800_0000 <= (v >> 4u32) < 0x800_0000,
{
}

/// A height map as a fresh chunk has it: 256 zero columns of `bits` bits each (no storage
/// when `bits` is zero).
pub open spec fn fresh_height_map(st: BitStorage, bits: int) -> bool {
    if bits == 0 {
        st is ZeroStorage && st.spec_size() == 0 && st.spec_raw().len() == 0
    } else {
        &&& st is SimpleStorage
        &&& st.wf()
        &&& st.spec_size() == 256
        &&& st.spec_bits() == bits
        &&& st.spec_raw().len() == crate::protocol::bit_storage::spec_expected_size(256, bits)
        &&& forall|i: int| 0 <= i < st.spec_raw().len() ==> #[trigger] st.spec_raw()[i] == 0
    }
}

impl Chunk {
    pub open spec fn spec_section_index_of(&self, y: i32) -> int {
        spec_section_index(self.min_height, y)
    }

    /// `y` falls within one of the chunk's sections.
    pub open spec fn in_sections(&self, y: i32) -> bool {
        0 <= self.spec_section_index_of(y) < self.chunk_sections@.len()
    }

    /// The section holding height `y`.
    pub open spec fn section_at(&self, y: i32) -> ChunkSection {
        self.chunk_sections@[self.spec_section_index_of(y)]
    }

    /// The index of `(x, y, z)` within its section's block states.
    pub open spec fn state_index(x: i32, y: i32, z: i32) -> int {
        Strategy::Section.spec_retrieve_index(x & 15i32, y & 15i32, z & 15i32) as int
    }

    /// The block state at `(x, y, z)`, when `y` is within the sections.
    pub open spec fn spec_block(&self, x: i32, y: i32, z: i32) -> i32 {
        self.section_at(y).states.spec_get(Chunk::state_index(x, y, z))
    }

    /// The column of `(x, z)` in the height maps.
    pub open spec fn column_index(x: i32, z: i32) -> int {
        (x & 15i32) + (z & 15i32) * 16
    }

    /// Storing `block_id` at `(x, y, z)` goes on to the height maps: `y` is within the
    /// sections, the section's storage takes the block's slot, and the entry it replaces is
    /// not `block_id` (or `block_id` is -1).
    pub open spec fn set_reaches_heights(&self, x: i32, y: i32, z: i32, block_id: i32) -> bool {
        let states = self.section_at(y).states;
        let idx = Chunk::state_index(x, y, z);
        let prev = slot_after_reassert(states, Strategy::Section, block_id, idx);
        &&& self.in_sections(y)
        &&& store_accepts(states, Strategy::Section, block_id, idx)
        &&& (prev != block_id || prev == -1)
    }

    /// Storing `block_id` at `(x, y, z)` moves the section's block count: it reaches the
    /// height maps and both take it.
    pub open spec fn set_moves_count(&self, x: i32, y: i32, z: i32, block_id: i32) -> bool {
        &&& self.set_reaches_heights(x, y, z, block_id)
        &&& heights_accept(self.height_maps, Chunk::column_index(x, z), y as int, block_id != 0)
    }

    /// The section at `y` takes a plane of `block_id` at `y`: the palette can make room for
    /// it and the storage accepts its slot at every index of the plane.
    pub open spec fn plane_taken(&self, y: i32, block_id: i32) -> bool {
        &&& self.in_sections(y)
        &&& spec_reassert(self.section_at(y).states, Strategy::Section, block_id) is Ok
        &&& plane_accepted(self.section_at(y).states, y & 15i32, block_id)
    }

    /// The section coordinate of a block coordinate.
    pub fn section_coord_from(i: i32) -> (r: i32)
        ensures
            r == i >> 4u32,
    {
        i >> 4u32
    }

    /// The block coordinate of a section coordinate.
    pub fn position_coord_from(i: i32) -> (r: i32)
        ensures
            r == i << 4u32,
    {
        i << 4u32
    }

    fn get_min_section(&self) -> (r: i32)
        ensures
            r == self.min_height >> 4u32,
    {
        Self::section_coord_from(self.min_height)
    }

    fn get_section_index(&self, y: i32) -> (r: i32)
        ensures
            r == self.spec_section_index_of(y),
    {
        proof {
            lemma_shr4_range(y);
            lemma_shr4_range(self.min_height);
        }
        Self::section_coord_from(y) - self.get_min_section()
    }

    /// The block state at `(x, y, z)`; air (0) above and below the sections.
    pub fn get_block_id(&self, x: i32, y: i32, z: i32) -> (r: Result<i32, BitSetValidationError>)
        requires
            self.wf(),
            self.in_sections(y) ==> self.section_at(y).states.entry_in_palette(
                Chunk::state_index(x, y, z),
            ),
        ensures
            !self.in_sections(y) ==> r == Ok::<i32, BitSetValidationError>(0),
            self.in_sections(y) ==> {
                &&& r is Ok <==> self.section_at(y).states.storage.valid_index(
                    Chunk::state_index(x, y, z),
                )
                &&& r matches Ok(v) ==> v == self.spec_block(x, y, z)
                &&& r matches Err(e) ==> e.0@ == range_error_text(
                    false,
                    0,
                    self.section_at(y).states.storage.spec_size() - 1,
                    Chunk::state_index(x, y, z),
                )
            },
    {
        let section_index = self.get_section_index(y);
        if section_index < 0 || self.chunk_sections.len() <= section_index as usize {
            return Ok(0);
        }
        let section = &self.chunk_sections[section_index as usize];
        section.get_block_id(x & 0xF, y & 0xF, z & 0xF)
    }

    /// Height of the column.
    pub fn height(&self) -> (r: i32)
        requires
            i32::MIN <= self.max_height - self.min_height <= i32::MAX,
        ensures
            r == self.max_height - self.min_height,
    {
        self.max_height - self.min_height
    }
}

impl Chunk {
    /// Stores `block_id` at `(x, y, z)`: refused outside the sections; when the stored slot
    /// differs from `block_id` (the slot, not the block, is compared) the height maps are raised
    /// and the section's block count follows (down for air, up otherwise).
    pub fn set_block_id(&mut self, x: i32, y: i32, z: i32, block_id: i32) -> (r: Result<(), BitSetValidationError>)
        requires
            old(self).wf(),
            y <= i32::MAX - 65,
            old(self).in_sections(y) ==> reassert_allowed(
                old(self).section_at(y).states,
                Strategy::Section,
                block_id,
            ),
            old(self).set_moves_count(x, y, z, block_id) ==> {
                let sec = old(self).section_at(y);
                &&& block_id == 0 ==> sec.block_count > 0
                &&& block_id != 0 ==> sec.block_count < u16::MAX
            },
        ensures
            old(self).in_sections(y) ==> (r is Ok <==> store_accepts(
                old(self).section_at(y).states,
                Strategy::Section,
                block_id,
                Chunk::state_index(x, y, z),
            ) && (old(self).set_reaches_heights(x, y, z, block_id) ==> heights_accept(
                old(self).height_maps,
                Chunk::column_index(x, z),
                y as int,
                block_id != 0,
            ))),
            old(self).in_sections(y) ==> {
                let sec = old(self).section_at(y);
                let fsec = final(self).section_at(y);
                let idx = Chunk::state_index(x, y, z);
                let stored = store_accepts(sec.states, Strategy::Section, block_id, idx);
                &&& fsec.biomes == sec.biomes
                &&& match spec_reassert(sec.states, Strategy::Section, block_id) {
                    Err(t) => r matches Err(e) && e.0@ == t && fsec == sec && final(self).height_maps
                        == old(self).height_maps,
                    Ok(m) => exists|mid: PaletteContainer|
                        #![trigger spec_reasserted(sec.states, mid, Strategy::Section, block_id)]
                        {
                            &&& spec_reasserted(sec.states, mid, Strategy::Section, block_id)
                            &&& mid.wf()
                            &&& fsec.states.bits_per_entry == mid.bits_per_entry
                            &&& fsec.states.palette == mid.palette
                            &&& fsec.states.storage.written(&mid.storage, idx, m as int, stored)
                            &&& !stored ==> (r matches Err(e) && e.0@ == mid.storage.set_error_text(
                                idx,
                                m as int,
                            ))
                        },
                }
                &&& old(self).set_reaches_heights(x, y, z, block_id) ==> heights_raised(
                    old(self).height_maps,
                    final(self).height_maps,
                    Chunk::column_index(x, z),
                    y as int,
                    block_id != 0,
                    r,
                )
                &&& !old(self).set_reaches_heights(x, y, z, block_id) ==> final(self).height_maps
                    == old(self).height_maps
                &&& fsec.block_count as int == if old(self).set_moves_count(x, y, z, block_id) {
                    if block_id == 0 {
                        sec.block_count - 1
                    } else {
                        sec.block_count + 1
                    }
                } else {
                    sec.block_count as int
                }
            },
            !old(self).in_sections(y) ==> (r matches Err(e) && e.0@ == "Out of range."@ && *final(self)
                == *old(self)),
            final(self).wf(),
            final(self).min_height == old(self).min_height,
            final(self).max_height == old(self).max_height,
            final(self).chunk_x == old(self).chunk_x,
            final(self).chunk_z == old(self).chunk_z,
            final(self).chunk_sections@.len() == old(self).chunk_sections@.len(),
            forall|i: int|
                0 <= i < old(self).chunk_sections@.len() && i != old(self).spec_section_index_of(y)
                    ==> #[trigger] final(self).chunk_sections@[i] == old(self).chunk_sections@[i],
            r is Ok && palette_len_small(old(self).section_at(y).states) ==> final(self).spec_block(
                x,
                y,
                z,
            ) == block_id,
    {
        let section_index = self.get_section_index(y);
        if section_index < 0 || self.chunk_sections.len() <= section_index as usize {
            return Err(BitSetValidationError(String::from_str("Out of range.")));
        }
        let si = section_index as usize;
        let ghost old_sections = self.chunk_sections@;
        let mut section = self.chunk_sections.remove(si);
        let res = section.set_block_id(x & 0xF, y & 0xF, z & 0xF, block_id);
        let mutated = match res {
            Ok(m) => m,
            Err(e) => {
                self.chunk_sections.insert(si, section);
                assert(self.chunk_sections@ =~= old_sections.update(si as int, self.chunk_sections@[si as int]));
                return Err(e);
            },
        };
        let mut result: Result<(), BitSetValidationError> = Ok(());
        if mutated != block_id || mutated == -1 {
            let x_and = x & 0xF;
            let z_and = z & 0xF;
            proof {
                assert(0 <= x & 0xFi32 < 16 && 0 <= z & 0xFi32 < 16) by (bit_vector);
            }
            match self.height_maps.update_inner(x_and, y, z_and, block_id) {
                Ok(()) => {
                    if block_id == 0 {
                        section.decrement_non_empty_block_count();
                    } else {
                        section.increment_non_empty_block_count();
                    }
                },
                Err(e) => {
                    result = Err(e);
                },
            }
        }
        self.chunk_sections.insert(si, section);
        assert(self.chunk_sections@ =~= old_sections.update(si as int, self.chunk_sections@[si as int]));
        result
    }
}

impl Chunk {
    /// Fills the plane at height `y` with `block_id`: refused outside the sections; once the
    /// section took the plane its block count grows by 256, then the height maps are raised
    /// over the first 15 rows and columns, stopping at the first column a map refuses.
    pub fn rewrite_plane(&mut self, y: i32, block_id: i32) -> (r: Result<(), BitSetValidationError>)
        requires
            old(self).wf(),
            y <= i32::MAX - 65,
            old(self).in_sections(y) ==> reassert_allowed(
                old(self).section_at(y).states,
                Strategy::Section,
                block_id,
            ),
            old(self).plane_taken(y, block_id) ==> old(self).section_at(y).block_count <= u16::MAX
                - 256,
        ensures
            !old(self).in_sections(y) ==> (r matches Err(e) && e.0@ == "Out of range."@ && *final(self)
                == *old(self)),
            final(self).wf(),
            final(self).min_height == old(self).min_height,
            final(self).max_height == old(self).max_height,
            final(self).chunk_x == old(self).chunk_x,
            final(self).chunk_z == old(self).chunk_z,
            final(self).chunk_sections@.len() == old(self).chunk_sections@.len(),
            forall|i: int|
                0 <= i < old(self).chunk_sections@.len() && i != old(self).spec_section_index_of(y)
                    ==> #[trigger] final(self).chunk_sections@[i] == old(self).chunk_sections@[i],
            old(self).in_sections(y) ==> (r is Ok <==> old(self).plane_taken(y, block_id)
                && first_column_failure(old(self).height_maps, y as int, block_id != 0, 0) == 225),
            old(self).in_sections(y) ==> {
                let sec = old(self).section_at(y);
                let fsec = final(self).section_at(y);
                let idxs = spec_plane_indexes(y & 15i32);
                &&& fsec.biomes == sec.biomes
                &&& match spec_reassert(sec.states, Strategy::Section, block_id) {
                    Err(t) => r matches Err(e) && e.0@ == t && fsec.states == sec.states,
                    Ok(m) => exists|mid: PaletteContainer|
                        #![trigger spec_reasserted(sec.states, mid, Strategy::Section, block_id)]
                        {
                            let k = first_refused_set(mid.storage, idxs, m as int, 0);
                            &&& spec_reasserted(sec.states, mid, Strategy::Section, block_id)
                            &&& mid.wf()
                            &&& fsec.states.bits_per_entry == mid.bits_per_entry
                            &&& fsec.states.palette == mid.palette
                            &&& sets_applied(mid.storage, fsec.states.storage, idxs, k, m)
                            &&& k < 256 ==> (r matches Err(e) && e.0@ == mid.storage.set_error_text(
                                idxs[k] as int,
                                m as int,
                            ))
                        },
                }
                &&& old(self).plane_taken(y, block_id) && palette_len_small(sec.states) ==> forall|i: int|
                    0 <= i < 256 ==> #[trigger] fsec.states.spec_get(idxs[i] as int) == block_id
                &&& old(self).plane_taken(y, block_id) ==> forall|j: int|
                    #![trigger fsec.states.spec_get(j)]
                    sec.states.storage.valid_index(j) && !plane_has(y & 15i32, j) ==> fsec.states.spec_get(j)
                        == sec.states.spec_get(j)
                &&& !old(self).plane_taken(y, block_id) ==> fsec.block_count == sec.block_count
                    && final(self).height_maps == old(self).height_maps
                &&& old(self).plane_taken(y, block_id) ==> fsec.block_count == sec.block_count + 256
                    && plane_raised(
                    old(self).height_maps,
                    final(self).height_maps,
                    y as int,
                    block_id != 0,
                    r,
                )
            },
    {
        let section_index = self.get_section_index(y);
        if section_index < 0 || self.chunk_sections.len() <= section_index as usize {
            return Err(BitSetValidationError(String::from_str("Out of range.")));
        }
        let si = section_index as usize;
        let ghost old_sections = self.chunk_sections@;
        let mut section = self.chunk_sections.remove(si);
        match section.rewrite_plane(y & 0xF, block_id) {
            Ok(()) => {},
            Err(e) => {
                self.chunk_sections.insert(si, section);
                assert(self.chunk_sections@ =~= old_sections.update(si as int, self.chunk_sections@[si as int]));
                return Err(e);
            },
        }
        section.block_count = section.block_count + 16 * 16;
        self.chunk_sections.insert(si, section);
        assert(self.chunk_sections@ =~= old_sections.update(si as int, self.chunk_sections@[si as int]));
        proof {
            assert(self.height_maps == old(self).height_maps);
        }
        self.height_maps.raise_plane(y, block_id)
    }

    /// Number of bytes of the sections' encodings together.
    pub open spec fn spec_sections_len(sections: Seq<ChunkSection>) -> int
        decreases sections.len(),
    {
        if sections.len() == 0 {
            0
        } else {
            Chunk::spec_sections_len(sections.drop_last()) + sections.last().spec_bytes().len()
        }
    }

    /// The sections' encodings one after the other.
    pub open spec fn spec_sections_bytes(sections: Seq<ChunkSection>) -> Seq<u8>
        decreases sections.len(),
    {
        if sections.len() == 0 {
            seq![]
        } else {
            Chunk::spec_sections_bytes(sections.drop_last()) + sections.last().spec_bytes()
        }
    }

    /// Every section's containers are small enough to be encoded, and so is the whole.
    pub open spec fn sections_encodable(&self) -> bool {
        &&& self.chunk_sections@.len() <= 64
        &&& forall|i: int|
            0 <= i < self.chunk_sections@.len() ==> container_encodable(
                (#[trigger] self.chunk_sections@[i]).states,
            ) && container_encodable(self.chunk_sections@[i].biomes)
    }

    /// The encoding of the chunk data after the height maps: the sections' total length as a
    /// VarInt, then the sections.
    pub open spec fn spec_data_bytes(&self) -> Seq<u8> {
        spec_var_int(Chunk::spec_sections_bytes(self.chunk_sections@).len() as i32)
            + Chunk::spec_sections_bytes(self.chunk_sections@)
    }

    /// Appends the chunk's position as two big-endian `i32`s.
    pub fn encode_position(&self, out: &mut Vec<u8>)
        ensures
            final(out)@ == old(out)@ + be_bytes(self.chunk_x as u32 as nat, 4) + be_bytes(
                self.chunk_z as u32 as nat,
                4,
            ),
    {
        write_be(out, self.chunk_x as u32 as u64, 4);
        write_be(out, self.chunk_z as u32 as u64, 4);
    }

    /// Appends the sections' total length as a VarInt, then the sections.
    pub fn encode_sections(&self, out: &mut Vec<u8>)
        requires
            self.sections_encodable(),
        ensures
            final(out)@ == old(out)@ + self.spec_data_bytes(),
    {
        let total = self.sections_size();
        write_var_int(out, total as i32);
        let ghost mid = out@;
        let mut i: usize = 0;
        while i < self.chunk_sections.len()
            invariant
                i <= self.chunk_sections@.len(),
                self.sections_encodable(),
                out@ == mid + Chunk::spec_sections_bytes(self.chunk_sections@.subrange(0, i as int)),
            decreases self.chunk_sections@.len() - i,
        {
            assert(self.chunk_sections@.subrange(0, i + 1).drop_last() == self.chunk_sections@.subrange(
                0,
                i as int,
            ));
            self.chunk_sections[i].encode(out);
            i = i + 1;
        }
        assert(self.chunk_sections@.subrange(0, self.chunk_sections@.len() as int)
            == self.chunk_sections@);
    }

    /// The sections' total length.
    fn sections_size(&self) -> (r: usize)
        requires
            self.sections_encodable(),
        ensures
            r == Chunk::spec_sections_bytes(self.chunk_sections@).len(),
            r <= 0x4000_0000,
    {
        let mut total: usize = 0;
        let mut i: usize = 0;
        while i < self.chunk_sections.len()
            invariant
                i <= self.chunk_sections@.len() <= 64,
                self.sections_encodable(),
                total == Chunk::spec_sections_bytes(self.chunk_sections@.subrange(0, i as int)).len(),
                total <= i * 0x0100_0000,
            decreases self.chunk_sections@.len() - i,
        {
            assert(self.chunk_sections@.subrange(0, i + 1).drop_last() == self.chunk_sections@.subrange(
                0,
                i as int,
            ));
            let sec = &self.chunk_sections[i];
            proof {
                section_bytes_bound(*sec);
            }
            total = total + sec.size();
            i = i + 1;
        }
        assert(self.chunk_sections@.subrange(0, self.chunk_sections@.len() as int)
            == self.chunk_sections@);
        total
    }

    /// Number of bytes of `encode_sections`' output.
    pub fn data_size(&self) -> (r: usize)
        requires
            self.sections_encodable(),
        ensures
            r == self.spec_data_bytes().len(),
    {
        let v = self.sections_size();
        proof {
            crate::codec::lemma_var_int_roundtrip(v as i32, seq![]);
        }
        v + size_var_int(v as i32)
    }
}

proof fn section_bytes_bound(sec: ChunkSection)
    requires
        container_encodable(sec.states),
        container_encodable(sec.biomes),
    ensures
        sec.spec_bytes().len() <= 0x0100_0000,
{
    crate::codec::lemma_be_roundtrip(sec.block_count as nat, 2);
    bytes_bound(sec.states);
    bytes_bound(sec.biomes);
}

/// A section as read: its block count and its two containers.
pub ghost struct SectionRead {
    pub block_count: nat,
    pub states: ContainerRead,
    pub biomes: ContainerRead,
}

/// What reading a section from the start of `s` gives, and the number of bytes read.
#[verifier::opaque]
pub open spec fn spec_read_section(s: Seq<u8>) -> Result<(SectionRead, nat), ErrorKind> {
    if s.len() < 2 {
        Err(ErrorKind::EndOfInput)
    } else {
        match spec_read_container(Strategy::Section, s.skip(2)) {
            Err(e) => Err(e),
            Ok(c1) => match spec_read_container(Strategy::Biome, s.skip((2 + c1.len) as int)) {
                Err(e) => Err(e),
                Ok(c2) => Ok(
                    (
                        SectionRead { block_count: be_value(s.subrange(0, 2)), states: c1, biomes: c2 },
                        2 + c1.len + c2.len,
                    ),
                ),
            },
        }
    }
}

/// A container laid out the way a read of the given strategy finds it: a width that names the
/// palette's kind, and a storage of the strategy's entry count and the width's storage bits.
pub open spec fn container_laid_out(c: PaletteContainer, strategy: Strategy) -> bool {
    &&& c.storage.wf()
    &&& c.storage is SimpleStorage || c.storage.spec_raw().len() == 0
    &&& c.storage.spec_raw().len() <= i32::MAX
    &&& c.storage.spec_size() == strategy.spec_locked_entry_count()
    &&& c.storage.spec_bits() == spec_storage_bits(strategy, c.bits_per_entry)
    &&& (c.bits_per_entry == 0 <==> c.palette is SingleValue)
    &&& (has_palette_list(strategy, c.bits_per_entry) <==> c.palette is Indirect)
    &&& c.palette matches Palette::Indirect { palette } ==> palette@.len() <= i32::MAX
}

/// What a read finds of a container.
pub open spec fn container_as_read(c: PaletteContainer) -> ContainerRead {
    ContainerRead {
        bits_per_entry: c.bits_per_entry,
        palette: c.palette@,
        storage_bits: c.storage.spec_bits(),
        raw: c.storage.spec_raw(),
        len: c.spec_bytes().len(),
    }
}

/// What a read finds of a section.
pub open spec fn section_as_read(sec: ChunkSection) -> SectionRead {
    SectionRead {
        block_count: sec.block_count as nat,
        states: container_as_read(sec.states),
        biomes: container_as_read(sec.biomes),
    }
}

/// Reading back what `ChunkSection::encode` wrote gives the section: its block count, its
/// block-state container read as block states and its biome container read as biomes, and
/// the whole encoding is consumed.
#[verifier::rlimit(60)]
#[verifier::spinoff_prover]
pub proof fn law_section_roundtrip(sec: ChunkSection, rest: Seq<u8>)
    requires
        container_laid_out(sec.states, Strategy::Section),
        container_laid_out(sec.biomes, Strategy::Biome),
    ensures
        spec_read_section(sec.spec_bytes() + rest) == Ok::<(SectionRead, nat), ErrorKind>(
            (section_as_read(sec), sec.spec_bytes().len()),
        ),
{
    reveal(spec_read_section);
    let head = be_bytes(sec.block_count as nat, 2);
    let sb = sec.states.spec_bytes();
    let bb = sec.biomes.spec_bytes();
    let s = sec.spec_bytes() + rest;
    crate::codec::lemma_be_roundtrip(sec.block_count as nat, 2);
    assert(crate::codec::pow256(2) == 65536) by {
        reveal_with_fuel(crate::codec::pow256, 3);
    }
    assert(s =~= head + (sb + (bb + rest)));
    assert(s.subrange(0, 2) =~= head);
    assert(s.skip(2) =~= sb + (bb + rest));
    law_container_roundtrip(sec.states, Strategy::Section, bb + rest);
    assert(s.skip((2 + sb.len()) as int) =~= bb + rest);
    law_container_roundtrip(sec.biomes, Strategy::Biome, rest);
}

/// The palette lengths a section read meets are not negative.
#[verifier::opaque]
pub open spec fn section_decodable(s: Seq<u8>) -> bool {
    s.len() >= 2 ==> {
        &&& palette_len_ok(Strategy::Section, s.skip(2))
        &&& spec_read_container(Strategy::Section, s.skip(2)) matches Ok(c) ==> palette_len_ok(
            Strategy::Biome,
            s.skip((2 + c.len) as int),
        )
    }
}

/// `sec` is the section `sr` describes.
pub open spec fn section_read_as(sec: ChunkSection, sr: SectionRead) -> bool {
    &&& sec.block_count == sr.block_count
    &&& container_read_as(sec.states, sr.states, Strategy::Section)
    &&& container_read_as(sec.biomes, sr.biomes, Strategy::Biome)
}

/// Reads `n` sections from `s` at `off`, after the sections `acc` already read.
pub open spec fn read_sections_from(s: Seq<u8>, n: nat, acc: Seq<SectionRead>, off: nat) -> Result<(Seq<SectionRead>, nat), ErrorKind>
    decreases n,
{
    if n == 0 {
        Ok((acc, off))
    } else {
        match spec_read_section(s.skip(off as int)) {
            Err(e) => Err(e),
            Ok((sr, k)) => read_sections_from(s, (n - 1) as nat, acc.push(sr), off + k),
        }
    }
}

/// Every section read of `n` sections from `off` meets non-negative palette lengths.
pub open spec fn sections_decodable_from(s: Seq<u8>, n: nat, off: nat) -> bool
    decreases n,
{
    n == 0 || (section_decodable(s.skip(off as int)) && match spec_read_section(s.skip(off as int)) {
        Ok((_, k)) => sections_decodable_from(s, (n - 1) as nat, off + k),
        Err(_) => true,
    })
}

/// The end of the chunk data frame: `data_size` bytes after `p` (a negative size sets no
/// limit), but no further than the input.
pub open spec fn frame_end(len: int, p: int, data_size: i32) -> int {
    if data_size < 0 || p + data_size > len {
        len
    } else {
        p + data_size
    }
}

/// What reading the chunk data from the start of `s` gives: the 24 sections, read within the
/// frame the declared size sets, and the bytes read.
pub open spec fn spec_read_chunk_data(s: Seq<u8>) -> Result<(Seq<SectionRead>, nat), ErrorKind> {
    match spec_read_var_int(s) {
        Err(e) => Err(e),
        Ok((data_size, k)) => read_sections_from(
            s.subrange(0, frame_end(s.len() as int, k as int, data_size)),
            24,
            seq![],
            k,
        ),
    }
}

/// Every section's containers are laid out the way a read finds them.
pub open spec fn sections_laid_out(secs: Seq<ChunkSection>) -> bool {
    forall|i: int|
        0 <= i < secs.len() ==> container_laid_out((#[trigger] secs[i]).states, Strategy::Section)
            && container_laid_out(secs[i].biomes, Strategy::Biome)
}

/// What a read finds of the sections, in order.
pub open spec fn sections_as_read(secs: Seq<ChunkSection>) -> Seq<SectionRead> {
    Seq::new(secs.len(), |i: int| section_as_read(secs[i]))
}

proof fn lemma_sections_bytes_take(secs: Seq<ChunkSection>, i: int)
    requires
        0 <= i <= secs.len(),
    ensures
        Chunk::spec_sections_bytes(secs.take(i)).len() <= Chunk::spec_sections_bytes(secs).len(),
        Chunk::spec_sections_bytes(secs).subrange(0, Chunk::spec_sections_bytes(secs.take(i)).len() as int)
            == Chunk::spec_sections_bytes(secs.take(i)),
    decreases secs.len(),
{
    if i == secs.len() {
        assert(secs.take(i) == secs);
    } else {
        let front = secs.drop_last();
        assert(front.take(i) == secs.take(i));
        lemma_sections_bytes_take(front, i);
        let bf = Chunk::spec_sections_bytes(front);
        let bt = Chunk::spec_sections_bytes(secs.take(i));
        assert(Chunk::spec_sections_bytes(secs) == bf + secs.last().spec_bytes());
        assert((bf + secs.last().spec_bytes()).subrange(0, bt.len() as int) =~= bf.subrange(0, bt.len() as int));
    }
}

proof fn lemma_read_sections(s: Seq<u8>, secs: Seq<ChunkSection>, k: nat, i: int)
    requires
        0 <= i <= secs.len(),
        sections_laid_out(secs),
        k + Chunk::spec_sections_bytes(secs).len() <= s.len(),
        s.subrange(k as int, (k + Chunk::spec_sections_bytes(secs).len()) as int) == Chunk::spec_sections_bytes(secs),
    ensures
        read_sections_from(
            s,
            (secs.len() - i) as nat,
            sections_as_read(secs.take(i)),
            k + Chunk::spec_sections_bytes(secs.take(i)).len(),
        ) == Ok::<(Seq<SectionRead>, nat), ErrorKind>(
            (sections_as_read(secs), k + Chunk::spec_sections_bytes(secs).len()),
        ),
    decreases secs.len() - i,
{
    let b = Chunk::spec_sections_bytes(secs);
    if i == secs.len() {
        assert(secs.take(i) == secs);
    } else {
        let bt = Chunk::spec_sections_bytes(secs.take(i));
        let bt1 = Chunk::spec_sections_bytes(secs.take(i + 1));
        let sb = secs[i].spec_bytes();
        assert(secs.take(i + 1).drop_last() == secs.take(i));
        assert(bt1 == bt + sb);
        lemma_sections_bytes_take(secs, i + 1);
        let off = k + bt.len();
        let more = s.skip((off + sb.len()) as int);
        assert(s.skip(off as int) =~= sb + more) by {
            assert forall|j: int| 0 <= j < sb.len() implies #[trigger] s.skip(off as int)[j] == sb[j] by {
                assert(s[off + j] == s.subrange(k as int, (k + b.len()) as int)[bt.len() + j]);
                assert(b.subrange(0, bt1.len() as int)[bt.len() + j] == bt1[bt.len() + j]);
            }
        }
        assert(container_laid_out(secs[i].states, Strategy::Section));
        law_section_roundtrip(secs[i], more);
        assert(sections_as_read(secs.take(i)).push(section_as_read(secs[i])) =~= sections_as_read(
            secs.take(i + 1),
        ));
        lemma_read_sections(s, secs, k, i + 1);
    }
}

/// Reading back what `Chunk::encode_sections` wrote for a chunk of 24 sections gives the
/// sections in order, each read as written, and consumes exactly the bytes written.
pub proof fn law_chunk_data_roundtrip(c: Chunk, rest: Seq<u8>)
    requires
        c.chunk_sections@.len() == 24,
        sections_laid_out(c.chunk_sections@),
        Chunk::spec_sections_bytes(c.chunk_sections@).len() <= i32::MAX,
    ensures
        spec_read_chunk_data(c.spec_data_bytes() + rest) == Ok::<(Seq<SectionRead>, nat), ErrorKind>(
            (sections_as_read(c.chunk_sections@), c.spec_data_bytes().len()),
        ),
{
    let secs = c.chunk_sections@;
    let b = Chunk::spec_sections_bytes(secs);
    let h = spec_var_int(b.len() as i32);
    let s = c.spec_data_bytes() + rest;
    crate::codec::lemma_var_int_roundtrip(b.len() as i32, b + rest);
    assert(s =~= h + (b + rest));
    let f = s.subrange(0, (h.len() + b.len()) as int);
    assert(f =~= h + b);
    assert(f.subrange(h.len() as int, (h.len() + b.len()) as int) =~= b);
    assert(secs.take(0) =~= Seq::<ChunkSection>::empty());
    assert(sections_as_read(secs.take(0)) =~= Seq::<SectionRead>::empty());
    lemma_read_sections(f, secs, h.len(), 0);
}

/// The sections of the chunk data at the start of `s` meet non-negative palette lengths.
pub open spec fn chunk_data_decodable(s: Seq<u8>) -> bool {
    spec_read_var_int(s) matches Ok((data_size, k)) ==> sections_decodable_from(
        s.subrange(0, frame_end(s.len() as int, k as int, data_size)),
        24,
        k,
    )
}

impl Chunk {
    /// Reads the chunk data at `pos`: the declared size of the sections, then 24 sections read
    /// within that many bytes.
    #[verifier::rlimit(30)]
    pub fn decode_sections(buf: &[u8], pos: usize) -> (r: Result<(Vec<ChunkSection>, usize), TransportError>)
        requires
            pos <= buf@.len(),
            chunk_data_decodable(buf@.skip(pos as int)),
        ensures
            match spec_read_chunk_data(buf@.skip(pos as int)) {
                Ok((srs, k)) => r matches Ok((secs, p)) && secs@.len() == srs.len() && p == pos + k
                    && forall|i: int| 0 <= i < srs.len() ==> section_read_as(#[trigger] secs@[i], srs[i]),
                Err(e) => r is Err && r->Err_0.kind() == e,
            },
    {
        let ghost s = buf@.skip(pos as int);
        let blen = buf.len();
        proof {
            crate::codec::lemma_scan_range(s, 0, 5);
            assert(s.len() == blen - pos);
        }
        let (data_size, p) = match read_var_int(buf, pos) {
            Ok(x) => x,
            Err(e) => {
                return Err(e);
            },
        };
        let end: usize = if data_size < 0 || data_size as usize > blen - p {
            blen
        } else {
            p + data_size as usize
        };
        let frame = vstd::slice::slice_subrange(buf, 0, end);
        let ghost fs = s.subrange(0, frame_end(s.len() as int, (p - pos) as int, data_size));
        assert(fs =~= frame@.skip(pos as int));
        assert(spec_read_chunk_data(s) == read_sections_from(fs, 24, seq![], (p - pos) as nat));
        let mut sections: Vec<ChunkSection> = Vec::new();
        let ghost mut reads: Seq<SectionRead> = seq![];
        let mut q = p;
        let mut i: usize = 0;
        while i < 24
            invariant
                i <= 24,
                pos <= q <= end,
                end == frame@.len(),
                fs == frame@.skip(pos as int),
                s == buf@.skip(pos as int),
                spec_read_chunk_data(s) == read_sections_from(fs, 24, seq![], (p - pos) as nat),
                sections_decodable_from(fs, (24 - i) as nat, (q - pos) as nat),
                read_sections_from(fs, 24, seq![], (p - pos) as nat) == read_sections_from(
                    fs,
                    (24 - i) as nat,
                    reads,
                    (q - pos) as nat,
                ),
                forall|j: int| 0 <= j < sections@.len() ==> section_read_as(#[trigger] sections@[j], reads[j]),
                sections@.len() == i,
                reads.len() == i,
            decreases 24 - i,
        {
            let ghost cur = fs.skip((q - pos) as int);
            assert(cur =~= frame@.skip(q as int));
            assert(section_decodable(cur));
            let (sec, q2) = match ChunkSection::decode(frame, q) {
                Ok(x) => x,
                Err(e) => {
                    assert(read_sections_from(fs, (24 - i) as nat, reads, (q - pos) as nat) == Err::<
                        (Seq<SectionRead>, nat),
                        ErrorKind,
                    >(e.kind()));
                    return Err(e);
                },
            };
            let ghost sr = spec_read_section(cur)->Ok_0.0;
            let ghost k = spec_read_section(cur)->Ok_0.1;
            assert(q2 == q + k);
            assert(read_sections_from(fs, (24 - i) as nat, reads, (q - pos) as nat)
                == read_sections_from(fs, (24 - i - 1) as nat, reads.push(sr), (q2 - pos) as nat));
            assert(sections_decodable_from(fs, (24 - i - 1) as nat, (q2 - pos) as nat));
            proof {
                reads = reads.push(sr);
            }
            sections.push(sec);
            q = q2;
            i = i + 1;
        }
        Ok((sections, q))
    }
}

} // verus!
