use vstd::prelude::*;
use vstd::string::StringExecFns;

use crate::codec::{
    be_bytes, be_value, decimal_string, decimal_text, lemma_be_roundtrip, pow256, lemma_var_int_roundtrip, read_be, read_var_int,
    size_var_int, spec_read_var_int, spec_var_int, trunc_div, write_be, write_var_int,
    ErrorKind, TransportError,
};

verus! {

/// Number of values packed in one 64-bit word for a given entry width.
pub open spec fn spec_values_per_long(bits: int) -> int {
    if bits == 0 { 0 } else { trunc_div(64, bits) }
}

/// The reciprocal-multiplication constants `(multiplier, addend, shift)` used to divide an
/// index by the number of values per word; indexed by the number of values per word.
pub open spec fn spec_magic(vpl: int) -> (int, int, int) {
    if vpl == 1 { (-1, -1, 0) }
    else if vpl == 2 { (-2147483648, 0, 0) }
    else if vpl == 3 { (1431655765, 1431655765, 0) }
    else if vpl == 4 { (-2147483648, 0, 1) }
    else if vpl == 5 { (858993459, 858993459, 0) }
    else if vpl == 6 { (715827882, 715827882, 0) }
    else if vpl == 7 { (613566756, 613566756, 0) }
    else if vpl == 8 { (-2147483648, 0, 2) }
    else if vpl == 9 { (477218588, 477218588, 0) }
    else if vpl == 10 { (429496729, 429496729, 0) }
    else if vpl == 12 { (357913941, 357913941, 0) }
    else if vpl == 16 { (-2147483648, 0, 3) }
    else if vpl == 21 { (204522252, 204522252, 0) }
    else if vpl == 32 { (-2147483648, 0, 4) }
    else { (-2147483648, 0, 5) }
}

/// Largest index (exclusive) for which the reciprocal multiplication divides exactly,
/// whatever the entry width.
pub open spec fn index_limit() -> int {
    715827890
}

/// The entry widths in `1..=64` give exactly these word capacities.
pub proof fn lemma_vpl_cases(bits: int)
    requires
        1 <= bits <= 64,
    ensures
        ({
            let v = spec_values_per_long(bits);
            v == 1 || v == 2 || v == 3 || v == 4 || v == 5 || v == 6 || v == 7 || v == 8 || v == 9
                || v == 10 || v == 12 || v == 16 || v == 21 || v == 32 || v == 64
        }),
        1 <= spec_values_per_long(bits) <= 64,
        spec_values_per_long(bits) * bits <= 64,
{
    if bits == 1 {} else if bits == 2 {} else if bits == 3 {} else if bits == 4 {}
    else if bits == 5 {} else if bits == 6 {} else if bits == 7 {} else if bits == 8 {}
    else if bits == 9 {} else if bits == 10 {} else if bits <= 12 {
        assert(64int / bits == 5) by {
            if bits == 11 {} else {}
        }
    } else if bits <= 16 {
        assert(64int / bits == 4) by {
            if bits == 13 {} else if bits == 14 {} else if bits == 15 {} else {}
        }
    } else if bits <= 21 {
        assert(64int / bits == 3) by {
            if bits == 17 {} else if bits == 18 {} else if bits == 19 {} else if bits == 20 {} else {}
        }
    } else if bits <= 32 {
        assert(64int / bits == 2) by (nonlinear_arith)
            requires 22 <= bits <= 32;
    } else {
        assert(64int / bits == 1) by (nonlinear_arith)
            requires 33 <= bits <= 64;
    }
    assert((64int / bits) * bits <= 64) by (nonlinear_arith)
        requires 1 <= bits;
}

/// The reciprocal multiplication `((n * m + a) >> 32) >> s` with the constants of
/// `spec_magic(v)`, read as unsigned 32-bit values, is `n / v` below `index_limit()`.
pub proof fn lemma_magic_divides(v: int, n: int)
    requires
        v == 1 || v == 2 || v == 3 || v == 4 || v == 5 || v == 6 || v == 7 || v == 8 || v == 9
            || v == 10 || v == 12 || v == 16 || v == 21 || v == 32 || v == 64,
        0 <= n < index_limit(),
    ensures
        ({
            let (m, a, s) = spec_magic(v);
            let l = if m < 0 { m + 0x1_0000_0000 } else { m };
            let l2 = if a < 0 { a + 0x1_0000_0000 } else { a };
            (n * l + l2) / 0x1_0000_0000 / pow2_int(s) == n / v
        }),
{
    if v == 1 {
        assert((n * 0xFFFF_FFFF + 0xFFFF_FFFF) / 0x1_0000_0000 == n) by (nonlinear_arith)
            requires 0 <= n < 715827890;
    } else if v == 2 {
        assert((n * 0x8000_0000) / 0x1_0000_0000 == n / 2) by (nonlinear_arith)
            requires 0 <= n;
    } else if v == 3 {
        assert((n * 1431655765 + 1431655765) / 0x1_0000_0000 == n / 3) by (nonlinear_arith)
            requires 0 <= n < 715827890;
    } else if v == 4 {
        assert((n * 0x8000_0000) / 0x1_0000_0000 / 2 == n / 4) by (nonlinear_arith)
            requires 0 <= n;
    } else if v == 5 {
        assert((n * 858993459 + 858993459) / 0x1_0000_0000 == n / 5) by (nonlinear_arith)
            requires 0 <= n < 715827890;
    } else if v == 6 {
        assert((n * 715827882 + 715827882) / 0x1_0000_0000 == n / 6) by (nonlinear_arith)
            requires 0 <= n < 715827890;
    } else if v == 7 {
        assert((n * 613566756 + 613566756) / 0x1_0000_0000 == n / 7) by (nonlinear_arith)
            requires 0 <= n < 715827890;
    } else if v == 8 {
        assert((n * 0x8000_0000) / 0x1_0000_0000 / 4 == n / 8) by (nonlinear_arith)
            requires 0 <= n;
    } else if v == 9 {
        assert((n * 477218588 + 477218588) / 0x1_0000_0000 == n / 9) by (nonlinear_arith)
            requires 0 <= n < 715827890;
    } else if v == 10 {
        assert((n * 429496729 + 429496729) / 0x1_0000_0000 == n / 10) by (nonlinear_arith)
            requires 0 <= n < 715827890;
    } else if v == 12 {
        assert((n * 357913941 + 357913941) / 0x1_0000_0000 == n / 12) by (nonlinear_arith)
            requires 0 <= n < 715827890;
    } else if v == 16 {
        assert((n * 0x8000_0000) / 0x1_0000_0000 / 8 == n / 16) by (nonlinear_arith)
            requires 0 <= n;
    } else if v == 21 {
        assert((n * 204522252 + 204522252) / 0x1_0000_0000 == n / 21) by (nonlinear_arith)
            requires 0 <= n < 715827890;
    } else if v == 32 {
        assert((n * 0x8000_0000) / 0x1_0000_0000 / 16 == n / 32) by (nonlinear_arith)
            requires 0 <= n;
    } else {
        assert((n * 0x8000_0000) / 0x1_0000_0000 / 32 == n / 64) by (nonlinear_arith)
            requires 0 <= n;
    }
}

pub open spec fn pow2_int(s: int) -> int {
    if s == 0 { 1 } else if s == 1 { 2 } else if s == 2 { 4 } else if s == 3 { 8 }
    else if s == 4 { 16 } else { 32 }
}


/// The bits of an entry of the given width, as an unsigned mask.
pub open spec fn spec_mask_u64(bits: int) -> u64 {
    if bits <= 0 || bits >= 64 { 0 } else { ((1u64 << (bits as u64)) - 1) as u64 }
}

/// The unsigned 32-bit reading of a signed 32-bit constant.
pub open spec fn unsigned32(m: int) -> int {
    if m < 0 { m + 0x1_0000_0000 } else { m }
}

/// `ceil(size / values_per_long)` with Rust's rounding toward zero, as `expected_size` computes.
pub open spec fn spec_expected_size(size: int, bits: int) -> int {
    trunc_div(size + spec_values_per_long(bits) - 1, spec_values_per_long(bits))
}

/// The entry at `n` of a packed word sequence with entries of `bits` bits.
/// The word `word` with the `bits`-wide field of slot `slot` replaced by `v`'s low bits; the
/// other bits of the word, the padding above the last slot among them, stay as they were.
pub open spec fn spec_replace_field(word: i64, v: int, bits: int, slot: int) -> i64 {
    let off = (slot * bits) as u64;
    let mask = spec_mask_u64(bits);
    ((word as u64 & ((mask << off) ^ 0xFFFF_FFFF_FFFF_FFFFu64)) | ((v as u64 & mask) << off)) as i64
}

pub open spec fn spec_entry(raw: Seq<i64>, bits: int, n: int) -> u64 {
    let vpl = spec_values_per_long(bits);
    spec_mask_u64(bits) & ((raw[n / vpl] as u64) >> (((n % vpl) * bits) as u64))
}

/// Replacing the `bits`-wide field at `off` of a word reads back as the written value and
/// survives the round trip through `i64`.
pub proof fn lemma_replace_field(word: u64, v: u64, mask: u64, off: u64, bits: u64)
    by (bit_vector)
    requires
        1 <= bits <= 62,
        mask == ((1u64 << bits) - 1) as u64,
        off + bits <= 64,
        v <= mask,
    ensures
        ({
            let w2 = (word & ((mask << off) ^ 0xFFFF_FFFF_FFFF_FFFFu64)) | ((v & mask) << off);
            &&& (mask & (w2 >> off)) == v
            &&& ((w2 as i64) as u64) == w2
        }),
{
}

/// Replacing the `bits`-wide field at `off` of a word leaves every disjoint field unchanged.
pub proof fn lemma_replace_other_field(word: u64, v: u64, mask: u64, off: u64, off2: u64, bits: u64)
    by (bit_vector)
    requires
        1 <= bits <= 62,
        mask == ((1u64 << bits) - 1) as u64,
        off + bits <= 64,
        off2 + bits <= 64,
        off + bits <= off2 || off2 + bits <= off,
    ensures
        ({
            let w2 = (word & ((mask << off) ^ 0xFFFF_FFFF_FFFF_FFFFu64)) | ((v & mask) << off);
            (mask & (w2 >> off2)) == (mask & (word >> off2))
        }),
{
}

/// The word index and bit offset of entry `n`, and the no-overlap facts about them.
pub proof fn lemma_entry_position(n: int, m: int, size: int, bits: int)
    requires
        1 <= bits <= 64,
        0 <= n < size,
        0 <= m < size,
    ensures
        ({
            let vpl = spec_values_per_long(bits);
            &&& n / vpl < trunc_div(size + vpl - 1, vpl)
            &&& 0 <= n / vpl
            &&& n - (n / vpl) * vpl == n % vpl
            &&& 0 <= (n % vpl) * bits
            &&& (n % vpl) * bits + bits <= 64
            &&& (n / vpl == m / vpl && n != m) ==> ((n % vpl) * bits + bits <= (m % vpl) * bits
                || (m % vpl) * bits + bits <= (n % vpl) * bits)
        }),
{
    let vpl = spec_values_per_long(bits);
    lemma_vpl_cases(bits);
    assert(n / vpl < (size + vpl - 1) / vpl) by (nonlinear_arith)
        requires
            0 <= n < size,
            vpl >= 1,
    ;
    assert(trunc_div(size + vpl - 1, vpl) == (size + vpl - 1) / vpl);
    assert(0 <= n / vpl) by (nonlinear_arith)
        requires
            0 <= n,
            vpl >= 1,
    ;
    assert(n == vpl * (n / vpl) + n % vpl && 0 <= n % vpl < vpl) by (nonlinear_arith)
        requires
            vpl >= 1,
    ;
    assert(m == vpl * (m / vpl) + m % vpl && 0 <= m % vpl < vpl) by (nonlinear_arith)
        requires
            vpl >= 1,
    ;
    assert(0 <= (n % vpl) * bits && (n % vpl) * bits + bits <= 64) by (nonlinear_arith)
        requires
            0 <= n % vpl < vpl,
            vpl * bits <= 64,
            bits >= 1,
    ;
    if n / vpl == m / vpl && n != m {
        let a = n % vpl;
        let b = m % vpl;
        assert(a != b);
        assert(a * bits + bits <= b * bits || b * bits + bits <= a * bits) by (nonlinear_arith)
            requires
                a != b,
                bits >= 1,
        ;
    }
}


/// Text of a failed range check.
pub open spec fn range_error_text(is_long: bool, low: int, high: int, value: int) -> Seq<char> {
    (if is_long {
        "i64"@
    } else {
        "i32"@
    }) + " base "@ + decimal_text(value) + " is not between "@ + decimal_text(low) + " and "@
        + decimal_text(high) + "."@
}

/// Text of a seeded raw length that does not match the storage's shape.
pub open spec fn seeded_length_error_text(given: int, expected: int) -> Seq<char> {
    "Invalid bitset seeded raw length of "@ + decimal_text(given) + ", expected "@ + decimal_text(
        expected,
    ) + "."@
}

/// Formats the message of a failed range check; `is_long` picks the type's name.
fn range_error(is_long: bool, n1: i64, n2: i64, n3: i64) -> (r: BitSetValidationError)
    ensures
        r.0@ == range_error_text(is_long, n1 as int, n2 as int, n3 as int),
{
    let s = if is_long {
        String::from_str("i64")
    } else {
        String::from_str("i32")
    };
    let s = s.concat(" base ").concat(decimal_string(n3 as i128).as_str());
    let s = s.concat(" is not between ").concat(decimal_string(n1 as i128).as_str());
    let s = s.concat(" and ").concat(decimal_string(n2 as i128).as_str());
    BitSetValidationError(s.concat("."))
}

/// Formats the message of a seeded raw array of the wrong length.
fn seeded_length_error(given: usize, expected: i32) -> (r: BitSetValidationError)
    ensures
        r.0@ == seeded_length_error_text(given as int, expected as int),
{
    let s = String::from_str("Invalid bitset seeded raw length of ");
    let s = s.concat(decimal_string(given as i128).as_str());
    let s = s.concat(", expected ").concat(decimal_string(expected as i128).as_str());
    BitSetValidationError(s.concat("."))
}

/// The big-endian bytes of a sequence of words.
pub open spec fn words_bytes(raw: Seq<i64>) -> Seq<u8>
    decreases raw.len(),
{
    if raw.len() == 0 {
        seq![]
    } else {
        words_bytes(raw.drop_last()) + be_bytes((raw.last() as u64) as nat, 8)
    }
}

/// The first `n` big-endian words of `s`.
pub open spec fn read_words(s: Seq<u8>, n: nat) -> Seq<i64> {
    Seq::new(n, |i: int| (be_value(s.subrange(8 * i, 8 * i + 8)) as u64) as i64)
}

/// Text of a declared word count that does not match the expected one.
pub open spec fn word_count_error_text(expected: int, found: int) -> Seq<char> {
    "Incorrect value length given "@ + decimal_text(expected) + " expected "@ + decimal_text(found)
        + "."@
}


/// Formats the message of a declared word count that does not match the expected one.
fn word_count_error(expected: i32, found: i32) -> (r: TransportError)
    ensures
        r.kind() == ErrorKind::Explain(word_count_error_text(expected as int, found as int)),
{
    let s = String::from_str("Incorrect value length given ");
    let s = s.concat(decimal_string(expected as i128).as_str());
    let s = s.concat(" expected ").concat(decimal_string(found as i128).as_str());
    TransportError::Explain(s.concat("."))
}

/// Builds the message of a zero storage with a non-zero word count.
fn zero_count_error() -> (r: TransportError)
    ensures
        r.kind() == ErrorKind::Explain("Invalid zero bit storage size."@),
{
    TransportError::Explain(String::from_str("Invalid zero bit storage size."))
}

/// What reading a storage of `size` entries of `bits` bits from the start of `s` gives: its
/// words and the number of bytes read.
pub open spec fn spec_read_storage(s: Seq<u8>, bits: int, size: int) -> Result<
    (Seq<i64>, nat),
    ErrorKind,
> {
    match spec_read_var_int(s) {
        Err(e) => Err(e),
        Ok((n, k)) => if bits == 0 {
            if n != 0 {
                Err(ErrorKind::Explain("Invalid zero bit storage size."@))
            } else {
                Ok((seq![], k))
            }
        } else if spec_expected_size(size, bits) != n {
            Err(ErrorKind::Explain(word_count_error_text(spec_expected_size(size, bits), n as int)))
        } else if k + 8 * n > s.len() {
            Err(ErrorKind::EndOfInput)
        } else {
            Ok((read_words(s.skip(k as int), n as nat), k + 8 * (n as nat)))
        },
    }
}

/// Each word adds eight bytes.
pub proof fn lemma_words_bytes_len(raw: Seq<i64>)
    ensures
        words_bytes(raw).len() == 8 * raw.len(),
    decreases raw.len(),
{
    if raw.len() > 0 {
        lemma_words_bytes_len(raw.drop_last());
        lemma_be_roundtrip((raw.last() as u64) as nat, 8);
    }
}

/// The eight bytes of word `i` sit at `8 * i` in the encoding of a word sequence.
pub proof fn lemma_words_bytes_index(raw: Seq<i64>, i: int)
    requires
        0 <= i < raw.len(),
    ensures
        words_bytes(raw).subrange(8 * i, 8 * i + 8) == be_bytes((raw[i] as u64) as nat, 8),
    decreases raw.len(),
{
    lemma_words_bytes_len(raw);
    let init = raw.drop_last();
    lemma_words_bytes_len(init);
    lemma_be_roundtrip((raw.last() as u64) as nat, 8);
    if i < raw.len() - 1 {
        lemma_words_bytes_index(init, i);
        assert(words_bytes(raw).subrange(8 * i, 8 * i + 8) =~= words_bytes(init).subrange(
            8 * i,
            8 * i + 8,
        ));
    } else {
        assert(words_bytes(raw).subrange(8 * i, 8 * i + 8) =~= be_bytes(
            (raw.last() as u64) as nat,
            8,
        ));
    }
}

/// Reading the words back from their encoding, whatever follows, gives the same words.
pub proof fn lemma_read_words_roundtrip(raw: Seq<i64>, rest: Seq<u8>)
    ensures
        read_words(words_bytes(raw) + rest, raw.len()) == raw,
{
    lemma_words_bytes_len(raw);
    assert forall|i: int| 0 <= i < raw.len() implies #[trigger] read_words(
        words_bytes(raw) + rest,
        raw.len(),
    )[i] == raw[i] by {
        lemma_words_bytes_index(raw, i);
        assert((words_bytes(raw) + rest).subrange(8 * i, 8 * i + 8) =~= words_bytes(raw).subrange(
            8 * i,
            8 * i + 8,
        ));
        lemma_be_roundtrip((raw[i] as u64) as nat, 8);
        assert(pow256(8) == 0x1_0000_0000_0000_0000) by {
            reveal_with_fuel(pow256, 9);
        }
        let w = raw[i];
        assert(((w as u64) as i64) == w) by (bit_vector);
    }
    assert(read_words(words_bytes(raw) + rest, raw.len()) =~= raw);
}

/// Reading an encoded storage back, with its entry count and width, gives its words and the
/// whole encoding's length.
pub proof fn law_storage_roundtrip(st: BitStorage, rest: Seq<u8>)
    requires
        st.wf(),
        st is SimpleStorage || st.spec_raw().len() == 0,
        st.spec_raw().len() <= i32::MAX,
    ensures
        spec_read_storage(st.spec_bytes() + rest, st.spec_bits(), st.spec_size()) == Ok::<
            (Seq<i64>, nat),
            ErrorKind,
        >((st.spec_raw(), st.spec_bytes().len())),
{
    match st {
        BitStorage::ZeroStorage { .. } => {
            lemma_var_int_roundtrip(0, rest);
            assert(st.spec_raw() =~= seq![]);
        },
        BitStorage::SimpleStorage { size, bits, raw } => {
            let w = words_bytes(raw@);
            lemma_words_bytes_len(raw@);
            lemma_var_int_roundtrip(raw@.len() as i32, w + rest);
            assert(st.spec_bytes() + rest =~= spec_var_int(raw@.len() as i32) + (w + rest));
            let k = spec_var_int(raw@.len() as i32).len();
            assert((spec_var_int(raw@.len() as i32) + (w + rest)).skip(k as int) =~= w + rest);
            lemma_read_words_roundtrip(raw@, rest);
        },
    }
}

/// Error raised when an index or value is outside of a bit storage's range.
#[derive(Debug)]
pub struct BitSetValidationError(pub String);

/// A fixed number of unsigned entries of `bits` bits each, packed into 64-bit words; an entry
/// never straddles two words.
#[derive(Debug, Clone)]
pub enum BitStorage {
    ZeroStorage { size: i32, raw: Vec<i64> },
    SimpleStorage { size: i32, bits: i32, raw: Vec<i64> },
}

impl BitStorage {
    pub open spec fn spec_size(&self) -> int {
        match self {
            BitStorage::ZeroStorage { size, .. } => *size as int,
            BitStorage::SimpleStorage { size, .. } => *size as int,
        }
    }

    /// Width of an entry; zero for a zero storage.
    pub open spec fn spec_bits(&self) -> int {
        match self {
            BitStorage::ZeroStorage { .. } => 0,
            BitStorage::SimpleStorage { bits, .. } => *bits as int,
        }
    }

    pub open spec fn spec_raw(&self) -> Seq<i64> {
        match self {
            BitStorage::ZeroStorage { raw, .. } => raw@,
            BitStorage::SimpleStorage { raw, .. } => raw@,
        }
    }

    /// The packed words hold exactly the entries the storage's shape asks for.
    pub open spec fn wf(&self) -> bool {
        match self {
            BitStorage::ZeroStorage { .. } => true,
            BitStorage::SimpleStorage { size, bits, raw } => {
                &&& 1 <= *bits <= 64
                &&& *size + spec_values_per_long(*bits as int) <= i32::MAX
                &&& spec_expected_size(*size as int, *bits as int) >= 0
                &&& raw@.len() == spec_expected_size(*size as int, *bits as int)
            },
        }
    }

    /// The storage can be read and written: its entries are at most 62 bits wide (wider masks
    /// overflow) and it holds at most `index_limit()` entries, the range over which the cell
    /// index computed by reciprocal multiplication is exact.
    pub open spec fn in_reach(&self) -> bool {
        match self {
            BitStorage::ZeroStorage { size, .. } => *size > i32::MIN,
            BitStorage::SimpleStorage { size, bits, .. } => *bits <= 62 && i32::MIN < *size
                <= index_limit(),
        }
    }

    /// An index the storage accepts: the range check excludes the last slot.
    pub open spec fn valid_index(&self, n: int) -> bool {
        0 <= n < self.spec_size() - 1
    }

    /// A value `set` accepts: the range check excludes the all-ones value.
    pub open spec fn valid_value(&self, v: int) -> bool {
        match self {
            BitStorage::ZeroStorage { .. } => false,
            BitStorage::SimpleStorage { bits, .. } => 0 <= v < spec_mask_u64(*bits as int),
        }
    }

    /// The entry at `n`, as the `i32` that `get` returns.
    pub open spec fn spec_get(&self, n: int) -> i32 {
        match self {
            BitStorage::ZeroStorage { .. } => 0,
            BitStorage::SimpleStorage { bits, raw, .. } => spec_entry(
                raw@,
                *bits as int,
                n,
            ) as i32,
        }
    }

    /// The mask of a `bits`-wide entry (`2^bits - 1`), zero for zero bits.
    fn mask(bits: i32) -> (r: i64)
        requires
            0 <= bits <= 62,
        ensures
            r >= 0,
            r as u64 == spec_mask_u64(bits as int),
    {
        match bits {
            0 => 0,
            _ => {
                let b = bits as u32;
                assert(1 <= b <= 62 ==> (1i64 << b) - 1 >= 0 && (((1i64 << b) - 1) as u64) == (
                (1u64 << (b as u64)) - 1) as u64) by (bit_vector);
                (1i64 << b) - 1
            },
        }
    }

    fn values_per_long(bits: i32) -> (r: i32)
        requires
            0 <= bits,
        ensures
            r == spec_values_per_long(bits as int),
    {
        match bits {
            0 => 0,
            _ => 64 / bits,
        }
    }

    fn magic_of(bits: i32) -> (r: (i32, i32, i32))
        requires
            1 <= bits <= 64,
        ensures
            r.0 as int == spec_magic(spec_values_per_long(bits as int)).0,
            r.1 as int == spec_magic(spec_values_per_long(bits as int)).1,
            r.2 as int == spec_magic(spec_values_per_long(bits as int)).2,
    {
        proof {
            lemma_vpl_cases(bits as int);
        }
        match Self::values_per_long(bits) {
            1 => (-1, -1, 0),
            2 => (-2147483648, 0, 0),
            3 => (1431655765, 1431655765, 0),
            4 => (-2147483648, 0, 1),
            5 => (858993459, 858993459, 0),
            6 => (715827882, 715827882, 0),
            7 => (613566756, 613566756, 0),
            8 => (-2147483648, 0, 2),
            9 => (477218588, 477218588, 0),
            10 => (429496729, 429496729, 0),
            12 => (357913941, 357913941, 0),
            16 => (-2147483648, 0, 3),
            21 => (204522252, 204522252, 0),
            32 => (-2147483648, 0, 4),
            _ => (-2147483648, 0, 5),
        }
    }

    fn divide_mul(bits: i32) -> (r: i32)
        requires
            0 <= bits <= 64,
        ensures
            bits == 0 ==> r == 0,
            bits != 0 ==> r as int == spec_magic(spec_values_per_long(bits as int)).0,
    {
        match bits {
            0 => 0,
            _ => Self::magic_of(bits).0,
        }
    }

    fn divide_add(bits: i32) -> (r: i32)
        requires
            0 <= bits <= 64,
        ensures
            bits == 0 ==> r == 0,
            bits != 0 ==> r as int == spec_magic(spec_values_per_long(bits as int)).1,
    {
        match bits {
            0 => 0,
            _ => Self::magic_of(bits).1,
        }
    }

    fn divide_shift(bits: i32) -> (r: i32)
        requires
            0 <= bits <= 64,
        ensures
            bits == 0 ==> r == 0,
            bits != 0 ==> r as int == spec_magic(spec_values_per_long(bits as int)).2,
    {
        match bits {
            0 => 0,
            _ => Self::magic_of(bits).2,
        }
    }

    /// The word holding entry `n`: `n / values_per_long(bits)`, computed by reciprocal
    /// multiplication.
    fn cell_index(bits: i32, n: i32) -> (r: i32)
        requires
            1 <= bits <= 64,
            0 <= n < index_limit(),
        ensures
            r as int == n as int / spec_values_per_long(bits as int),
    {
        proof {
            lemma_vpl_cases(bits as int);
        }
        let m = Self::divide_mul(bits);
        let a = Self::divide_add(bits);
        let s = Self::divide_shift(bits);
        let l = 4294967295u64 & (m as u64);
        let l2 = 4294967295u64 & (a as u64);
        assert(l as int == unsigned32(m as int)) by {
            assert(m < 0 ==> ((4294967295u64 & (m as u64)) as int) == m as int + 4294967296)
                by (bit_vector);
            assert(m >= 0 ==> ((4294967295u64 & (m as u64)) as int) == m as int) by (bit_vector);
        }
        assert(l2 as int == unsigned32(a as int)) by {
            assert(a < 0 ==> ((4294967295u64 & (a as u64)) as int) == a as int + 4294967296)
                by (bit_vector);
            assert(a >= 0 ==> ((4294967295u64 & (a as u64)) as int) == a as int) by (bit_vector);
        }
        let nn = n as u64;
        assert(nn * l <= 715827890 * 4294967295) by (nonlinear_arith)
            requires
                nn < 715827890,
                l <= 4294967295,
        ;
        let prod = nn * l + l2;
        let hi = prod >> 32u64;
        assert(hi as int == prod as int / 0x1_0000_0000) by (bit_vector)
            requires
                hi == prod >> 32u64,
        ;
        let sh = s as u64;
        let q = hi >> sh;
        proof {
            lemma_magic_divides(spec_values_per_long(bits as int), n as int);
            assert(sh <= 5);
            assert(q as int == hi as int / pow2_int(sh as int)) by {
                assert((sh == 0 ==> hi >> sh == hi) && (sh == 1 ==> hi >> sh == hi / 2) && (sh == 2
                    ==> hi >> sh == hi / 4) && (sh == 3 ==> hi >> sh == hi / 8) && (sh == 4 ==> hi
                    >> sh == hi / 16) && (sh == 5 ==> hi >> sh == hi / 32)) by (bit_vector);
            }
            assert(q as int <= n as int) by {
                assert(n as int / spec_values_per_long(bits as int) <= n as int) by (nonlinear_arith)
                    requires
                        n >= 0,
                        spec_values_per_long(bits as int) >= 1,
                ;
            }
        }
        q as i32
    }


    fn validate_n32(n1: i32, n2: i32, n3: i32) -> (r: Result<(), BitSetValidationError>)
        ensures
            r is Ok <==> n1 <= n3 < n2,
            r matches Err(e) ==> e.0@ == range_error_text(false, n1 as int, n2 as int, n3 as int),
    {
        if !(n1 <= n3 && n3 < n2) {
            return Err(range_error(false, n1 as i64, n2 as i64, n3 as i64));
        }
        Ok(())
    }

    fn validate_n64(n1: i64, n2: i64, n3: i64) -> (r: Result<(), BitSetValidationError>)
        ensures
            r is Ok <==> n1 <= n3 < n2,
            r matches Err(e) ==> e.0@ == range_error_text(true, n1 as int, n2 as int, n3 as int),
    {
        if !(n1 <= n3 && n3 < n2) {
            return Err(range_error(true, n1, n2, n3));
        }
        Ok(())
    }

    /// Number of words needed for `size` entries of `bits` bits.
    pub fn expected_size(size: i32, bits: i32) -> (r: i32)
        requires
            1 <= bits <= 64,
            size + spec_values_per_long(bits as int) <= i32::MAX,
        ensures
            r == spec_expected_size(size as int, bits as int),
    {
        proof {
            lemma_vpl_cases(bits as int);
        }
        (size + Self::values_per_long(bits) - 1) / Self::values_per_long(bits)
    }

    /// A storage of `size` zeroed entries of `bits` bits; an empty zero storage when either is 0.
    pub fn new(size: i32, bits: i32) -> (r: Self)
        requires
            0 <= bits <= 64,
            size != 0 && bits != 0 ==> size + spec_values_per_long(bits as int) <= i32::MAX
                && spec_expected_size(size as int, bits as int) >= 0,
        ensures
            r.wf(),
            size == 0 || bits == 0 ==> r is ZeroStorage && r.spec_size() == 0 && r.spec_raw().len()
                == 0,
            size != 0 && bits != 0 ==> r.spec_size() == size && r.spec_bits() == bits
                && r is SimpleStorage && forall|i: int|
                0 <= i < r.spec_raw().len() ==> #[trigger] r.spec_raw()[i] == 0,
    {
        if size == 0 || bits == 0 {
            BitStorage::ZeroStorage { size: 0, raw: Vec::new() }
        } else {
            let n = Self::expected_size(size, bits) as usize;
            BitStorage::SimpleStorage { size, bits, raw: vec![0i64; n] }
        }
    }

    /// A storage over the given words, refused when their number does not fit `size` and `bits`.
    pub fn with_seeded_raw(size: i32, bits: i32, raw: Vec<i64>) -> (r: Result<
        Self,
        BitSetValidationError,
    >)
        requires
            1 <= bits <= 64,
            size + spec_values_per_long(bits as int) <= i32::MAX,
        ensures
            r is Ok <==> spec_expected_size(size as int, bits as int) == raw@.len(),
            r matches Ok(s) ==> s == (BitStorage::SimpleStorage { size, bits, raw }) && s.wf(),
            r matches Err(e) ==> e.0@ == seeded_length_error_text(
                raw@.len() as int,
                spec_expected_size(size as int, bits as int),
            ),
    {
        let expected = Self::expected_size(size, bits);
        if expected < 0 || expected as usize != raw.len() {
            return Err(seeded_length_error(raw.len(), expected));
        }
        Ok(BitStorage::SimpleStorage { size, bits, raw })
    }

    /// Number of entries.
    pub fn size(&self) -> (r: i32)
        ensures
            r == self.spec_size(),
    {
        match self {
            BitStorage::ZeroStorage { size, .. } => *size,
            BitStorage::SimpleStorage { size, .. } => *size,
        }
    }

    /// The entry at `n`; refused when `n` is not in `0..size - 1`.
    pub fn get(&self, n: i32) -> (r: Result<i32, BitSetValidationError>)
        requires
            self.wf(),
            self.in_reach(),
        ensures
            r is Ok <==> self.valid_index(n as int),
            r matches Ok(v) ==> v == self.spec_get(n as int),
            r matches Err(e) ==> e.0@ == range_error_text(
                false,
                0,
                self.spec_size() - 1,
                n as int,
            ),
    {
        match self {
            BitStorage::ZeroStorage { size, .. } => {
                Self::validate_n32(0, *size - 1, n)?;
                Ok(0)
            },
            BitStorage::SimpleStorage { size, bits, raw } => {
                Self::validate_n32(0, *size - 1, n)?;
                proof {
                    lemma_entry_position(n as int, n as int, *size as int, *bits as int);
                }
                let n3 = Self::cell_index(*bits, n);
                let larr = raw[n3 as usize] as u64;
                let n4 = (n - (n3 * Self::values_per_long(*bits))) * *bits;
                let u64mask = Self::mask(*bits) as u64;
                let n5 = (u64mask & (larr >> n4 as u64)) as i32;
                Ok(n5)
            },
        }
    }


    /// What `set` and `get_and_set` leave behind: on success the entry at `n` holds `v` and every
    /// other entry is unchanged; on failure nothing changes.
    pub open spec fn written(&self, old: &Self, n: int, v: int, ok: bool) -> bool {
        &&& ok <==> (old.valid_index(n) && old.valid_value(v))
        &&& ok ==> {
            &&& self.wf()
            &&& self.in_reach()
            &&& self.spec_size() == old.spec_size()
            &&& self.spec_bits() == old.spec_bits()
            &&& self is SimpleStorage
            &&& self.spec_raw() == old.spec_raw().update(
                n / spec_values_per_long(old.spec_bits()),
                spec_replace_field(
                    old.spec_raw()[n / spec_values_per_long(old.spec_bits())],
                    v,
                    old.spec_bits(),
                    n % spec_values_per_long(old.spec_bits()),
                ),
            )
            &&& self.spec_get(n) == v
            &&& forall|m: int|
                #![trigger self.spec_get(m)]
                old.valid_index(m) && m != n ==> self.spec_get(m) == old.spec_get(m)
        }
        &&& !ok ==> *self == *old
    }

    /// The text `set` refuses `v` at `n` with: the index check comes first.
    pub open spec fn set_error_text(&self, n: int, v: int) -> Seq<char> {
        if !self.valid_index(n) {
            range_error_text(false, 0, self.spec_size() - 1, n)
        } else {
            match self {
                BitStorage::ZeroStorage { .. } => range_error_text(true, 0, 0, v),
                BitStorage::SimpleStorage { bits, .. } => range_error_text(
                    true,
                    0,
                    spec_mask_u64(*bits as int) as int,
                    v,
                ),
            }
        }
    }

    /// Stores `n2` at index `n`; refused when `n` is not in `0..size - 1` or `n2` is not in
    /// `0..2^bits - 1` (a zero storage refuses every value).
    pub fn set(&mut self, n: i32, n2: i32) -> (r: Result<(), BitSetValidationError>)
        requires
            old(self).wf(),
            old(self).in_reach(),
        ensures
            final(self).written(&*old(self), n as int, n2 as int, r is Ok),
            r matches Err(e) ==> e.0@ == old(self).set_error_text(n as int, n2 as int),
    {
        match self {
            BitStorage::ZeroStorage { size, .. } => {
                Self::validate_n32(0, *size - 1, n)?;
                Self::validate_n64(0, 0, n2 as i64)?;
                Ok(())
            },
            BitStorage::SimpleStorage { size, bits, raw } => {
                Self::validate_n32(0, *size - 1, n)?;
                Self::validate_n64(0, Self::mask(*bits), n2 as i64)?;
                proof {
                    lemma_entry_position(n as int, n as int, *size as int, *bits as int);
                }
                let n3 = Self::cell_index(*bits, n);
                let larr = raw[n3 as usize];
                let n4 = (n - (n3 * Self::values_per_long(*bits))) * *bits;
                let u64mask = Self::mask(*bits) as u64;
                let ghost old_raw = raw@;
                let word = (larr as u64 & ((u64mask << n4 as u64) ^ 0xFFFFFFFFFFFFFFFFu64) | (n2 as u64
                    & Self::mask(*bits) as u64) << n4 as u64) as i64;
                raw.set(n3 as usize, word);
                proof {
                    let b = *bits as int;
                    let vpl = spec_values_per_long(b);
                    assert forall|m: int|
                        #![trigger spec_entry(raw@, b, m)]
                        0 <= m < *size - 1 implies spec_entry(raw@, b, m) == if m == n as int {
                            n2 as u64
                        } else {
                            spec_entry(old_raw, b, m)
                        } by {
                        lemma_entry_position(n as int, m, *size as int, b);
                        lemma_entry_position(m, n as int, *size as int, b);
                        let off2 = ((m % vpl) * b) as u64;
                        lemma_replace_field(larr as u64, n2 as u64, u64mask, n4 as u64, b as u64);
                        if m / vpl != n3 as int {
                            assert(raw@[m / vpl] == old_raw[m / vpl]);
                        } else if m != n as int {
                            lemma_replace_other_field(
                                larr as u64,
                                n2 as u64,
                                u64mask,
                                n4 as u64,
                                off2,
                                b as u64,
                            );
                        }
                    }
                }
                Ok(())
            },
        }
    }

    /// Stores `n2` at index `n` and returns the entry it replaced; refused as `set` is.
    pub fn get_and_set(&mut self, n: i32, n2: i32) -> (r: Result<i32, BitSetValidationError>)
        requires
            old(self).wf(),
            old(self).in_reach(),
        ensures
            final(self).written(&*old(self), n as int, n2 as int, r is Ok),
            r matches Ok(prev) ==> prev == old(self).spec_get(n as int),
            r matches Err(e) ==> e.0@ == old(self).set_error_text(n as int, n2 as int),
    {
        match self {
            BitStorage::ZeroStorage { size, .. } => {
                Self::validate_n32(0, *size - 1, n)?;
                Self::validate_n64(0, 0, n2 as i64)?;
                Ok(0)
            },
            BitStorage::SimpleStorage { size, bits, raw } => {
                Self::validate_n32(0, *size - 1, n)?;
                Self::validate_n64(0, Self::mask(*bits), n2 as i64)?;
                proof {
                    lemma_entry_position(n as int, n as int, *size as int, *bits as int);
                }
                let n3 = Self::cell_index(*bits, n);
                let larr = raw[n3 as usize];
                let u64mask = Self::mask(*bits) as u64;
                let n4 = (n - (n3 * Self::values_per_long(*bits))) * *bits;
                let n5 = (u64mask & (larr as u64 >> n4 as u64)) as i32;
                let ghost old_raw = raw@;
                let word = (larr as u64 & ((u64mask << n4 as u64) ^ 0xFFFFFFFFFFFFFFFFu64) | (n2 as u64
                    & Self::mask(*bits) as u64) << n4 as u64) as i64;
                raw.set(n3 as usize, word);
                proof {
                    let b = *bits as int;
                    let vpl = spec_values_per_long(b);
                    assert forall|m: int|
                        #![trigger spec_entry(raw@, b, m)]
                        0 <= m < *size - 1 implies spec_entry(raw@, b, m) == if m == n as int {
                            n2 as u64
                        } else {
                            spec_entry(old_raw, b, m)
                        } by {
                        lemma_entry_position(n as int, m, *size as int, b);
                        lemma_entry_position(m, n as int, *size as int, b);
                        let off2 = ((m % vpl) * b) as u64;
                        lemma_replace_field(larr as u64, n2 as u64, u64mask, n4 as u64, b as u64);
                        if m / vpl != n3 as int {
                            assert(raw@[m / vpl] == old_raw[m / vpl]);
                        } else if m != n as int {
                            lemma_replace_other_field(
                                larr as u64,
                                n2 as u64,
                                u64mask,
                                n4 as u64,
                                off2,
                                b as u64,
                            );
                        }
                    }
                }
                Ok(n5)
            },
        }
    }


    /// The encoding of the storage: its word count as a VarInt, then each word big-endian.
    pub open spec fn spec_bytes(&self) -> Seq<u8> {
        match self {
            BitStorage::ZeroStorage { .. } => spec_var_int(0),
            BitStorage::SimpleStorage { raw, .. } => spec_var_int(raw@.len() as i32) + words_bytes(
                raw@,
            ),
        }
    }

    /// The storage's words, copied.
    pub fn get_raw(&self) -> (r: Vec<i64>)
        ensures
            r@ == self.spec_raw(),
    {
        match self {
            BitStorage::ZeroStorage { raw, .. } => raw.clone(),
            BitStorage::SimpleStorage { raw, .. } => raw.clone(),
        }
    }

    /// Appends the storage's encoding: its word count as a VarInt, then each word big-endian.
    pub fn to_writer(&self, out: &mut Vec<u8>)
        requires
            self.spec_raw().len() <= i32::MAX,
        ensures
            final(out)@ == old(out)@ + self.spec_bytes(),
    {
        match self {
            BitStorage::ZeroStorage { .. } => {
                write_var_int(out, 0);
            },
            BitStorage::SimpleStorage { raw, .. } => {
                write_var_int(out, raw.len() as i32);
                let ghost start = out@;
                let mut i: usize = 0;
                while i < raw.len()
                    invariant
                        i <= raw@.len(),
                        out@ == start + words_bytes(raw@.subrange(0, i as int)),
                    decreases raw@.len() - i,
                {
                    let ghost before = out@;
                    write_be(out, raw[i] as u64, 8);
                    assert(raw@.subrange(0, i + 1).drop_last() == raw@.subrange(0, i as int));
                    i = i + 1;
                }
                assert(raw@.subrange(0, raw@.len() as int) == raw@);
            },
        }
    }

    /// Number of bytes of the storage's encoding.
    pub fn check_size(&self) -> (r: usize)
        requires
            self.spec_raw().len() <= i32::MAX,
            8 * self.spec_raw().len() + 5 <= usize::MAX,
        ensures
            r == self.spec_bytes().len(),
    {
        proof {
            lemma_words_bytes_len(self.spec_raw());
            lemma_var_int_roundtrip(0, seq![]);
        }
        match self {
            BitStorage::ZeroStorage { .. } => size_var_int(0),
            BitStorage::SimpleStorage { raw, .. } => size_var_int(raw.len() as i32) + raw.len()
                * 8,
        }
    }

    /// Reads a storage of `storage_size` entries of `bits` bits at `pos`: the declared word count
    /// must match the expected one (zero for zero bits), then the words follow big-endian.
    pub fn from_reader(buf: &[u8], pos: usize, bits: u8, storage_size: i32) -> (r: Result<
        (Self, usize),
        TransportError,
    >)
        requires
            pos <= buf@.len(),
            bits <= 64,
            bits > 0 ==> storage_size + spec_values_per_long(bits as int) <= i32::MAX
                && spec_expected_size(storage_size as int, bits as int) >= 0,
        ensures
            match spec_read_storage(buf@.skip(pos as int), bits as int, storage_size as int) {
                Ok((words, k)) => r is Ok && r->Ok_0.0.spec_size() == storage_size
                    && r->Ok_0.0.spec_bits() == bits && r->Ok_0.0.spec_raw() == words
                    && r->Ok_0.0.wf() && r->Ok_0.1 == pos + k,
                Err(e) => r is Err && r->Err_0.kind() == e,
            },
            r matches Ok((_, q)) ==> pos < q <= buf@.len(),
    {
        let ghost s = buf@.skip(pos as int);
        let blen = buf.len();
        proof {
            assert(s.len() == blen - pos);
            crate::codec::lemma_scan_range(s, 0, 5);
        }
        if bits == 0 {
            let (deserialized_size, p) = match read_var_int(buf, pos) {
                Ok(x) => x,
                Err(e) => {
                    return Err(e);
                },
            };
            if deserialized_size != 0 {
                return Err(zero_count_error());
            }
            let res = BitStorage::ZeroStorage { size: storage_size, raw: Vec::new() };
            assert(res.spec_raw() =~= seq![]);
            assert(spec_read_storage(s, 0, storage_size as int) == Ok::<(Seq<i64>, nat), ErrorKind>((seq![], (p - pos) as nat)));
            Ok((res, p))
        } else {
            let expected_size = Self::expected_size(storage_size, bits as i32);
            let (deserialized_size, p) = match read_var_int(buf, pos) {
                Ok(x) => x,
                Err(e) => {
                    return Err(e);
                },
            };
            if expected_size != deserialized_size {
                return Err(word_count_error(expected_size, deserialized_size));
            }
            let n = expected_size as usize;
            if n > (blen - p) / 8 {
                assert(8 * n > blen - p) by (nonlinear_arith)
                    requires
                        n > (blen - p) / 8,
                ;
                return Err(TransportError::EndOfInput);
            }
            let mut raw: Vec<i64> = Vec::new();
            let mut q = p;
            let mut i: usize = 0;
            while i < n
                invariant
                    i <= n,
                    8 * n <= blen - p,
                    blen == buf@.len(),
                    p <= blen,
                    q == p + 8 * i,
                    raw@.len() == i,
                    forall|j: int|
                        0 <= j < i ==> #[trigger] raw@[j] == read_words(buf@.skip(p as int), n as nat)[j],
                decreases n - i,
            {
                let (w, q2) = match read_be(buf, q, 8) {
                    Ok(x) => x,
                    Err(e) => {
                        return Err(e);
                    },
                };
                assert(buf@.subrange(q as int, q + 8) =~= buf@.skip(p as int).subrange(
                    8 * i,
                    8 * i + 8,
                ));
                raw.push(w as i64);
                q = q2;
                i = i + 1;
            }
            assert(raw@ =~= read_words(buf@.skip(p as int), n as nat));
            assert(buf@.skip(p as int) =~= s.skip((p - pos) as int));
            let res = BitStorage::SimpleStorage { size: storage_size, bits: bits as i32, raw };
            assert(res.wf());
            assert(spec_read_storage(s, bits as int, storage_size as int) == Ok::<(Seq<i64>, nat), ErrorKind>((res.spec_raw(), (q - pos) as nat)));
            Ok((res, q))
        }
    }

} // impl BitStorage

} // verus!
