//! A growable set of bits over 64-bit words, in the manner of `java.util.BitSet`: bit `i` lives
//! in word `i >> 6` at position `i & 63`, and only the words up to the last non-zero one are in
//! use.
use vstd::prelude::*;

use crate::codec::{
    be_bytes, be_value, read_be, read_var_int, size_var_int, spec_read_var_int, spec_var_int,
    write_be, write_var_int, ErrorKind, TransportError,
};

verus! {

/// Log2 of the number of bits in a word.
pub const ADDRESS_BITS_PER_WORD: i32 = 6;

/// A growable set of bits; `words_in_use` counts the words up to the last non-zero one.
#[derive(Debug)]
pub struct BitSet {
    pub words: Vec<u64>,
    words_in_use: usize,
}

/// Length of `s` without its trailing zero words.
pub open spec fn trimmed_len(s: Seq<u64>) -> nat
    decreases s.len(),
{
    if s.len() == 0 || s.last() != 0 {
        s.len()
    } else {
        trimmed_len(s.drop_last())
    }
}

pub proof fn lemma_trimmed_len(s: Seq<u64>)
    ensures
        trimmed_len(s) <= s.len(),
        trimmed_len(s) == 0 || s[trimmed_len(s) - 1] != 0,
        forall|j: int| trimmed_len(s) <= j < s.len() ==> #[trigger] s[j] == 0,
    decreases s.len(),
{
    if s.len() > 0 && s.last() == 0 {
        lemma_trimmed_len(s.drop_last());
        assert forall|j: int| trimmed_len(s) <= j < s.len() implies #[trigger] s[j] == 0 by {
            if j < s.len() - 1 {
                assert(s.drop_last()[j] == s[j]);
            }
        }
    }
}

/// The number whose little-endian bytes are `s`.
pub open spec fn le_value(s: Seq<u8>) -> nat
    decreases s.len(),
{
    if s.len() == 0 {
        0
    } else {
        s[0] as nat + 256 * le_value(s.drop_first())
    }
}

/// The low `k` bytes of `v`, least significant first.
pub open spec fn le_fixed(v: nat, k: nat) -> Seq<u8>
    decreases k,
{
    if k == 0 {
        seq![]
    } else {
        seq![(v % 256) as u8] + le_fixed(v / 256, (k - 1) as nat)
    }
}

/// The bytes of `v`, least significant first, up to its last non-zero byte.
pub open spec fn le_trim(v: nat) -> Seq<u8>
    decreases v,
{
    if v == 0 {
        seq![]
    } else {
        seq![(v % 256) as u8] + le_trim(v / 256)
    }
}

/// Length of `b` without its trailing zero bytes.
pub open spec fn byte_trim_len(b: Seq<u8>) -> nat
    decreases b.len(),
{
    if b.len() == 0 || b.last() != 0 {
        b.len()
    } else {
        byte_trim_len(b.drop_last())
    }
}

/// The `i`-th group of (at most) eight bytes of `b`.
pub open spec fn chunk(b: Seq<u8>, i: int) -> Seq<u8> {
    b.subrange(8 * i, if 8 * i + 8 <= b.len() { 8 * i + 8 } else { b.len() as int })
}

/// The words a byte array describes: little-endian groups of eight bytes, after the trailing
/// zero bytes are dropped.
pub open spec fn words_from_bytes(b: Seq<u8>) -> Seq<u64> {
    let t = b.subrange(0, byte_trim_len(b) as int);
    Seq::new(((t.len() + 7) / 8) as nat, |i: int| le_value(chunk(t, i)) as u64)
}

/// All the bytes of the first `k` words, little-endian.
pub open spec fn full_words_bytes(ws: Seq<u64>, k: nat) -> Seq<u8>
    decreases k,
{
    if k == 0 {
        seq![]
    } else {
        full_words_bytes(ws, (k - 1) as nat) + le_fixed(ws[k - 1] as nat, 8)
    }
}

/// The byte array of a word sequence: every word but the last in full, then the last up to its
/// last non-zero byte.
pub open spec fn bytes_of_words(ws: Seq<u64>) -> Seq<u8> {
    if ws.len() == 0 {
        seq![]
    } else {
        full_words_bytes(ws, (ws.len() - 1) as nat) + le_trim(ws.last() as nat)
    }
}

pub proof fn lemma_byte_trim_len(s: Seq<u8>)
    ensures
        byte_trim_len(s) <= s.len(),
        byte_trim_len(s) == 0 || s[byte_trim_len(s) - 1] != 0,
        forall|j: int| byte_trim_len(s) <= j < s.len() ==> #[trigger] s[j] == 0,
    decreases s.len(),
{
    if s.len() > 0 && s.last() == 0 {
        lemma_byte_trim_len(s.drop_last());
        assert forall|j: int| byte_trim_len(s) <= j < s.len() implies #[trigger] s[j] == 0 by {
            if j < s.len() - 1 {
                assert(s.drop_last()[j] == s[j]);
            }
        }
    }
}

pub proof fn lemma_le_value_bound(s: Seq<u8>)
    ensures
        le_value(s) < crate::codec::pow256(s.len()),
    decreases s.len(),
{
    if s.len() > 0 {
        lemma_le_value_bound(s.drop_first());
        let p = crate::codec::pow256((s.len() - 1) as nat);
        assert(crate::codec::pow256(s.len()) == 256 * p);
        assert(s[0] as nat + 256 * le_value(s.drop_first()) < 256 * p) by (nonlinear_arith)
            requires
                le_value(s.drop_first()) < p,
                s[0] < 256,
        ;
    }
}

/// The big-endian bytes of a sequence of unsigned words.
pub open spec fn u64s_bytes(ws: Seq<u64>) -> Seq<u8>
    decreases ws.len(),
{
    if ws.len() == 0 {
        seq![]
    } else {
        u64s_bytes(ws.drop_last()) + be_bytes(ws.last() as nat, 8)
    }
}

/// The first `n` big-endian unsigned words of `s`.
pub open spec fn read_u64s(s: Seq<u8>, n: nat) -> Seq<u64> {
    Seq::new(n, |i: int| be_value(s.subrange(8 * i, 8 * i + 8)) as u64)
}

/// What reading a length-prefixed word list from the start of `s` gives: the words and the
/// number of bytes read.
pub open spec fn spec_read_u64s(s: Seq<u8>) -> Result<(Seq<u64>, nat), ErrorKind> {
    match spec_read_var_int(s) {
        Err(e) => Err(e),
        Ok((n, k)) => if k + 8 * n > s.len() {
            Err(ErrorKind::EndOfInput)
        } else {
            Ok((read_u64s(s.skip(k as int), n as nat), k + 8 * (n as nat)))
        },
    }
}

/// The number of bytes a fixed-size bit set of `n` bits takes: `ceil(n / 8)`.
pub open spec fn floored_size(n: u32) -> nat {
    ((n as nat + 7) / 8) as nat
}

/// The message of the first failed consistency check of a bit set.
pub open spec fn invariant_error(words: Seq<u64>, in_use: int) -> Seq<char> {
    if !(in_use == 0 || words[in_use - 1] != 0) {
        "Assertion failed: self.words_in_use == 0 || self.words[self.words_in_use - 1] != 0"@
    } else if !(in_use <= words.len()) {
        "Assertion failed: self.words_in_use <= self.words.len()"@
    } else {
        "Assertion failed: self.words_in_use == self.words.len() || self.words[self.words_in_use] == 0"@
    }
}

impl BitSet {
    /// The storage words.
    pub closed spec fn storage(&self) -> Seq<u64> {
        self.words@
    }

    /// Number of words in use.
    pub closed spec fn in_use(&self) -> int {
        self.words_in_use as int
    }

    /// The words in use.
    pub open spec fn used_words(&self) -> Seq<u64> {
        self.storage().subrange(0, self.in_use())
    }

    /// The consistency conditions the set checks after each change: the last word in use is
    /// non-zero, and the word after the last one in use (if any) is zero.
    pub open spec fn invariants_hold(&self) -> bool {
        &&& (self.in_use() == 0 || self.storage()[self.in_use() - 1] != 0)
        &&& self.in_use() <= self.storage().len()
        &&& (self.in_use() == self.storage().len() || self.storage()[self.in_use()] == 0)
    }

    /// The consistency conditions hold and every word past those in use is zero, as every
    /// operation of the set leaves it.
    pub open spec fn wf(&self) -> bool {
        &&& self.invariants_hold()
        &&& forall|j: int| self.in_use() <= j < self.storage().len() ==> #[trigger] self.storage()[j]
            == 0
    }

    /// The words in use lie within the storage; without this the checks themselves would index
    /// out of bounds.
    pub open spec fn in_bounds(&self) -> bool {
        self.in_use() <= self.storage().len()
    }

    /// Whether bit `i` is set.
    pub open spec fn bit(&self, i: int) -> bool {
        &&& 0 <= i
        &&& i / 64 < self.in_use()
        &&& (self.storage()[i / 64] & (1u64 << ((i % 64) as u64))) != 0
    }

    proof fn lemma_in_use_bound(&self)
        ensures
            0 <= self.in_use(),
    {
    }

    /// Checks the consistency conditions, naming the first that fails.
    fn assert_invariants(&self) -> (r: Result<(), TransportError>)
        requires
            self.in_bounds(),
        ensures
            r is Ok <==> self.invariants_hold(),
            r matches Err(e) ==> e.kind() == ErrorKind::Explain(
                invariant_error(self.storage(), self.in_use()),
            ),
    {
        if !(self.words_in_use == 0 || self.words[self.words_in_use - 1] != 0) {
            return Err(
                TransportError::Explain(
                    String::from_str(
                        "Assertion failed: self.words_in_use == 0 || self.words[self.words_in_use - 1] != 0",
                    ),
                ),
            );
        }
        if !(self.words_in_use <= self.words.len()) {
            return Err(
                TransportError::Explain(
                    String::from_str("Assertion failed: self.words_in_use <= self.words.len()"),
                ),
            );
        }
        if !(self.words_in_use == self.words.len() || self.words[self.words_in_use] == 0) {
            return Err(
                TransportError::Explain(
                    String::from_str(
                        "Assertion failed: self.words_in_use == self.words.len() || self.words[self.words_in_use] == 0",
                    ),
                ),
            );
        }
        Ok(())
    }

    fn word_index(bit_index: i32) -> (r: i32)
        ensures
            bit_index >= 0 ==> r == bit_index / 64,
            bit_index < 0 ==> r < 0,
    {
        assert(bit_index >= 0 ==> bit_index >> 6u32 == bit_index / 64) by (bit_vector);
        assert(bit_index < 0 ==> bit_index >> 6u32 < 0) by (bit_vector);
        bit_index >> 6u32
    }

    /// Whether bit `index` is set; refused when the set's consistency checks fail.
    pub fn get(&self, index: i32) -> (r: Result<bool, TransportError>)
        requires
            self.in_bounds(),
            0 <= index && index / 64 < self.in_use() ==> index < 64,
        ensures
            r is Ok <==> self.invariants_hold(),
            r matches Ok(b) ==> b == self.bit(index as int),
            r matches Err(e) ==> e.kind() == ErrorKind::Explain(
                invariant_error(self.storage(), self.in_use()),
            ),
    {
        self.assert_invariants()?;
        let word_index = Self::word_index(index);
        Ok(word_index >= 0 && (word_index as usize) < self.words_in_use && (self.words[word_index
            as usize] & (1u64 << (index as u64))) != 0)
    }


    /// Makes word `word_index` part of the words in use, growing the storage (at least doubling
    /// it) when needed.
    fn expand_to(&mut self, word_index: usize)
        requires
            old(self).in_bounds(),
            word_index < old(self).storage().len() || 2 * old(self).storage().len() <= usize::MAX,
            word_index < usize::MAX,
        ensures
            final(self).in_use() == if old(self).in_use() < word_index + 1 {
                word_index + 1
            } else {
                old(self).in_use()
            },
            final(self).in_bounds(),
            final(self).storage().len() >= old(self).storage().len(),
            final(self).storage().subrange(0, old(self).storage().len() as int)
                == old(self).storage(),
            forall|i: int|
                old(self).storage().len() <= i < final(self).storage().len()
                    ==> #[trigger] final(self).storage()[i] == 0,
            old(self).in_use() >= word_index + 1 ==> *final(self) == *old(self),
    {
        let words_required = word_index + 1;
        if self.words_in_use < words_required {
            if self.words.len() < words_required {
                let doubled = 2 * self.words.len();
                let new_load = if doubled >= words_required {
                    doubled
                } else {
                    words_required
                };
                let ghost before = self.words@;
                self.words.resize(new_load, 0);
                assert forall|i: int| before.len() <= i < self.words@.len() implies self.words@[i]
                    == 0 by {
                    assert(cloned::<u64>(0, self.words@[i]));
                }
            }
            self.words_in_use = words_required;
        }
    }

    /// Sets bit `index`; refused when the set's consistency checks fail afterwards.
    pub fn set(&mut self, index: i32) -> (r: Result<(), TransportError>)
        requires
            old(self).in_bounds(),
            0 <= index < 64,
        ensures
            r is Ok <==> final(self).invariants_hold(),
            r matches Err(e) ==> e.kind() == ErrorKind::Explain(
                invariant_error(final(self).storage(), final(self).in_use()),
            ),
            final(self).in_bounds(),
            final(self).bit(index as int),
            old(self).wf() ==> final(self).wf(),
            old(self).wf() ==> forall|i: int| i != index ==> #[trigger] final(self).bit(i) == old(
                self,
            ).bit(i),
    {
        let word_index = Self::word_index(index) as usize;
        let ghost before = *self;
        self.expand_to(word_index);
        let ghost mid = self.words@;
        let w = self.words[word_index] | (1u64 << (index as u64));
        self.words.set(word_index, w);
        proof {
            let b = index as u64;
            let x0 = mid[0];
            assert((w & (1u64 << b)) != 0) by (bit_vector)
                requires
                    w == x0 | (1u64 << b),
                    b < 64,
            ;
            assert forall|i: int| before.wf() && i != index implies #[trigger] self.bit(i) == before.bit(i) by {
                if 0 <= i && i / 64 < self.in_use() {
                    if i / 64 == 0 {
                        let c = (i % 64) as u64;
                        let x = mid[0];
                        assert(c != b);
                        assert(((x | (1u64 << b)) & (1u64 << c)) != 0 <==> (x & (1u64 << c)) != 0)
                            by (bit_vector)
                            requires
                                b < 64,
                                c < 64,
                                c != b,
                        ;
                        if i / 64 >= before.in_use() {
                            assert(before.in_use() == 0);
                            assert(x == 0);
                            assert((0u64 & (1u64 << c)) == 0) by (bit_vector);
                        }
                    } else {
                        if i / 64 >= before.in_use() {
                            assert(self.storage()[i / 64] == 0 || i / 64 < before.storage().len());
                            assert((0u64 & (1u64 << ((i % 64) as u64))) == 0) by (bit_vector);
                        }
                    }
                }
            }
            if before.wf() {
                assert forall|j: int| self.in_use() <= j < self.storage().len() implies #[trigger] self.storage()[j] == 0 by {
                    assert(j != 0);
                    if j < before.storage().len() {
                        assert(self.storage()[j] == mid[j]);
                        assert(mid.subrange(0, before.storage().len() as int)[j] == mid[j]);
                    }
                }
                assert(self.storage()[self.in_use() - 1] != 0) by {
                    if before.in_use() > 1 {
                    } else {
                        assert((w & (1u64 << b)) != 0);
                        assert(w != 0) by (bit_vector)
                            requires
                                (w & (1u64 << b)) != 0,
                        ;
                    }
                }
            }
        }
        self.assert_invariants()
    }


    /// Shrinks the words in use to end at the last non-zero one; leaves them as they are when all
    /// are zero.
    fn recalculate_words_in_use(&mut self)
        requires
            old(self).in_bounds(),
        ensures
            final(self).storage() == old(self).storage(),
            trimmed_len(old(self).used_words()) > 0 ==> final(self).in_use() == trimmed_len(
                old(self).used_words(),
            ),
            trimmed_len(old(self).used_words()) == 0 ==> final(self).in_use() == old(self).in_use(),
    {
        let ghost u = self.used_words();
        proof {
            lemma_trimmed_len(u);
        }
        let mut i = self.words_in_use;
        while i > 0
            invariant
                i <= old(self).in_use(),
                *self == *old(self),
                u == old(self).used_words(),
                old(self).in_bounds(),
                forall|j: int| i <= j < u.len() ==> u[j] == 0,
            decreases i,
        {
            if self.words[i - 1] != 0 {
                assert(u[i - 1] != 0);
                proof {
                    lemma_trimmed_is_last_nonzero(u, i as int);
                }
                self.words_in_use = i;
                return;
            }
            i = i - 1;
        }
        proof {
            if trimmed_len(u) > 0 {
                assert(u[trimmed_len(u) - 1] == 0);
            }
        }
    }

    /// Clears bit `index`, then shrinks the words in use; refused when the consistency checks fail
    /// afterwards (as they do when the last set bit is cleared, since the words in use then stay
    /// as they were).
    pub fn clear(&mut self, index: i32) -> (r: Result<(), TransportError>)
        requires
            old(self).in_bounds(),
            0 <= index && index / 64 < old(self).in_use() ==> index < 64,
        ensures
            !(0 <= index && index / 64 < old(self).in_use()) ==> r is Ok && *final(self) == *old(self),
            0 <= index && index / 64 < old(self).in_use() ==> {
                &&& (r is Ok <==> final(self).invariants_hold())
                &&& final(self).in_bounds()
                &&& !final(self).bit(index as int)
                &&& r matches Err(e) ==> e.kind() == ErrorKind::Explain(
                    invariant_error(final(self).storage(), final(self).in_use()),
                )
            },
            old(self).wf() ==> !final(self).bit(index as int) && forall|i: int|
                i != index ==> #[trigger] final(self).bit(i) == old(self).bit(i),
            old(self).wf() && (exists|i: int| i != index && #[trigger] old(self).bit(i))
                ==> r is Ok && final(self).wf(),
    {
        let word_index = Self::word_index(index);
        if word_index >= 0 && (word_index as usize) < self.words_in_use {
            let ghost before = *self;
            let b = index as u64;
            let x = self.words[0];
            let w = x & !(1u64 << b);
            assert((w & (1u64 << b)) == 0) by (bit_vector)
                requires
                    w == x & !(1u64 << b),
                    b < 64,
            ;
            self.words.set(0, w);
            let ghost mid = *self;
            self.recalculate_words_in_use();
            proof {
                lemma_trimmed_len(mid.used_words());
                assert forall|i: int| i != index implies #[trigger] mid.bit(i) == before.bit(i) by {
                    if 0 <= i && i / 64 == 0 && i / 64 < before.in_use() {
                        let c = (i % 64) as u64;
                        assert(((x & !(1u64 << b)) & (1u64 << c)) != 0 <==> (x & (1u64 << c)) != 0)
                            by (bit_vector)
                            requires
                                b < 64,
                                c < 64,
                                c != b,
                        ;
                    }
                }
                assert forall|i: int| #![trigger self.bit(i)] self.bit(i) ==> mid.bit(i) by {}
                assert forall|i: int| #![trigger mid.bit(i)] mid.bit(i) && i / 64 < self.in_use()
                    ==> self.bit(i) by {}
                assert forall|i: int| #![trigger mid.bit(i)] mid.bit(i) ==> i / 64 < trimmed_len(
                    mid.used_words(),
                ) by {
                    if mid.bit(i) && i / 64 >= trimmed_len(mid.used_words()) {
                        assert(mid.used_words()[i / 64] == 0);
                        let c = (i % 64) as u64;
                        assert((0u64 & (1u64 << c)) == 0) by (bit_vector);
                    }
                }
                if trimmed_len(mid.used_words()) == 0 {
                    assert(self.in_use() == mid.in_use());
                }
                assert(!mid.bit(index as int));
                assert forall|i: int| i != index implies #[trigger] self.bit(i) == before.bit(i) by {
                    assert(mid.bit(i) == before.bit(i));
                    if mid.bit(i) {
                        assert(i / 64 < self.in_use());
                    }
                }
                if before.wf() {
                    if exists|i: int| i != index && #[trigger] before.bit(i) {
                        let i = choose|i: int| i != index && #[trigger] before.bit(i);
                        assert(mid.bit(i));
                        assert(trimmed_len(mid.used_words()) > 0);
                        assert forall|j: int| self.in_use() <= j < self.storage().len() implies #[trigger] self.storage()[j] == 0 by {
                            if j < mid.in_use() {
                                assert(mid.used_words()[j] == self.storage()[j]);
                            }
                        }
                        assert(self.storage()[self.in_use() - 1] == mid.used_words()[self.in_use() - 1]);
                    }
                }
            }
            self.assert_invariants()
        } else {
            Ok(())
        }
    }

    /// The bit set over the given words, without their trailing zero words.
    pub fn value_of(l_arr: Vec<u64>) -> (r: Result<BitSet, TransportError>)
        ensures
            r is Ok,
            r->Ok_0.wf(),
            r->Ok_0.used_words() == l_arr@.subrange(0, trimmed_len(l_arr@) as int),
            r->Ok_0.storage().len() == r->Ok_0.in_use(),
    {
        proof {
            lemma_trimmed_len(l_arr@);
        }
        let mut n = l_arr.len();
        assert(l_arr@.subrange(0, n as int) =~= l_arr@);
        while n > 0 && l_arr[n - 1] == 0
            invariant
                n <= l_arr@.len(),
                trimmed_len(l_arr@) == trimmed_len(l_arr@.subrange(0, n as int)),
            decreases n,
        {
            assert(l_arr@.subrange(0, n as int).drop_last() == l_arr@.subrange(0, n - 1));
            n = n - 1;
        }
        proof {
            let t = l_arr@.subrange(0, n as int);
            assert(trimmed_len(t) == n) by {
                if n > 0 {
                    assert(t.last() != 0);
                }
            }
        }
        let mut words = l_arr;
        words.truncate(n);
        let bit_set = BitSet { words, words_in_use: n };
        assert(bit_set.used_words() =~= bit_set.storage());
        bit_set.assert_invariants()?;
        Ok(bit_set)
    }

    /// The words in use, copied.
    pub fn to_long_array(&self) -> (r: Vec<u64>)
        requires
            self.in_bounds(),
        ensures
            r@ == self.used_words(),
    {
        let mut out: Vec<u64> = Vec::new();
        let mut i: usize = 0;
        while i < self.words_in_use
            invariant
                i <= self.in_use(),
                self.in_bounds(),
                out@ == self.storage().subrange(0, i as int),
            decreases self.in_use() - i,
        {
            out.push(self.words[i]);
            i = i + 1;
        }
        out
    }


    /// The little-endian value of `len` bytes of `bytes` from `start`.
    fn le_word(bytes: &[u8], start: usize, len: usize) -> (r: u64)
        requires
            len <= 8,
            start + len <= bytes@.len(),
        ensures
            r == le_value(bytes@.subrange(start as int, start + len)),
    {
        let blen = bytes.len();
        let mut acc: u64 = 0;
        let mut j = len;
        while j > 0
            invariant
                blen == bytes@.len(),
                j <= len <= 8,
                start + len <= bytes@.len(),
                acc == le_value(bytes@.subrange(start + j, start + len)),
            decreases j,
        {
            let b = bytes[start + j - 1];
            let ghost t = bytes@.subrange(start + j - 1, start + len);
            assert(t.drop_first() == bytes@.subrange(start + j, start + len));
            proof {
                lemma_le_value_bound(bytes@.subrange(start + j, start + len));
                crate::codec::lemma_pow256_monotone((len - j) as nat, 7);
                assert(crate::codec::pow256(7) == 0x100_0000_0000_0000) by {
                    reveal_with_fuel(crate::codec::pow256, 8);
                }
            }
            acc = b as u64 + 256 * acc;
            j = j - 1;
        }
        acc
    }

    /// The bit set described by a byte array: little-endian groups of eight bytes form the
    /// words, after trailing zero bytes are dropped.
    pub fn from_bytes(bytes: &[u8]) -> (r: Result<Self, TransportError>)
        requires
            bytes@.len() + 7 <= usize::MAX,
        ensures
            r is Ok,
            r->Ok_0.wf(),
            r->Ok_0.used_words() == words_from_bytes(bytes@),
            r->Ok_0.storage().len() == r->Ok_0.in_use(),
    {
        let mut tip = bytes.len();
        if tip == 0 {
            let bit_set = BitSet { words: Vec::new(), words_in_use: 0 };
            bit_set.assert_invariants()?;
            assert(bit_set.used_words() =~= words_from_bytes(bytes@));
            return Ok(bit_set);
        }
        proof {
            lemma_byte_trim_len(bytes@);
        }
        assert(bytes@.subrange(0, tip as int) =~= bytes@);
        while tip > 0 && bytes[tip - 1] == 0
            invariant
                tip <= bytes@.len(),
                byte_trim_len(bytes@) == byte_trim_len(bytes@.subrange(0, tip as int)),
            decreases tip,
        {
            assert(bytes@.subrange(0, tip as int).drop_last() == bytes@.subrange(0, tip - 1));
            tip = tip - 1;
        }
        assert(byte_trim_len(bytes@.subrange(0, tip as int)) == tip) by {
            if tip > 0 {
                assert(bytes@.subrange(0, tip as int).last() != 0);
            }
        }
        let ghost t = bytes@.subrange(0, tip as int);
        let nwords = (tip + 7) / 8;
        let mut words: Vec<u64> = Vec::new();
        let mut idx: usize = 0;
        while idx < nwords
            invariant
                nwords == (tip + 7) / 8,
                tip <= bytes@.len(),
                t == bytes@.subrange(0, tip as int),
                idx <= nwords,
                words@.len() == idx,
                forall|i: int| 0 <= i < idx ==> #[trigger] words@[i] == le_value(chunk(t, i)) as u64,
            decreases nwords - idx,
        {
            let start = 8 * idx;
            let len = if tip - start >= 8 {
                8
            } else {
                tip - start
            };
            let w = Self::le_word(bytes, start, len);
            assert(bytes@.subrange(start as int, start + len) =~= chunk(t, idx as int));
            words.push(w);
            idx = idx + 1;
        }
        let bit_set = BitSet { words_in_use: words.len(), words };
        assert(bit_set.used_words() =~= words_from_bytes(bytes@));
        proof {
            if nwords > 0 {
                let last = chunk(t, nwords - 1);
                assert(last.len() > 0);
                assert(last.last() == t[tip - 1]);
                lemma_le_value_last_nonzero(last);
                lemma_le_value_bound(last);
                crate::codec::lemma_pow256_monotone(last.len(), 8);
                assert(crate::codec::pow256(8) == 0x1_0000_0000_0000_0000) by {
                    reveal_with_fuel(crate::codec::pow256, 9);
                }
            }
        }
        bit_set.assert_invariants()?;
        Ok(bit_set)
    }

    /// The byte array of the set: every word in use but the last as eight little-endian bytes,
    /// then the last word's bytes up to its last non-zero one.
    pub fn to_byte_array(&self) -> (r: Result<Vec<u8>, TransportError>)
        requires
            self.in_bounds(),
        ensures
            r is Ok,
            r->Ok_0@ == bytes_of_words(self.used_words()),
    {
        let n = self.words_in_use;
        if n == 0 {
            let v: Vec<u8> = Vec::new();
            assert(v@ =~= bytes_of_words(self.used_words()));
            return Ok(v);
        }
        let ghost ws = self.used_words();
        let mut out: Vec<u8> = Vec::new();
        let mut i: usize = 0;
        while i < n - 1
            invariant
                n == self.in_use(),
                ws == self.used_words(),
                self.in_bounds(),
                i <= n - 1,
                out@ == full_words_bytes(ws, i as nat),
            decreases n - 1 - i,
        {
            let mut x = self.words[i];
            let ghost start = out@;
            let mut k: usize = 0;
            while k < 8
                invariant
                    k <= 8,
                    out@ + le_fixed(x as nat, (8 - k) as nat) == start + le_fixed(
                        self.words@[i as int] as nat,
                        8,
                    ),
                decreases 8 - k,
            {
                assert(le_fixed(x as nat, (8 - k) as nat) == seq![(x % 256) as u8] + le_fixed(
                    (x / 256) as nat,
                    (8 - k - 1) as nat,
                ));
                out.push((x % 256) as u8);
                x = x / 256;
                k = k + 1;
            }
            assert(ws[i as int] == self.words@[i as int]);
            i = i + 1;
        }
        let mut x = self.words[n - 1];
        let ghost start = out@;
        assert(ws.last() == self.words@[n - 1]);
        while x != 0
            invariant
                out@ + le_trim(x as nat) == start + le_trim(ws.last() as nat),
            decreases x,
        {
            out.push((x % 256) as u8);
            x = x / 256;
        }
        Ok(out)
    }


    /// The encoding of the set: its words in use as a length-prefixed list of big-endian words.
    pub open spec fn spec_bytes(&self) -> Seq<u8> {
        spec_var_int(self.in_use() as i32) + u64s_bytes(self.used_words())
    }

    /// Appends the set's words in use as a VarInt count followed by big-endian words.
    pub fn encode(&self, out: &mut Vec<u8>)
        requires
            self.in_bounds(),
            self.in_use() <= i32::MAX,
        ensures
            final(out)@ == old(out)@ + self.spec_bytes(),
    {
        let words = self.to_long_array();
        write_var_int(out, words.len() as i32);
        let ghost start = out@;
        let mut i: usize = 0;
        while i < words.len()
            invariant
                i <= words@.len(),
                out@ == start + u64s_bytes(words@.subrange(0, i as int)),
            decreases words@.len() - i,
        {
            write_be(out, words[i], 8);
            assert(words@.subrange(0, i + 1).drop_last() == words@.subrange(0, i as int));
            i = i + 1;
        }
        assert(words@.subrange(0, words@.len() as int) == words@);
    }

    /// Number of bytes of the set's encoding.
    pub fn size(&self) -> (r: usize)
        requires
            self.in_bounds(),
            self.in_use() <= i32::MAX,
            8 * self.in_use() + 5 <= usize::MAX,
        ensures
            r == self.spec_bytes().len(),
    {
        proof {
            lemma_u64s_bytes_len(self.used_words());
        }
        size_var_int(self.words_in_use as i32) + 8 * self.words_in_use
    }

    /// Reads a length-prefixed list of big-endian words at `pos` and builds the set over them
    /// (trailing zero words dropped).
    pub fn decode(buf: &[u8], pos: usize) -> (r: Result<(Self, usize), TransportError>)
        requires
            pos <= buf@.len(),
            spec_read_var_int(buf@.skip(pos as int)) matches Ok((n, _)) ==> n >= 0,
        ensures
            match spec_read_u64s(buf@.skip(pos as int)) {
                Ok((ws, k)) => r is Ok && r->Ok_0.0.wf() && r->Ok_0.0.used_words() == ws.subrange(
                    0,
                    trimmed_len(ws) as int,
                ) && r->Ok_0.1 == pos + k,
                Err(e) => r is Err && r->Err_0.kind() == e,
            },
    {
        let ghost s = buf@.skip(pos as int);
        let blen = buf.len();
        proof {
            assert(s.len() == blen - pos);
            crate::codec::lemma_scan_range(s, 0, 5);
        }
        let (n, p) = match read_var_int(buf, pos) {
            Ok(x) => x,
            Err(e) => {
                return Err(e);
            },
        };
        let n = n as usize;
        if n > (blen - p) / 8 {
            assert(8 * n > blen - p) by (nonlinear_arith)
                requires
                    n > (blen - p) / 8,
            ;
            return Err(TransportError::EndOfInput);
        }
        let mut words: Vec<u64> = Vec::new();
        let mut q = p;
        let mut i: usize = 0;
        while i < n
            invariant
                i <= n,
                8 * n <= blen - p,
                blen == buf@.len(),
                p <= blen,
                q == p + 8 * i,
                words@.len() == i,
                forall|j: int|
                    0 <= j < i ==> #[trigger] words@[j] == read_u64s(buf@.skip(p as int), n as nat)[j],
            decreases n - i,
        {
            let (w, q2) = match read_be(buf, q, 8) {
                Ok(x) => x,
                Err(e) => {
                    return Err(e);
                },
            };
            assert(buf@.subrange(q as int, q + 8) =~= buf@.skip(p as int).subrange(8 * i, 8 * i + 8));
            words.push(w);
            q = q2;
            i = i + 1;
        }
        assert(words@ =~= read_u64s(buf@.skip(p as int), n as nat));
        assert(buf@.skip(p as int) =~= s.skip((p - pos) as int));
        let bit_set = match Self::value_of(words) {
            Ok(b) => b,
            Err(e) => {
                return Err(e);
            },
        };
        Ok((bit_set, q))
    }

} // impl BitSet

pub proof fn lemma_u64s_bytes_len(ws: Seq<u64>)
    ensures
        u64s_bytes(ws).len() == 8 * ws.len(),
    decreases ws.len(),
{
    if ws.len() > 0 {
        lemma_u64s_bytes_len(ws.drop_last());
        crate::codec::lemma_be_roundtrip(ws.last() as nat, 8);
    }
}

/// A bit set of a fixed number `N` of bits, encoded as exactly `ceil(N / 8)` little-endian bytes.
pub struct FixedBitSet<const N: u32>;

impl<const N: u32> FixedBitSet<N> {
    /// `ceil(N / 8)`.
    pub fn floored_size() -> (r: usize)
        ensures
            r == floored_size(N),
    {
        ((N as u64 + 7) / 8) as usize
    }

    /// Reads `ceil(N / 8)` bytes at `pos` and builds the set they describe.
    pub fn decode(buf: &[u8], pos: usize) -> (r: Result<(BitSet, usize), TransportError>)
        requires
            pos <= buf@.len(),
        ensures
            pos + floored_size(N) > buf@.len() ==> r is Err && r->Err_0 == TransportError::EndOfInput,
            pos + floored_size(N) <= buf@.len() ==> r is Ok && r->Ok_0.0.wf()
                && r->Ok_0.0.used_words() == words_from_bytes(
                buf@.subrange(pos as int, pos + floored_size(N)),
            ) && r->Ok_0.1 == pos + floored_size(N),
    {
        let size = Self::floored_size();
        let blen = buf.len();
        if size > blen - pos {
            return Err(TransportError::EndOfInput);
        }
        let mut bytes: Vec<u8> = Vec::new();
        let mut i: usize = 0;
        while i < size
            invariant
                i <= size,
                blen == buf@.len(),
                pos + size <= blen,
                bytes@ == buf@.subrange(pos as int, pos + i),
            decreases size - i,
        {
            bytes.push(buf[pos + i]);
            i = i + 1;
        }
        let bit_set = match BitSet::from_bytes(bytes.as_slice()) {
            Ok(b) => b,
            Err(e) => {
                return Err(e);
            },
        };
        Ok((bit_set, pos + size))
    }

    /// Appends the first `ceil(N / 8)` bytes of the set's byte array.
    pub fn encode(component: &BitSet, out: &mut Vec<u8>) -> (r: Result<(), TransportError>)
        requires
            component.in_bounds(),
            bytes_of_words(component.used_words()).len() >= floored_size(N),
        ensures
            r is Ok,
            final(out)@ == old(out)@ + bytes_of_words(component.used_words()).subrange(
                0,
                floored_size(N) as int,
            ),
    {
        let bytes = match component.to_byte_array() {
            Ok(b) => b,
            Err(e) => {
                return Err(e);
            },
        };
        let size = Self::floored_size();
        let ghost start = out@;
        let mut i: usize = 0;
        while i < size
            invariant
                i <= size,
                size <= bytes@.len(),
                out@ == start + bytes@.subrange(0, i as int),
            decreases size - i,
        {
            out.push(bytes[i]);
            i = i + 1;
            assert(bytes@.subrange(0, i as int) == bytes@.subrange(0, i - 1).push(bytes@[i - 1]));
        }
        Ok(())
    }

    /// Number of bytes of the encoding: `ceil(N / 8)`.
    pub fn size(_component: &BitSet) -> (r: usize)
        ensures
            r == floored_size(N),
    {
        Self::floored_size()
    }
}

/// A non-empty byte sequence whose last byte is non-zero has a non-zero value.
pub proof fn lemma_le_value_last_nonzero(s: Seq<u8>)
    requires
        s.len() > 0,
        s.last() != 0,
    ensures
        le_value(s) != 0,
    decreases s.len(),
{
    if s.len() > 1 {
        lemma_le_value_last_nonzero(s.drop_first());
    }
}

/// The trimmed length of a sequence whose word `i - 1` is non-zero and whose later words are zero
/// is `i`.
pub proof fn lemma_trimmed_is_last_nonzero(s: Seq<u64>, i: int)
    requires
        1 <= i <= s.len(),
        s[i - 1] != 0,
        forall|j: int| i <= j < s.len() ==> s[j] == 0,
    ensures
        trimmed_len(s) == i,
    decreases s.len(),
{
    if s.len() > i {
        assert(s.last() == 0);
        lemma_trimmed_is_last_nonzero(s.drop_last(), i);
    }
}

/// Eight little-endian bytes read as a number and written back are the same bytes.
proof fn lemma_le_fixed_value(c: Seq<u8>)
    ensures
        le_fixed(le_value(c), c.len()) == c,
    decreases c.len(),
{
    if c.len() > 0 {
        let rest = c.drop_first();
        lemma_le_fixed_value(rest);
        let v = le_value(c);
        let a = c[0] as nat;
        let b = le_value(rest);
        assert(v % 256 == a && v / 256 == b) by (nonlinear_arith)
            requires
                v == a + 256 * b,
                a < 256,
        ;
        assert(le_fixed(v, c.len()) == seq![(v % 256) as u8] + le_fixed(v / 256, (c.len() - 1) as nat));
        assert(seq![c[0]] + rest =~= c);
    }
}

/// Little-endian bytes whose last byte is not zero, read as a number and written back without
/// trailing zeros, are the same bytes.
proof fn lemma_le_trim_value(c: Seq<u8>)
    requires
        c.len() > 0,
        c.last() != 0,
    ensures
        le_trim(le_value(c)) == c,
    decreases c.len(),
{
    let rest = c.drop_first();
    let v = le_value(c);
    let a = c[0] as nat;
    let b = le_value(rest);
    lemma_le_value_last_nonzero(c);
    assert(v % 256 == a && v / 256 == b) by (nonlinear_arith)
        requires
            v == a + 256 * b,
            a < 256,
    ;
    assert(le_trim(v) == seq![(v % 256) as u8] + le_trim(v / 256));
    if rest.len() > 0 {
        assert(rest.last() == c.last());
        lemma_le_trim_value(rest);
    } else {
        assert(b == 0);
        assert(le_trim(0) == Seq::<u8>::empty());
    }
    assert(seq![c[0]] + rest =~= c);
}

/// The bytes of the first `m` full words of a trimmed byte array are its first `8 * m` bytes.
proof fn lemma_full_words_prefix(t: Seq<u8>, ws: Seq<u64>, m: nat)
    requires
        8 * m <= t.len(),
        m <= ws.len(),
        forall|i: int| 0 <= i < ws.len() ==> #[trigger] ws[i] == le_value(chunk(t, i)) as u64,
    ensures
        full_words_bytes(ws, m) == t.subrange(0, (8 * m) as int),
    decreases m,
{
    if m > 0 {
        lemma_full_words_prefix(t, ws, (m - 1) as nat);
        let c = chunk(t, m - 1);
        assert(c.len() == 8);
        lemma_le_value_bound(c);
        assert(crate::codec::pow256(8) == 0x1_0000_0000_0000_0000) by {
            reveal_with_fuel(crate::codec::pow256, 9);
        }
        lemma_le_fixed_value(c);
        assert(t.subrange(0, (8 * m) as int) =~= t.subrange(0, 8 * (m - 1)) + c);
    }
}

/// A byte array turned into words and back gives the array without its trailing zero bytes.
pub proof fn law_bytes_roundtrip(b: Seq<u8>)
    ensures
        bytes_of_words(words_from_bytes(b)) == b.subrange(0, byte_trim_len(b) as int),
{
    lemma_byte_trim_len(b);
    let t = b.subrange(0, byte_trim_len(b) as int);
    let ws = words_from_bytes(b);
    if t.len() == 0 {
        assert(ws.len() == 0);
        assert(t =~= Seq::<u8>::empty());
    } else {
        let n = ws.len();
        assert(n >= 1);
        lemma_full_words_prefix(t, ws, (n - 1) as nat);
        let c = chunk(t, n - 1);
        assert(c.len() > 0);
        assert(c.last() == t.last());
        assert(t.last() == b[byte_trim_len(b) - 1]);
        lemma_le_value_bound(c);
        crate::codec::lemma_pow256_monotone(c.len(), 8);
        assert(crate::codec::pow256(8) == 0x1_0000_0000_0000_0000) by {
            reveal_with_fuel(crate::codec::pow256, 9);
        }
        lemma_le_trim_value(c);
        assert(ws.last() == le_value(c) as u64);
        assert(t =~= t.subrange(0, 8 * (n - 1)) + c);
    }
}

/// The words of a consistent set, handed to `value_of`, make a set with the same words: they
/// have no trailing zero word to drop.
pub proof fn law_words_roundtrip(s: BitSet)
    requires
        s.wf(),
    ensures
        s.used_words().subrange(0, trimmed_len(s.used_words()) as int) == s.used_words(),
{
    let u = s.used_words();
    if u.len() > 0 {
        assert(u[u.len() - 1] == s.storage()[s.in_use() - 1]);
        lemma_trimmed_is_last_nonzero(u, u.len() as int);
    }
    assert(u.subrange(0, u.len() as int) =~= u);
}


proof fn lemma_u64s_bytes_at(ws: Seq<u64>, i: int)
    requires
        0 <= i < ws.len(),
    ensures
        u64s_bytes(ws).subrange(8 * i, 8 * i + 8) == be_bytes(ws[i] as nat, 8),
    decreases ws.len(),
{
    let front = ws.drop_last();
    lemma_u64s_bytes_len(front);
    crate::codec::lemma_be_roundtrip(ws.last() as nat, 8);
    if i == ws.len() - 1 {
        assert(u64s_bytes(ws).subrange(8 * i, 8 * i + 8) =~= be_bytes(ws[i] as nat, 8));
    } else {
        lemma_u64s_bytes_at(front, i);
        assert(u64s_bytes(ws).subrange(8 * i, 8 * i + 8) =~= u64s_bytes(front).subrange(8 * i, 8 * i + 8));
    }
}

/// Reading a length-prefixed word list back gives the words written, consuming exactly the
/// bytes written.
pub proof fn law_u64s_roundtrip(ws: Seq<u64>, rest: Seq<u8>)
    requires
        ws.len() <= i32::MAX,
    ensures
        spec_read_u64s(spec_var_int(ws.len() as i32) + u64s_bytes(ws) + rest) == Ok::<(Seq<u64>, nat), ErrorKind>(
            (ws, spec_var_int(ws.len() as i32).len() + u64s_bytes(ws).len()),
        ),
{
    let h = spec_var_int(ws.len() as i32);
    let b = u64s_bytes(ws);
    let s = h + b + rest;
    lemma_u64s_bytes_len(ws);
    crate::codec::lemma_var_int_roundtrip(ws.len() as i32, b + rest);
    assert(s =~= h + (b + rest));
    assert(s.skip(h.len() as int) =~= b + rest);
    assert(crate::codec::pow256(8) == 0x1_0000_0000_0000_0000) by {
        reveal_with_fuel(crate::codec::pow256, 9);
    }
    let t = s.skip(h.len() as int);
    assert forall|i: int| 0 <= i < ws.len() implies #[trigger] read_u64s(t, ws.len())[i] == ws[i] by {
        lemma_u64s_bytes_at(ws, i);
        assert(t.subrange(8 * i, 8 * i + 8) =~= b.subrange(8 * i, 8 * i + 8));
        crate::codec::lemma_be_roundtrip(ws[i] as nat, 8);
    }
    assert(read_u64s(t, ws.len()) =~= ws);
}

/// Reading back what `BitSet::encode` wrote gives the set's words in use.
pub proof fn law_bit_set_roundtrip(set: BitSet, rest: Seq<u8>)
    requires
        set.in_bounds(),
        set.in_use() <= i32::MAX,
    ensures
        spec_read_u64s(set.spec_bytes() + rest) == Ok::<(Seq<u64>, nat), ErrorKind>(
            (set.used_words(), set.spec_bytes().len()),
        ),
{
    law_u64s_roundtrip(set.used_words(), rest);
}

} // verus!
