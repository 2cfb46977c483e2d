//! Byte-level encoding of the protocol's primitive values: VarInts (7 bits per byte, least
//! significant group first, the high bit marking continuation) and big-endian fixed-width
//! integers.
use vstd::prelude::*;
use vstd::string::StringExecFns;

verus! {

/// Integer division rounding toward zero, as Rust's `/` on signed integers does.
pub open spec fn trunc_div(a: int, b: int) -> int {
    if b == 0 {
        0
    } else if a >= 0 && b > 0 {
        a / b
    } else if a >= 0 {
        -(a / (-b))
    } else if b > 0 {
        -((-a) / b)
    } else {
        (-a) / (-b)
    }
}

/// Why a value could not be encoded or decoded.
#[derive(Debug, PartialEq, Eq)]
pub enum TransportError {
    /// The input ended before the value did.
    EndOfInput,
    /// A VarInt ran past five bytes (or a VarLong past ten).
    VarNumTooLarge,
    /// A length went past its limit: the limit, then the length found.
    LimitExceeded(i32, i32),
    /// String bytes that are not UTF-8.
    InvalidUtf8,
    /// The bytes were read but describe no valid value; the text says why.
    Explain(String),
}

/// The kind of a `TransportError`, with any text as a sequence of characters, so that
/// specifications can name errors.
pub ghost enum ErrorKind {
    EndOfInput,
    VarNumTooLarge,
    LimitExceeded(i32, i32),
    InvalidUtf8,
    Explain(Seq<char>),
    /// A length read as negative, for which a reader cannot allocate; readers leave such
    /// input out by their preconditions, so no `TransportError` stands for it.
    NegativeLength,
}

impl TransportError {
    pub open spec fn kind(&self) -> ErrorKind {
        match self {
            TransportError::EndOfInput => ErrorKind::EndOfInput,
            TransportError::VarNumTooLarge => ErrorKind::VarNumTooLarge,
            TransportError::LimitExceeded(a, b) => ErrorKind::LimitExceeded(*a, *b),
            TransportError::InvalidUtf8 => ErrorKind::InvalidUtf8,
            TransportError::Explain(t) => ErrorKind::Explain(t@),
        }
    }
}

impl TransportError {
    /// What the error says.
    pub open spec fn spec_message(&self) -> Seq<char> {
        match self {
            TransportError::EndOfInput => "Unexpected end of input."@,
            TransportError::VarNumTooLarge => "Variable-length number too large."@,
            TransportError::LimitExceeded(limit, len) => "Length "@ + decimal_text(*len as int)
                + " exceeds the limit of "@ + decimal_text(*limit as int) + "."@,
            TransportError::InvalidUtf8 => "Invalid UTF-8."@,
            TransportError::Explain(t) => t@,
        }
    }

    /// What the error says.
    pub fn message(&self) -> (r: String)
        ensures
            r@ == self.spec_message(),
    {
        match self {
            TransportError::EndOfInput => String::from_str("Unexpected end of input."),
            TransportError::VarNumTooLarge => String::from_str("Variable-length number too large."),
            TransportError::LimitExceeded(limit, len) => limit_message(*limit, *len),
            TransportError::InvalidUtf8 => String::from_str("Invalid UTF-8."),
            TransportError::Explain(t) => t.clone(),
        }
    }
}

/// Formats the message of a length past its limit.
fn limit_message(limit: i32, len: i32) -> (r: String)
    ensures
        r@ == "Length "@ + decimal_text(len as int) + " exceeds the limit of "@ + decimal_text(
            limit as int,
        ) + "."@,
{
    let s = String::from_str("Length ").concat(decimal_string(len as i128).as_str());
    let s = s.concat(" exceeds the limit of ").concat(decimal_string(limit as i128).as_str());
    s.concat(".")
}

/// A decoding result as seen by specifications.
pub open spec fn outcome<T>(r: Result<T, TransportError>) -> Result<T, ErrorKind> {
    match r {
        Ok(v) => Ok(v),
        Err(e) => Err(e.kind()),
    }
}

/// The VarNum encoding of a natural number: seven bits per byte, least significant group first,
/// the high bit set on every byte but the last.
pub open spec fn var_num_bytes(v: nat) -> Seq<u8>
    decreases v,
{
    if v < 128 {
        seq![v as u8]
    } else {
        seq![(v % 128 + 128) as u8] + var_num_bytes(v / 128)
    }
}

/// The VarInt encoding of an `i32`: that of its unsigned 32-bit reading (negative values take
/// five bytes).
pub open spec fn spec_var_int(v: i32) -> Seq<u8> {
    var_num_bytes((v as u32) as nat)
}

/// The VarLong encoding of an `i64`: that of its unsigned 64-bit reading.
pub open spec fn spec_var_long(v: i64) -> Seq<u8> {
    var_num_bytes((v as u64) as nat)
}

/// `128^k`.
pub open spec fn pow128(k: nat) -> nat
    decreases k,
{
    if k == 0 {
        1
    } else {
        128 * pow128((k - 1) as nat)
    }
}

/// The seven-bit groups of the first `k` bytes, least significant first.
pub open spec fn var_num_sum(s: Seq<u8>, k: nat) -> nat
    decreases k,
{
    if k == 0 {
        0
    } else {
        var_num_sum(s, (k - 1) as nat) + (s[k - 1] % 128) as nat * pow128((k - 1) as nat)
    }
}

/// Scanning a VarNum of at most `max` bytes from position `i`: the number of bytes it takes, or
/// 0 when the input ends first, or -1 when it runs past `max` bytes.
pub open spec fn var_num_scan(s: Seq<u8>, i: nat, max: nat) -> int
    decreases max - i,
{
    if i >= max {
        -1
    } else if i >= s.len() {
        0
    } else if s[i as int] < 128 {
        (i + 1) as int
    } else {
        var_num_scan(s, i + 1, max)
    }
}

/// What reading a VarInt from the start of `s` gives: the value and the number of bytes read.
pub open spec fn spec_read_var_int(s: Seq<u8>) -> Result<(i32, nat), ErrorKind> {
    let k = var_num_scan(s, 0, 5);
    if k == -1 {
        Err(ErrorKind::VarNumTooLarge)
    } else if k == 0 {
        Err(ErrorKind::EndOfInput)
    } else {
        Ok(((var_num_sum(s, k as nat) % 0x1_0000_0000) as u32 as i32, k as nat))
    }
}

/// What reading a VarLong from the start of `s` gives.
pub open spec fn spec_read_var_long(s: Seq<u8>) -> Result<(i64, nat), ErrorKind> {
    let k = var_num_scan(s, 0, 10);
    if k == -1 {
        Err(ErrorKind::VarNumTooLarge)
    } else if k == 0 {
        Err(ErrorKind::EndOfInput)
    } else {
        Ok(((var_num_sum(s, k as nat) % 0x1_0000_0000_0000_0000) as u64 as i64, k as nat))
    }
}

/// Appends the VarInt encoding of `value`.
pub fn write_var_int(out: &mut Vec<u8>, value: i32)
    ensures
        final(out)@ == old(out)@ + spec_var_int(value),
{
    let mut v = value as u32;
    let ghost start = old(out)@;
    while v >= 128
        invariant
            out@ + var_num_bytes(v as nat) == start + spec_var_int(value),
        decreases v,
    {
        let ghost prev = out@;
        assert(var_num_bytes(v as nat) == seq![(v % 128 + 128) as u8] + var_num_bytes((v / 128) as nat));
        out.push((v % 128 + 128) as u8);
        v = v / 128;
        assert(out@ == prev.push(out@.last()));
    }
    out.push(v as u8);
    assert(var_num_bytes(v as nat) == seq![v as u8]);
}

/// Appends the VarLong encoding of `value`.
pub fn write_var_long(out: &mut Vec<u8>, value: i64)
    ensures
        final(out)@ == old(out)@ + spec_var_long(value),
{
    let mut v = value as u64;
    let ghost start = old(out)@;
    while v >= 128
        invariant
            out@ + var_num_bytes(v as nat) == start + spec_var_long(value),
        decreases v,
    {
        let ghost prev = out@;
        assert(var_num_bytes(v as nat) == seq![(v % 128 + 128) as u8] + var_num_bytes((v / 128) as nat));
        out.push((v % 128 + 128) as u8);
        v = v / 128;
        assert(out@ == prev.push(out@.last()));
    }
    out.push(v as u8);
    assert(var_num_bytes(v as nat) == seq![v as u8]);
}


/// Bytes before position `i` all carry the continuation bit, so scanning from the start reaches
/// the same verdict as scanning from `i`.
proof fn lemma_scan_skip(s: Seq<u8>, i: nat, max: nat)
    requires
        i <= max,
        i <= s.len(),
        forall|j: int| 0 <= j < i ==> s[j] >= 128,
    ensures
        var_num_scan(s, 0, max) == var_num_scan(s, i, max),
    decreases i,
{
    if i > 0 {
        lemma_scan_skip(s, (i - 1) as nat, max);
        assert(var_num_scan(s, (i - 1) as nat, max) == var_num_scan(s, i, max));
    }
}

/// Reads the seven-bit groups of a VarNum of at most `max` bytes starting at `pos`, returning
/// their untruncated value and the position after the last byte.
fn read_var_num(buf: &[u8], pos: usize, max: usize) -> (r: Result<(u128, usize), TransportError>)
    requires
        pos <= buf@.len(),
        1 <= max <= 10,
    ensures
        ({
            let s = buf@.skip(pos as int);
            let k = var_num_scan(s, 0, max as nat);
            &&& -1 <= k <= max
            &&& k == -1 ==> r == Err::<(u128, usize), TransportError>(TransportError::VarNumTooLarge)
            &&& k == 0 ==> r == Err::<(u128, usize), TransportError>(TransportError::EndOfInput)
            &&& k > 0 ==> (r is Ok && (r->Ok_0).0 as int == var_num_sum(s, k as nat) && (r->Ok_0).1 == pos
                + k)
        }),
{
    let ghost s = buf@.skip(pos as int);
    proof {
        lemma_scan_range(s, 0, max as nat);
    }
    let mut p: usize = pos;
    let mut acc: u128 = 0;
    let mut mult: u128 = 1;
    let mut i: usize = 0;
    loop
        invariant
            s == buf@.skip(pos as int),
            pos <= buf@.len(),
            1 <= max <= 10,
            i <= max,
            pos + i <= buf@.len(),
            p == pos + i,
            acc == var_num_sum(s, i as nat),
            mult == pow128(i as nat),
            acc < pow128(i as nat),
            forall|j: int| 0 <= j < i ==> s[j] >= 128,
        decreases max - i,
    {
        proof {
            lemma_scan_skip(s, i as nat, max as nat);
        }
        if i >= max {
            return Err(TransportError::VarNumTooLarge);
        }
        assert(pow128(i as nat) <= pow128(9)) by {
            lemma_pow128_monotone(i as nat, 9);
        }
        assert(pow128(9) == 0x8000_0000_0000_0000) by {
            reveal_with_fuel(pow128, 10);
        }
        if p >= buf.len() {
            return Err(TransportError::EndOfInput);
        }
        let b = buf[p];
        assert(s[i as int] == b);
        let ghost old_acc = acc;
        assert((b % 128) as u128 * mult <= 127 * 0x8000_0000_0000_0000) by (nonlinear_arith)
            requires
                mult <= 0x8000_0000_0000_0000u128,
                b % 128 <= 127,
        ;
        acc = acc + (b % 128) as u128 * mult;
        i = i + 1;
        p = p + 1;
        assert(acc < pow128(i as nat)) by (nonlinear_arith)
            requires
                acc == old_acc + (b % 128) as int * mult,
                old_acc < mult,
                pow128(i as nat) == 128 * mult,
                b % 128 <= 127,
        ;
        if b < 128 {
            assert(var_num_scan(s, (i - 1) as nat, max as nat) == i as int);
            return Ok((acc, p));
        }
        mult = mult * 128;
    }
}

pub proof fn lemma_scan_range(s: Seq<u8>, i: nat, max: nat)
    ensures
        -1 <= var_num_scan(s, i, max) <= max,
        var_num_scan(s, i, max) > 0 ==> var_num_scan(s, i, max) > i,
        var_num_scan(s, i, max) <= s.len(),
    decreases max - i,
{
    if i < max && i < s.len() && s[i as int] >= 128 {
        lemma_scan_range(s, i + 1, max);
    }
}

proof fn lemma_pow128_monotone(a: nat, b: nat)
    requires
        a <= b,
    ensures
        1 <= pow128(a) <= pow128(b),
    decreases b,
{
    if a < b {
        lemma_pow128_monotone(a, (b - 1) as nat);
    } else if a > 0 {
        lemma_pow128_monotone((a - 1) as nat, (a - 1) as nat);
    }
}

/// Reads a VarInt at `pos`: the value and the position after it. Five bytes at most are read;
/// bits beyond 32 are dropped.
pub fn read_var_int(buf: &[u8], pos: usize) -> (r: Result<(i32, usize), TransportError>)
    requires
        pos <= buf@.len(),
    ensures
        outcome(r) == (match spec_read_var_int(buf@.skip(pos as int)) {
            Ok((v, k)) => Ok((v, (pos + k) as usize)),
            Err(e) => Err(e),
        }),
        r matches Ok((_, p)) ==> pos < p <= buf@.len(),
{
    proof {
        lemma_scan_range(buf@.skip(pos as int), 0, 5);
    }
    match read_var_num(buf, pos, 5) {
        Ok((v, p)) => {
            assert(buf@.skip(pos as int).len() == buf@.len() - pos);
            assert(var_num_scan(buf@.skip(pos as int), 0, 5) > 0);
            Ok(((v % 0x1_0000_0000) as u32 as i32, p))
        },
        Err(e) => Err(e),
    }
}

/// Reads a VarLong at `pos`: the value and the position after it. Ten bytes at most are read;
/// bits beyond 64 are dropped.
pub fn read_var_long(buf: &[u8], pos: usize) -> (r: Result<(i64, usize), TransportError>)
    requires
        pos <= buf@.len(),
    ensures
        outcome(r) == (match spec_read_var_long(buf@.skip(pos as int)) {
            Ok((v, k)) => Ok((v, (pos + k) as usize)),
            Err(e) => Err(e),
        }),
        r matches Ok((_, p)) ==> pos < p <= buf@.len(),
{
    proof {
        lemma_scan_range(buf@.skip(pos as int), 0, 10);
    }
    match read_var_num(buf, pos, 10) {
        Ok((v, p)) => {
            assert(buf@.skip(pos as int).len() == buf@.len() - pos);
            assert(var_num_scan(buf@.skip(pos as int), 0, 10) > 0);
            Ok(((v % 0x1_0000_0000_0000_0000) as u64 as i64, p))
        },
        Err(e) => Err(e),
    }
}


/// Prepending a byte to a VarNum shifts the rest by one seven-bit group.
proof fn lemma_sum_cons(x: u8, t: Seq<u8>, k: nat)
    requires
        k <= t.len(),
    ensures
        var_num_sum(seq![x] + t, k + 1) == (x % 128) as nat + 128 * var_num_sum(t, k),
    decreases k,
{
    let c = seq![x] + t;
    reveal_with_fuel(var_num_sum, 2);
    if k > 0 {
        lemma_sum_cons(x, t, (k - 1) as nat);
        assert(c[k as int] == t[k - 1]);
        let a = var_num_sum(t, (k - 1) as nat);
        let y = (t[k - 1] % 128) as nat;
        let p = pow128((k - 1) as nat);
        assert(pow128(k) == 128 * p);
        assert(var_num_sum(c, k + 1) == var_num_sum(c, k) + y * pow128(k));
        assert(var_num_sum(t, k) == a + y * p);
        let xs = (x % 128) as nat;
        assert(var_num_sum(c, k) == xs + 128 * a);
        assert(var_num_sum(c, k + 1) == xs + 128 * var_num_sum(t, k)) by (nonlinear_arith)
            requires
                var_num_sum(c, k + 1) == var_num_sum(c, k) + y * pow128(k),
                var_num_sum(c, k) == xs + 128 * a,
                pow128(k) == 128 * p,
                var_num_sum(t, k) == a + y * p,
        ;
    } else {
        assert(pow128(0) == 1);
        assert(c[0] == x);
        assert(var_num_sum(t, 0) == 0);
        assert(var_num_sum(c, 0) == 0);
        assert(var_num_sum(c, 1) == var_num_sum(c, 0) + (c[0] % 128) as nat * pow128(0));
        assert(var_num_sum(c, 1) == (x % 128) as nat);
    }
}

/// The shape of a VarNum encoding: continuation bits on all bytes but the last, and a length
/// that grows with the value.
pub proof fn lemma_var_num_shape(v: nat)
    ensures
        ({
            let b = var_num_bytes(v);
            &&& 1 <= b.len()
            &&& forall|j: int| 0 <= j < b.len() - 1 ==> b[j] >= 128
            &&& b[b.len() - 1] < 128
            &&& v < pow128(b.len())
            &&& b.len() >= 2 ==> v >= pow128((b.len() - 1) as nat)
        }),
    decreases v,
{
    if v >= 128 {
        lemma_var_num_shape(v / 128);
        let t = var_num_bytes(v / 128);
        let b = var_num_bytes(v);
        assert(b == seq![(v % 128 + 128) as u8] + t);
        assert forall|j: int| 0 <= j < b.len() - 1 implies b[j] >= 128 by {
            if j > 0 {
                assert(b[j] == t[j - 1]);
            }
        }
        assert(b[b.len() - 1] == t[t.len() - 1]);
        assert(pow128(b.len()) == 128 * pow128(t.len()));
        assert(v < pow128(b.len())) by (nonlinear_arith)
            requires
                v / 128 < pow128(t.len()),
                pow128(b.len()) == 128 * pow128(t.len()),
        ;
        if t.len() >= 2 {
            assert(pow128((b.len() - 1) as nat) == 128 * pow128((t.len() - 1) as nat));
            assert(v >= pow128((b.len() - 1) as nat)) by (nonlinear_arith)
                requires
                    v / 128 >= pow128((t.len() - 1) as nat),
                    pow128((b.len() - 1) as nat) == 128 * pow128((t.len() - 1) as nat),
            ;
        } else {
            reveal_with_fuel(pow128, 2);
            assert(pow128(1) == 128);
        }
    } else {
        reveal_with_fuel(pow128, 2);
        assert(pow128(1) == 128);
    }
}

/// The seven-bit groups of a VarNum encoding add back up to the encoded value.
proof fn lemma_var_num_sum(v: nat, rest: Seq<u8>)
    ensures
        var_num_sum(var_num_bytes(v) + rest, var_num_bytes(v).len()) == v,
    decreases v,
{
    lemma_var_num_shape(v);
    if v >= 128 {
        let t = var_num_bytes(v / 128);
        let x = (v % 128 + 128) as u8;
        lemma_var_num_shape(v / 128);
        lemma_var_num_sum(v / 128, rest);
        assert(var_num_bytes(v) + rest == seq![x] + (t + rest));
        lemma_sum_cons(x, t + rest, t.len());
        assert(x % 128 == v % 128);
        assert(var_num_bytes(v).len() == t.len() + 1);
        assert(var_num_sum(t + rest, t.len()) == v / 128);
        assert(var_num_sum(seq![x] + (t + rest), t.len() + 1) == v);
        assert(var_num_sum(var_num_bytes(v) + rest, var_num_bytes(v).len()) == var_num_sum(seq![x] + (t + rest), t.len() + 1));
    } else {
        reveal_with_fuel(var_num_sum, 2);
        assert(pow128(0) == 1);
        assert(var_num_bytes(v) == seq![v as u8]);
        assert(var_num_bytes(v).len() == 1);
        assert((var_num_bytes(v) + rest)[0] == v as u8);
        assert((v as u8) % 128 == v);
        assert(var_num_sum(var_num_bytes(v) + rest, 1) == ((v as u8) % 128) as nat * pow128(0));
    }
}

/// Reading a VarNum back from its encoding, whatever follows it, gives its value and length.
pub proof fn lemma_var_num_roundtrip(v: nat, rest: Seq<u8>, max: nat)
    requires
        var_num_bytes(v).len() <= max,
    ensures
        var_num_scan(var_num_bytes(v) + rest, 0, max) == var_num_bytes(v).len(),
        var_num_sum(var_num_bytes(v) + rest, var_num_bytes(v).len()) == v,
{
    let b = var_num_bytes(v);
    let s = b + rest;
    lemma_var_num_shape(v);
    lemma_var_num_sum(v, rest);
    assert forall|j: int| 0 <= j < b.len() - 1 implies s[j] >= 128 by {
        assert(s[j] == b[j]);
    }
    lemma_scan_skip(s, (b.len() - 1) as nat, max);
    assert(s[b.len() - 1] == b[b.len() - 1]);
}

/// A value below `128^k` is encoded in at most `k` bytes.
pub proof fn lemma_var_num_len_bound(v: nat, k: nat)
    requires
        1 <= k,
        v < pow128(k),
    ensures
        var_num_bytes(v).len() <= k,
{
    lemma_var_num_shape(v);
    let n = var_num_bytes(v).len();
    if n > k {
        lemma_pow128_monotone(k, (n - 1) as nat);
    }
}

/// Reading a VarInt back from its encoding gives the value and the encoding's length.
pub proof fn lemma_var_int_roundtrip(v: i32, rest: Seq<u8>)
    ensures
        spec_read_var_int(spec_var_int(v) + rest) == Ok::<(i32, nat), ErrorKind>(
            (v, spec_var_int(v).len()),
        ),
        spec_var_int(v).len() <= 5,
{
    let u = (v as u32) as nat;
    assert(pow128(5) == 0x8_0000_0000) by {
        reveal_with_fuel(pow128, 6);
    }
    lemma_var_num_len_bound(u, 5);
    lemma_var_num_roundtrip(u, rest, 5);
    assert(((v as u32) as i32) == v) by (bit_vector);
}

/// Reading a VarLong back from its encoding gives the value and the encoding's length.
pub proof fn lemma_var_long_roundtrip(v: i64, rest: Seq<u8>)
    ensures
        spec_read_var_long(spec_var_long(v) + rest) == Ok::<(i64, nat), ErrorKind>(
            (v, spec_var_long(v).len()),
        ),
        spec_var_long(v).len() <= 10,
{
    let u = (v as u64) as nat;
    assert(pow128(10) == 0x4000_0000_0000_0000_00) by {
        reveal_with_fuel(pow128, 11);
    }
    lemma_var_num_len_bound(u, 10);
    lemma_var_num_roundtrip(u, rest, 10);
    assert(((v as u64) as i64) == v) by (bit_vector);
}


/// The low `n` bytes of `v`, most significant first.
pub open spec fn be_bytes(v: nat, n: nat) -> Seq<u8>
    decreases n,
{
    if n == 0 {
        seq![]
    } else {
        be_bytes(v / 256, (n - 1) as nat) + seq![(v % 256) as u8]
    }
}

/// The number whose big-endian bytes are `s`.
pub open spec fn be_value(s: Seq<u8>) -> nat
    decreases s.len(),
{
    if s.len() == 0 {
        0
    } else {
        be_value(s.drop_last()) * 256 + s.last() as nat
    }
}

/// `256^n`.
pub open spec fn pow256(n: nat) -> nat
    decreases n,
{
    if n == 0 {
        1
    } else {
        256 * pow256((n - 1) as nat)
    }
}

/// Reading back big-endian bytes gives the value modulo `256^n`.
pub proof fn lemma_be_roundtrip(v: nat, n: nat)
    ensures
        be_bytes(v, n).len() == n,
        be_value(be_bytes(v, n)) == v % pow256(n),
    decreases n,
{
    if n > 0 {
        lemma_be_roundtrip(v / 256, (n - 1) as nat);
        let b = be_bytes(v, n);
        assert(b.drop_last() == be_bytes(v / 256, (n - 1) as nat));
        let p = pow256((n - 1) as nat);
        assert(p >= 1) by {
            lemma_pow256_pos((n - 1) as nat);
        }
        assert(((v / 256) % p) * 256 + v % 256 == v % (256 * p)) by (nonlinear_arith)
            requires
                p >= 1,
        {
            vstd::arithmetic::div_mod::lemma_breakdown(v as int, 256, p as int);
        }
    }
}

pub proof fn lemma_pow256_pos(n: nat)
    ensures
        pow256(n) >= 1,
    decreases n,
{
    if n > 0 {
        lemma_pow256_pos((n - 1) as nat);
    }
}

/// Appends the low `n` bytes of `v`, most significant first.
pub fn write_be(out: &mut Vec<u8>, v: u64, n: usize)
    requires
        n <= 8,
    ensures
        final(out)@ == old(out)@ + be_bytes(v as nat, n as nat),
    decreases n,
{
    if n > 0 {
        write_be(out, v / 256, n - 1);
        out.push((v % 256) as u8);
    }
}

/// Reads `n` big-endian bytes at `pos`: their value and the position after them.
pub fn read_be(buf: &[u8], pos: usize, n: usize) -> (r: Result<(u64, usize), TransportError>)
    requires
        pos <= buf@.len(),
        n <= 8,
    ensures
        pos + n > buf@.len() ==> r == Err::<(u64, usize), TransportError>(
            TransportError::EndOfInput,
        ),
        pos + n <= buf@.len() ==> r == Ok::<(u64, usize), TransportError>(
            (be_value(buf@.subrange(pos as int, pos + n)) as u64, (pos + n) as usize),
        ),
{
    if n > buf.len() - pos {
        return Err(TransportError::EndOfInput);
    }
    let blen = buf.len();
    let mut acc: u64 = 0;
    let mut i: usize = 0;
    while i < n
        invariant
            i <= n <= 8,
            blen == buf@.len(),
            pos + n <= buf@.len(),
            acc == be_value(buf@.subrange(pos as int, pos + i)),
            acc < pow256(i as nat),
        decreases n - i,
    {
        let b = buf[pos + i];
        let ghost prev = buf@.subrange(pos as int, pos + i);
        assert(buf@.subrange(pos as int, pos + i + 1).drop_last() == prev);
        assert(pow256(i as nat) <= pow256(7)) by {
            lemma_pow256_monotone(i as nat, 7);
        }
        assert(pow256(7) == 0x100_0000_0000_0000) by {
            reveal_with_fuel(pow256, 8);
        }
        assert(acc * 256 + b < pow256((i + 1) as nat)) by (nonlinear_arith)
            requires
                acc < pow256(i as nat),
                pow256((i + 1) as nat) == 256 * pow256(i as nat),
                b < 256,
        ;
        acc = acc * 256 + b as u64;
        i = i + 1;
    }
    Ok((acc, pos + n))
}

pub proof fn lemma_pow256_monotone(a: nat, b: nat)
    requires
        a <= b,
    ensures
        1 <= pow256(a) <= pow256(b),
    decreases b,
{
    if a < b {
        lemma_pow256_monotone(a, (b - 1) as nat);
    } else {
        lemma_pow256_pos(a);
    }
}

/// A big-endian value is below `256` to the number of its bytes.
pub proof fn lemma_be_value_bound(s: Seq<u8>)
    ensures
        be_value(s) < pow256(s.len()),
    decreases s.len(),
{
    if s.len() > 0 {
        lemma_be_value_bound(s.drop_last());
        let p = pow256((s.len() - 1) as nat);
        assert(be_value(s.drop_last()) * 256 + s.last() < 256 * p) by (nonlinear_arith)
            requires
                be_value(s.drop_last()) < p,
                s.last() < 256,
        ;
    }
}

/// The encoding of a boolean: one byte, 1 or 0.
pub open spec fn spec_bool(b: bool) -> Seq<u8> {
    seq![if b { 1u8 } else { 0u8 }]
}

/// Appends a boolean as one byte, 1 or 0.
pub fn write_bool(out: &mut Vec<u8>, b: bool)
    ensures
        final(out)@ == old(out)@ + spec_bool(b),
{
    out.push(if b { 1 } else { 0 });
}

/// Reads a boolean: any byte but 0 is true.
pub fn read_bool(buf: &[u8], pos: usize) -> (r: Result<(bool, usize), TransportError>)
    requires
        pos <= buf@.len(),
    ensures
        pos >= buf@.len() ==> r == Err::<(bool, usize), TransportError>(TransportError::EndOfInput),
        pos < buf@.len() ==> r == Ok::<(bool, usize), TransportError>(
            (buf@[pos as int] != 0, (pos + 1) as usize),
        ),
{
    if pos >= buf.len() {
        return Err(TransportError::EndOfInput);
    }
    Ok((buf[pos] != 0, pos + 1))
}

/// The decimal digits of `v`, without leading zeros.
pub open spec fn digits_text(v: nat) -> Seq<char>
    decreases v,
{
    if v < 10 {
        seq![(48 + v) as char]
    } else {
        digits_text(v / 10).push((48 + v % 10) as char)
    }
}

/// The decimal text of `v` as Rust's `Display` writes an integer: a minus sign when negative.
pub open spec fn decimal_text(v: int) -> Seq<char> {
    if v < 0 {
        seq!['-'] + digits_text((-v) as nat)
    } else {
        digits_text(v as nat)
    }
}

/// The text of one decimal digit.
fn digit_str(d: u8) -> (r: &'static str)
    requires
        d < 10,
    ensures
        r@ == seq![(48 + d) as char],
{
    proof {
        reveal_strlit("0");
        reveal_strlit("1");
        reveal_strlit("2");
        reveal_strlit("3");
        reveal_strlit("4");
        reveal_strlit("5");
        reveal_strlit("6");
        reveal_strlit("7");
        reveal_strlit("8");
        reveal_strlit("9");
    }
    if d == 0 {
        "0"
    } else if d == 1 {
        "1"
    } else if d == 2 {
        "2"
    } else if d == 3 {
        "3"
    } else if d == 4 {
        "4"
    } else if d == 5 {
        "5"
    } else if d == 6 {
        "6"
    } else if d == 7 {
        "7"
    } else if d == 8 {
        "8"
    } else {
        "9"
    }
}

/// The decimal digits of `v`.
fn digits_string(v: u128) -> (r: String)
    ensures
        r@ == digits_text(v as nat),
    decreases v,
{
    if v < 10 {
        String::from_str(digit_str(v as u8))
    } else {
        let head = digits_string(v / 10);
        head.concat(digit_str((v % 10) as u8))
    }
}

/// The decimal text of `v`, as Rust's `Display` writes it.
pub fn decimal_string(v: i128) -> (r: String)
    requires
        v > i128::MIN,
    ensures
        r@ == decimal_text(v as int),
{
    if v < 0 {
        let digits = digits_string((-v) as u128);
        proof {
            reveal_strlit("-");
        }
        String::from_str("-").concat(digits.as_str())
    } else {
        digits_string(v as u128)
    }
}

/// The UTF-8 bytes of a string.
pub open spec fn utf8_bytes(s: Seq<char>) -> Seq<u8> {
    vstd::utf8::encode_utf8(s)
}

/// The encoding of a string: its UTF-8 byte length as a VarInt, then the bytes.
pub open spec fn spec_string(s: Seq<char>) -> Seq<u8> {
    spec_var_int(utf8_bytes(s).len() as i32) + utf8_bytes(s)
}

/// Appends a string: its byte length as a VarInt, then its UTF-8 bytes; refused when the byte
/// length exceeds `limit`.
pub fn write_string(out: &mut Vec<u8>, s: &str, limit: i32) -> (r: Result<(), TransportError>)
    requires
        utf8_bytes(s@).len() <= i32::MAX,
    ensures
        r is Ok <==> utf8_bytes(s@).len() <= limit,
        r is Ok ==> final(out)@ == old(out)@ + spec_string(s@),
        r matches Err(e) ==> e == TransportError::LimitExceeded(limit, utf8_bytes(s@).len() as i32)
            && final(out)@ == old(out)@,
{
    let bytes = s.as_bytes();
    let len = bytes.len() as i32;
    if len > limit {
        return Err(TransportError::LimitExceeded(limit, len));
    }
    write_var_int(out, len);
    let mut i: usize = 0;
    let ghost mid = out@;
    while i < bytes.len()
        invariant
            i <= bytes@.len(),
            out@ == mid + bytes@.subrange(0, i as int),
        decreases bytes@.len() - i,
    {
        out.push(bytes[i]);
        i = i + 1;
        assert(bytes@.subrange(0, i as int) == bytes@.subrange(0, i - 1).push(bytes@[i - 1]));
    }
    assert(bytes@.subrange(0, bytes@.len() as int) == bytes@);
    Ok(())
}

/// Turns bytes into a `String` when they are UTF-8 (`String::from_utf8`).
#[verifier::external_body]
fn string_from_utf8(bytes: Vec<u8>) -> (r: Option<String>)
    ensures
        r is Some <==> vstd::utf8::valid_utf8(bytes@),
        r matches Some(s) ==> utf8_bytes(s@) == bytes@,
{
    String::from_utf8(bytes).ok()
}

/// What reading a string with the given limit from the start of `s` gives.
pub open spec fn spec_read_string(s: Seq<u8>, limit: i32) -> Result<(Seq<u8>, nat), ErrorKind> {
    match spec_read_var_int(s) {
        Err(e) => Err(e),
        Ok((len, k)) => if len > limit {
            Err(ErrorKind::LimitExceeded(limit, len))
        } else if len < 0 || k + len > s.len() {
            Err(ErrorKind::EndOfInput)
        } else if !vstd::utf8::valid_utf8(s.subrange(k as int, k + len)) {
            Err(ErrorKind::InvalidUtf8)
        } else {
            Ok((s.subrange(k as int, k + len), (k + len) as nat))
        },
    }
}

/// Reads a string at `pos`: a VarInt byte length (refused above `limit`), then that many UTF-8
/// bytes.
pub fn read_string(buf: &[u8], pos: usize, limit: i32) -> (r: Result<(String, usize), TransportError>)
    requires
        pos <= buf@.len(),
    ensures
        match spec_read_string(buf@.skip(pos as int), limit) {
            Ok((bytes, k)) => r matches Ok((s, p)) && utf8_bytes(s@) == bytes && p == pos + k,
            Err(e) => r is Err && r->Err_0.kind() == e,
        },
{
    let ghost s = buf@.skip(pos as int);
    let blen = buf.len();
    proof {
        lemma_scan_range(s, 0, 5);
        assert(s.len() == blen - pos);
    }
    let rv = read_var_int(buf, pos);
    let (len, p) = match rv {
        Ok(x) => x,
        Err(e) => {
            return Err(e);
        },
    };
    assert(spec_read_var_int(s) is Ok);
    assert(spec_read_var_int(s)->Ok_0.0 == len);
    assert(spec_read_var_int(s)->Ok_0.1 == (p - pos) as nat);
    if len > limit {
        return Err(TransportError::LimitExceeded(limit, len));
    }
    if len < 0 || len as usize > buf.len() - p {
        return Err(TransportError::EndOfInput);
    }
    let end = p + len as usize;
    let mut bytes: Vec<u8> = Vec::new();
    let mut i = p;
    while i < end
        invariant
            p <= i <= end <= buf@.len(),
            bytes@ == buf@.subrange(p as int, i as int),
        decreases end - i,
    {
        bytes.push(buf[i]);
        i = i + 1;
    }
    assert(bytes@ =~= s.subrange((p - pos) as int, (p - pos) + len));
    assert(end == pos + (p - pos) + len);
    match string_from_utf8(bytes) {
        Some(s) => Ok((s, end)),
        None => Err(TransportError::InvalidUtf8),
    }
}

/// The encoding of a byte vector: its length as a VarInt, then the bytes.
pub open spec fn spec_byte_vec(b: Seq<u8>) -> Seq<u8> {
    spec_var_int(b.len() as i32) + b
}

/// Appends a byte vector: its length as a VarInt, then the bytes.
pub fn write_byte_vec(out: &mut Vec<u8>, bytes: &[u8])
    requires
        bytes@.len() <= i32::MAX,
    ensures
        final(out)@ == old(out)@ + spec_byte_vec(bytes@),
{
    write_var_int(out, bytes.len() as i32);
    let mut i: usize = 0;
    let ghost mid = out@;
    while i < bytes.len()
        invariant
            i <= bytes@.len(),
            out@ == mid + bytes@.subrange(0, i as int),
        decreases bytes@.len() - i,
    {
        out.push(bytes[i]);
        i = i + 1;
        assert(bytes@.subrange(0, i as int) == bytes@.subrange(0, i - 1).push(bytes@[i - 1]));
    }
    assert(bytes@.subrange(0, bytes@.len() as int) == bytes@);
}

/// The length prefix at the start of `s`, if it can be read, is not negative (a negative length
/// asks for an allocation that cannot be made).
pub open spec fn byte_vec_len_ok(s: Seq<u8>) -> bool {
    spec_read_var_int(s) matches Ok((len, _)) ==> len >= 0
}

/// What reading a byte vector from the start of `s` gives: the bytes and the number of bytes
/// read.
pub open spec fn spec_read_byte_vec(s: Seq<u8>) -> Result<(Seq<u8>, nat), ErrorKind> {
    match spec_read_var_int(s) {
        Err(e) => Err(e),
        Ok((len, k)) => if k + len > s.len() {
            Err(ErrorKind::EndOfInput)
        } else {
            Ok((s.subrange(k as int, k + len), (k + len) as nat))
        },
    }
}

/// Reads a byte vector at `pos`: a VarInt length, then that many bytes.
pub fn read_byte_vec(buf: &[u8], pos: usize) -> (r: Result<(Vec<u8>, usize), TransportError>)
    requires
        pos <= buf@.len(),
        byte_vec_len_ok(buf@.skip(pos as int)),
    ensures
        match spec_read_byte_vec(buf@.skip(pos as int)) {
            Ok((bytes, k)) => r matches Ok((v, p)) && v@ == bytes && p == pos + k,
            Err(e) => r is Err && r->Err_0.kind() == e,
        },
{
    let ghost s = buf@.skip(pos as int);
    let blen = buf.len();
    proof {
        lemma_scan_range(s, 0, 5);
        assert(s.len() == blen - pos);
    }
    let (len, p) = match read_var_int(buf, pos) {
        Ok(x) => x,
        Err(e) => {
            return Err(e);
        },
    };
    assert(spec_read_var_int(s)->Ok_0.1 == (p - pos) as nat);
    if len as usize > blen - p {
        return Err(TransportError::EndOfInput);
    }
    let end = p + len as usize;
    let mut bytes: Vec<u8> = Vec::new();
    let mut i = p;
    while i < end
        invariant
            p <= i <= end <= blen,
            blen == buf@.len(),
            bytes@ == buf@.subrange(p as int, i as int),
        decreases end - i,
    {
        bytes.push(buf[i]);
        i = i + 1;
    }
    assert(bytes@ =~= s.subrange((p - pos) as int, (p - pos) + len));
    Ok((bytes, end))
}

/// What reading a length-prefixed byte string from the start of `s` gives; a negative length is
/// refused as the end of input.
pub open spec fn spec_read_sized_bytes(s: Seq<u8>) -> Result<(Seq<u8>, nat), ErrorKind> {
    match spec_read_var_int(s) {
        Err(e) => Err(e),
        Ok((len, k)) => if len < 0 || k + len > s.len() {
            Err(ErrorKind::EndOfInput)
        } else {
            Ok((s.subrange(k as int, k + len), (k + len) as nat))
        },
    }
}

/// Reads a length-prefixed byte string at `pos`; a negative length is refused as the end of
/// input.
pub fn read_sized_bytes(buf: &[u8], pos: usize) -> (r: Result<(Vec<u8>, usize), TransportError>)
    requires
        pos <= buf@.len(),
    ensures
        match spec_read_sized_bytes(buf@.skip(pos as int)) {
            Ok((bytes, k)) => r matches Ok((v, p)) && v@ == bytes && p == pos + k,
            Err(e) => r is Err && r->Err_0.kind() == e,
        },
{
    let ghost s = buf@.skip(pos as int);
    proof {
        lemma_scan_range(s, 0, 5);
    }
    match read_var_int(buf, pos) {
        Err(e) => {
            return Err(e);
        },
        Ok((len, _)) => {
            if len < 0 {
                return Err(TransportError::EndOfInput);
            }
        },
    }
    read_byte_vec(buf, pos)
}

/// The 16 bytes of a uuid, most significant first.
pub open spec fn uuid_bytes(v: u128) -> Seq<u8> {
    be_bytes(v as nat / 0x1_0000_0000_0000_0000, 8) + be_bytes(v as nat % 0x1_0000_0000_0000_0000, 8)
}

/// The uuid whose 16 bytes, most significant first, are `s`.
pub open spec fn uuid_value(s: Seq<u8>) -> u128 {
    (be_value(s.subrange(0, 8)) * 0x1_0000_0000_0000_0000 + be_value(s.subrange(8, 16))) as u128
}

/// Appends the 16 bytes of a uuid.
pub fn write_uuid(out: &mut Vec<u8>, v: u128)
    ensures
        final(out)@ == old(out)@ + uuid_bytes(v),
{
    write_be(out, (v / 0x1_0000_0000_0000_0000u128) as u64, 8);
    write_be(out, (v % 0x1_0000_0000_0000_0000u128) as u64, 8);
}

/// Reads a uuid at `pos`.
pub fn read_uuid(buf: &[u8], pos: usize) -> (r: Result<(u128, usize), TransportError>)
    requires
        pos <= buf@.len(),
    ensures
        pos + 16 > buf@.len() ==> r == Err::<(u128, usize), TransportError>(TransportError::EndOfInput),
        pos + 16 <= buf@.len() ==> r == Ok::<(u128, usize), TransportError>(
            (uuid_value(buf@.subrange(pos as int, pos + 16)), (pos + 16) as usize),
        ),
{
    if buf.len() - pos < 16 {
        return Err(TransportError::EndOfInput);
    }
    let (hi, p) = read_be(buf, pos, 8)?;
    let (lo, q) = read_be(buf, p, 8)?;
    let ghost s = buf@.subrange(pos as int, pos + 16);
    assert(s.subrange(0, 8) =~= buf@.subrange(pos as int, pos + 8));
    assert(s.subrange(8, 16) =~= buf@.subrange(pos + 8, pos + 16));
    proof {
        lemma_be_value_bound(s.subrange(0, 8));
        lemma_be_value_bound(s.subrange(8, 16));
        assert(pow256(8) == 0x1_0000_0000_0000_0000) by {
            reveal_with_fuel(pow256, 9);
        }
    }
    Ok((hi as u128 * 0x1_0000_0000_0000_0000u128 + lo as u128, q))
}

/// Reading back the bytes of a uuid gives the uuid.
pub proof fn lemma_uuid_roundtrip(v: u128)
    ensures
        uuid_bytes(v).len() == 16,
        uuid_value(uuid_bytes(v)) == v,
{
    let hi = v as nat / 0x1_0000_0000_0000_0000;
    let lo = v as nat % 0x1_0000_0000_0000_0000;
    lemma_be_roundtrip(hi, 8);
    lemma_be_roundtrip(lo, 8);
    assert(pow256(8) == 0x1_0000_0000_0000_0000) by {
        reveal_with_fuel(pow256, 9);
    }
    let b = uuid_bytes(v);
    assert(b.subrange(0, 8) =~= be_bytes(hi, 8));
    assert(b.subrange(8, 16) =~= be_bytes(lo, 8));
}

/// Reading back a written byte vector gives the bytes and stops right after them.
pub proof fn lemma_byte_vec_roundtrip(b: Seq<u8>, rest: Seq<u8>)
    requires
        b.len() <= i32::MAX,
    ensures
        byte_vec_len_ok(spec_byte_vec(b) + rest),
        spec_read_byte_vec(spec_byte_vec(b) + rest) == Ok::<(Seq<u8>, nat), ErrorKind>(
            (b, spec_byte_vec(b).len()),
        ),
{
    lemma_var_int_roundtrip(b.len() as i32, b + rest);
    let s = spec_byte_vec(b) + rest;
    let k = spec_var_int(b.len() as i32).len();
    assert(s =~= spec_var_int(b.len() as i32) + (b + rest));
    assert(s.subrange(k as int, (k + b.len()) as int) =~= b);
}

/// Reading back a written string, within its limit, gives its UTF-8 bytes and stops right
/// after them.
pub proof fn law_string_roundtrip(s: Seq<char>, limit: i32, rest: Seq<u8>)
    requires
        utf8_bytes(s).len() <= limit,
    ensures
        spec_read_string(spec_string(s) + rest, limit) == Ok::<(Seq<u8>, nat), ErrorKind>(
            (utf8_bytes(s), spec_string(s).len()),
        ),
{
    let b = utf8_bytes(s);
    vstd::utf8::encode_utf8_valid_utf8(s);
    lemma_var_int_roundtrip(b.len() as i32, b + rest);
    let all = spec_string(s) + rest;
    let k = spec_var_int(b.len() as i32).len();
    assert(all =~= spec_var_int(b.len() as i32) + (b + rest));
    assert(all.subrange(k as int, (k + b.len()) as int) =~= b);
}


/// Number of bytes of the VarInt encoding of `value`.
pub fn size_var_int(value: i32) -> (r: usize)
    ensures
        r == spec_var_int(value).len(),
        1 <= r <= 5,
{
    proof {
        lemma_var_int_roundtrip(value, seq![]);
        lemma_var_num_shape((value as u32) as nat);
    }
    let mut v = value as u32;
    let mut size: usize = 1;
    while v >= 128
        invariant
            size + var_num_bytes(v as nat).len() == 1 + spec_var_int(value).len(),
            spec_var_int(value).len() <= 5,
            size >= 1,
        decreases v,
    {
        proof {
            lemma_var_num_shape((v / 128) as nat);
        }
        assert(var_num_bytes(v as nat) == seq![(v % 128 + 128) as u8] + var_num_bytes((v / 128) as nat));
        v = v / 128;
        size = size + 1;
    }
    assert(var_num_bytes(v as nat) == seq![v as u8]);
    size
}

/// Number of bytes of the VarLong encoding of `value`.
pub fn size_var_long(value: i64) -> (r: usize)
    ensures
        r == spec_var_long(value).len(),
        1 <= r <= 10,
{
    proof {
        lemma_var_long_roundtrip(value, seq![]);
        lemma_var_num_shape((value as u64) as nat);
    }
    let mut v = value as u64;
    let mut size: usize = 1;
    while v >= 128
        invariant
            size + var_num_bytes(v as nat).len() == 1 + spec_var_long(value).len(),
            spec_var_long(value).len() <= 10,
            size >= 1,
        decreases v,
    {
        proof {
            lemma_var_num_shape((v / 128) as nat);
        }
        assert(var_num_bytes(v as nat) == seq![(v % 128 + 128) as u8] + var_num_bytes((v / 128) as nat));
        v = v / 128;
        size = size + 1;
    }
    assert(var_num_bytes(v as nat) == seq![v as u8]);
    size
}

} // verus!
