//! Little-endian integers in byte buffers.

use vstd::arithmetic::power::pow;
use vstd::prelude::*;

verus! {

/// The `width` low bytes of `n`, least significant first.
pub open spec fn le_bytes(n: nat, width: nat) -> Seq<u8>
    decreases width,
{
    if width == 0 {
        Seq::empty()
    } else {
        seq![(n % 256) as u8] + le_bytes(n / 256, (width - 1) as nat)
    }
}

/// The number that bytes spell, least significant first.
pub open spec fn le_value(s: Seq<u8>) -> nat
    decreases s.len(),
{
    if s.len() == 0 {
        0
    } else {
        (s[0] + 256 * le_value(s.skip(1))) as nat
    }
}

/// A 32-bit number as four bytes.
pub open spec fn le32(n: int) -> Seq<u8> {
    le_bytes(n as nat, 4)
}

/// The two's-complement bits of a 64-bit integer, as a natural number.
pub open spec fn bits64(n: int) -> nat {
    if n >= 0 {
        n as nat
    } else {
        (n + 0x1_0000_0000_0000_0000) as nat
    }
}

/// The integer whose two's-complement bits are `bits`.
pub open spec fn from_bits64(bits: nat) -> int {
    if bits < 0x8000_0000_0000_0000 {
        bits as int
    } else {
        bits - 0x1_0000_0000_0000_0000
    }
}

/// A 64-bit integer as eight bytes.
pub open spec fn le64(n: int) -> Seq<u8> {
    le_bytes(bits64(n), 8)
}

/// The 32-bit number at offset `at`.
pub open spec fn u32_at(s: Seq<u8>, at: int) -> int {
    le_value(s.subrange(at, at + 4)) as int
}

/// The 64-bit integer at offset `at`.
pub open spec fn i64_at(s: Seq<u8>, at: int) -> int {
    from_bits64(le_value(s.subrange(at, at + 8)))
}

/// `le_bytes` gives as many bytes as asked for.
pub proof fn lemma_le_bytes_len(n: nat, width: nat)
    ensures
        le_bytes(n, width).len() == width,
    decreases width,
{
    if width > 0 {
        lemma_le_bytes_len(n / 256, (width - 1) as nat);
    }
}

/// Reading back what was written gives the number.
pub proof fn lemma_le_round_trip(n: nat, width: nat)
    requires
        n < pow(256, width),
    ensures
        le_value(le_bytes(n, width)) == n,
        le_bytes(n, width).len() == width,
    decreases width,
{
    reveal(pow);
    lemma_le_bytes_len(n, width);
    if width > 0 {
        let rest = pow(256, (width - 1) as nat);
        assert(pow(256, width) == 256 * rest);
        lemma_le_round_trip(n / 256, (width - 1) as nat);
        assert(le_bytes(n, width).skip(1) =~= le_bytes(n / 256, (width - 1) as nat));
        assert(le_bytes(n, width)[0] == (n % 256) as u8);
    }
}

/// A 32-bit number survives the trip through bytes.
pub proof fn lemma_le32(n: int)
    requires
        0 <= n <= u32::MAX,
    ensures
        le32(n).len() == 4,
        le_value(le32(n)) == n,
{
    assert(pow(256, 4) == 0x1_0000_0000) by {
        reveal(pow);
        reveal_with_fuel(pow, 5);
    }
    lemma_le_round_trip(n as nat, 4);
}

/// A 64-bit integer survives the trip through bytes.
pub proof fn lemma_le64(n: int)
    requires
        i64::MIN <= n <= i64::MAX,
    ensures
        le64(n).len() == 8,
        from_bits64(le_value(le64(n))) == n,
{
    assert(pow(256, 8) == 0x1_0000_0000_0000_0000) by {
        reveal(pow);
        reveal_with_fuel(pow, 9);
    }
    lemma_le_round_trip(bits64(n), 8);
}

/// Four bytes spell a 32-bit number.
pub proof fn lemma_u32_range(s: Seq<u8>)
    requires
        s.len() == 4,
    ensures
        le_value(s) == s[0] + 256 * s[1] + 65536 * s[2] + 16777216 * s[3],
        le_value(s) <= u32::MAX,
{
    reveal_with_fuel(le_value, 5);
}

/// Eight bytes spell a 64-bit number.
proof fn lemma_u64_range(s: Seq<u8>)
    requires
        s.len() == 8,
    ensures
        le_value(s) == le_value(s.take(4)) + 0x1_0000_0000 * le_value(s.skip(4)),
        le_value(s) <= u64::MAX,
{
    lemma_u32_range(s.take(4));
    lemma_u32_range(s.skip(4));
    reveal_with_fuel(le_value, 9);
}

/// The number that four bytes spell.
pub fn read_u32(s: &[u8], at: usize) -> (n: u32)
    requires
        at + 4 <= s@.len(),
    ensures
        n == u32_at(s@, at as int),
{
    proof {
        lemma_u32_range(s@.subrange(at as int, at + 4));
    }
    s[at] as u32 + 256 * s[at + 1] as u32 + 65536 * s[at + 2] as u32 + 16777216 * s[at + 3] as u32
}

/// The integer that eight bytes spell.
pub fn read_i64(s: &[u8], at: usize) -> (n: i64)
    requires
        at + 8 <= s@.len(),
    ensures
        n == i64_at(s@, at as int),
{
    assert(s.len() <= usize::MAX);
    let low: u32 = read_u32(s, at);
    let high: u32 = read_u32(s, at + 4);
    let bits: u64 = low as u64 + 0x1_0000_0000 * high as u64;
    proof {
        let run = s@.subrange(at as int, at + 8);
        lemma_u64_range(run);
        assert(run.take(4) =~= s@.subrange(at as int, at + 4));
        assert(run.skip(4) =~= s@.subrange(at + 4, at + 8));
    }
    if bits < 0x8000_0000_0000_0000 {
        bits as i64
    } else {
        (bits - 0x8000_0000_0000_0000) as i64 + i64::MIN
    }
}

/// Append a 32-bit number.
pub fn push_u32(out: &mut Vec<u8>, n: u32)
    ensures
        final(out)@ == old(out)@ + le32(n as int),
{
    let ghost before = out@;
    out.push((n % 256) as u8);
    out.push((n / 256 % 256) as u8);
    out.push((n / 65536 % 256) as u8);
    out.push((n / 16777216) as u8);
    proof {
        let m = n as nat;
        reveal_with_fuel(le_bytes, 5);
        assert(m / 256 / 256 == m / 65536);
        assert(m / 256 / 256 / 256 == m / 16777216);
        assert(out@ =~= before + le32(n as int));
    }
}

/// The four bytes of a number and the four above them.
proof fn lemma_le64_halves(m: nat)
    ensures
        le_bytes(m, 8) == le_bytes(m % 0x1_0000_0000, 4) + le_bytes(m / 0x1_0000_0000, 4),
{
    reveal_with_fuel(le_bytes, 9);
    let low = m % 0x1_0000_0000;
    assert(low % 256 == m % 256);
    assert((low / 256) % 256 == (m / 256) % 256);
    assert((low / 256 / 256) % 256 == (m / 256 / 256) % 256);
    assert((low / 256 / 256 / 256) % 256 == (m / 256 / 256 / 256) % 256);
    assert(m / 256 / 256 / 256 / 256 == m / 0x1_0000_0000);
    assert(le_bytes(m, 8) =~= le_bytes(low, 4) + le_bytes(m / 0x1_0000_0000, 4));
}

/// Append a 64-bit integer.
pub fn push_i64(out: &mut Vec<u8>, n: i64)
    ensures
        final(out)@ == old(out)@ + le64(n as int),
{
    let ghost before = out@;
    let bits: u64 = if n >= 0 {
        n as u64
    } else {
        (n - i64::MIN) as u64 + 0x8000_0000_0000_0000
    };
    push_u32(out, (bits % 0x1_0000_0000) as u32);
    push_u32(out, (bits / 0x1_0000_0000) as u32);
    proof {
        lemma_le64_halves(bits as nat);
        assert(out@ =~= before + le64(n as int));
    }
}

/// Append the bytes of `from`.
pub fn push_all(out: &mut Vec<u8>, from: &[u8])
    ensures
        final(out)@ == old(out)@ + from@,
{
    let ghost before = out@;
    let mut i: usize = 0;
    while i < from.len()
        invariant
            i <= from@.len(),
            out@ == before + from@.take(i as int),
        decreases from.len() - i,
    {
        out.push(from[i]);
        i = i + 1;
        assert(out@ =~= before + from@.take(i as int));
    }
    assert(from@.take(i as int) =~= from@);
}

/// A copy of `s[from..to]`.
pub fn slice_of(s: &[u8], from: usize, to: usize) -> (r: Vec<u8>)
    requires
        from <= to <= s@.len(),
    ensures
        r@ == s@.subrange(from as int, to as int),
{
    let mut r: Vec<u8> = Vec::new();
    let mut i: usize = from;
    while i < to
        invariant
            from <= i <= to <= s@.len(),
            r@ == s@.subrange(from as int, i as int),
        decreases to - i,
    {
        r.push(s[i]);
        i = i + 1;
        assert(r@ =~= s@.subrange(from as int, i as int));
    }
    r
}

/// Whether `s` starts with the bytes of `head`.
pub fn starts_with(s: &[u8], head: &[u8]) -> (r: bool)
    ensures
        r == head@.is_prefix_of(s@),
{
    if s.len() < head.len() {
        return false;
    }
    let mut i: usize = 0;
    while i < head.len()
        invariant
            i <= head@.len() <= s@.len(),
            forall|j: int| 0 <= j < i ==> s@[j] == head@[j],
        decreases head.len() - i,
    {
        if s[i] != head[i] {
            assert(s@.subrange(0, head@.len() as int)[i as int] != head@[i as int]);
            return false;
        }
        i = i + 1;
    }
    assert(head@ =~= s@.subrange(0, head@.len() as int));
    true
}

// ---- bitmaps ----

/// Bit `i` of a bitmap, least significant first within each byte. Bits past
/// the end are clear.
pub open spec fn bit_set(bitmap: Seq<u8>, i: int) -> bool {
    0 <= i && i / 8 < bitmap.len() && bit_of(bitmap[i / 8], (i % 8) as u8)
}

/// Bit `k` of a byte.
pub open spec fn bit_of(byte: u8, k: u8) -> bool {
    byte & (1u8 << k) != 0
}

/// `n` divided by eight, rounded up.
pub open spec fn bytes_for_bits(n: int) -> int {
    (n + 7) / 8
}

/// Bit `i` of `bitmap`.
pub fn get_bit(bitmap: &[u8], i: usize) -> (r: bool)
    ensures
        r == bit_set(bitmap@, i as int),
{
    let byte: usize = i / 8;
    let k: u8 = (i % 8) as u8;
    byte < bitmap.len() && bitmap[byte] & (1u8 << k) != 0
}

/// Setting one bit of a byte leaves the other bits alone.
proof fn lemma_set_bit_of(byte: u8, k: u8, j: u8)
    requires
        k < 8,
        j < 8,
    ensures
        bit_of(byte | (1u8 << k), j) == (j == k || bit_of(byte, j)),
{
    assert(((byte | (1u8 << k)) & (1u8 << j) != 0) == (j == k || byte & (1u8 << j) != 0))
        by (bit_vector)
        requires
            k < 8,
            j < 8,
    ;
}

/// `bitmap` with bit `i` set.
pub open spec fn with_bit(bitmap: Seq<u8>, i: int) -> Seq<u8> {
    bitmap.update(i / 8, bitmap[i / 8] | (1u8 << ((i % 8) as u8)))
}

/// Setting a bit sets that bit and no other.
pub proof fn lemma_with_bit(bitmap: Seq<u8>, i: int)
    requires
        0 <= i,
        i / 8 < bitmap.len(),
    ensures
        with_bit(bitmap, i).len() == bitmap.len(),
        forall|j: int| #[trigger]
            bit_set(with_bit(bitmap, i), j) == (j == i || bit_set(bitmap, j)),
{
    assert forall|j: int| #[trigger]
        bit_set(with_bit(bitmap, i), j) == (j == i || bit_set(bitmap, j)) by {
        if 0 <= j && j / 8 == i / 8 {
            lemma_set_bit_of(bitmap[i / 8], (i % 8) as u8, (j % 8) as u8);
            if (i % 8) as u8 == (j % 8) as u8 {
                assert(i == j);
            }
        }
    }
}

/// Set bit `i`.
pub fn set_bit(bitmap: &mut Vec<u8>, i: usize)
    requires
        i / 8 < old(bitmap)@.len(),
    ensures
        final(bitmap)@ == with_bit(old(bitmap)@, i as int),
{
    let byte: usize = i / 8;
    let k: u8 = (i % 8) as u8;
    let value: u8 = bitmap[byte] | (1u8 << k);
    bitmap.set(byte, value);
}

/// `n` zero bytes.
pub open spec fn zero_bytes(n: int) -> Seq<u8> {
    Seq::new(n as nat, |i: int| 0u8)
}

/// No bit of a run of zero bytes is set.
pub proof fn lemma_zero_bits(n: int)
    ensures
        forall|j: int| !#[trigger] bit_set(zero_bytes(n), j),
{
    assert forall|j: int| !#[trigger] bit_set(zero_bytes(n), j) by {
        let k = (j % 8) as u8;
        assert(0u8 & (1u8 << k) == 0) by (bit_vector);
    }
}

/// `n` zero bytes.
pub fn zeros(n: usize) -> (r: Vec<u8>)
    ensures
        r@ == zero_bytes(n as int),
{
    let mut r: Vec<u8> = Vec::new();
    let mut i: usize = 0;
    while i < n
        invariant
            i <= n,
            r@ == zero_bytes(i as int),
        decreases n - i,
    {
        r.push(0u8);
        i = i + 1;
        assert(r@ =~= zero_bytes(i as int));
    }
    r
}

} // verus!
