//! What corruption the checksum is sure to notice.

use vstd::prelude::*;

use crate::bytes::bit_of;
use crate::checksum::{
    crc32_of, crc_register, crc_step, crc_steps, lemma_verified, lemma_wrapped_parts, newline_from,
    verified, wrapped,
};
use crate::checksum_order::lemma_low_bit_returns;
use crate::error::ErrorV;
use crate::text::hex_digits;

verus! {

/// A bit as a number.
pub open spec fn bit32(b: bool) -> u32 {
    if b {
        1u32
    } else {
        0u32
    }
}

/// The CRC register after feeding bits one by one.
pub open spec fn run_bits(crc: u32, bits: Seq<bool>) -> u32
    decreases bits.len(),
{
    if bits.len() == 0 {
        crc
    } else {
        run_bits(crc_step(crc ^ bit32(bits[0])), bits.skip(1))
    }
}

/// Bits packed into a number, the first bit lowest.
pub open spec fn pack(bits: Seq<bool>) -> u32
    decreases bits.len(),
{
    if bits.len() == 0 {
        0u32
    } else {
        bit32(bits[0]) ^ (pack(bits.skip(1)) << 1u32)
    }
}

/// The bits of `data`, those of each byte lowest first.
pub open spec fn data_bits(data: Seq<u8>) -> Seq<bool> {
    Seq::new(8 * data.len(), |p: int| bit_of(data[p / 8], (p % 8) as u8))
}

pub proof fn lemma_step_linear(a: u32, b: u32)
    ensures
        crc_step(a ^ b) == crc_step(a) ^ crc_step(b),
{
    assert((if (a ^ b) & 1 != 0 {
        ((a ^ b) >> 1) ^ 0xEDB8_8320u32
    } else {
        (a ^ b) >> 1
    }) == (if a & 1 != 0 {
        (a >> 1) ^ 0xEDB8_8320u32
    } else {
        a >> 1
    }) ^ (if b & 1 != 0 {
        (b >> 1) ^ 0xEDB8_8320u32
    } else {
        b >> 1
    })) by (bit_vector);
}

proof fn lemma_step_of_shift(x: u32)
    requires
        x < 0x8000_0000,
    ensures
        crc_step(x << 1u32) == x,
{
    assert((x << 1u32) & 1 == 0 && (x << 1u32) >> 1 == x) by (bit_vector)
        requires
            x < 0x8000_0000u32,
    ;
}

proof fn lemma_step_injective(a: u32, b: u32)
    requires
        crc_step(a) == crc_step(b),
    ensures
        a == b,
{
    assert((if a & 1 != 0 {
        (a >> 1) ^ 0xEDB8_8320u32
    } else {
        a >> 1
    }) == (if b & 1 != 0 {
        (b >> 1) ^ 0xEDB8_8320u32
    } else {
        b >> 1
    }) ==> a == b) by (bit_vector);
}

pub proof fn lemma_steps_injective(a: u32, b: u32, n: nat)
    requires
        crc_steps(a, n) == crc_steps(b, n),
    ensures
        a == b,
    decreases n,
{
    if n > 0 {
        lemma_step_injective(crc_steps(a, (n - 1) as nat), crc_steps(b, (n - 1) as nat));
        lemma_steps_injective(a, b, (n - 1) as nat);
    }
}

/// Taking one step first and the rest after is the same.
proof fn lemma_steps_front(a: u32, n: nat)
    requires
        n > 0,
    ensures
        crc_steps(a, n) == crc_steps(crc_step(a), (n - 1) as nat),
    decreases n,
{
    if n > 1 {
        lemma_steps_front(a, (n - 1) as nat);
    } else {
        reveal_with_fuel(crc_steps, 2);
    }
}

/// Up to 32 packed bits stay below the matching power of two.
proof fn lemma_pack_small(bits: Seq<bool>)
    requires
        bits.len() <= 31,
    ensures
        pack(bits) < 0x8000_0000,
        bits.len() == 0 ==> pack(bits) == 0,
        pack(bits) >> (bits.len() as u32) == 0,
    decreases bits.len(),
{
    if bits.len() == 0 {
        assert(0u32 >> 0u32 == 0) by (bit_vector);
    } else {
        lemma_pack_small(bits.skip(1));
        let rest = pack(bits.skip(1));
        let m = (bits.len() - 1) as u32;
        let b = bit32(bits[0]);
        assert((b ^ (rest << 1u32)) >> add_one(m) == 0 && (b ^ (rest << 1u32)) < 0x8000_0000u32)
            by (bit_vector)
            requires
                rest >> m == 0,
                m < 31,
                b == 0 || b == 1,
        ;
        assert(add_one(m) == bits.len() as u32);
    }
}

spec fn add_one(m: u32) -> u32 {
    (m + 1) as u32
}

/// Feeding up to 32 bits one by one is feeding them packed, all at once.
proof fn lemma_run_packed(crc: u32, bits: Seq<bool>)
    requires
        bits.len() <= 32,
    ensures
        run_bits(crc, bits) == crc_steps(crc ^ pack(bits), bits.len()),
    decreases bits.len(),
{
    if bits.len() == 0 {
        assert(crc ^ 0 == crc) by (bit_vector);
    } else {
        let rest = bits.skip(1);
        let b = bit32(bits[0]);
        let p = pack(rest);
        let next = crc_step(crc ^ b);
        lemma_pack_small(rest);
        lemma_run_packed(next, rest);
        lemma_step_of_shift(p);
        lemma_step_linear(crc ^ b, p << 1u32);
        assert((crc ^ b) ^ (p << 1u32) == crc ^ (b ^ (p << 1u32))) by (bit_vector);
        lemma_steps_front(crc ^ pack(bits), bits.len());
    }
}

/// Packing up to 32 bits loses none of them.
proof fn lemma_pack_injective(a: Seq<bool>, b: Seq<bool>)
    requires
        a.len() == b.len(),
        a.len() <= 32,
        pack(a) == pack(b),
    ensures
        a == b,
    decreases a.len(),
{
    if a.len() > 0 {
        let x = pack(a.skip(1));
        let y = pack(b.skip(1));
        let p = bit32(a[0]);
        let q = bit32(b[0]);
        lemma_pack_small(a.skip(1));
        lemma_pack_small(b.skip(1));
        assert(p == q && x == y) by (bit_vector)
            requires
                p ^ (x << 1u32) == q ^ (y << 1u32),
                x < 0x8000_0000u32,
                y < 0x8000_0000u32,
                p == 0 || p == 1,
                q == 0 || q == 1,
        ;
        lemma_pack_injective(a.skip(1), b.skip(1));
        assert(a =~= seq![a[0]] + a.skip(1));
        assert(b =~= seq![b[0]] + b.skip(1));
    }
}

proof fn lemma_run_concat(crc: u32, a: Seq<bool>, b: Seq<bool>)
    ensures
        run_bits(crc, a + b) == run_bits(run_bits(crc, a), b),
    decreases a.len(),
{
    if a.len() == 0 {
        assert(a + b =~= b);
    } else {
        assert((a + b).skip(1) =~= a.skip(1) + b);
        lemma_run_concat(crc_step(crc ^ bit32(a[0])), a.skip(1), b);
    }
}

proof fn lemma_run_injective(c: u32, d: u32, bits: Seq<bool>)
    requires
        run_bits(c, bits) == run_bits(d, bits),
    ensures
        c == d,
    decreases bits.len(),
{
    if bits.len() > 0 {
        let b = bit32(bits[0]);
        lemma_run_injective(crc_step(c ^ b), crc_step(d ^ b), bits.skip(1));
        lemma_step_injective(c ^ b, d ^ b);
        assert(c == d) by (bit_vector)
            requires
                c ^ b == d ^ b,
        ;
    }
}

/// The eight bits of a byte pack into the byte.
proof fn lemma_byte_bits(b: u8)
    ensures
        pack(data_bits(seq![b])) == b as u32,
{
    let bits = data_bits(seq![b]);
    assert(bits.len() == 8);
    let k0 = bit32(bit_of(b, 0));
    let k1 = bit32(bit_of(b, 1));
    let k2 = bit32(bit_of(b, 2));
    let k3 = bit32(bit_of(b, 3));
    let k4 = bit32(bit_of(b, 4));
    let k5 = bit32(bit_of(b, 5));
    let k6 = bit32(bit_of(b, 6));
    let k7 = bit32(bit_of(b, 7));
    reveal_with_fuel(pack, 9);
    assert(pack(bits) == k0 ^ ((k1 ^ ((k2 ^ ((k3 ^ ((k4 ^ ((k5 ^ ((k6 ^ ((k7 ^ (0u32 << 1u32))
        << 1u32)) << 1u32)) << 1u32)) << 1u32)) << 1u32)) << 1u32)) << 1u32));
    assert((if b & (1u8 << 0u8) != 0 { 1u32 } else { 0u32 }) ^ (((if b & (1u8 << 1u8) != 0 { 1u32 } else { 0u32 }) ^ (((if b & (1u8 << 2u8) != 0 { 1u32 } else { 0u32 }) ^ (((if b & (1u8 << 3u8) != 0 { 1u32 } else { 0u32 }) ^ (((if b & (1u8 << 4u8) != 0 { 1u32 } else { 0u32 }) ^ (((if b & (1u8 << 5u8) != 0 { 1u32 } else { 0u32 }) ^ (((if b & (1u8 << 6u8) != 0 { 1u32 } else { 0u32 }) ^ (((if b & (1u8 << 7u8) != 0 { 1u32 } else { 0u32 }) ^ (0u32 << 1u32)) << 1u32)) << 1u32)) << 1u32)) << 1u32)) << 1u32)) << 1u32)) << 1u32) == b as u32) by (bit_vector);
}

/// The register after `data` is the register after its bits.
proof fn lemma_register_of_bits(data: Seq<u8>)
    ensures
        crc_register(data) == run_bits(0xFFFF_FFFF, data_bits(data)),
    decreases data.len(),
{
    if data.len() == 0 {
        assert(data_bits(data) =~= Seq::<bool>::empty());
    } else {
        let front = data.drop_last();
        let last = data_bits(seq![data.last()]);
        lemma_register_of_bits(front);
        assert(data_bits(data) =~= data_bits(front) + last);
        lemma_run_concat(0xFFFF_FFFF, data_bits(front), last);
        lemma_run_packed(crc_register(front), last);
        lemma_byte_bits(data.last());
    }
}

/// Every burst error of up to 32 bits is noticed: two bodies of one length that
/// differ, and differ only within 32 consecutive bits, have different
/// checksums. A single flipped bit is the shortest such burst.
pub proof fn law_bursts_are_detected(data: Seq<u8>, other: Seq<u8>, from: int)
    requires
        data.len() == other.len(),
        data != other,
        0 <= from,
        forall|p: int|
            0 <= p < 8 * data.len() && !(from <= p < from + 32) ==> bit_of(
                #[trigger] data[p / 8],
                (p % 8) as u8,
            ) == bit_of(other[p / 8], (p % 8) as u8),
    ensures
        crc32_of(data) != crc32_of(other),
{
    let a = data_bits(data);
    let b = data_bits(other);
    let n = a.len() as int;
    let start = if from < n {
        from
    } else {
        n
    };
    let end = if from + 32 < n {
        from + 32
    } else {
        n
    };
    let before = a.take(start);
    let after = a.skip(end);
    assert forall|p: int| 0 <= p < n && !(from <= p < from + 32) implies a[p] == b[p] by {
        assert(data[p / 8] == data[p / 8]);
    }
    assert(b.take(start) =~= before);
    assert(b.skip(end) =~= after);
    let mid_a = a.subrange(start, end);
    let mid_b = b.subrange(start, end);
    assert(a =~= before + (mid_a + after));
    assert(b =~= before + (mid_b + after));
    lemma_register_of_bits(data);
    lemma_register_of_bits(other);
    let s = run_bits(0xFFFF_FFFF, before);
    lemma_run_concat(0xFFFF_FFFF, before, mid_a + after);
    lemma_run_concat(0xFFFF_FFFF, before, mid_b + after);
    lemma_run_concat(s, mid_a, after);
    lemma_run_concat(s, mid_b, after);
    if crc32_of(data) == crc32_of(other) {
        let x = crc_register(data);
        let y = crc_register(other);
        assert(x == y) by (bit_vector)
            requires
                x ^ 0xFFFF_FFFFu32 == y ^ 0xFFFF_FFFFu32,
        ;
        lemma_run_injective(run_bits(s, mid_a), run_bits(s, mid_b), after);
        lemma_run_packed(s, mid_a);
        lemma_run_packed(s, mid_b);
        let p = pack(mid_a);
        let q = pack(mid_b);
        lemma_steps_injective(s ^ p, s ^ q, mid_a.len());
        assert(p == q) by (bit_vector)
            requires
                s ^ p == s ^ q,
        ;
        lemma_pack_injective(mid_a, mid_b);
        assert(a == b);
        assert forall|i: int| 0 <= i < data.len() implies data[i] == other[i] by {
            lemma_byte_bits(data[i]);
            lemma_byte_bits(other[i]);
            assert forall|k: int| 0 <= k < 8 implies data_bits(seq![data[i]])[k] == data_bits(
                seq![other[i]],
            )[k] by {
                assert(a[8 * i + k] == b[8 * i + k]);
                assert((8 * i + k) / 8 == i);
                assert((8 * i + k) % 8 == k);
            }
            assert(data_bits(seq![data[i]]) =~= data_bits(seq![other[i]]));
        }
        assert(data =~= other);
    }
}

/// What one register is ahead of another stays ahead, stepped along.
proof fn lemma_run_apart(crc: u32, apart: u32, bits: Seq<bool>)
    ensures
        run_bits(crc ^ apart, bits) == run_bits(crc, bits) ^ crc_steps(apart, bits.len()),
    decreases bits.len(),
{
    if bits.len() > 0 {
        let b = bit32(bits[0]);
        assert((crc ^ apart) ^ b == (crc ^ b) ^ apart) by (bit_vector);
        lemma_step_linear(crc ^ b, apart);
        lemma_run_apart(crc_step(crc ^ b), crc_step(apart), bits.skip(1));
        lemma_steps_front(apart, bits.len());
    }
}

/// The register after bits of which one was flipped.
proof fn lemma_flipped_bit(crc: u32, bit: bool)
    ensures
        crc_step(crc ^ bit32(!bit)) == crc_step(crc ^ bit32(bit)) ^ crc_step(1),
{
    let b = bit32(bit);
    let n = bit32(!bit);
    assert(crc ^ n == (crc ^ b) ^ 1) by (bit_vector)
        requires
            (b == 0 && n == 1) || (b == 1 && n == 0),
    ;
    lemma_step_linear(crc ^ b, 1);
}

/// Two flipped bits are noticed, unless they are a multiple of 2^32 - 1 bits
/// apart: two bodies of one length that differ in exactly these bits have
/// different checksums.
pub proof fn law_double_bits_are_detected(data: Seq<u8>, other: Seq<u8>, i: int, j: int)
    requires
        data.len() == other.len(),
        0 <= i < j < 8 * data.len(),
        (j - i) % 0xFFFF_FFFF != 0,
        forall|p: int|
            0 <= p < 8 * data.len() ==> (bit_of(#[trigger] data[p / 8], (p % 8) as u8) == bit_of(
                other[p / 8],
                (p % 8) as u8,
            ) <==> p != i && p != j),
    ensures
        crc32_of(data) != crc32_of(other),
{
    let a = data_bits(data);
    let b = data_bits(other);
    let n = a.len() as int;
    assert forall|p: int| 0 <= p < n implies (a[p] == b[p] <==> p != i && p != j) by {
        assert(data[p / 8] == data[p / 8]);
    }
    let before = a.take(i);
    let mid = a.subrange(i + 1, j);
    let after = a.skip(j + 1);
    let x = a[i];
    let y = a[j];
    assert(a =~= before + (seq![x] + (mid + (seq![y] + after))));
    assert(b =~= before + (seq![!x] + (mid + (seq![!y] + after))));
    lemma_register_of_bits(data);
    lemma_register_of_bits(other);
    let s = run_bits(0xFFFF_FFFF, before);
    lemma_run_concat(0xFFFF_FFFF, before, seq![x] + (mid + (seq![y] + after)));
    lemma_run_concat(0xFFFF_FFFF, before, seq![!x] + (mid + (seq![!y] + after)));
    let s1 = crc_step(s ^ bit32(x));
    let d1 = crc_step(1);
    assert((seq![x] + (mid + (seq![y] + after))).skip(1) =~= mid + (seq![y] + after));
    assert((seq![!x] + (mid + (seq![!y] + after))).skip(1) =~= mid + (seq![!y] + after));
    lemma_flipped_bit(s, x);
    let s2 = run_bits(s1, mid);
    let d2 = crc_steps(d1, mid.len());
    lemma_run_concat(s1, mid, seq![y] + after);
    lemma_run_concat(s1 ^ d1, mid, seq![!y] + after);
    lemma_run_apart(s1, d1, mid);
    lemma_steps_front(1, (j - i) as nat);
    assert(d2 == crc_steps(1, (j - i) as nat));
    assert((seq![y] + after).skip(1) =~= after);
    assert((seq![!y] + after).skip(1) =~= after);
    let s3 = crc_step(s2 ^ bit32(y));
    let t3 = crc_step((s2 ^ d2) ^ bit32(!y));
    if crc32_of(data) == crc32_of(other) {
        let r = crc_register(data);
        let t = crc_register(other);
        assert(r == t) by (bit_vector)
            requires
                r ^ 0xFFFF_FFFFu32 == t ^ 0xFFFF_FFFFu32,
        ;
        assert(run_bits(s3, after) == run_bits(t3, after));
        lemma_run_injective(s3, t3, after);
        lemma_step_injective(s2 ^ bit32(y), (s2 ^ d2) ^ bit32(!y));
        let p = bit32(y);
        let q = bit32(!y);
        assert(d2 == 1) by (bit_vector)
            requires
                s2 ^ p == (s2 ^ d2) ^ q,
                (p == 0 && q == 1) || (p == 1 && q == 0),
        ;
        lemma_low_bit_returns((j - i) as nat);
    }
}

/// Why a file is refused whose checksum line says `stored` and whose body has
/// the checksum `computed`.
pub open spec fn mismatch(stored: u32, computed: u32) -> ErrorV {
    ErrorV::ChecksumMismatch(
        "checksum mismatch: stored 0x"@ + hex_digits(stored as nat, 8) + ", computed 0x"@
            + hex_digits(computed as nat, 8),
    )
}

/// `other` is the wrapped `body` with something changed behind the first
/// newline.
pub open spec fn altered(body: Seq<u8>, other: Seq<u8>) -> bool {
    let start = newline_from(wrapped(body), 0) + 1;
    &&& other.len() == wrapped(body).len()
    &&& other != wrapped(body)
    &&& forall|i: int| 0 <= i < start ==> other[i] == wrapped(body)[i]
}

/// A wrapped body that was changed behind its first newline is refused with both
/// checksums, unless it has the checksum of the body.
proof fn lemma_altered(body: Seq<u8>, other: Seq<u8>)
    requires
        altered(body, other),
    ensures
        ({
            let rest = other.skip(newline_from(wrapped(body), 0) + 1);
            &&& rest.len() == body.len()
            &&& rest != body
            &&& forall|i: int|
                0 <= i < body.len() ==> #[trigger] rest[i] == other[other.len() - body.len() + i]
            &&& forall|i: int|
                0 <= i < body.len() ==> #[trigger] body[i] == wrapped(body)[other.len() - body.len()
                    + i]
            &&& crc32_of(rest) != crc32_of(body) ==> verified(other) == Err::<Seq<u8>, ErrorV>(
                mismatch(crc32_of(body), crc32_of(rest)),
            )
        }),
{
    let file = wrapped(body);
    let start = newline_from(file, 0) + 1;
    let rest = other.skip(start);
    lemma_wrapped_parts(body);
    lemma_verified(body, rest);
    assert(0 <= start <= file.len()) by {
        assert(file.take(start) + file.skip(start) == file.take(start) + body);
    }
    assert(other.take(start) =~= file.take(start));
    assert(other =~= other.take(start) + rest);
    assert(file =~= file.take(start) + body);
    assert forall|i: int| 0 <= i < body.len() implies #[trigger] body[i] == file[start + i] by {
        assert(file.skip(start)[i] == file[start + i]);
    }
}

/// A wrapped file with a change within four consecutive bytes behind its first
/// newline is refused, with both checksums in the message. One flipped bit is
/// the smallest such change.
pub proof fn law_altered_bytes_are_refused(body: Seq<u8>, other: Seq<u8>, at: int)
    requires
        altered(body, other),
        forall|i: int|
            0 <= i < other.len() && !(at <= i < at + 4) ==> #[trigger] other[i] == wrapped(body)[i],
    ensures
        ({
            let rest = other.skip(newline_from(wrapped(body), 0) + 1);
            verified(other) == Err::<Seq<u8>, ErrorV>(mismatch(crc32_of(body), crc32_of(rest)))
        }),
{
    let start = newline_from(wrapped(body), 0) + 1;
    let rest = other.skip(start);
    lemma_wrapped_parts(body);
    lemma_altered(body, other);
    let from = if at < start {
        0
    } else {
        8 * (at - start)
    };
    assert forall|p: int| 0 <= p < 8 * body.len() && !(from <= p < from + 32) implies bit_of(
        #[trigger] body[p / 8],
        (p % 8) as u8,
    ) == bit_of(rest[p / 8], (p % 8) as u8) by {
        let i = p / 8;
        assert(rest[i] == other[start + i]);
        assert(body[i] == wrapped(body)[start + i]);
    }
    law_bursts_are_detected(body, rest, from);
}

/// A wrapped file in which two bits behind its first newline were flipped is
/// refused, with both checksums in the message, unless they are a multiple of
/// 2^32 - 1 bits apart. `i` and `j` count the bits of the file.
pub proof fn law_two_flipped_bits_are_refused(body: Seq<u8>, other: Seq<u8>, i: int, j: int)
    requires
        altered(body, other),
        0 <= i < j < 8 * other.len(),
        (j - i) % 0xFFFF_FFFF != 0,
        forall|p: int|
            0 <= p < 8 * other.len() ==> (bit_of(#[trigger] other[p / 8], (p % 8) as u8) == bit_of(
                wrapped(body)[p / 8],
                (p % 8) as u8,
            ) <==> p != i && p != j),
    ensures
        ({
            let rest = other.skip(newline_from(wrapped(body), 0) + 1);
            verified(other) == Err::<Seq<u8>, ErrorV>(mismatch(crc32_of(body), crc32_of(rest)))
        }),
{
    let start = newline_from(wrapped(body), 0) + 1;
    let rest = other.skip(start);
    lemma_wrapped_parts(body);
    lemma_altered(body, other);
    assert(other.len() - body.len() == start);
    assert(0 <= start);
    assert(8 * start <= i) by {
        if i < 8 * start {
            assert(other[i / 8] == wrapped(body)[i / 8]);
        }
    }
    assert forall|p: int| 0 <= p < 8 * body.len() implies (bit_of(
        #[trigger] body[p / 8],
        (p % 8) as u8,
    ) == bit_of(rest[p / 8], (p % 8) as u8) <==> p != i - 8 * start && p != j - 8 * start) by {
        let k = p / 8;
        let at = p + 8 * start;
        assert(at / 8 == start + k && at % 8 == p % 8);
        assert(rest[k] == other[start + k]);
        assert(body[k] == wrapped(body)[start + k]);
        assert(other[at / 8] == other[start + k]);
    }
    law_double_bits_are_detected(body, rest, i - 8 * start, j - 8 * start);
}

} // verus!
