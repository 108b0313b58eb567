//! The order of the checksum's register: after how many steps it comes back to
//! where it was. It tells how far apart two flipped bits may be to be noticed.
//!
//! A register stands for a polynomial over the two-element field, highest bit
//! first, and a step multiplies it by `x` modulo the checksum's polynomial. The
//! powers of `x` below are found by repeated squaring.

use vstd::prelude::*;

use crate::checksum::{crc_step, crc_steps};
use crate::checksum_laws::{lemma_step_linear, lemma_steps_injective};

verus! {

/// The register that stands for the polynomial 1.
pub const ONE: u32 = 0x8000_0000;

/// The number of steps after which every register comes back: 3 * 5 * 17 * 257 *
/// 65537.
pub const ORDER: u32 = 0xFFFF_FFFF;

/// The register of `x` to the `n`th power.
pub open spec fn power(n: nat) -> u32 {
    crc_steps(ONE, n)
}

// ---- multiplication ----

/// The part of a product that bit `i` of `a`, from the top, contributes.
spec fn term(a: u32, b: u32, i: u32) -> u32 {
    if a & (0x8000_0000u32 >> i) != 0 {
        b
    } else {
        0u32
    }
}

/// The product of two registers, as far as the first `n` bits of `a` go.
spec fn partial_product(a: u32, b: u32, n: nat) -> u32
    decreases n,
{
    if n == 0 {
        0u32
    } else {
        partial_product(a, b, (n - 1) as nat) ^ term(
            a,
            crc_steps(b, (n - 1) as nat),
            (n - 1) as u32,
        )
    }
}

/// Four more terms of a product, from bit `i` on, behind `r`.
spec fn four_terms(r: u32, a: u32, b: u32, i: u32) -> u32 {
    let b1 = crc_step(b);
    let b2 = crc_step(b1);
    let b3 = crc_step(b2);
    let i1 = (i + 1) as u32;
    let i2 = (i + 2) as u32;
    let i3 = (i + 3) as u32;
    (((r ^ term(a, b, i)) ^ term(a, b1, i1)) ^ term(a, b2, i2)) ^ term(a, b3, i3)
}

/// Four steps.
spec fn four_steps(b: u32) -> u32 {
    let b1 = crc_step(b);
    let b2 = crc_step(b1);
    let b3 = crc_step(b2);
    crc_step(b3)
}

/// The product of two registers.
spec fn times(a: u32, b: u32) -> u32 {
    let b1 = four_steps(b);
    let b2 = four_steps(b1);
    let b3 = four_steps(b2);
    let b4 = four_steps(b3);
    let b5 = four_steps(b4);
    let b6 = four_steps(b5);
    let b7 = four_steps(b6);
    let r0 = four_terms(0u32, a, b, 0u32);
    let r1 = four_terms(r0, a, b1, 4u32);
    let r2 = four_terms(r1, a, b2, 8u32);
    let r3 = four_terms(r2, a, b3, 12u32);
    let r4 = four_terms(r3, a, b4, 16u32);
    let r5 = four_terms(r4, a, b5, 20u32);
    let r6 = four_terms(r5, a, b6, 24u32);
    four_terms(r6, a, b7, 28u32)
}

/// Four terms are four terms.
proof fn lemma_four_terms(a: u32, b: u32, n: nat)
    requires
        n <= 28,
    ensures
        partial_product(a, b, n + 4) == four_terms(
            partial_product(a, b, n),
            a,
            crc_steps(b, n),
            n as u32,
        ),
        crc_steps(b, n + 4) == four_steps(crc_steps(b, n)),
{
    reveal_with_fuel(partial_product, 5);
    reveal_with_fuel(crc_steps, 5);
}

/// The two ways to take a product agree.
proof fn lemma_times(a: u32, b: u32)
    ensures
        times(a, b) == partial_product(a, b, 32),
{
    lemma_four_terms(a, b, 0);
    lemma_four_terms(a, b, 4);
    lemma_four_terms(a, b, 8);
    lemma_four_terms(a, b, 12);
    lemma_four_terms(a, b, 16);
    lemma_four_terms(a, b, 20);
    lemma_four_terms(a, b, 24);
    lemma_four_terms(a, b, 28);
}

/// Steps follow one another.
pub proof fn lemma_steps_add(a: u32, m: nat, n: nat)
    ensures
        crc_steps(crc_steps(a, m), n) == crc_steps(a, m + n),
    decreases n,
{
    if n > 0 {
        lemma_steps_add(a, m, (n - 1) as nat);
    }
}

/// Steps are linear.
pub proof fn lemma_steps_linear(a: u32, b: u32, n: nat)
    ensures
        crc_steps(a ^ b, n) == crc_steps(a, n) ^ crc_steps(b, n),
    decreases n,
{
    if n > 0 {
        lemma_steps_linear(a, b, (n - 1) as nat);
        lemma_step_linear(crc_steps(a, (n - 1) as nat), crc_steps(b, (n - 1) as nat));
    }
}

/// Zero stays zero.
proof fn lemma_steps_of_zero(n: nat)
    ensures
        crc_steps(0, n) == 0,
    decreases n,
{
    if n > 0 {
        lemma_steps_of_zero((n - 1) as nat);
        assert(0u32 & 1 == 0 && 0u32 >> 1 == 0) by (bit_vector);
    }
}

/// Steps of a product are the product with the steps of its second factor.
proof fn lemma_steps_of_product(a: u32, b: u32, n: nat, m: nat)
    ensures
        crc_steps(partial_product(a, b, n), m) == partial_product(a, crc_steps(b, m), n),
    decreases n,
{
    lemma_steps_of_zero(m);
    if n > 0 {
        let k = (n - 1) as nat;
        lemma_steps_of_product(a, b, k, m);
        lemma_steps_linear(
            partial_product(a, b, k),
            term(a, crc_steps(b, k), k as u32),
            m,
        );
        lemma_steps_add(b, k, m);
        lemma_steps_add(b, m, k);
    }
}

/// The first powers of `x` are single bits.
proof fn lemma_single_bits(n: nat)
    requires
        n <= 31,
    ensures
        power(n) == ONE >> (n as u32),
    decreases n,
{
    if n == 0 {
        assert(0x8000_0000u32 >> 0u32 == 0x8000_0000u32) by (bit_vector);
    } else {
        let m = (n - 1) as u32;
        lemma_single_bits((n - 1) as nat);
        let b = 0x8000_0000u32 >> m;
        assert(b & 1 == 0 && b >> 1 == 0x8000_0000u32 >> add1(m)) by (bit_vector)
            requires
                b == 0x8000_0000u32 >> m,
                m < 31,
        ;
        assert(add1(m) == n as u32);
    }
}

spec fn add1(m: u32) -> u32 {
    (m + 1) as u32
}

/// A register is its product with 1, bit by bit.
proof fn lemma_product_with_one(a: u32, n: nat)
    requires
        n <= 32,
    ensures
        n > 0 ==> partial_product(a, ONE, n) == (a >> ((32 - n) as u32)) << ((32 - n) as u32),
    decreases n,
{
    if n > 0 {
        let k = (n - 1) as nat;
        lemma_product_with_one(a, k);
        lemma_single_bits(k);
        let m = k as u32;
        let s = (32 - n) as u32;
        let before = partial_product(a, ONE, k);
        let bit = ONE >> m;
        let more = if a & bit != 0 {
            bit
        } else {
            0u32
        };
        assert(partial_product(a, ONE, n) == before ^ more);
        if k == 0 {
            assert(0u32 ^ more == (a >> 31u32) << 31u32) by (bit_vector)
                requires
                    more == (if a & (0x8000_0000u32 >> 0u32) != 0 {
                        0x8000_0000u32 >> 0u32
                    } else {
                        0u32
                    }),
            ;
        } else {
            let t = (32 - k) as u32;
            assert(before ^ more == (a >> s) << s) by (bit_vector)
                requires
                    before == (a >> t) << t,
                    bit == 0x8000_0000u32 >> m,
                    more == (if a & bit != 0 {
                        bit
                    } else {
                        0u32
                    }),
                    s < 31,
                    t == s + 1,
                    m + s == 31,
            ;
        }
    }
}

/// Steps multiply by a power of `x`, and powers of `x` multiply as they should.
proof fn lemma_multiply(m: nat, n: nat)
    ensures
        power(m + n) == times(power(m), power(n)),
{
    let a = power(m);
    lemma_product_with_one(a, 32);
    assert((a >> 0u32) << 0u32 == a) by (bit_vector);
    lemma_steps_of_product(a, ONE, 32, n);
    lemma_steps_add(ONE, m, n);
    lemma_times(a, power(n));
}

/// `x` itself.
proof fn lemma_first_powers()
    ensures
        power(0x1) == 0x4000_0000u32,
{
    lemma_single_bits(1);
    assert(0x8000_0000u32 >> 1u32 == 0x4000_0000u32) by (bit_vector);
}

/// The powers of `x` by powers of two.
proof fn lemma_squares()
    ensures
        power(0x1) == 0x4000_0000u32,
        power(0x2) == 0x2000_0000u32,
        power(0x4) == 0x0800_0000u32,
        power(0x8) == 0x0080_0000u32,
        power(0x10) == 0x0000_8000u32,
        power(0x20) == 0xEDB8_8320u32,
        power(0x40) == 0xB1E6_B092u32,
        power(0x80) == 0xA06A_2517u32,
        power(0x100) == 0xED62_7DAEu32,
        power(0x200) == 0x88D1_4467u32,
        power(0x400) == 0xD7BB_FE6Au32,
        power(0x800) == 0xEC44_7F11u32,
        power(0x1000) == 0x8E7E_A170u32,
        power(0x2000) == 0x6427_800Eu32,
        power(0x4000) == 0x4D47_BAE0u32,
        power(0x8000) == 0x09FE_548Fu32,
        power(0x10000) == 0x8385_2D0Fu32,
        power(0x20000) == 0x3036_2F1Au32,
        power(0x40000) == 0x7B5A_9CC3u32,
        power(0x80000) == 0x31FE_C169u32,
        power(0x100000) == 0x9FEC_022Au32,
        power(0x200000) == 0x6C8D_EDC4u32,
        power(0x400000) == 0x15D6_874Du32,
        power(0x800000) == 0x5FDE_7A4Eu32,
        power(0x1000000) == 0xBAD9_0E37u32,
        power(0x2000000) == 0x2E4E_5EEFu32,
        power(0x4000000) == 0x4EAB_A214u32,
        power(0x8000000) == 0xA8A4_72C0u32,
        power(0x10000000) == 0x429A_969Eu32,
{
    lemma_first_powers();
    assert({
        &&& times(0x4000_0000u32, 0x4000_0000u32) == 0x2000_0000u32
        &&& times(0x2000_0000u32, 0x2000_0000u32) == 0x0800_0000u32
        &&& times(0x0800_0000u32, 0x0800_0000u32) == 0x0080_0000u32
        &&& times(0x0080_0000u32, 0x0080_0000u32) == 0x0000_8000u32
        &&& times(0x0000_8000u32, 0x0000_8000u32) == 0xEDB8_8320u32
        &&& times(0xEDB8_8320u32, 0xEDB8_8320u32) == 0xB1E6_B092u32
        &&& times(0xB1E6_B092u32, 0xB1E6_B092u32) == 0xA06A_2517u32
        &&& times(0xA06A_2517u32, 0xA06A_2517u32) == 0xED62_7DAEu32
        &&& times(0xED62_7DAEu32, 0xED62_7DAEu32) == 0x88D1_4467u32
        &&& times(0x88D1_4467u32, 0x88D1_4467u32) == 0xD7BB_FE6Au32
        &&& times(0xD7BB_FE6Au32, 0xD7BB_FE6Au32) == 0xEC44_7F11u32
        &&& times(0xEC44_7F11u32, 0xEC44_7F11u32) == 0x8E7E_A170u32
        &&& times(0x8E7E_A170u32, 0x8E7E_A170u32) == 0x6427_800Eu32
        &&& times(0x6427_800Eu32, 0x6427_800Eu32) == 0x4D47_BAE0u32
        &&& times(0x4D47_BAE0u32, 0x4D47_BAE0u32) == 0x09FE_548Fu32
        &&& times(0x09FE_548Fu32, 0x09FE_548Fu32) == 0x8385_2D0Fu32
        &&& times(0x8385_2D0Fu32, 0x8385_2D0Fu32) == 0x3036_2F1Au32
        &&& times(0x3036_2F1Au32, 0x3036_2F1Au32) == 0x7B5A_9CC3u32
        &&& times(0x7B5A_9CC3u32, 0x7B5A_9CC3u32) == 0x31FE_C169u32
        &&& times(0x31FE_C169u32, 0x31FE_C169u32) == 0x9FEC_022Au32
        &&& times(0x9FEC_022Au32, 0x9FEC_022Au32) == 0x6C8D_EDC4u32
        &&& times(0x6C8D_EDC4u32, 0x6C8D_EDC4u32) == 0x15D6_874Du32
        &&& times(0x15D6_874Du32, 0x15D6_874Du32) == 0x5FDE_7A4Eu32
        &&& times(0x5FDE_7A4Eu32, 0x5FDE_7A4Eu32) == 0xBAD9_0E37u32
        &&& times(0xBAD9_0E37u32, 0xBAD9_0E37u32) == 0x2E4E_5EEFu32
        &&& times(0x2E4E_5EEFu32, 0x2E4E_5EEFu32) == 0x4EAB_A214u32
        &&& times(0x4EAB_A214u32, 0x4EAB_A214u32) == 0xA8A4_72C0u32
        &&& times(0xA8A4_72C0u32, 0xA8A4_72C0u32) == 0x429A_969Eu32
    }) by (bit_vector);
    lemma_multiply(0x1, 0x1);
    lemma_multiply(0x2, 0x2);
    lemma_multiply(0x4, 0x4);
    lemma_multiply(0x8, 0x8);
    lemma_multiply(0x10, 0x10);
    lemma_multiply(0x20, 0x20);
    lemma_multiply(0x40, 0x40);
    lemma_multiply(0x80, 0x80);
    lemma_multiply(0x100, 0x100);
    lemma_multiply(0x200, 0x200);
    lemma_multiply(0x400, 0x400);
    lemma_multiply(0x800, 0x800);
    lemma_multiply(0x1000, 0x1000);
    lemma_multiply(0x2000, 0x2000);
    lemma_multiply(0x4000, 0x4000);
    lemma_multiply(0x8000, 0x8000);
    lemma_multiply(0x10000, 0x10000);
    lemma_multiply(0x20000, 0x20000);
    lemma_multiply(0x40000, 0x40000);
    lemma_multiply(0x80000, 0x80000);
    lemma_multiply(0x100000, 0x100000);
    lemma_multiply(0x200000, 0x200000);
    lemma_multiply(0x400000, 0x400000);
    lemma_multiply(0x800000, 0x800000);
    lemma_multiply(0x1000000, 0x1000000);
    lemma_multiply(0x2000000, 0x2000000);
    lemma_multiply(0x4000000, 0x4000000);
    lemma_multiply(0x8000000, 0x8000000);
}

/// The powers by the order over 3 and over 5, and by the order itself.
proof fn lemma_third_and_fifth()
    ensures
        power(0x55555555) == 0xC736_EB52u32,
        power(0x33333333) == 0x8401_1278u32,
        power(0xFFFFFFFF) == 0x8000_0000u32,
{
    lemma_squares();
    assert({
        &&& times(0x4000_0000u32, 0x0000_8000u32) == 0x0000_4000u32
        &&& times(0x0000_4000u32, 0xED62_7DAEu32) == 0x0F18_38C2u32
        &&& times(0x0F18_38C2u32, 0x8E7E_A170u32) == 0x34B8_58BAu32
        &&& times(0x34B8_58BAu32, 0x8385_2D0Fu32) == 0xEC4F_BE80u32
        &&& times(0xEC4F_BE80u32, 0x9FEC_022Au32) == 0x8140_BBF4u32
        &&& times(0x8140_BBF4u32, 0xBAD9_0E37u32) == 0xEF5E_8517u32
        &&& times(0xEF5E_8517u32, 0x429A_969Eu32) == 0x3D43_6701u32
        &&& times(0x3D43_6701u32, 0x3D43_6701u32) == 0xFA75_8C53u32
        &&& times(0x3D43_6701u32, 0xFA75_8C53u32) == 0x8401_1278u32
        &&& times(0xFA75_8C53u32, 0xFA75_8C53u32) == 0xBD43_6701u32
        &&& times(0x3D43_6701u32, 0xBD43_6701u32) == 0xC736_EB52u32
        &&& times(0x8401_1278u32, 0x8401_1278u32) == 0x7E74_9E2Bu32
        &&& times(0x7E74_9E2Bu32, 0x7E74_9E2Bu32) == 0xC337_F92Au32
        &&& times(0x8401_1278u32, 0xC337_F92Au32) == 0x8000_0000u32
    }) by (bit_vector);
    lemma_multiply(0x1, 0x10);
    lemma_multiply(0x11, 0x100);
    lemma_multiply(0x111, 0x1000);
    lemma_multiply(0x1111, 0x10000);
    lemma_multiply(0x11111, 0x100000);
    lemma_multiply(0x111111, 0x1000000);
    lemma_multiply(0x1111111, 0x10000000);
    lemma_multiply(0x11111111, 0x11111111);
    lemma_multiply(0x11111111, 0x22222222);
    lemma_multiply(0x22222222, 0x22222222);
    lemma_multiply(0x11111111, 0x44444444);
    lemma_multiply(0x33333333, 0x33333333);
    lemma_multiply(0x66666666, 0x66666666);
    lemma_multiply(0x33333333, 0xCCCCCCCC);
}

/// The power by the order over 17.
proof fn lemma_seventeenth()
    ensures
        power(0xF0F0F0F) == 0x8C28_3CA0u32,
{
    lemma_squares();
    assert({
        &&& times(0x4000_0000u32, 0xED62_7DAEu32) == 0x76B1_3ED7u32
        &&& times(0x76B1_3ED7u32, 0x8385_2D0Fu32) == 0xB898_D242u32
        &&& times(0xB898_D242u32, 0xBAD9_0E37u32) == 0x316B_5BA1u32
        &&& times(0x316B_5BA1u32, 0x316B_5BA1u32) == 0x5B21_9B1Cu32
        &&& times(0x316B_5BA1u32, 0x5B21_9B1Cu32) == 0x8B03_0439u32
        &&& times(0x8B03_0439u32, 0x8B03_0439u32) == 0x5FC9_DFCEu32
        &&& times(0x5FC9_DFCEu32, 0x5FC9_DFCEu32) == 0x1F3D_5AAFu32
        &&& times(0x8B03_0439u32, 0x1F3D_5AAFu32) == 0x8C28_3CA0u32
    }) by (bit_vector);
    lemma_multiply(0x1, 0x100);
    lemma_multiply(0x101, 0x10000);
    lemma_multiply(0x10101, 0x1000000);
    lemma_multiply(0x1010101, 0x1010101);
    lemma_multiply(0x1010101, 0x2020202);
    lemma_multiply(0x3030303, 0x3030303);
    lemma_multiply(0x6060606, 0x6060606);
    lemma_multiply(0x3030303, 0xC0C0C0C);
}

/// The powers by the order over 257 and over 65537.
proof fn lemma_large_factors()
    ensures
        power(0xFF00FF) == 0x351C_22C9u32,
        power(0xFFFF) == 0xDC7B_5C5Fu32,
{
    lemma_squares();
    assert({
        &&& times(0x4000_0000u32, 0x8385_2D0Fu32) == 0xAC7A_15A7u32
        &&& times(0xAC7A_15A7u32, 0xAC7A_15A7u32) == 0xE1B5_08E6u32
        &&& times(0xAC7A_15A7u32, 0xE1B5_08E6u32) == 0xC898_6D7Du32
        &&& times(0xC898_6D7Du32, 0xC898_6D7Du32) == 0xDBBC_E6A9u32
        &&& times(0xDBBC_E6A9u32, 0xDBBC_E6A9u32) == 0x8FAC_3B58u32
        &&& times(0xC898_6D7Du32, 0x8FAC_3B58u32) == 0x2854_5337u32
        &&& times(0x2854_5337u32, 0x2854_5337u32) == 0xE517_41C2u32
        &&& times(0xE517_41C2u32, 0xE517_41C2u32) == 0xBDB6_35EFu32
        &&& times(0xBDB6_35EFu32, 0xBDB6_35EFu32) == 0x3878_D0AFu32
        &&& times(0x3878_D0AFu32, 0x3878_D0AFu32) == 0xFFA8_5B1Du32
        &&& times(0x2854_5337u32, 0xFFA8_5B1Du32) == 0x351C_22C9u32
        &&& times(0x4000_0000u32, 0x2000_0000u32) == 0x1000_0000u32
        &&& times(0x1000_0000u32, 0x0800_0000u32) == 0x0100_0000u32
        &&& times(0x0100_0000u32, 0x0080_0000u32) == 0x0001_0000u32
        &&& times(0x0001_0000u32, 0x0000_8000u32) == 0x0000_0001u32
        &&& times(0x0000_0001u32, 0xEDB8_8320u32) == 0xB8BC_6765u32
        &&& times(0xB8BC_6765u32, 0xB1E6_B092u32) == 0x9BA5_4C6Fu32
        &&& times(0x9BA5_4C6Fu32, 0xA06A_2517u32) == 0x01B5_FD1Du32
        &&& times(0x01B5_FD1Du32, 0xED62_7DAEu32) == 0xCAD3_8E8Fu32
        &&& times(0xCAD3_8E8Fu32, 0x88D1_4467u32) == 0x7406_FA95u32
        &&& times(0x7406_FA95u32, 0xD7BB_FE6Au32) == 0x03F9_F863u32
        &&& times(0x03F9_F863u32, 0xEC44_7F11u32) == 0xC78C_44A1u32
        &&& times(0xC78C_44A1u32, 0x8E7E_A170u32) == 0xC84F_001Cu32
        &&& times(0xC84F_001Cu32, 0x6427_800Eu32) == 0x9A8F_75C0u32
        &&& times(0x9A8F_75C0u32, 0x4D47_BAE0u32) == 0x13FC_A91Eu32
        &&& times(0x13FC_A91Eu32, 0x09FE_548Fu32) == 0xDC7B_5C5Fu32
    }) by (bit_vector);
    lemma_multiply(0x1, 0x10000);
    lemma_multiply(0x10001, 0x10001);
    lemma_multiply(0x10001, 0x20002);
    lemma_multiply(0x30003, 0x30003);
    lemma_multiply(0x60006, 0x60006);
    lemma_multiply(0x30003, 0xC000C);
    lemma_multiply(0xF000F, 0xF000F);
    lemma_multiply(0x1E001E, 0x1E001E);
    lemma_multiply(0x3C003C, 0x3C003C);
    lemma_multiply(0x780078, 0x780078);
    lemma_multiply(0xF000F, 0xF000F0);
    lemma_multiply(0x1, 0x2);
    lemma_multiply(0x3, 0x4);
    lemma_multiply(0x7, 0x8);
    lemma_multiply(0xF, 0x10);
    lemma_multiply(0x1F, 0x20);
    lemma_multiply(0x3F, 0x40);
    lemma_multiply(0x7F, 0x80);
    lemma_multiply(0xFF, 0x100);
    lemma_multiply(0x1FF, 0x200);
    lemma_multiply(0x3FF, 0x400);
    lemma_multiply(0x7FF, 0x800);
    lemma_multiply(0xFFF, 0x1000);
    lemma_multiply(0x1FFF, 0x2000);
    lemma_multiply(0x3FFF, 0x4000);
    lemma_multiply(0x7FFF, 0x8000);
}

// ---- which powers are 1 ----

/// The register is back after a number of steps plus others exactly where it is
/// after the others alone.
proof fn lemma_back_again(a: nat, b: nat)
    requires
        power(a) == ONE,
    ensures
        power(a + b) == power(b),
{
    lemma_steps_add(ONE, a, b);
}

/// It is back after every multiple.
proof fn lemma_back_in_turns(a: nat, k: nat)
    requires
        power(a) == ONE,
    ensures
        power(a * k) == ONE,
    decreases k,
{
    if k > 0 {
        lemma_back_in_turns(a, (k - 1) as nat);
        assert(a * k == a * (k - 1) + a) by (nonlinear_arith)
            requires
                k > 0,
        ;
        lemma_back_again((a * (k - 1)) as nat, a);
    } else {
        assert(a * k == 0) by (nonlinear_arith)
            requires
                k == 0,
        ;
    }
}

/// The greatest common divisor `r.0` of `a` and `b`, as `r.1 * a + r.2 * b`.
proof fn lemma_common_divisor(a: int, b: int) -> (r: (int, int, int))
    requires
        0 < a,
        0 <= b,
    ensures
        0 < r.0,
        r.0 == r.1 * a + r.2 * b,
        a % r.0 == 0,
        b % r.0 == 0,
    decreases b,
{
    if b == 0 {
        assert(a == 1 * a + 0 * b);
        assert(a % a == 0) by (nonlinear_arith)
            requires
                0 < a,
        ;
        (a, 1, 0)
    } else {
        let (g, u, v) = lemma_common_divisor(b, a % b);
        let q = a / b;
        let s = b / g;
        let w = (a % b) / g;
        assert(a == b * q + a % b) by (nonlinear_arith)
            requires
                q == a / b,
                0 < b,
        ;
        assert(g == v * a + (u - q * v) * b) by (nonlinear_arith)
            requires
                g == u * b + v * (a % b),
                a == b * q + a % b,
        ;
        assert(b == g * s && a % b == g * w) by (nonlinear_arith)
            requires
                b % g == 0,
                (a % b) % g == 0,
                s == b / g,
                w == (a % b) / g,
                0 < g,
        ;
        assert(a == g * (s * q + w)) by (nonlinear_arith)
            requires
                a == b * q + a % b,
                b == g * s,
                a % b == g * w,
        ;
        lemma_multiple(g, s * q + w);
        (g, v, u - q * v)
    }
}

/// A multiple leaves no remainder.
proof fn lemma_multiple(g: int, k: int)
    requires
        0 < g,
    ensures
        (g * k) % g == 0,
        (g * k) / g == k,
{
    assert(g * k == k * g) by (nonlinear_arith);
    vstd::arithmetic::div_mod::lemma_mod_multiples_basic(k, g);
    vstd::arithmetic::div_mod::lemma_div_multiples_vanish(k, g);
}

/// The register is back after the greatest common divisor of two numbers of
/// steps after which it is back.
proof fn lemma_back_after_divisor(a: nat, b: nat, g: int, u: int, v: int)
    requires
        power(a) == ONE,
        power(b) == ONE,
        0 < g,
        g == u * a + v * b,
    ensures
        power(g as nat) == ONE,
{
    if u >= 0 && v >= 0 {
        lemma_back_in_turns(a, u as nat);
        lemma_back_in_turns(b, v as nat);
        assert(a * u == u * a && b * v == v * b) by (nonlinear_arith);
        lemma_back_again((a * u) as nat, (b * v) as nat);
    } else if u >= 0 {
        lemma_back_in_turns(a, u as nat);
        lemma_back_in_turns(b, (-v) as nat);
        assert(a * u == b * (-v) + g) by (nonlinear_arith)
            requires
                g == u * a + v * b,
        ;
        lemma_back_again((b * (-v)) as nat, g as nat);
    } else if v >= 0 {
        lemma_back_in_turns(a, (-u) as nat);
        lemma_back_in_turns(b, v as nat);
        assert(b * v == a * (-u) + g) by (nonlinear_arith)
            requires
                g == u * a + v * b,
        ;
        lemma_back_again((a * (-u)) as nat, g as nat);
    } else {
        assert(false) by (nonlinear_arith)
            requires
                u < 0,
                v < 0,
                0 < g,
                a >= 0,
                b >= 0,
                g == u * a + v * b,
        ;
    }
}

/// The prime factors of the order.
spec fn factor(q: int) -> bool {
    q == 3 || q == 5 || q == 17 || q == 257 || q == 65537
}

/// None of them has a small divisor.
proof fn lemma_no_small_divisor(d: u32)
    by (bit_vector)
    requires
        1 < d,
        d <= 256,
    ensures
        65537u32 % d != 0,
        d < 257 ==> 257u32 % d != 0,
        d < 17 ==> 17u32 % d != 0,
        d < 5 ==> 5u32 % d != 0,
        d < 3 ==> 3u32 % d != 0,
{
}

/// They are prime.
proof fn lemma_prime(q: int, d: int)
    requires
        factor(q),
        0 < d,
        q % d == 0,
    ensures
        d == 1 || d == q,
{
    let e = q / d;
    assert(q == d * e && d <= q && 0 < e) by (nonlinear_arith)
        requires
            e == q / d,
            q % d == 0,
            0 < d,
            0 < q,
    ;
    if d != 1 && d != q {
        if d <= 256 {
            lemma_no_small_divisor(d as u32);
        } else {
            assert(1 < e <= 256) by (nonlinear_arith)
                requires
                    q == d * e,
                    257 <= d < q,
                    q <= 65537,
                    0 < e,
            ;
            lemma_multiple(e, d);
            assert(e * d == d * e) by (nonlinear_arith);
            lemma_no_small_divisor(e as u32);
        }
    }
}

/// A number that divides a multiple of a prime factor, and that the factor does
/// not divide, divides what it was multiplied with.
proof fn lemma_factor_out(k: int, q: int, rest: int)
    requires
        factor(q),
        0 < k,
        (q * rest) % k == 0,
        k % q != 0,
    ensures
        rest % k == 0,
{
    let (g, u, v) = lemma_common_divisor(q, k);
    lemma_prime(q, g);
    let m = (q * rest) / k;
    assert(q * rest == k * m) by (nonlinear_arith)
        requires
            m == (q * rest) / k,
            (q * rest) % k == 0,
            0 < k,
    ;
    assert(rest == k * (u * m + v * rest)) by (nonlinear_arith)
        requires
            1 == u * q + v * k,
            q * rest == k * m,
    ;
    lemma_multiple(k, u * m + v * rest);
}

/// A divisor of the order that none of the prime factors divides is 1.
proof fn lemma_without_factors(k: int)
    requires
        0 < k,
        ORDER as int % k == 0,
        forall|q: int| #[trigger] factor(q) ==> k % q != 0,
    ensures
        k == 1,
{
    assert(factor(3) && factor(5) && factor(17) && factor(257) && factor(65537));
    lemma_factor_out(k, 3, 0x5555_5555);
    lemma_factor_out(k, 5, 0x1111_1111);
    lemma_factor_out(k, 17, 0x0101_0101);
    lemma_factor_out(k, 257, 0x0001_0001);
    lemma_factor_out(k, 65537, 1);
    assert(k == 1) by (nonlinear_arith)
        requires
            1int % k == 0,
            0 < k,
    ;
}

/// The register is not back after a prime factor's share of the order.
proof fn lemma_not_back_before(q: int)
    requires
        factor(q),
    ensures
        power((ORDER as int / q) as nat) != ONE,
{
    lemma_third_and_fifth();
    lemma_seventeenth();
    lemma_large_factors();
    assert(ORDER as int / 3 == 0x5555_5555);
    assert(ORDER as int / 5 == 0x3333_3333);
    assert(ORDER as int / 17 == 0x0F0F_0F0F);
    assert(ORDER as int / 257 == 0x00FF_00FF);
    assert(ORDER as int / 65537 == 0xFFFF);
}

/// The register is back after a number of steps exactly if that is a multiple of
/// 2^32 - 1.
pub proof fn law_order(d: nat)
    ensures
        power(d) == ONE <==> d % ORDER as nat == 0,
{
    lemma_third_and_fifth();
    let n = ORDER as int;
    if d as int % n == 0 {
        let k = d as int / n;
        assert(d == n * k && k >= 0) by (nonlinear_arith)
            requires
                k == d as int / n,
                d as int % n == 0,
                n > 0,
        ;
        lemma_back_in_turns(ORDER as nat, k as nat);
    } else if power(d) == ONE {
        let (g, u, v) = lemma_common_divisor(n, d as int);
        lemma_back_after_divisor(ORDER as nat, d, g, u, v);
        let k = n / g;
        assert(n == g * k && 0 < k) by (nonlinear_arith)
            requires
                k == n / g,
                n % g == 0,
                0 < g,
                0 < n,
        ;
        if forall|q: int| #[trigger] factor(q) ==> k % q != 0 {
            lemma_multiple(k, g);
            assert(k * g == g * k) by (nonlinear_arith);
            lemma_without_factors(k);
            assert(g * 1 == g);
        } else {
            let q = choose|q: int| #[trigger] factor(q) && k % q == 0;
            let j = k / q;
            assert(n == q * (g * j) && g * j >= 0) by (nonlinear_arith)
                requires
                    n == g * k,
                    k % q == 0,
                    j == k / q,
                    0 < q,
                    0 < g,
                    0 < k,
            ;
            lemma_multiple(q, g * j);
            assert(j >= 0) by (nonlinear_arith)
                requires
                    j == k / q,
                    0 < k,
                    0 < q,
            ;
            lemma_back_in_turns(g as nat, j as nat);
            lemma_not_back_before(q);
        }
    }
}

/// A single low bit comes back to itself exactly where the register does.
pub proof fn lemma_low_bit_returns(d: nat)
    ensures
        crc_steps(1, d) == 1 <==> d % ORDER as nat == 0,
{
    law_order(d);
    lemma_single_bits(31);
    assert(0x8000_0000u32 >> 31u32 == 1) by (bit_vector);
    lemma_steps_add(ONE, 31, d);
    lemma_steps_add(ONE, d, 31);
    if crc_steps(1, d) == 1 {
        lemma_steps_injective(power(d), ONE, 31);
    }
}

} // verus!
