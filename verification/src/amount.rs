//! Amounts as undo records store them.
//!
//! Round amounts are common, so the stored integer factors out up to nine
//! trailing decimal zeros: it packs the exponent `e`, the last nonzero digit
//! `d` and the remaining leading part into one number that is small when the
//! amount is round.

use vstd::prelude::*;
use vstd::arithmetic::div_mod::lemma_mul_mod_noop_left;
use vstd::arithmetic::div_mod::lemma_small_mod;

verus! {

/// Two to the power 64: amounts are reported modulo this.
pub open spec fn word_modulus() -> nat {
    0x1_0000_0000_0000_0000
}

/// Ten to the power `e`.
pub open spec fn pow10(e: nat) -> nat
    decreases e,
{
    if e == 0 {
        1
    } else {
        10 * pow10((e - 1) as nat)
    }
}

/// The number of trailing decimal zeros that the stored integer `x` stands
/// for. Meaningful for `x > 0`.
pub open spec fn amount_exponent(x: nat) -> nat {
    ((x - 1) % 10) as nat
}

/// The amount that the stored integer `x` stands for once its trailing
/// zeros are taken away. Meaningful for `x > 0`.
pub open spec fn amount_mantissa(x: nat) -> nat {
    let q = ((x - 1) / 10) as nat;
    if amount_exponent(x) < 9 {
        (q / 9) * 10 + (q % 9) + 1
    } else {
        q + 1
    }
}

/// The amount, in satoshis, that the stored integer `x` stands for.
pub open spec fn decompressed_amount(x: nat) -> nat {
    if x == 0 {
        0
    } else {
        amount_mantissa(x) * pow10(amount_exponent(x))
    }
}

/// What a 64-bit decoder reports for the stored integer `x`: the low 64
/// bits of the amount.
pub open spec fn decompressed_amount_u64(x: u64) -> u64 {
    (decompressed_amount(x as nat) % word_modulus()) as u64
}

/// The stored integer for an amount `n` from which `e` trailing zeros have
/// been taken away already.
pub open spec fn compressed_from(n: nat, e: nat) -> nat
    decreases 9 - e,
{
    if e < 9 && n % 10 == 0 {
        compressed_from(n / 10, e + 1)
    } else if e < 9 {
        (1 + ((n / 10) * 9 + (n % 10) - 1) * 10 + e) as nat
    } else {
        (1 + (n - 1) * 10 + 9) as nat
    }
}

/// The integer that is stored for an amount of `n` satoshis.
pub open spec fn compressed_amount(n: nat) -> nat {
    if n == 0 {
        0
    } else {
        compressed_from(n, 0)
    }
}

proof fn lemma_pow10_positive(e: nat)
    ensures
        pow10(e) > 0,
    decreases e,
{
    if e > 0 {
        lemma_pow10_positive((e - 1) as nat);
    }
}

proof fn lemma_pow10_step(n: nat, e: nat)
    ensures
        n * pow10(e + 1) == (n * 10) * pow10(e),
{
    assert(pow10(e + 1) == 10 * pow10(e));
    assert(n * (10 * pow10(e)) == (n * 10) * pow10(e)) by (nonlinear_arith);
}

proof fn lemma_compressed_from_inverts(n: nat, e: nat)
    requires
        n > 0,
        e <= 9,
    ensures
        compressed_from(n, e) > 0,
        decompressed_amount(compressed_from(n, e)) == n * pow10(e),
    decreases 9 - e,
{
    if e < 9 && n % 10 == 0 {
        let k = n / 10;
        lemma_compressed_from_inverts(k, e + 1);
        lemma_pow10_step(k, e);
        assert(k * 10 == n);
    } else if e < 9 {
        let k = n / 10;
        let d = n % 10;
        let x = compressed_from(n, e);
        assert(x - 1 == (k * 9 + d - 1) * 10 + e);
        assert(amount_exponent(x) == e);
        assert((x - 1) / 10 == k * 9 + d - 1);
        assert(amount_mantissa(x) == n);
    } else {
        let x = compressed_from(n, e);
        assert(x - 1 == (n - 1) * 10 + 9);
        assert(amount_exponent(x) == 9);
        assert(amount_mantissa(x) == n);
    }
}

/// Decompression undoes compression: the integer stored for an amount
/// stands for that amount again, whatever the amount.
pub proof fn lemma_decompress_inverts_compress(n: nat)
    ensures
        decompressed_amount(compressed_amount(n)) == n,
{
    if n > 0 {
        lemma_compressed_from_inverts(n, 0);
        assert(n * pow10(0) == n) by (nonlinear_arith)
            requires
                pow10(0) == 1,
        ;
    }
}

proof fn lemma_compressed_from_skips_zeros(m: nat, j: nat, e: nat)
    requires
        m > 0,
        j <= e <= 9,
    ensures
        compressed_from(m * pow10(j), (e - j) as nat) == compressed_from(m, e),
    decreases j,
{
    if j == 0 {
        assert(m * pow10(0) == m) by (nonlinear_arith)
            requires
                pow10(0) == 1,
        ;
    } else {
        let rest = m * pow10((j - 1) as nat);
        lemma_pow10_step(m, (j - 1) as nat);
        assert(m * pow10(j) == rest * 10) by (nonlinear_arith)
            requires
                m * pow10(j) == (m * 10) * pow10((j - 1) as nat),
                rest == m * pow10((j - 1) as nat),
        ;
        assert((rest * 10) % 10 == 0 && (rest * 10) / 10 == rest);
        lemma_compressed_from_skips_zeros(m, (j - 1) as nat, e);
    }
}

/// Compression undoes decompression: no two stored integers stand for the
/// same amount.
pub proof fn lemma_compress_inverts_decompress(x: nat)
    ensures
        compressed_amount(decompressed_amount(x)) == x,
{
    if x > 0 {
        let e = amount_exponent(x);
        let m = amount_mantissa(x);
        let q = ((x - 1) / 10) as nat;
        lemma_pow10_positive(e);
        assert(m * pow10(e) > 0) by (nonlinear_arith)
            requires
                m > 0,
                pow10(e) > 0,
        ;
        lemma_compressed_from_skips_zeros(m, e, e);
        if e < 9 {
            assert(m % 10 == q % 9 + 1);
            assert(m / 10 == q / 9);
        }
    }
}

/// Restores the amount, in satoshis, that the stored integer `x` stands for.
///
/// The result is exact whenever the amount fits in 64 bits; a stored
/// integer that stands for more keeps the low 64 bits, as multiplying in a
/// 64-bit register does.
pub fn decompress_amount(x: u64) -> (amount: u64)
    ensures
        amount == decompressed_amount_u64(x),
        decompressed_amount(x as nat) <= u64::MAX ==> amount == decompressed_amount(x as nat),
        x == 0 ==> amount == 0,
{
    if x == 0 {
        return 0;
    }
    let y = x - 1;
    let mut e = y % 10;
    let q = y / 10;
    let mut n = if e < 9 {
        let d = (q % 9) + 1;
        (q / 9) * 10 + d
    } else {
        q + 1
    };
    let ghost mantissa = n as nat;
    let ghost exponent = e as nat;
    let ghost mut exact: nat = mantissa;
    assert(pow10(0) == 1);
    assert(mantissa * pow10(0) == mantissa) by (nonlinear_arith)
        requires
            pow10(0) == 1,
    ;
    proof {
        lemma_small_mod(mantissa, word_modulus());
    }
    while e != 0
        invariant
            e <= exponent,
            exponent <= 9,
            exact == mantissa * pow10((exponent - e) as nat),
            n == exact % word_modulus(),
        decreases e,
    {
        proof {
            lemma_mul_mod_noop_left(exact as int, 10, word_modulus() as int);
            lemma_pow10_step(mantissa, (exponent - e) as nat);
            assert((mantissa * 10) * pow10((exponent - e) as nat) == (mantissa * pow10(
                (exponent - e) as nat,
            )) * 10) by (nonlinear_arith);
            exact = exact * 10;
        }
        n = n.wrapping_mul(10);
        e = e - 1;
    }
    proof {
        if decompressed_amount(x as nat) <= u64::MAX {
            lemma_small_mod(decompressed_amount(x as nat), word_modulus());
        }
    }
    n
}

} // verus!
