//! The 64-bit prime field over which execution traces are committed.
//!
//! Elements are canonical `u64` values below [`FIELD_ORDER`]. All operations
//! are specified as integer arithmetic modulo the field order, and the
//! executable code is proved to match those specifications exactly.

use vstd::prelude::*;
use vstd::arithmetic::power::{
    pow, lemma_pow0, lemma_pow1, lemma_pow_adds, lemma_pow_mod_noop, lemma_pow_multiplies,
    lemma_square_is_pow2,
};
use vstd::arithmetic::power2::pow2;
use vstd::arithmetic::div_mod::{
    lemma_mod_multiples_vanish, lemma_mul_mod_noop_general, lemma_small_mod,
};
use vstd::bits::lemma_u64_shl_is_mul;

verus! {

/// Order of the base field: 2^64 - 2^32 + 1.
pub const FIELD_ORDER: u64 = 0xFFFF_FFFF_0000_0001;

/// A generator of the multiplicative subgroup of order 2^32, the largest
/// power-of-two subgroup of the field. Every trace-domain root of unity is a
/// power of this element.
pub const POWER_OF_TWO_GENERATOR: u64 = 7277203076849721926;

/// A canonical base-field element.
pub open spec fn fe(x: u64) -> bool {
    x < FIELD_ORDER
}

/// Field addition.
pub open spec fn fadd(a: u64, b: u64) -> u64 {
    ((a + b) % (FIELD_ORDER as int)) as u64
}

/// Field subtraction.
pub open spec fn fsub(a: u64, b: u64) -> u64 {
    ((a - b) % (FIELD_ORDER as int)) as u64
}

/// Field multiplication.
pub open spec fn fmul(a: u64, b: u64) -> u64 {
    ((a * b) % (FIELD_ORDER as int)) as u64
}

/// Field exponentiation.
pub open spec fn fpow(b: u64, e: nat) -> u64 {
    (pow(b as int, e) % (FIELD_ORDER as int)) as u64
}

/// The canonical 2^k-th root of unity of the trace domain: the subgroup
/// generator raised to 2^(32 - k).
pub open spec fn froot(k: nat) -> u64
    recommends
        k <= 32,
{
    fpow(POWER_OF_TWO_GENERATOR, pow2((32 - k) as nat))
}

/// Adds two field elements, reducing modulo the field order.
pub fn f_add(a: u64, b: u64) -> (r: u64)
    ensures
        r == fadd(a, b),
        fe(r),
{
    let s: u128 = a as u128 + b as u128;
    (s % (FIELD_ORDER as u128)) as u64
}

/// Subtracts two field elements, reducing modulo the field order.
pub fn f_sub(a: u64, b: u64) -> (r: u64)
    requires
        fe(b),
    ensures
        r == fsub(a, b),
        fe(r),
{
    let s: u128 = a as u128 + FIELD_ORDER as u128 - b as u128;
    proof {
        lemma_mod_multiples_vanish(1, a - b, FIELD_ORDER as int);
    }
    (s % (FIELD_ORDER as u128)) as u64
}

/// Multiplies two field elements, reducing modulo the field order.
pub fn f_mul(a: u64, b: u64) -> (r: u64)
    ensures
        r == fmul(a, b),
        fe(r),
{
    proof {
        vstd::arithmetic::mul::lemma_mul_upper_bound(
            a as int,
            0xFFFF_FFFF_FFFF_FFFF,
            b as int,
            0xFFFF_FFFF_FFFF_FFFF,
        );
    }
    let p: u128 = a as u128 * b as u128;
    (p % (FIELD_ORDER as u128)) as u64
}

/// pow of a square, under the modulus: pow((b*b) % m, k) % m == pow(b, 2k) % m.
proof fn lemma_pow_square_mod(b: int, k: nat)
    ensures
        pow((b * b) % (FIELD_ORDER as int), k) % (FIELD_ORDER as int) == pow(b, 2 * k) % (
        FIELD_ORDER as int),
{
    lemma_pow_mod_noop(b * b, k, FIELD_ORDER as int);
    lemma_square_is_pow2(b);
    lemma_pow_multiplies(b, 2, k);
}

/// Multiplying by a power of a reduced square equals multiplying by the
/// doubled power of the original base, under the modulus.
proof fn lemma_mul_pow_square_mod(r: int, b: int, k: nat)
    ensures
        (r * pow((b * b) % (FIELD_ORDER as int), k)) % (FIELD_ORDER as int) == (r * pow(b, 2 * k))
            % (FIELD_ORDER as int),
{
    let m: int = FIELD_ORDER as int;
    lemma_mul_mod_noop_general(r, pow((b * b) % m, k), m);
    lemma_pow_square_mod(b, k);
    lemma_mul_mod_noop_general(r, pow(b, 2 * k), m);
}

/// Raises a field element to an arbitrary 64-bit power by binary
/// exponentiation.
pub fn f_pow(base: u64, exp: u64) -> (r: u64)
    requires
        fe(base),
    ensures
        r == fpow(base, exp as nat),
        fe(r),
{
    let mut result: u64 = 1;
    let mut b: u64 = base;
    let mut e: u64 = exp;
    while e > 0
        invariant
            fe(result),
            fe(b),
            (result * pow(b as int, e as nat)) % (FIELD_ORDER as int) == pow(base as int, exp as nat)
                % (FIELD_ORDER as int),
        decreases e,
    {
        let ghost r0: int = result as int;
        let ghost b0: int = b as int;
        let ghost e0: u64 = e;
        let odd: bool = e & 1 == 1;
        if odd {
            result = f_mul(result, b);
        }
        let b_new = f_mul(b, b);
        e = e >> 1;
        b = b_new;
        proof {
            let m: int = FIELD_ORDER as int;
            assert(e0 >> 1 == e0 / 2) by (bit_vector);
            assert((e0 & 1) == e0 % 2) by (bit_vector);
            let k: nat = (e0 / 2) as nat;
            if odd {
                // e0 == 2k + 1: fold the multiplied-in base into the power.
                assert(((r0 * b0) % m * pow((b0 * b0) % m, k)) % m == ((r0 * b0) * pow(b0, 2 * k))
                    % m) by {
                    lemma_mul_mod_noop_general(r0 * b0, pow((b0 * b0) % m, k), m);
                    lemma_mul_pow_square_mod(r0 * b0, b0, k);
                };
                assert((r0 * b0) * pow(b0, 2 * k) == r0 * pow(b0, e0 as nat)) by {
                    lemma_pow1(b0);
                    lemma_pow_adds(b0, 1, 2 * k);
                    assert(b0 * pow(b0, 2 * k) == pow(b0, (2 * k + 1) as nat));
                    vstd::arithmetic::mul::lemma_mul_is_associative(r0, b0, pow(b0, 2 * k));
                };
            } else {
                // e0 == 2k: only the base is squared.
                lemma_mul_pow_square_mod(r0, b0, k);
            }
        }
    }
    proof {
        lemma_pow0(b as int);
        lemma_small_mod(result as nat, FIELD_ORDER as nat);
    }
    result
}

/// The inverse of `a`, when the Fermat candidate a^(p-2) passes the
/// product check; `None` otherwise. For the prime field order the check
/// succeeds exactly when `a != 0`, but the contract does not rely on
/// primality: it pins the result to this formula.
pub open spec fn f_try_inverse_spec(a: u64) -> Option<u64> {
    if fmul(fpow(a, (FIELD_ORDER - 2) as nat), a) == 1 {
        Some(fpow(a, (FIELD_ORDER - 2) as nat))
    } else {
        None
    }
}

/// Computes the multiplicative inverse of a field element via Fermat
/// exponentiation, checking the defining product before returning it.
pub fn f_try_inverse(a: u64) -> (r: Option<u64>)
    requires
        fe(a),
    ensures
        r == f_try_inverse_spec(a),
        r matches Some(v) ==> fe(v) && fmul(v, a) == 1,
{
    let candidate = f_pow(a, FIELD_ORDER - 2);
    if f_mul(candidate, a) == 1 {
        Some(candidate)
    } else {
        None
    }
}

/// 2^k as a machine integer; the required bound keeps the doubling loop
/// from overflowing.
pub fn pow2_usize(k: usize) -> (r: usize)
    requires
        pow2(k as nat) <= usize::MAX,
    ensures
        r == pow2(k as nat),
{
    let mut r: usize = 1;
    let mut i: usize = 0;
    proof {
        vstd::arithmetic::power2::lemma2_to64();
    }
    while i < k
        invariant
            i <= k,
            pow2(k as nat) <= usize::MAX,
            r == pow2(i as nat),
        decreases k - i,
    {
        proof {
            if i + 1 < k {
                vstd::arithmetic::power2::lemma_pow2_strictly_increases((i + 1) as nat, k as nat);
            }
            vstd::arithmetic::power2::lemma_pow2_unfold((i + 1) as nat);
        }
        r = r * 2;
        i = i + 1;
    }
    r
}

/// Returns the canonical primitive 2^n_log-th root of unity of the trace
/// domain.
pub fn f_primitive_root_of_unity(n_log: usize) -> (r: u64)
    requires
        n_log <= 32,
    ensures
        r == froot(n_log as nat),
        fe(r),
{
    let s: u64 = 32 - n_log as u64;
    let e: u64 = 1u64 << s;
    proof {
        vstd::arithmetic::power2::lemma2_to64();
        if s < 32 {
            vstd::arithmetic::power2::lemma_pow2_strictly_increases(s as nat, 32);
        }
        lemma_u64_shl_is_mul(1u64, s);
    }
    f_pow(POWER_OF_TWO_GENERATOR, e)
}

} // verus!
