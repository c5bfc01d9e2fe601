//! The degree-2 extension field in which constraints are evaluated.
//!
//! An element is a pair `c0 + c1*w` of base-field values, where `w` is a
//! square root of [`EXTENSION_W`]; the opened polynomial values, the sampling
//! point and the constraint accumulators all live here.

use vstd::prelude::*;
use vstd::arithmetic::div_mod::{lemma_add_mod_noop, lemma_mul_mod_noop_general, lemma_small_mod};
use vstd::arithmetic::mul::{
    lemma_mul_is_associative, lemma_mul_is_commutative, lemma_mul_is_distributive_add,
    lemma_mul_is_distributive_add_other_way,
};
use crate::field::{
    FIELD_ORDER, fadd, fmul, fsub, fe, f_add, f_mul, f_sub, f_try_inverse, f_try_inverse_spec,
};

verus! {

/// The extension is built by adjoining a square root of this non-residue.
pub const EXTENSION_W: u64 = 7;

/// An extension-field element `c0 + c1*w`.
#[derive(Clone, Copy, Debug, PartialEq, Eq, Structural)]
pub struct ExtVal {
    pub c0: u64,
    pub c1: u64,
}

/// Both coordinates are canonical base-field elements.
pub open spec fn ext_ok(a: ExtVal) -> bool {
    fe(a.c0) && fe(a.c1)
}

pub open spec fn e_zero() -> ExtVal {
    ExtVal { c0: 0, c1: 0 }
}

pub open spec fn e_one() -> ExtVal {
    ExtVal { c0: 1, c1: 0 }
}

/// A base-field element embedded into the extension.
pub open spec fn e_from_base(x: u64) -> ExtVal {
    ExtVal { c0: x, c1: 0 }
}

pub open spec fn e_add(a: ExtVal, b: ExtVal) -> ExtVal {
    ExtVal { c0: fadd(a.c0, b.c0), c1: fadd(a.c1, b.c1) }
}

pub open spec fn e_sub(a: ExtVal, b: ExtVal) -> ExtVal {
    ExtVal { c0: fsub(a.c0, b.c0), c1: fsub(a.c1, b.c1) }
}

/// Schoolbook product in the extension: (a0 + a1 w)(b0 + b1 w) with w^2 = W.
pub open spec fn e_mul(a: ExtVal, b: ExtVal) -> ExtVal {
    ExtVal {
        c0: fadd(fmul(a.c0, b.c0), fmul(EXTENSION_W, fmul(a.c1, b.c1))),
        c1: fadd(fmul(a.c0, b.c1), fmul(a.c1, b.c0)),
    }
}

/// `a` raised to the power 2^k, by k squarings.
pub open spec fn e_pow_2exp(a: ExtVal, k: nat) -> ExtVal
    decreases k,
{
    if k == 0 {
        a
    } else {
        let h = e_pow_2exp(a, (k - 1) as nat);
        e_mul(h, h)
    }
}

pub fn ext_zero() -> (r: ExtVal)
    ensures
        r == e_zero(),
        ext_ok(r),
{
    ExtVal { c0: 0, c1: 0 }
}

pub fn ext_one() -> (r: ExtVal)
    ensures
        r == e_one(),
        ext_ok(r),
{
    ExtVal { c0: 1, c1: 0 }
}

/// Embeds a base-field element into the extension.
pub fn ext_from_base(x: u64) -> (r: ExtVal)
    ensures
        r == e_from_base(x),
        fe(x) ==> ext_ok(r),
{
    ExtVal { c0: x, c1: 0 }
}

pub fn ext_add(a: ExtVal, b: ExtVal) -> (r: ExtVal)
    ensures
        r == e_add(a, b),
        ext_ok(r),
{
    ExtVal { c0: f_add(a.c0, b.c0), c1: f_add(a.c1, b.c1) }
}

pub fn ext_sub(a: ExtVal, b: ExtVal) -> (r: ExtVal)
    requires
        ext_ok(b),
    ensures
        r == e_sub(a, b),
        ext_ok(r),
{
    ExtVal { c0: f_sub(a.c0, b.c0), c1: f_sub(a.c1, b.c1) }
}

pub fn ext_mul(a: ExtVal, b: ExtVal) -> (r: ExtVal)
    ensures
        r == e_mul(a, b),
        ext_ok(r),
{
    ExtVal {
        c0: f_add(f_mul(a.c0, b.c0), f_mul(EXTENSION_W, f_mul(a.c1, b.c1))),
        c1: f_add(f_mul(a.c0, b.c1), f_mul(a.c1, b.c0)),
    }
}

/// Raises `a` to the power 2^k by repeated squaring.
pub fn ext_pow_2exp(a: ExtVal, k: usize) -> (r: ExtVal)
    ensures
        r == e_pow_2exp(a, k as nat),
{
    let mut r = a;
    let mut i: usize = 0;
    while i < k
        invariant
            i <= k,
            r == e_pow_2exp(a, i as nat),
        decreases k - i,
    {
        r = ext_mul(r, r);
        i = i + 1;
    }
    r
}

/// The inverse of `a`, when the norm-based candidate passes the product
/// check; `None` otherwise. The candidate is the conjugate of `a` scaled by
/// the inverse of its norm `a0^2 - W*a1^2`, which lies in the base field.
/// For a field the check succeeds exactly when `a != 0`, but the contract
/// does not rely on that: it pins the result to this formula.
pub open spec fn e_try_inverse_spec(a: ExtVal) -> Option<ExtVal> {
    let norm = fsub(fmul(a.c0, a.c0), fmul(EXTENSION_W, fmul(a.c1, a.c1)));
    match f_try_inverse_spec(norm) {
        None => None,
        Some(ni) => {
            let candidate = ExtVal { c0: fmul(a.c0, ni), c1: fsub(0, fmul(a.c1, ni)) };
            if e_mul(candidate, a) == e_one() {
                Some(candidate)
            } else {
                None
            }
        },
    }
}

/// Computes the multiplicative inverse of an extension element, checking the
/// defining product before returning it.
pub fn ext_try_inverse(a: ExtVal) -> (r: Option<ExtVal>)
    requires
        ext_ok(a),
    ensures
        r == e_try_inverse_spec(a),
        r matches Some(v) ==> ext_ok(v) && e_mul(v, a) == e_one(),
{
    let norm = f_sub(f_mul(a.c0, a.c0), f_mul(EXTENSION_W, f_mul(a.c1, a.c1)));
    match f_try_inverse(norm) {
        None => None,
        Some(ni) => {
            let candidate = ExtVal { c0: f_mul(a.c0, ni), c1: f_sub(0, f_mul(a.c1, ni)) };
            let check = ext_mul(candidate, a);
            let one = ext_one();
            if check.c0 == one.c0 && check.c1 == one.c1 {
                Some(candidate)
            } else {
                None
            }
        },
    }
}

/// A product coordinate equals the unreduced bilinear form, reduced once.
proof fn lemma_e_mul_unreduced(a: ExtVal, b: ExtVal)
    ensures
        e_mul(a, b).c0 as int == (a.c0 * b.c0 + 7 * (a.c1 * b.c1)) % (FIELD_ORDER as int),
        e_mul(a, b).c1 as int == (a.c0 * b.c1 + a.c1 * b.c0) % (FIELD_ORDER as int),
{
    let m: int = FIELD_ORDER as int;
    lemma_mul_mod_noop_general(7, a.c1 * b.c1, m);
    lemma_add_mod_noop(a.c0 * b.c0, 7 * (a.c1 * b.c1), m);
    lemma_add_mod_noop(a.c0 * b.c1, a.c1 * b.c0, m);
}

/// Reducing the two left factors of `x*u + k*(y*v)` before the final
/// reduction does not change the result.
proof fn lemma_bilinear_mod(x: int, y: int, u: int, v: int, k: int)
    ensures
        ((x % (FIELD_ORDER as int)) * u + k * ((y % (FIELD_ORDER as int)) * v)) % (
        FIELD_ORDER as int) == (x * u + k * (y * v)) % (FIELD_ORDER as int),
{
    let m: int = FIELD_ORDER as int;
    assert(((x % m) * u) % m == (x * u) % m) by {
        lemma_mul_mod_noop_general(x, u, m);
    };
    assert((k * ((y % m) * v)) % m == (k * (y * v)) % m) by {
        lemma_mul_mod_noop_general(y, v, m);
        lemma_mul_mod_noop_general(k, (y % m) * v, m);
        lemma_mul_mod_noop_general(k, y * v, m);
    };
    lemma_add_mod_noop((x % m) * u, k * ((y % m) * v), m);
    lemma_add_mod_noop(x * u, k * (y * v), m);
}

/// Expanding the product of three extension elements from the left and
/// from the right gives the same two cubic forms.
proof fn lemma_cubic_forms_agree(a0: int, a1: int, b0: int, b1: int, c0: int, c1: int)
    ensures
        (a0 * b0 + 7 * (a1 * b1)) * c0 + 7 * ((a0 * b1 + a1 * b0) * c1) == a0 * (b0 * c0 + 7 * (b1
            * c1)) + 7 * (a1 * (b0 * c1 + b1 * c0)),
        (a0 * b0 + 7 * (a1 * b1)) * c1 + 1 * ((a0 * b1 + a1 * b0) * c0) == a0 * (b0 * c1 + b1 * c0)
            + 1 * (a1 * (b0 * c0 + 7 * (b1 * c1))),
{
    // Left expansions.
    lemma_mul_is_distributive_add_other_way(c0, a0 * b0, 7 * (a1 * b1));
    lemma_mul_is_distributive_add_other_way(c1, a0 * b0, 7 * (a1 * b1));
    lemma_mul_is_distributive_add_other_way(c0, a0 * b1, a1 * b0);
    lemma_mul_is_distributive_add_other_way(c1, a0 * b1, a1 * b0);
    lemma_mul_is_associative(a0, b0, c0);
    lemma_mul_is_associative(a0, b0, c1);
    lemma_mul_is_associative(a0, b1, c0);
    lemma_mul_is_associative(a0, b1, c1);
    lemma_mul_is_associative(a1, b0, c0);
    lemma_mul_is_associative(a1, b0, c1);
    lemma_mul_is_associative(a1, b1, c0);
    lemma_mul_is_associative(a1, b1, c1);
    lemma_mul_is_associative(7, a1 * b1, c0);
    lemma_mul_is_associative(7, a1 * b1, c1);
    lemma_mul_is_distributive_add(7, (a0 * b1) * c1, (a1 * b0) * c1);
    lemma_mul_is_distributive_add(7, (a0 * b1) * c0, (a1 * b0) * c0);
    // Right expansions.
    lemma_mul_is_distributive_add(a0, b0 * c0, 7 * (b1 * c1));
    lemma_mul_is_distributive_add(a0, b0 * c1, b1 * c0);
    lemma_mul_is_distributive_add(a1, b0 * c1, b1 * c0);
    lemma_mul_is_distributive_add(a1, b0 * c0, 7 * (b1 * c1));
    lemma_mul_is_distributive_add(7, a1 * (b0 * c1), a1 * (b1 * c0));
    // a * (7 * z) == 7 * (a * z), for the mixed coefficient terms.
    lemma_mul_is_associative(a0, 7, b1 * c1);
    lemma_mul_is_commutative(a0, 7);
    lemma_mul_is_associative(7, a0, b1 * c1);
    lemma_mul_is_associative(a1, 7, b1 * c1);
    lemma_mul_is_commutative(a1, 7);
    lemma_mul_is_associative(7, a1, b1 * c1);
}

/// Multiplication in the extension is associative.
pub proof fn lemma_e_mul_assoc(a: ExtVal, b: ExtVal, c: ExtVal)
    ensures
        e_mul(e_mul(a, b), c) == e_mul(a, e_mul(b, c)),
{
    let m: int = FIELD_ORDER as int;
    let ab = e_mul(a, b);
    let bc = e_mul(b, c);
    let a0 = a.c0 as int;
    let a1 = a.c1 as int;
    let b0 = b.c0 as int;
    let b1 = b.c1 as int;
    let c0 = c.c0 as int;
    let c1 = c.c1 as int;
    lemma_e_mul_unreduced(a, b);
    lemma_e_mul_unreduced(b, c);
    lemma_e_mul_unreduced(ab, c);
    lemma_e_mul_unreduced(a, bc);
    let x = a0 * b0 + 7 * (a1 * b1);
    let y = a0 * b1 + a1 * b0;
    let u = b0 * c0 + 7 * (b1 * c1);
    let v = b0 * c1 + b1 * c0;
    // Left association, both coordinates, as one reduction of the
    // unreduced cubic forms.
    lemma_bilinear_mod(x, y, c0, c1, 7);
    lemma_bilinear_mod(x, y, c1, c0, 1);
    assert(e_mul(ab, c).c0 as int == (x * c0 + 7 * (y * c1)) % m);
    assert(e_mul(ab, c).c1 as int == (x * c1 + 1 * (y * c0)) % m);
    // Right association likewise, with the reduced factors on the right.
    assert((a0 * (u % m) + 7 * (a1 * (v % m))) % m == (a0 * u + 7 * (a1 * v)) % m) by {
        lemma_bilinear_mod(u, v, a0, a1, 7);
        lemma_mul_is_commutative(a0, u % m);
        lemma_mul_is_commutative(a1, v % m);
        lemma_mul_is_commutative(a0, u);
        lemma_mul_is_commutative(a1, v);
    };
    assert((a0 * (v % m) + 1 * (a1 * (u % m))) % m == (a0 * v + 1 * (a1 * u)) % m) by {
        lemma_bilinear_mod(v, u, a0, a1, 1);
        lemma_mul_is_commutative(a0, v % m);
        lemma_mul_is_commutative(a1, u % m);
        lemma_mul_is_commutative(a0, v);
        lemma_mul_is_commutative(a1, u);
    };
    assert(e_mul(a, bc).c0 as int == (a0 * u + 7 * (a1 * v)) % m);
    assert(e_mul(a, bc).c1 as int == (a0 * v + 1 * (a1 * u)) % m);
    // The two cubic forms are the same polynomial.
    lemma_cubic_forms_agree(a0, a1, b0, b1, c0, c1);
}

/// One is the multiplicative unit on canonical elements.
pub proof fn lemma_e_mul_one(a: ExtVal)
    requires
        ext_ok(a),
    ensures
        e_mul(a, e_one()) == a,
{
    let m: nat = FIELD_ORDER as nat;
    vstd::arithmetic::mul::lemma_mul_basics(a.c0 as int);
    vstd::arithmetic::mul::lemma_mul_basics(a.c1 as int);
    lemma_small_mod(a.c0 as nat, m);
    lemma_small_mod(a.c1 as nat, m);
    lemma_small_mod(0nat, m);
}

/// Multiplication in the extension is commutative.
pub proof fn lemma_e_mul_comm(a: ExtVal, b: ExtVal)
    ensures
        e_mul(a, b) == e_mul(b, a),
{
    lemma_mul_is_commutative(a.c0 as int, b.c0 as int);
    lemma_mul_is_commutative(a.c1 as int, b.c1 as int);
    lemma_mul_is_commutative(a.c0 as int, b.c1 as int);
    lemma_mul_is_commutative(a.c1 as int, b.c0 as int);
}

/// Zero absorbs multiplication in the extension.
pub proof fn lemma_e_mul_zero(a: ExtVal)
    ensures
        e_mul(a, e_zero()) == e_zero(),
{
    vstd::arithmetic::mul::lemma_mul_basics(a.c0 as int);
    vstd::arithmetic::mul::lemma_mul_basics(a.c1 as int);
}

/// Multiplication distributes over addition in the extension.
#[verifier::rlimit(100)]
#[verifier::spinoff_prover]
pub proof fn lemma_e_mul_distributes(a: ExtVal, b: ExtVal, c: ExtVal)
    ensures
        e_mul(a, e_add(b, c)) == e_add(e_mul(a, b), e_mul(a, c)),
{
    let m: int = FIELD_ORDER as int;
    let a0 = a.c0 as int;
    let a1 = a.c1 as int;
    let b0 = b.c0 as int;
    let b1 = b.c1 as int;
    let c0 = c.c0 as int;
    let c1 = c.c1 as int;
    lemma_e_mul_unreduced(a, b);
    lemma_e_mul_unreduced(a, c);
    lemma_e_mul_unreduced(a, e_add(b, c));
    lemma_add_mod_noop(b0, c0, m);
    lemma_add_mod_noop(b1, c1, m);
    // Left side: the reduced sums may be pulled out of each product.
    assert((a0 * ((b0 + c0) % m) + 7 * (a1 * ((b1 + c1) % m))) % m == (a0 * (b0 + c0) + 7 * (a1 * (
    b1 + c1))) % m) by {
        lemma_bilinear_mod(b0 + c0, b1 + c1, a0, a1, 7);
        lemma_mul_is_commutative(a0, (b0 + c0) % m);
        lemma_mul_is_commutative(a1, (b1 + c1) % m);
        lemma_mul_is_commutative(a0, b0 + c0);
        lemma_mul_is_commutative(a1, b1 + c1);
    };
    assert((a0 * ((b1 + c1) % m) + 1 * (a1 * ((b0 + c0) % m))) % m == (a0 * (b1 + c1) + 1 * (a1 * (
    b0 + c0))) % m) by {
        lemma_bilinear_mod(b1 + c1, b0 + c0, a0, a1, 1);
        lemma_mul_is_commutative(a0, (b1 + c1) % m);
        lemma_mul_is_commutative(a1, (b0 + c0) % m);
        lemma_mul_is_commutative(a0, b1 + c1);
        lemma_mul_is_commutative(a1, b0 + c0);
    };
    // Right side: the two unreduced products add under one reduction.
    lemma_add_mod_noop(a0 * b0 + 7 * (a1 * b1), a0 * c0 + 7 * (a1 * c1), m);
    lemma_add_mod_noop(a0 * b1 + a1 * b0, a0 * c1 + a1 * c0, m);
    // The unreduced forms agree by distributivity.
    lemma_mul_is_distributive_add(a0, b0, c0);
    lemma_mul_is_distributive_add(a0, b1, c1);
    lemma_mul_is_distributive_add(a1, b0, c0);
    lemma_mul_is_distributive_add(a1, b1, c1);
    lemma_mul_is_distributive_add(7, a1 * b1, a1 * c1);
}

/// base^k in the extension.
pub open spec fn e_pow(base: ExtVal, k: nat) -> ExtVal
    decreases k,
{
    if k == 0 {
        e_one()
    } else {
        e_mul(base, e_pow(base, (k - 1) as nat))
    }
}

/// The direct evaluation sum vals[0]*base^k + vals[1]*base^(k+1) + ...
pub open spec fn power_sum_from(vals: Seq<ExtVal>, base: ExtVal, k: nat) -> ExtVal
    decreases vals.len(),
{
    if vals.len() == 0 {
        e_zero()
    } else {
        e_add(e_mul(vals[0], e_pow(base, k)), power_sum_from(vals.drop_first(), base, k + 1))
    }
}

/// Multiplying a power sum by the base shifts every exponent up by one.
proof fn lemma_power_sum_shift(vals: Seq<ExtVal>, base: ExtVal, k: nat)
    ensures
        e_mul(base, power_sum_from(vals, base, k)) == power_sum_from(vals, base, k + 1),
    decreases vals.len(),
{
    if vals.len() == 0 {
        lemma_e_mul_zero(base);
    } else {
        let head = e_mul(vals[0], e_pow(base, k));
        let tail = power_sum_from(vals.drop_first(), base, k + 1);
        lemma_e_mul_distributes(base, head, tail);
        // base * (v * base^k) == v * base^(k+1)
        lemma_e_mul_assoc(base, vals[0], e_pow(base, k));
        lemma_e_mul_comm(base, vals[0]);
        lemma_e_mul_assoc(vals[0], base, e_pow(base, k));
        lemma_power_sum_shift(vals.drop_first(), base, k + 1);
    }
}

/// Horner evaluation equals the direct power sum: a chunk reconstructed by
/// Horner at a base point is exactly sum of chunk[j] * base^j, the direct
/// evaluation of the unsplit decomposition at that point.
pub proof fn lemma_horner_is_power_sum(vals: Seq<ExtVal>, base: ExtVal)
    requires
        forall|i: int| 0 <= i < vals.len() ==> ext_ok(#[trigger] vals[i]),
    ensures
        horner(vals, base) == power_sum_from(vals, base, 0),
    decreases vals.len(),
{
    if vals.len() > 0 {
        assert(forall|i: int|
            0 <= i < vals.drop_first().len() ==> ext_ok(#[trigger] vals.drop_first()[i]));
        lemma_horner_is_power_sum(vals.drop_first(), base);
        lemma_power_sum_shift(vals.drop_first(), base, 0);
        lemma_e_mul_one(vals[0]);
    }
}

/// Horner evaluation of `vals` read as coefficients of a polynomial in
/// `base`: vals[0] + base*(vals[1] + base*(...)).
pub open spec fn horner(vals: Seq<ExtVal>, base: ExtVal) -> ExtVal
    decreases vals.len(),
{
    if vals.len() == 0 {
        e_zero()
    } else {
        e_add(vals[0], e_mul(base, horner(vals.drop_first(), base)))
    }
}

/// Evaluates the polynomial whose coefficients are `vals` at `base`, highest
/// coefficient first in the fold, matching the Horner scheme of [`horner`].
pub fn reduce_with_powers(vals: &Vec<ExtVal>, base: ExtVal) -> (r: ExtVal)
    ensures
        r == horner(vals@, base),
{
    let mut acc = ext_zero();
    let mut i: usize = vals.len();
    while i > 0
        invariant
            i <= vals@.len(),
            acc == horner(vals@.subrange(i as int, vals@.len() as int), base),
        decreases i,
    {
        i = i - 1;
        acc = ext_add(vals[i], ext_mul(base, acc));
        proof {
            let s = vals@.subrange(i as int, vals@.len() as int);
            assert(s.drop_first() =~= vals@.subrange(i as int + 1, vals@.len() as int));
            assert(s[0] == vals@[i as int]);
        }
    }
    proof {
        assert(vals@.subrange(0, vals@.len() as int) =~= vals@);
    }
    acc
}

} // verus!
