use stark_verifier::extension::{
    ext_add, ext_from_base, ext_mul, ext_one, ext_pow_2exp, ext_sub, ext_try_inverse, ExtVal,
};
use stark_verifier::field::{
    f_add, f_mul, f_pow, f_primitive_root_of_unity, f_sub, f_try_inverse, pow2_usize, FIELD_ORDER,
};

fn ev(c0: u64, c1: u64) -> ExtVal {
    ExtVal { c0, c1 }
}

#[test]
fn add_wraps_around_the_field_order() {
    assert_eq!(f_add(FIELD_ORDER - 1, 5), 4);
    assert_eq!(f_add(0, 0), 0);
}

#[test]
fn sub_wraps_around_the_field_order() {
    assert_eq!(f_sub(3, 5), FIELD_ORDER - 2);
    assert_eq!(f_sub(5, 5), 0);
}

#[test]
fn mul_reduces_modulo_the_field_order() {
    assert_eq!(f_mul(123456789, 987654321), 121932631112635269);
    assert_eq!(f_mul(FIELD_ORDER - 1, FIELD_ORDER - 1), 1);
}

#[test]
fn pow_matches_repeated_multiplication() {
    assert_eq!(f_pow(5, 13), 1220703125);
    assert_eq!(f_pow(5, 0), 1);
    let mut by_hand: u64 = 1;
    for _ in 0..13 {
        by_hand = f_mul(by_hand, 5);
    }
    assert_eq!(f_pow(5, 13), by_hand);
}

#[test]
fn inverse_multiplies_back_to_one() {
    let inv = f_try_inverse(7).unwrap();
    assert_eq!(inv, 2635249152773512046);
    assert_eq!(f_mul(inv, 7), 1);
}

#[test]
fn inverse_of_zero_is_none() {
    assert_eq!(f_try_inverse(0), None);
}

#[test]
fn primitive_root_has_exact_order() {
    let g = f_primitive_root_of_unity(3);
    assert_eq!(g, 16777216);
    assert_eq!(f_pow(g, 8), 1);
    assert_ne!(f_pow(g, 4), 1);
    // The subgroup generator itself closes after 2^32 steps.
    assert_eq!(f_primitive_root_of_unity(0), 1);
}

#[test]
fn pow2_usize_doubles() {
    assert_eq!(pow2_usize(0), 1);
    assert_eq!(pow2_usize(5), 32);
    assert_eq!(pow2_usize(32), 1 << 32);
}

#[test]
fn ext_mul_uses_the_quadratic_relation() {
    let r = ext_mul(ev(5, 6), ev(7, 9));
    assert_eq!(r, ev(413, 87));
}

#[test]
fn ext_add_sub_roundtrip() {
    let a = ev(11, FIELD_ORDER - 1);
    let b = ev(FIELD_ORDER - 3, 42);
    assert_eq!(ext_sub(ext_add(a, b), b), a);
}

#[test]
fn ext_pow_2exp_is_repeated_squaring() {
    let x = ev(3, 1);
    let mut by_hand = x;
    for _ in 0..4 {
        by_hand = ext_mul(by_hand, by_hand);
    }
    assert_eq!(ext_pow_2exp(x, 4), by_hand);
    assert_eq!(ext_pow_2exp(x, 0), x);
}

#[test]
fn ext_inverse_multiplies_back_to_one() {
    let x = ev(12345, 67890);
    let inv = ext_try_inverse(x).unwrap();
    assert_eq!(ext_mul(inv, x), ext_one());
}

#[test]
fn ext_inverse_of_zero_is_none() {
    assert_eq!(ext_try_inverse(ev(0, 0)), None);
}

#[test]
fn base_embedding_keeps_the_value() {
    assert_eq!(ext_from_base(9), ev(9, 0));
}
