use stark_verifier::extension::{
    ext_add, ext_from_base, ext_mul, ext_one, ext_pow_2exp, ext_sub, ExtVal,
};
use stark_verifier::field::{f_pow, f_primitive_root_of_unity, FIELD_ORDER};
use stark_verifier::verify::{eval_l_1_and_l_last, StarkError};
use stark_verifier::extension::reduce_with_powers;

fn ev(c0: u64, c1: u64) -> ExtVal {
    ExtVal { c0, c1 }
}

/// For n = 8 and a point off the domain, the two boundary values satisfy
/// L_first(x) * n * (x - 1) == x^8 - 1 and L_last(x) * n * (g*x - 1) ==
/// x^8 - 1 exactly: the shared numerator is the vanishing polynomial of
/// the domain.
#[test]
fn boundary_values_satisfy_their_defining_identities() {
    let log_n: usize = 3;
    let n = ext_from_base(8);
    let g = ext_from_base(f_primitive_root_of_unity(log_n));
    let x = ev(3, 5);
    let (l_first, l_last) = eval_l_1_and_l_last(log_n, x).unwrap();
    let z_x_minus_1 = ext_sub(ext_pow_2exp(x, log_n), ext_one());
    let d_first = ext_mul(n, ext_sub(x, ext_one()));
    let d_last = ext_mul(n, ext_sub(ext_mul(g, x), ext_one()));
    assert_eq!(ext_mul(l_first, d_first), z_x_minus_1);
    assert_eq!(ext_mul(l_last, d_last), z_x_minus_1);
}

/// On every domain point other than the rows they isolate, both boundary
/// values vanish: the numerator x^8 - 1 is zero on the whole domain.
#[test]
fn boundary_values_vanish_on_interior_domain_points() {
    let log_n: usize = 3;
    let g = f_primitive_root_of_unity(log_n);
    let mut x = g;
    for _ in 1..=6 {
        let (l_first, l_last) = eval_l_1_and_l_last(log_n, ext_from_base(x)).unwrap();
        assert_eq!(l_first, ev(0, 0));
        assert_eq!(l_last, ev(0, 0));
        x = stark_verifier::field::f_mul(x, g);
    }
}

/// Sampling exactly at 1 makes the first-row denominator vanish.
#[test]
fn boundary_rejects_sampling_point_one() {
    let r = eval_l_1_and_l_last(3, ext_one());
    assert_eq!(r, Err(StarkError::DegenerateSamplingPoint));
}

/// Sampling exactly at g^{-1} makes the last-row denominator vanish.
#[test]
fn boundary_rejects_sampling_point_g_inverse() {
    let g = f_primitive_root_of_unity(3);
    let g_inv = f_pow(g, FIELD_ORDER - 2);
    let r = eval_l_1_and_l_last(3, ext_from_base(g_inv));
    assert_eq!(r, Err(StarkError::DegenerateSamplingPoint));
}

/// An ordinary off-domain point is not degenerate.
#[test]
fn boundary_accepts_an_ordinary_point() {
    assert!(eval_l_1_and_l_last(3, ev(3, 0)).is_ok());
}

/// Reconstructing a quotient polynomial from its degree-decomposed chunk
/// equals evaluating the unsplit polynomial directly: with
/// t(X) = c0 + c1*X^n + c2*X^2n + c3*X^3n, the chunk [c0..c3] reduced with
/// powers of zeta^n gives t(zeta).
#[test]
fn chunk_reconstruction_matches_direct_evaluation() {
    let zeta = ev(3, 7);
    let log_n: usize = 3;
    let zeta_n = ext_pow_2exp(zeta, log_n);
    let chunk = vec![ev(11, 0), ev(22, 1), ev(33, 2), ev(44, 3)];
    let reconstructed = reduce_with_powers(&chunk, zeta_n);
    // Direct evaluation with explicit powers of zeta^n.
    let p0 = ext_one();
    let p1 = zeta_n;
    let p2 = ext_mul(p1, zeta_n);
    let p3 = ext_mul(p2, zeta_n);
    let direct = ext_add(
        ext_add(ext_mul(chunk[0], p0), ext_mul(chunk[1], p1)),
        ext_add(ext_mul(chunk[2], p2), ext_mul(chunk[3], p3)),
    );
    assert_eq!(reconstructed, direct);
}

#[test]
fn chunk_reconstruction_edge_cases() {
    let base = ev(5, 1);
    assert_eq!(reduce_with_powers(&vec![], base), ev(0, 0));
    assert_eq!(reduce_with_powers(&vec![ev(9, 4)], base), ev(9, 4));
    let two = vec![ev(2, 0), ev(3, 0)];
    assert_eq!(
        reduce_with_powers(&two, base),
        ext_add(ev(2, 0), ext_mul(base, ev(3, 0)))
    );
}
