use stark_verifier::consumer::ConstraintConsumer;
use stark_verifier::extension::{ext_from_base, ext_mul, ExtVal};
use stark_verifier::field::{f_primitive_root_of_unity, f_try_inverse};
use stark_verifier::proof_data::{
    FriConfigData, FriEvalsProofData, FriInitialTreeProofData, FriProofData, FriQueryRoundData,
    HashDigest, MerkleCapData, MerkleProofData, StarkConfig, StarkOpeningSet, StarkProof,
    StarkProofChallenges, StarkProofWithPublicInputs, FriChallengesData,
};
use stark_verifier::stark::{CountingStark, Stark};
use stark_verifier::verify::{
    recover_degree, recover_degree_bits, verify_with_challenges, StarkError,
};

fn ev(c0: u64, c1: u64) -> ExtVal {
    ExtVal { c0, c1 }
}

fn digest(x: u64) -> HashDigest {
    HashDigest { elements: [x, 0, 0, 0] }
}

/// A proof skeleton whose first Merkle path has `siblings` siblings, with
/// the given openings.
fn make_proof(
    siblings: usize,
    local: Vec<ExtVal>,
    next: Vec<ExtVal>,
    quotient: Vec<ExtVal>,
) -> StarkProofWithPublicInputs {
    let path = MerkleProofData {
        siblings: (0..siblings).map(|i| digest(i as u64)).collect(),
    };
    let round = FriQueryRoundData {
        initial_trees_proof: FriInitialTreeProofData {
            evals_proofs: vec![FriEvalsProofData { evals: vec![0], merkle_proof: path }],
        },
        steps: vec![],
    };
    StarkProofWithPublicInputs {
        proof: StarkProof {
            trace_cap: MerkleCapData { hashes: vec![digest(7), digest(8)] },
            quotient_polys_cap: MerkleCapData { hashes: vec![digest(9), digest(10)] },
            openings: StarkOpeningSet {
                local_values: local,
                next_values: next,
                permutation_zs: vec![],
                quotient_polys: quotient,
            },
            opening_proof: FriProofData {
                commit_phase_merkle_caps: vec![],
                query_round_proofs: vec![round],
                final_poly: vec![],
                pow_witness: 0,
            },
        },
        public_inputs: vec![],
    }
}

fn config() -> StarkConfig {
    StarkConfig {
        num_challenges: 1,
        fri_config: FriConfigData { rate_bits: 1, cap_height: 1 },
    }
}

fn challenges(zeta: ExtVal) -> StarkProofChallenges {
    StarkProofChallenges {
        stark_zeta: zeta,
        stark_alphas: vec![2],
        fri_challenges: FriChallengesData {
            fri_alpha: ev(0, 0),
            fri_betas: vec![],
            fri_pow_response: 0,
            fri_query_indices: vec![],
        },
    }
}

/// The trace length comes from the proof's shape alone: siblings + cap
/// height - rate bits is its log2.
#[test]
fn degree_is_recovered_from_the_proof_shape() {
    let cfg = StarkConfig {
        num_challenges: 1,
        fri_config: FriConfigData { rate_bits: 3, cap_height: 1 },
    };
    let p = make_proof(5, vec![ev(0, 0)], vec![ev(1, 0)], vec![ev(0, 0); 8]);
    assert_eq!(recover_degree_bits(&p.proof, &cfg), Ok(3));
    assert_eq!(recover_degree(&p.proof, &cfg), Ok(8));
}

#[test]
fn degree_recovery_rejects_an_empty_proof() {
    let mut p = make_proof(5, vec![ev(0, 0)], vec![ev(1, 0)], vec![]);
    p.proof.opening_proof.query_round_proofs.clear();
    assert_eq!(
        recover_degree(&p.proof, &config()),
        Err(StarkError::MalformedProofShape)
    );
}

#[test]
fn degree_recovery_rejects_an_underflowing_shape() {
    // siblings + cap_height < rate_bits
    let cfg = StarkConfig {
        num_challenges: 1,
        fri_config: FriConfigData { rate_bits: 5, cap_height: 1 },
    };
    let p = make_proof(2, vec![ev(0, 0)], vec![ev(1, 0)], vec![]);
    assert_eq!(
        recover_degree(&p.proof, &cfg),
        Err(StarkError::MalformedProofShape)
    );
}

#[test]
fn degree_recovery_rejects_an_oversized_domain() {
    let p = make_proof(40, vec![ev(0, 0)], vec![ev(1, 0)], vec![]);
    assert_eq!(
        recover_degree(&p.proof, &config()),
        Err(StarkError::MalformedProofShape)
    );
}

/// A consistent counting trace passes every check the core owns and yields
/// the delegation data for the low-degree test.
#[test]
fn consistent_openings_reach_the_delegation() {
    // bits = 3 + 1 - 1 = 3; row value 0, next row 1; zero quotient.
    let p = make_proof(3, vec![ev(0, 0)], vec![ev(1, 0)], vec![ev(0, 0); 2]);
    let stark = CountingStark {};
    let r = verify_with_challenges(&stark, &p, &challenges(ev(3, 0)), &config());
    let req = r.expect("all core checks should pass");
    assert_eq!(req.degree_bits, 3);
    // Two oracles: one trace column, num_challenges << rate_bits quotient
    // chunks.
    assert_eq!(req.instance.oracles.len(), 2);
    assert_eq!(req.instance.oracles[0].num_polys, 1);
    assert_eq!(req.instance.oracles[1].num_polys, 2);
    assert_eq!(req.instance.batches.len(), 2);
    assert_eq!(req.instance.batches[0].point, ev(3, 0));
    let g = f_primitive_root_of_unity(3);
    assert_eq!(
        req.instance.batches[1].point,
        ext_mul(ev(3, 0), ext_from_base(g))
    );
    // Openings reshaped: [local ++ permutation ++ quotient], [next].
    assert_eq!(req.openings.batches.len(), 2);
    assert_eq!(
        req.openings.batches[0].values,
        vec![ev(0, 0), ev(0, 0), ev(0, 0)]
    );
    assert_eq!(req.openings.batches[1].values, vec![ev(1, 0)]);
}

/// Tampering with a single opened quotient value breaks the quotient
/// identity, and the first failing index is reported.
#[test]
fn tampered_quotient_value_is_rejected() {
    let p = make_proof(3, vec![ev(0, 0)], vec![ev(1, 0)], vec![ev(1, 0), ev(0, 0)]);
    let stark = CountingStark {};
    let r = verify_with_challenges(&stark, &p, &challenges(ev(3, 0)), &config());
    assert_eq!(r, Err(StarkError::QuotientMismatch(0)));
}

/// Tampering with an opened trace value changes the accumulated constraint
/// value and is caught by the same identity.
#[test]
fn tampered_trace_value_is_rejected() {
    let p = make_proof(3, vec![ev(5, 0)], vec![ev(1, 0)], vec![ev(0, 0); 2]);
    let stark = CountingStark {};
    let r = verify_with_challenges(&stark, &p, &challenges(ev(3, 0)), &config());
    assert_eq!(r, Err(StarkError::QuotientMismatch(0)));
}

/// Tampering with an opened next-row value breaks the transition
/// constraint and is caught the same way.
#[test]
fn tampered_next_value_is_rejected() {
    let p = make_proof(3, vec![ev(0, 0)], vec![ev(2, 0)], vec![ev(0, 0); 2]);
    let stark = CountingStark {};
    let r = verify_with_challenges(&stark, &p, &challenges(ev(3, 0)), &config());
    assert_eq!(r, Err(StarkError::QuotientMismatch(0)));
}

/// A quotient opening that is not an exact multiple of the blow-up factor
/// is malformed.
#[test]
fn wrong_quotient_length_is_malformed() {
    let p = make_proof(3, vec![ev(0, 0)], vec![ev(1, 0)], vec![ev(0, 0)]);
    let stark = CountingStark {};
    let r = verify_with_challenges(&stark, &p, &challenges(ev(3, 0)), &config());
    assert_eq!(r, Err(StarkError::MalformedProofShape));
}

/// An opening row of the wrong width is malformed.
#[test]
fn wrong_row_width_is_malformed() {
    let p = make_proof(3, vec![], vec![ev(1, 0)], vec![ev(0, 0); 2]);
    let stark = CountingStark {};
    let r = verify_with_challenges(&stark, &p, &challenges(ev(3, 0)), &config());
    assert_eq!(r, Err(StarkError::MalformedProofShape));
}

/// A degenerate sampling point is rejected before any division.
#[test]
fn degenerate_sampling_point_is_rejected() {
    let p = make_proof(3, vec![ev(0, 0)], vec![ev(1, 0)], vec![ev(0, 0); 2]);
    let stark = CountingStark {};
    let r = verify_with_challenges(&stark, &p, &challenges(ev(1, 0)), &config());
    assert_eq!(r, Err(StarkError::DegenerateSamplingPoint));
}

/// Verifying the same immutable proof twice yields identical results, on
/// both the accepting and the rejecting path.
#[test]
fn verification_is_idempotent() {
    let stark = CountingStark {};
    let cfg = config();
    let good = make_proof(3, vec![ev(0, 0)], vec![ev(1, 0)], vec![ev(0, 0); 2]);
    let ch = challenges(ev(3, 0));
    let r1 = verify_with_challenges(&stark, &good, &ch, &cfg);
    let r2 = verify_with_challenges(&stark, &good, &ch, &cfg);
    assert!(r1.is_ok());
    assert_eq!(r1, r2);
    let bad = make_proof(3, vec![ev(0, 0)], vec![ev(1, 0)], vec![ev(1, 0), ev(0, 0)]);
    let e1 = verify_with_challenges(&stark, &bad, &ch, &cfg);
    let e2 = verify_with_challenges(&stark, &bad, &ch, &cfg);
    assert_eq!(e1, e2);
    assert_eq!(e1, Err(StarkError::QuotientMismatch(0)));
}

/// The consumer keeps one running combination per coefficient:
/// acc := acc * alpha + value.
#[test]
fn consumer_accumulates_with_its_coefficient() {
    let mut consumer = ConstraintConsumer::new(vec![ev(2, 0)], ev(3, 0), ev(4, 0));
    consumer.constraint(ev(5, 0));
    consumer.constraint(ev(7, 0));
    // First-row constraints are scaled by the first boundary value.
    consumer.constraint_first_row(ev(2, 0));
    let accs = consumer.accumulators();
    // ((0*2+5)*2+7)*2 + 3*2 = 40.
    assert_eq!(accs, vec![ev(40, 0)]);
}

#[test]
fn consumer_scales_last_row_constraints() {
    let mut consumer = ConstraintConsumer::new(vec![ev(1, 0)], ev(3, 0), ev(4, 0));
    consumer.constraint_last_row(ev(5, 0));
    let accs = consumer.accumulators();
    assert_eq!(accs, vec![ev(20, 0)]);
}

/// The openings reshaped for the delegate keep values and order.
#[test]
fn openings_reshape_preserves_values_and_order() {
    let set = StarkOpeningSet {
        local_values: vec![ev(1, 0), ev(2, 0)],
        next_values: vec![ev(3, 0)],
        permutation_zs: vec![ev(4, 0)],
        quotient_polys: vec![ev(5, 0), ev(6, 0)],
    };
    let openings = set.to_fri_openings();
    assert_eq!(openings.batches.len(), 2);
    assert_eq!(
        openings.batches[0].values,
        vec![ev(1, 0), ev(2, 0), ev(4, 0), ev(5, 0), ev(6, 0)]
    );
    assert_eq!(openings.batches[1].values, vec![ev(3, 0)]);
}

/// Sanity for the challenge invariants the verifier relies on: the base
/// field rejects zero inverses, so degenerate denominators cannot slip
/// through as values.
#[test]
fn zero_has_no_inverse() {
    assert_eq!(f_try_inverse(0), None);
}
