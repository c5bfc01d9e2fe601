//! The proof objects consumed by the verifier, and the verifier's
//! configuration.
//!
//! Everything the algebraic checks read is held as plain values: digests are
//! quadruples of base-field words, openings are extension-field elements.
//! The opening proof mirrors the shape of a low-degree-test proof — ordered
//! query rounds, each with Merkle inclusion paths — because the trace length
//! is recovered from the length of those paths.

use vstd::prelude::*;
use crate::extension::{ExtVal, ext_ok};
use crate::field::fe;

verus! {

/// A hash digest: four base-field words, as produced by the field-friendly
/// hash that builds the Merkle trees.
#[derive(Clone, Copy, Debug, PartialEq, Eq)]
pub struct HashDigest {
    pub elements: [u64; 4],
}

/// The top rows of a Merkle tree, committing to all leaves below.
#[derive(Clone, Debug, PartialEq, Eq)]
pub struct MerkleCapData {
    pub hashes: Vec<HashDigest>,
}

/// The sibling digests of one Merkle inclusion path.
#[derive(Clone, Debug, PartialEq, Eq)]
pub struct MerkleProofData {
    pub siblings: Vec<HashDigest>,
}

/// Opened leaf values of one committed oracle at one query point, with the
/// Merkle path authenticating them.
#[derive(Clone, Debug, PartialEq, Eq)]
pub struct FriEvalsProofData {
    pub evals: Vec<u64>,
    pub merkle_proof: MerkleProofData,
}

/// The openings of every committed oracle at one query point.
#[derive(Clone, Debug, PartialEq, Eq)]
pub struct FriInitialTreeProofData {
    pub evals_proofs: Vec<FriEvalsProofData>,
}

/// One folding step of a query round.
#[derive(Clone, Debug, PartialEq, Eq)]
pub struct FriQueryStepData {
    pub evals: Vec<ExtVal>,
    pub merkle_proof: MerkleProofData,
}

/// One query round of the low-degree-test proof.
#[derive(Clone, Debug, PartialEq, Eq)]
pub struct FriQueryRoundData {
    pub initial_trees_proof: FriInitialTreeProofData,
    pub steps: Vec<FriQueryStepData>,
}

/// The full low-degree-test proof. The verifier core reads only the shape of
/// the first query round's first Merkle path; the rest is carried through to
/// the delegated low-degree test untouched.
#[derive(Clone, Debug, PartialEq, Eq)]
pub struct FriProofData {
    pub commit_phase_merkle_caps: Vec<MerkleCapData>,
    pub query_round_proofs: Vec<FriQueryRoundData>,
    pub final_poly: Vec<ExtVal>,
    pub pow_witness: u64,
}

/// The four ordered sequences of opened polynomial values.
#[derive(Clone, Debug, PartialEq, Eq)]
pub struct StarkOpeningSet {
    /// Constraint-polynomial values at the sampled row.
    pub local_values: Vec<ExtVal>,
    /// Values at the next row, for transition constraints.
    pub next_values: Vec<ExtVal>,
    /// Auxiliary permutation-argument values, carried through opaquely.
    pub permutation_zs: Vec<ExtVal>,
    /// Chunked evaluations of the decomposed quotient polynomial.
    pub quotient_polys: Vec<ExtVal>,
}

/// Every opened value is a canonical extension element.
pub open spec fn openings_ok(o: StarkOpeningSet) -> bool {
    &&& forall|i: int| 0 <= i < o.local_values@.len() ==> ext_ok(#[trigger] o.local_values@[i])
    &&& forall|i: int| 0 <= i < o.next_values@.len() ==> ext_ok(#[trigger] o.next_values@[i])
    &&& forall|i: int| 0 <= i < o.permutation_zs@.len() ==> ext_ok(#[trigger] o.permutation_zs@[i])
    &&& forall|i: int| 0 <= i < o.quotient_polys@.len() ==> ext_ok(#[trigger] o.quotient_polys@[i])
}

/// One batch of claimed openings handed to the low-degree test: all values
/// opened at a single evaluation point.
#[derive(Clone, Debug, PartialEq, Eq)]
pub struct FriOpeningBatchData {
    pub values: Vec<ExtVal>,
}

/// The claimed openings reshaped into the low-degree test's format.
#[derive(Clone, Debug, PartialEq, Eq)]
pub struct FriOpeningsData {
    pub batches: Vec<FriOpeningBatchData>,
}

/// A STARK proof: two commitment caps, the opened values, and the
/// low-degree-test proof.
#[derive(Clone, Debug, PartialEq, Eq)]
pub struct StarkProof {
    pub trace_cap: MerkleCapData,
    pub quotient_polys_cap: MerkleCapData,
    pub openings: StarkOpeningSet,
    pub opening_proof: FriProofData,
}

/// A proof together with the base-field public inputs of the statement.
#[derive(Clone, Debug, PartialEq, Eq)]
pub struct StarkProofWithPublicInputs {
    pub proof: StarkProof,
    pub public_inputs: Vec<u64>,
}

pub open spec fn public_inputs_ok(p: StarkProofWithPublicInputs) -> bool {
    forall|i: int| 0 <= i < p.public_inputs@.len() ==> fe(#[trigger] p.public_inputs@[i])
}

/// The challenges consumed by the low-degree-test delegate. Opaque to the
/// verifier core, which hands them through unread.
#[derive(Clone, Debug, PartialEq, Eq)]
pub struct FriChallengesData {
    pub fri_alpha: ExtVal,
    pub fri_betas: Vec<ExtVal>,
    pub fri_pow_response: u64,
    pub fri_query_indices: Vec<usize>,
}

/// The deterministically derived challenges of one verification.
#[derive(Clone, Debug, PartialEq, Eq)]
pub struct StarkProofChallenges {
    /// The extension-field sampling point.
    pub stark_zeta: ExtVal,
    /// One random combination coefficient per constraint accumulator.
    pub stark_alphas: Vec<u64>,
    /// Challenges consumed only by the low-degree-test delegate.
    pub fri_challenges: FriChallengesData,
}

/// Well-formed challenges for a given configuration: one coefficient per
/// accumulator, every value canonical.
pub open spec fn challenges_ok(c: StarkProofChallenges, num_challenges: int) -> bool {
    &&& ext_ok(c.stark_zeta)
    &&& c.stark_alphas@.len() == num_challenges
    &&& forall|i: int| 0 <= i < c.stark_alphas@.len() ==> fe(#[trigger] c.stark_alphas@[i])
}

/// Parameters of the low-degree test that the verifier core itself reads.
#[derive(Clone, Copy, Debug, PartialEq, Eq)]
pub struct FriConfigData {
    /// log2 of the blow-up factor between trace domain and evaluation domain.
    pub rate_bits: usize,
    /// log2 of the number of digests in a Merkle cap.
    pub cap_height: usize,
}

/// The verifier's configuration.
#[derive(Clone, Copy, Debug, PartialEq, Eq)]
pub struct StarkConfig {
    /// Number of independent random-combination accumulators.
    pub num_challenges: usize,
    pub fri_config: FriConfigData,
}

/// A usable configuration: at least one accumulator, and a blow-up that
/// fits inside the field's power-of-two subgroup.
pub open spec fn config_ok(c: StarkConfig) -> bool {
    &&& c.num_challenges >= 1
    &&& c.fri_config.rate_bits <= 32
    &&& c.fri_config.cap_height <= 32
}

/// Appends all of `src` to `dst`.
fn append_all(dst: &mut Vec<ExtVal>, src: &Vec<ExtVal>)
    ensures
        final(dst)@ == old(dst)@ + src@,
{
    let mut i: usize = 0;
    while i < src.len()
        invariant
            i <= src@.len(),
            dst@ == old(dst)@ + src@.subrange(0, i as int),
        decreases src@.len() - i,
    {
        dst.push(src[i]);
        proof {
            assert(old(dst)@ + src@.subrange(0, i + 1 as int) =~= (old(dst)@ + src@.subrange(
                0,
                i as int,
            )).push(src@[i as int]));
        }
        i = i + 1;
    }
    proof {
        assert(src@.subrange(0, src@.len() as int) =~= src@);
    }
}

impl StarkOpeningSet {
    /// Reshapes the openings into the two batches the low-degree test
    /// expects: everything opened at the sampling point, then the next-row
    /// values opened at the shifted point.
    pub fn to_fri_openings(&self) -> (r: FriOpeningsData)
        ensures
            r.batches@.len() == 2,
            r.batches@[0].values@ == self.local_values@ + self.permutation_zs@
                + self.quotient_polys@,
            r.batches@[1].values@ == self.next_values@,
    {
        let mut zeta_batch: Vec<ExtVal> = Vec::new();
        append_all(&mut zeta_batch, &self.local_values);
        append_all(&mut zeta_batch, &self.permutation_zs);
        append_all(&mut zeta_batch, &self.quotient_polys);
        let mut next_batch: Vec<ExtVal> = Vec::new();
        append_all(&mut next_batch, &self.next_values);
        let mut batches: Vec<FriOpeningBatchData> = Vec::new();
        batches.push(FriOpeningBatchData { values: zeta_batch });
        batches.push(FriOpeningBatchData { values: next_batch });
        proof {
            assert(Seq::<ExtVal>::empty() + self.local_values@ + self.permutation_zs@
                + self.quotient_polys@ =~= self.local_values@ + self.permutation_zs@
                + self.quotient_polys@);
            assert(Seq::<ExtVal>::empty() + self.next_values@ =~= self.next_values@);
        }
        FriOpeningsData { batches }
    }
}

} // verus!
