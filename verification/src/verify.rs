//! The verification pipeline: degree recovery, boundary evaluation,
//! constraint accumulation, the quotient identity, and preparation of the
//! low-degree-test delegation.
//!
//! Verification is a pure computation over immutable inputs. It either
//! rejects with the first failure encountered, or hands back the data that
//! the external low-degree test needs to finish the job: accepting a proof
//! requires both the quotient identity proved here and a passing low-degree
//! test.

use vstd::prelude::*;
use vstd::arithmetic::power2::pow2;
use vstd::bits::lemma_u64_shl_is_mul;
use crate::consumer::{ConstraintConsumer, consume_events};
use crate::extension::{
    ExtVal, e_from_base, e_mul, e_one, e_pow_2exp, e_sub, e_try_inverse_spec, e_zero, ext_from_base,
    ext_mul, ext_one, ext_ok, ext_pow_2exp, ext_sub, ext_try_inverse, horner, reduce_with_powers,
};
use crate::field::{
    FIELD_ORDER, f_pow, f_primitive_root_of_unity, fadd, fe, fmul, fpow, froot, fsub,
};
use crate::proof_data::{
    FriOpeningsData, StarkConfig, StarkProof, StarkProofChallenges,
    StarkProofWithPublicInputs, challenges_ok, config_ok, openings_ok, public_inputs_ok,
};
use crate::stark::{FriInstanceInfo, FriInstanceView, Stark, StarkEvaluationVars};

verus! {

/// Why a proof was rejected.
#[derive(Clone, Debug, PartialEq, Eq)]
pub enum StarkError {
    /// The external challenge supplier failed; its detail passes through
    /// unchanged.
    ChallengeDerivation(String),
    /// The proof's shape does not fit the arithmetization and the
    /// configuration: a missing query round, an opening row of the wrong
    /// width, a quotient opening that is not an exact multiple of the
    /// blow-up factor, or a domain larger than the field supports.
    MalformedProofShape,
    /// The quotient identity failed; the payload is the first failing
    /// challenge index.
    QuotientMismatch(usize),
    /// The delegated low-degree test rejected; its detail passes through
    /// unchanged.
    LowDegreeTestFailure(String),
    /// A vanishing-polynomial denominator was zero at the sampled point.
    DegenerateSamplingPoint,
}

/// The trace length is recovered from the proof itself, not taken from the
/// caller: the number of Merkle siblings in the first committed-evaluation
/// path, plus the cap height, minus the blow-up rate, is the log2 size of
/// the trace domain.
pub open spec fn recover_degree_bits_spec(p: StarkProof, config: StarkConfig) -> Result<
    usize,
    StarkError,
> {
    let rounds = p.opening_proof.query_round_proofs@;
    if rounds.len() == 0 {
        Err(StarkError::MalformedProofShape)
    } else {
        let evals = rounds[0].initial_trees_proof.evals_proofs@;
        if evals.len() == 0 {
            Err(StarkError::MalformedProofShape)
        } else {
            let s = evals[0].merkle_proof.siblings@.len() as int;
            let cap = config.fri_config.cap_height as int;
            let rate = config.fri_config.rate_bits as int;
            if s + cap > 32 || s + cap < rate {
                Err(StarkError::MalformedProofShape)
            } else {
                Ok((s + cap - rate) as usize)
            }
        }
    }
}

/// [`recover_degree_bits_spec`], exponentiated: the trace length itself.
pub open spec fn recover_degree_spec(p: StarkProof, config: StarkConfig) -> Result<
    u64,
    StarkError,
> {
    match recover_degree_bits_spec(p, config) {
        Ok(bits) => Ok(pow2(bits as nat) as u64),
        Err(e) => Err(e),
    }
}

/// Recovers the log2 trace length from the shape of the opening proof.
pub fn recover_degree_bits(p: &StarkProof, config: &StarkConfig) -> (r: Result<usize, StarkError>)
    ensures
        r == recover_degree_bits_spec(*p, *config),
        r matches Ok(bits) ==> bits + config.fri_config.rate_bits <= 32,
{
    if p.opening_proof.query_round_proofs.len() == 0 {
        return Err(StarkError::MalformedProofShape);
    }
    let round = &p.opening_proof.query_round_proofs[0];
    if round.initial_trees_proof.evals_proofs.len() == 0 {
        return Err(StarkError::MalformedProofShape);
    }
    let s = round.initial_trees_proof.evals_proofs[0].merkle_proof.siblings.len();
    let cap = config.fri_config.cap_height;
    let rate = config.fri_config.rate_bits;
    if s > 32 || cap > 32 {
        return Err(StarkError::MalformedProofShape);
    }
    if s + cap > 32 || s + cap < rate {
        return Err(StarkError::MalformedProofShape);
    }
    Ok(s + cap - rate)
}

/// Recovers the trace length, a power of two by construction.
pub fn recover_degree(p: &StarkProof, config: &StarkConfig) -> (r: Result<u64, StarkError>)
    ensures
        r == recover_degree_spec(*p, *config),
{
    match recover_degree_bits(p, config) {
        Err(e) => Err(e),
        Ok(bits) => {
            proof {
                vstd::arithmetic::power2::lemma2_to64();
                if bits < 32 {
                    vstd::arithmetic::power2::lemma_pow2_strictly_increases(bits as nat, 32);
                }
                lemma_u64_shl_is_mul(1u64, bits as u64);
            }
            Ok(1u64 << (bits as u64))
        },
    }
}

/// The two Lagrange boundary values at `x` over a domain of size
/// n = 2^log_n: L_first(x) = (x^n - 1) / (n*(x-1)) and L_last(x) =
/// (x^n - 1) / (n*(g*x-1)), where `g` generates the domain. The shared
/// numerator is the vanishing polynomial of the domain, so both values are
/// zero at every domain point other than the row each one isolates. A zero
/// denominator — the degenerate sampling point — is rejected; the same
/// rejection covers the inverse formula's internal product check, which on
/// a zero-free denominator never fails over the field.
pub open spec fn eval_l_1_and_l_last_spec(log_n: nat, x: ExtVal) -> Result<
    (ExtVal, ExtVal),
    StarkError,
> {
    let n = pow2(log_n) as u64;
    let g = froot(log_n);
    let z_x = e_sub(e_pow_2exp(x, log_n), e_one());
    let d_first = e_mul(e_from_base(n), e_sub(x, e_one()));
    let d_last = e_mul(e_from_base(n), e_sub(e_mul(e_from_base(g), x), e_one()));
    match (e_try_inverse_spec(d_first), e_try_inverse_spec(d_last)) {
        (Some(i_first), Some(i_last)) => Ok((e_mul(z_x, i_first), e_mul(z_x, i_last))),
        _ => Err(StarkError::DegenerateSamplingPoint),
    }
}

/// Evaluates the two Lagrange boundary values at `x`, with both divisions
/// centralized here so that a degenerate sampling point is rejected in one
/// place.
pub fn eval_l_1_and_l_last(log_n: usize, x: ExtVal) -> (r: Result<(ExtVal, ExtVal), StarkError>)
    requires
        log_n <= 32,
        ext_ok(x),
    ensures
        r == eval_l_1_and_l_last_spec(log_n as nat, x),
        r matches Ok(pair) ==> ext_ok(pair.0) && ext_ok(pair.1),
{
    proof {
        vstd::arithmetic::power2::lemma2_to64();
        if log_n < 32 {
            vstd::arithmetic::power2::lemma_pow2_strictly_increases(log_n as nat, 32);
        }
        lemma_u64_shl_is_mul(1u64, log_n as u64);
    }
    let n: u64 = 1u64 << (log_n as u64);
    let g = f_primitive_root_of_unity(log_n);
    let z_x = ext_sub(ext_pow_2exp(x, log_n), ext_one());
    let d_first = ext_mul(ext_from_base(n), ext_sub(x, ext_one()));
    let d_last = ext_mul(ext_from_base(n), ext_sub(ext_mul(ext_from_base(g), x), ext_one()));
    match (ext_try_inverse(d_first), ext_try_inverse(d_last)) {
        (Some(i_first), Some(i_last)) => Ok((ext_mul(z_x, i_first), ext_mul(z_x, i_last))),
        _ => Err(StarkError::DegenerateSamplingPoint),
    }
}

/// The base-field sequence lifted into the extension, element by element.
pub open spec fn lifted(xs: Seq<u64>) -> Seq<ExtVal> {
    Seq::new(xs.len(), |i: int| e_from_base(xs[i]))
}

/// Lifts every element of `xs` into the extension field.
fn lift_all(xs: &Vec<u64>) -> (r: Vec<ExtVal>)
    ensures
        r@ == lifted(xs@),
        (forall|i: int| 0 <= i < xs@.len() ==> fe(#[trigger] xs@[i])) ==> forall|i: int|
            0 <= i < r@.len() ==> ext_ok(#[trigger] r@[i]),
{
    let mut r: Vec<ExtVal> = Vec::new();
    let mut i: usize = 0;
    while i < xs.len()
        invariant
            i <= xs@.len(),
            r@ == lifted(xs@.subrange(0, i as int)),
        decreases xs@.len() - i,
    {
        r.push(ext_from_base(xs[i]));
        proof {
            assert(lifted(xs@.subrange(0, (i + 1) as int)) =~= lifted(
                xs@.subrange(0, i as int),
            ).push(e_from_base(xs@[i as int])));
        }
        i = i + 1;
    }
    proof {
        assert(xs@.subrange(0, xs@.len() as int) =~= xs@);
    }
    r
}

/// One fresh accumulator per coefficient.
pub open spec fn zero_accs(n: nat) -> Seq<ExtVal> {
    Seq::new(n, |i: int| e_zero())
}

/// The quotient chunk belonging to challenge index `i`.
pub open spec fn quotient_chunk(qp: Seq<ExtVal>, chunk_size: int, i: int) -> Seq<ExtVal> {
    qp.subrange(i * chunk_size, (i + 1) * chunk_size)
}

/// The quotient identity at challenge index `i`, in multiplied form:
/// acc_i * (zeta - g^{-1}) == Z_H(zeta) * t_i(zeta), where t_i(zeta) is the
/// chunk reconstructed by Horner evaluation at zeta^n. This is the identity
/// acc_i == Z_H(zeta) * t_i(zeta) / (zeta - g^{-1}) of the quotient check,
/// with the (non-zero) denominator multiplied out.
pub open spec fn quotient_ok_at(
    accs: Seq<ExtVal>,
    qp: Seq<ExtVal>,
    chunk_size: int,
    zeta_pow_deg: ExtVal,
    z_h: ExtVal,
    z_last: ExtVal,
    i: int,
) -> bool {
    e_mul(accs[i], z_last) == e_mul(z_h, horner(quotient_chunk(qp, chunk_size, i), zeta_pow_deg))
}

/// What the quotient check reconstructs for chunk `i` — Horner evaluation
/// of the chunk at zeta^n — is the direct evaluation
/// sum over j of chunk[j] * (zeta^n)^j of the unsplit decomposition
/// t(zeta) = t_0(zeta) + t_1(zeta)*(zeta^n) + ... at the sampling point.
pub proof fn lemma_quotient_chunk_reconstruction(
    qp: Seq<ExtVal>,
    chunk_size: int,
    i: int,
    zeta_pow_deg: ExtVal,
)
    requires
        0 <= i,
        0 <= chunk_size,
        (i + 1) * chunk_size <= qp.len(),
        forall|j: int| 0 <= j < qp.len() ==> ext_ok(#[trigger] qp[j]),
    ensures
        horner(quotient_chunk(qp, chunk_size, i), zeta_pow_deg) == crate::extension::power_sum_from(
            quotient_chunk(qp, chunk_size, i),
            zeta_pow_deg,
            0,
        ),
{
    vstd::arithmetic::mul::lemma_mul_is_distributive_add_other_way(chunk_size, i, 1);
    let chunk = quotient_chunk(qp, chunk_size, i);
    assert(forall|j: int| 0 <= j < chunk.len() ==> ext_ok(#[trigger] chunk[j]));
    crate::extension::lemma_horner_is_power_sum(chunk, zeta_pow_deg);
}

/// The first challenge index at which the quotient identity fails, if any,
/// scanning from `i` up to `n`.
pub open spec fn first_quotient_mismatch(
    accs: Seq<ExtVal>,
    qp: Seq<ExtVal>,
    chunk_size: int,
    zeta_pow_deg: ExtVal,
    z_h: ExtVal,
    z_last: ExtVal,
    i: int,
    n: int,
) -> Option<int>
    decreases n - i,
{
    if i >= n {
        None
    } else if !quotient_ok_at(accs, qp, chunk_size, zeta_pow_deg, z_h, z_last, i) {
        Some(i)
    } else {
        first_quotient_mismatch(accs, qp, chunk_size, zeta_pow_deg, z_h, z_last, i + 1, n)
    }
}

/// Skipping indices at which the identity holds does not change the first
/// mismatch.
proof fn lemma_first_mismatch_skip(
    accs: Seq<ExtVal>,
    qp: Seq<ExtVal>,
    chunk_size: int,
    zeta_pow_deg: ExtVal,
    z_h: ExtVal,
    z_last: ExtVal,
    k: int,
    n: int,
)
    requires
        0 <= k <= n,
        forall|j: int|
            0 <= j < k ==> quotient_ok_at(accs, qp, chunk_size, zeta_pow_deg, z_h, z_last, j),
    ensures
        first_quotient_mismatch(accs, qp, chunk_size, zeta_pow_deg, z_h, z_last, 0, n)
            == first_quotient_mismatch(accs, qp, chunk_size, zeta_pow_deg, z_h, z_last, k, n),
    decreases k,
{
    if k > 0 {
        lemma_first_mismatch_skip(accs, qp, chunk_size, zeta_pow_deg, z_h, z_last, k - 1, n);
    }
}

/// Checks the quotient identity for every challenge index, returning the
/// first failing index if any.
#[verifier::spinoff_prover]
fn scan_quotient_identity(
    accs: &Vec<ExtVal>,
    qp: &Vec<ExtVal>,
    chunk_size: usize,
    zeta_pow_deg: ExtVal,
    z_h: ExtVal,
    z_last: ExtVal,
) -> (r: Option<usize>)
    requires
        qp@.len() == accs@.len() * chunk_size,
    ensures
        r matches Some(i) ==> first_quotient_mismatch(
            accs@,
            qp@,
            chunk_size as int,
            zeta_pow_deg,
            z_h,
            z_last,
            0,
            accs@.len() as int,
        ) == Some(i as int),
        r is None ==> first_quotient_mismatch(
            accs@,
            qp@,
            chunk_size as int,
            zeta_pow_deg,
            z_h,
            z_last,
            0,
            accs@.len() as int,
        ) is None,
{
    let n = accs.len();
    let qlen = qp.len();
    let ghost chunk_int: int = chunk_size as int;
    let mut i: usize = 0;
    while i < n
        invariant
            i <= n,
            n == accs@.len(),
            qlen == qp@.len(),
            qp@.len() == accs@.len() * chunk_size,
            chunk_int == chunk_size as int,
            forall|j: int|
                0 <= j < i ==> quotient_ok_at(
                    accs@,
                    qp@,
                    chunk_int,
                    zeta_pow_deg,
                    z_h,
                    z_last,
                    j,
                ),
        decreases n - i,
    {
        proof {
            assert(i * chunk_int + chunk_int <= n * chunk_int) by (nonlinear_arith)
                requires
                    i < n,
                    chunk_int >= 0,
            ;
            assert(i * chunk_int >= 0) by (nonlinear_arith)
                requires
                    i >= 0,
                    chunk_int >= 0,
            ;
        }
        let start: usize = i * chunk_size;
        let mut chunk_vec: Vec<ExtVal> = Vec::new();
        proof {
            assert(chunk_vec@ =~= qp@.subrange(start as int, start as int));
        }
        let mut j: usize = 0;
        while j < chunk_size
            invariant
                j <= chunk_size,
                start == i * chunk_int,
                start + chunk_size <= qlen,
                qlen == qp@.len(),
                chunk_vec@ == qp@.subrange(start as int, start as int + j as int),
            decreases chunk_size - j,
        {
            chunk_vec.push(qp[start + j]);
            proof {
                assert(qp@.subrange(start as int, start as int + (j + 1) as int) =~= qp@.subrange(
                    start as int,
                    start as int + j as int,
                ).push(qp@[start as int + j as int]));
            }
            j = j + 1;
        }
        let t = reduce_with_powers(&chunk_vec, zeta_pow_deg);
        let lhs = ext_mul(accs[i], z_last);
        let rhs = ext_mul(z_h, t);
        proof {
            assert((i as int + 1) * chunk_int == i as int * chunk_int + chunk_int)
                by (nonlinear_arith);
            assert(chunk_vec@ =~= quotient_chunk(qp@, chunk_int, i as int));
        }
        if !(lhs.c0 == rhs.c0 && lhs.c1 == rhs.c1) {
            proof {
                assert(!quotient_ok_at(accs@, qp@, chunk_int, zeta_pow_deg, z_h, z_last, i as int));
                lemma_first_mismatch_skip(
                    accs@,
                    qp@,
                    chunk_int,
                    zeta_pow_deg,
                    z_h,
                    z_last,
                    i as int,
                    n as int,
                );
            }
            return Some(i);
        }
        proof {
            assert(quotient_ok_at(accs@, qp@, chunk_int, zeta_pow_deg, z_h, z_last, i as int));
        }
        i = i + 1;
    }
    proof {
        lemma_first_mismatch_skip(
            accs@,
            qp@,
            chunk_int,
            zeta_pow_deg,
            z_h,
            z_last,
            n as int,
            n as int,
        );
    }
    None
}


/// Everything the delegated low-degree test needs beyond the proof itself:
/// the instance description, the claimed openings in the delegate's shape,
/// and the recovered log2 trace length.
#[derive(Clone, Debug, PartialEq, Eq)]
pub struct LowDegreeTestRequest {
    pub instance: FriInstanceInfo,
    pub openings: FriOpeningsData,
    pub degree_bits: usize,
}

/// Mathematical image of a [`LowDegreeTestRequest`].
pub ghost struct LowDegreeTestRequestView {
    pub instance: FriInstanceView,
    pub batches: Seq<Seq<ExtVal>>,
    pub degree_bits: int,
}

impl View for LowDegreeTestRequest {
    type V = LowDegreeTestRequestView;

    open spec fn view(&self) -> LowDegreeTestRequestView {
        LowDegreeTestRequestView {
            instance: self.instance@,
            batches: Seq::new(self.openings.batches@.len(), |i: int| self.openings.batches@[i].values@),
            degree_bits: self.degree_bits as int,
        }
    }
}

/// The whole verdict of [`verify_with_challenges`], as a function of its
/// inputs: the first failure of degree recovery, proof shape, boundary
/// evaluation or the quotient identity — or, with all of them passed, the
/// delegation data for the low-degree test.
pub open spec fn verify_with_challenges_spec<S: Stark>(
    stark: S,
    proof_with_pis: StarkProofWithPublicInputs,
    challenges: StarkProofChallenges,
    config: StarkConfig,
) -> Result<LowDegreeTestRequestView, StarkError> {
    let p = proof_with_pis.proof;
    let zeta = challenges.stark_zeta;
    let nch = config.num_challenges as int;
    let chunk_size = pow2(config.fri_config.rate_bits as nat) as int;
    match recover_degree_bits_spec(p, config) {
        Err(e) => Err(e),
        Ok(bits) => if p.openings.local_values@.len() != stark.columns()
            || p.openings.next_values@.len() != stark.columns()
            || proof_with_pis.public_inputs@.len() != stark.num_public_inputs()
            || p.openings.quotient_polys@.len() != nch * chunk_size {
            Err(StarkError::MalformedProofShape)
        } else {
            match eval_l_1_and_l_last_spec(bits as nat, zeta) {
                Err(e) => Err(e),
                Ok(boundary) => {
                    let accs = consume_events(
                        zero_accs(challenges.stark_alphas@.len()),
                        lifted(challenges.stark_alphas@),
                        boundary.0,
                        boundary.1,
                        stark.constraints(
                            p.openings.local_values@,
                            p.openings.next_values@,
                            lifted(proof_with_pis.public_inputs@),
                        ),
                    );
                    let zeta_pow_deg = e_pow_2exp(zeta, bits as nat);
                    let z_h = e_sub(zeta_pow_deg, e_one());
                    let g = froot(bits as nat);
                    let g_inv = fpow(g, (FIELD_ORDER - 2) as nat);
                    let z_last = e_sub(zeta, e_from_base(g_inv));
                    if z_last == e_zero() {
                        Err(StarkError::DegenerateSamplingPoint)
                    } else {
                        match first_quotient_mismatch(
                            accs,
                            p.openings.quotient_polys@,
                            chunk_size,
                            zeta_pow_deg,
                            z_h,
                            z_last,
                            0,
                            nch,
                        ) {
                            Some(i) => Err(StarkError::QuotientMismatch(i as usize)),
                            None => Ok(
                                LowDegreeTestRequestView {
                                    instance: stark.fri_instance_view(
                                        zeta,
                                        g,
                                        config.fri_config.rate_bits as int,
                                        nch,
                                    ),
                                    batches: seq![
                                        p.openings.local_values@ + p.openings.permutation_zs@
                                            + p.openings.quotient_polys@,
                                        p.openings.next_values@,
                                    ],
                                    degree_bits: bits as int,
                                },
                            ),
                        }
                    }
                },
            }
        },
    }
}

/// Whether an executable verdict matches its mathematical counterpart.
pub open spec fn verdict_matches(
    r: Result<LowDegreeTestRequest, StarkError>,
    s: Result<LowDegreeTestRequestView, StarkError>,
) -> bool {
    match (r, s) {
        (Ok(req), Ok(v)) => req@ == v,
        (Err(e1), Err(e2)) => e1 == e2,
        _ => false,
    }
}

/// Runs every check the verifier core owns — degree recovery, shape checks,
/// boundary evaluation, constraint accumulation and the quotient identity —
/// and, when all pass, returns the delegation data for the external
/// low-degree test. The verdict is exactly
/// [`verify_with_challenges_spec`] of the inputs; any failure is the first
/// one encountered.
#[verifier::loop_isolation(false)]
#[verifier::rlimit(100)]
pub fn verify_with_challenges<S: Stark>(
    stark: &S,
    proof_with_pis: &StarkProofWithPublicInputs,
    challenges: &StarkProofChallenges,
    config: &StarkConfig,
) -> (r: Result<LowDegreeTestRequest, StarkError>)
    requires
        config_ok(*config),
        openings_ok(proof_with_pis.proof.openings),
        public_inputs_ok(*proof_with_pis),
        challenges_ok(*challenges, config.num_challenges as int),
    ensures
        verdict_matches(
            r,
            verify_with_challenges_spec(*stark, *proof_with_pis, *challenges, *config),
        ),
{
    let openings = &proof_with_pis.proof.openings;
    let bits = match recover_degree_bits(&proof_with_pis.proof, config) {
        Err(e) => {
            return Err(e);
        },
        Ok(b) => b,
    };
    let rate_bits = config.fri_config.rate_bits;
    proof {
        vstd::arithmetic::power2::lemma2_to64();
        if rate_bits < 32 {
            vstd::arithmetic::power2::lemma_pow2_strictly_increases(rate_bits as nat, 32);
        }
        lemma_u64_shl_is_mul(1u64, rate_bits as u64);
    }
    let chunk64: u64 = 1u64 << (rate_bits as u64);
    let nch = config.num_challenges;
    if openings.local_values.len() != stark.columns_len()
        || openings.next_values.len() != stark.columns_len()
        || proof_with_pis.public_inputs.len() != stark.public_inputs_len() {
        return Err(StarkError::MalformedProofShape);
    }
    proof {
        vstd::arithmetic::mul::lemma_mul_upper_bound(
            nch as int,
            0xFFFF_FFFF_FFFF_FFFF,
            chunk64 as int,
            0xFFFF_FFFF_FFFF_FFFF,
        );
    }
    let total: u128 = (nch as u128) * (chunk64 as u128);
    if (openings.quotient_polys.len() as u128) != total {
        return Err(StarkError::MalformedProofShape);
    }
    let boundary = match eval_l_1_and_l_last(bits, challenges.stark_zeta) {
        Err(e) => {
            return Err(e);
        },
        Ok(pair) => pair,
    };
    let alphas_ext = lift_all(&challenges.stark_alphas);
    let pis_ext = lift_all(&proof_with_pis.public_inputs);
    let mut consumer = ConstraintConsumer::new(alphas_ext, boundary.0, boundary.1);
    let vars = StarkEvaluationVars {
        local_values: &openings.local_values,
        next_values: &openings.next_values,
        public_inputs: &pis_ext,
    };
    stark.eval_ext(&vars, &mut consumer);
    let accs = consumer.accumulators();

    let zeta_pow_deg = ext_pow_2exp(challenges.stark_zeta, bits);
    let z_h = ext_sub(zeta_pow_deg, ext_one());
    let g = f_primitive_root_of_unity(bits);
    let g_inv = f_pow(g, FIELD_ORDER - 2);
    let z_last = ext_sub(challenges.stark_zeta, ext_from_base(g_inv));
    if z_last.c0 == 0 && z_last.c1 == 0 {
        return Err(StarkError::DegenerateSamplingPoint);
    }

    proof {
        assert(chunk64 <= nch as u128 * chunk64 as u128) by (nonlinear_arith)
            requires
                nch >= 1,
                chunk64 >= 1,
        ;
        assert(accs@.len() == nch);
    }
    let chunk_size: usize = chunk64 as usize;
    match scan_quotient_identity(
        &accs,
        &openings.quotient_polys,
        chunk_size,
        zeta_pow_deg,
        z_h,
        z_last,
    ) {
        Some(i) => {
            return Err(StarkError::QuotientMismatch(i));
        },
        None => {},
    }

    let instance = stark.fri_instance(challenges.stark_zeta, g, rate_bits, nch);
    let fri_openings = openings.to_fri_openings();
    let request = LowDegreeTestRequest { instance, openings: fri_openings, degree_bits: bits };
    proof {
        let s = verify_with_challenges_spec(*stark, *proof_with_pis, *challenges, *config);
        assert(request@.batches =~= s.unwrap().batches);
    }
    Ok(request)
}

/// The boundary values satisfy their defining identities for every domain
/// size and every accepted point: multiplied back by their denominators
/// n*(x-1) and n*(g*x-1), both give the vanishing numerator x^n - 1.
pub proof fn lemma_boundary_identities(log_n: nat, x: ExtVal, l_first: ExtVal, l_last: ExtVal)
    requires
        eval_l_1_and_l_last_spec(log_n, x) == Ok::<(ExtVal, ExtVal), StarkError>(
            (l_first, l_last),
        ),
    ensures
        e_mul(l_first, e_mul(e_from_base(pow2(log_n) as u64), e_sub(x, e_one()))) == e_sub(
            e_pow_2exp(x, log_n),
            e_one(),
        ),
        e_mul(
            l_last,
            e_mul(e_from_base(pow2(log_n) as u64), e_sub(e_mul(e_from_base(froot(log_n)), x), e_one())),
        ) == e_sub(e_pow_2exp(x, log_n), e_one()),
{
    let n = pow2(log_n) as u64;
    let g = froot(log_n);
    let z_x = e_sub(e_pow_2exp(x, log_n), e_one());
    let d_first = e_mul(e_from_base(n), e_sub(x, e_one()));
    let d_last = e_mul(e_from_base(n), e_sub(e_mul(e_from_base(g), x), e_one()));
    match (e_try_inverse_spec(d_first), e_try_inverse_spec(d_last)) {
        (Some(i_first), Some(i_last)) => {
            assert(l_first == e_mul(z_x, i_first));
            assert(l_last == e_mul(z_x, i_last));
            assert(e_mul(i_first, d_first) == e_one());
            assert(e_mul(i_last, d_last) == e_one());
            crate::extension::lemma_e_mul_assoc(z_x, i_first, d_first);
            crate::extension::lemma_e_mul_assoc(z_x, i_last, d_last);
            assert(ext_ok(z_x));
            crate::extension::lemma_e_mul_one(z_x);
        },
        _ => {
            assert(false);
        },
    }
}

/// Sampling exactly at one is degenerate for every domain size: the
/// first-row denominator n*(x-1) vanishes, its norm has no inverse, and
/// the boundary evaluator rejects rather than divide.
#[verifier::rlimit(50)]
#[verifier::spinoff_prover]
pub proof fn lemma_point_one_is_degenerate(log_n: nat)
    ensures
        eval_l_1_and_l_last_spec(log_n, e_one()) == Err::<(ExtVal, ExtVal), StarkError>(
            StarkError::DegenerateSamplingPoint,
        ),
{
    let n = pow2(log_n) as u64;
    let d_first = e_mul(e_from_base(n), e_sub(e_one(), e_one()));
    assert(e_sub(e_one(), e_one()) == e_zero());
    vstd::arithmetic::mul::lemma_mul_basics(n as int);
    vstd::arithmetic::mul::lemma_mul_basics(fpow(0, (FIELD_ORDER - 2) as nat) as int);
    assert(fmul(n, 0) == 0);
    assert(fmul(7, fmul(0, 0)) == 0);
    assert(fadd(0, 0) == 0);
    assert(fsub(0, 0) == 0);
    assert(d_first == e_zero());
    assert(fmul(fpow(0, (FIELD_ORDER - 2) as nat), 0) == 0);
    assert(e_try_inverse_spec(e_zero()) is None);
}

/// Sampling exactly at the computed inverse of the domain generator is
/// degenerate: z_last = zeta - g^{-1} is zero, the explicit check fires
/// before any quotient algebra, and verification never accepts.
pub proof fn lemma_point_g_inverse_never_accepts<S: Stark>(
    stark: S,
    proof_with_pis: StarkProofWithPublicInputs,
    challenges: StarkProofChallenges,
    config: StarkConfig,
)
    requires
        recover_degree_bits_spec(proof_with_pis.proof, config) matches Ok(bits)
            && challenges.stark_zeta == e_from_base(
            fpow(froot(bits as nat), (FIELD_ORDER - 2) as nat),
        ),
    ensures
        !(verify_with_challenges_spec(stark, proof_with_pis, challenges, config) is Ok),
        verify_with_challenges_spec(stark, proof_with_pis, challenges, config) is Err,
{
    let s = verify_with_challenges_spec(stark, proof_with_pis, challenges, config);
    match recover_degree_bits_spec(proof_with_pis.proof, config) {
        Err(_) => {},
        Ok(bits) => {
            let g_inv = fpow(froot(bits as nat), (FIELD_ORDER - 2) as nat);
            assert(e_sub(challenges.stark_zeta, e_from_base(g_inv)) == e_zero());
        },
    }
}

/// Verifying the same immutable proof twice yields identical results: the
/// verdict is a function of the proof, the challenges and the
/// configuration, and nothing is mutated — every input is taken by shared
/// reference.
pub proof fn lemma_verification_deterministic<S: Stark>(
    stark: S,
    proof_with_pis: StarkProofWithPublicInputs,
    challenges: StarkProofChallenges,
    config: StarkConfig,
    r1: Result<LowDegreeTestRequest, StarkError>,
    r2: Result<LowDegreeTestRequest, StarkError>,
)
    requires
        verdict_matches(r1, verify_with_challenges_spec(stark, proof_with_pis, challenges, config)),
        verdict_matches(r2, verify_with_challenges_spec(stark, proof_with_pis, challenges, config)),
    ensures
        r1 is Ok <==> r2 is Ok,
        r1 is Ok ==> r1->Ok_0@ == r2->Ok_0@,
        r1 is Err ==> r1 == r2,
{
}

} // verus!
