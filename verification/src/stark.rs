//! The arithmetization interface.
//!
//! A concrete STARK instance supplies two capabilities: evaluating its
//! constraint polynomials at the sampling point through a
//! [`ConstraintConsumer`], and describing which committed polynomials the
//! low-degree test must open at which points.

use vstd::prelude::*;
use crate::consumer::{ConstraintConsumer, ConstraintEvent, ConstraintFilter, consume_events, scaled_value};
use crate::extension::{ExtVal, e_from_base, e_mul, e_one, e_sub, ext_mul, ext_from_base, ext_one, ext_ok, ext_sub};
use vstd::arithmetic::power2::pow2;

verus! {

/// The opened row values and public inputs handed to the arithmetization.
pub struct StarkEvaluationVars<'a> {
    /// Column values at the sampled row.
    pub local_values: &'a Vec<ExtVal>,
    /// Column values at the following row.
    pub next_values: &'a Vec<ExtVal>,
    /// Public inputs, lifted into the extension field.
    pub public_inputs: &'a Vec<ExtVal>,
}

/// Every handed-in value is a canonical extension element.
pub open spec fn vars_ok(locals: Seq<ExtVal>, nexts: Seq<ExtVal>, pis: Seq<ExtVal>) -> bool {
    &&& forall|i: int| 0 <= i < locals.len() ==> ext_ok(#[trigger] locals[i])
    &&& forall|i: int| 0 <= i < nexts.len() ==> ext_ok(#[trigger] nexts[i])
    &&& forall|i: int| 0 <= i < pis.len() ==> ext_ok(#[trigger] pis[i])
}

/// One committed oracle visible to the low-degree test.
#[derive(Clone, Copy, Debug, PartialEq, Eq, Structural)]
pub struct FriOracleInfo {
    pub num_polys: usize,
    pub blinding: bool,
}

/// A reference to one polynomial of one oracle.
#[derive(Clone, Copy, Debug, PartialEq, Eq, Structural)]
pub struct FriPolynomialInfo {
    pub oracle_index: usize,
    pub polynomial_index: usize,
}

/// A batch of polynomials all opened at the same point.
#[derive(Clone, Debug, PartialEq, Eq)]
pub struct FriBatchInfo {
    pub point: ExtVal,
    pub polynomials: Vec<FriPolynomialInfo>,
}

/// The instance description handed to the low-degree test: which oracles
/// exist, and which of their polynomials are opened where.
#[derive(Clone, Debug, PartialEq, Eq)]
pub struct FriInstanceInfo {
    pub oracles: Vec<FriOracleInfo>,
    pub batches: Vec<FriBatchInfo>,
}

/// Mathematical image of a [`FriBatchInfo`].
pub ghost struct FriBatchView {
    pub point: ExtVal,
    pub polynomials: Seq<FriPolynomialInfo>,
}

/// Mathematical image of a [`FriInstanceInfo`].
pub ghost struct FriInstanceView {
    pub oracles: Seq<FriOracleInfo>,
    pub batches: Seq<FriBatchView>,
}

impl View for FriBatchInfo {
    type V = FriBatchView;

    open spec fn view(&self) -> FriBatchView {
        FriBatchView { point: self.point, polynomials: self.polynomials@ }
    }
}

impl View for FriInstanceInfo {
    type V = FriInstanceView;

    open spec fn view(&self) -> FriInstanceView {
        FriInstanceView {
            oracles: self.oracles@,
            batches: Seq::new(self.batches@.len(), |i: int| self.batches@[i]@),
        }
    }
}

/// The first `n` polynomials of one oracle, in index order.
pub open spec fn poly_range(oracle_index: usize, n: nat) -> Seq<FriPolynomialInfo> {
    Seq::new(n, |i: int| FriPolynomialInfo { oracle_index, polynomial_index: i as usize })
}

/// The standard two-oracle instance: oracle 0 commits the trace columns and
/// the auxiliary permutation polynomials, oracle 1 the quotient chunks. All
/// of them are opened at `zeta`; the trace columns are additionally opened
/// at `g * zeta` to feed transition constraints.
pub open spec fn standard_fri_instance_view(
    zeta: ExtVal,
    g: u64,
    num_trace: usize,
    num_zs: usize,
    num_quotient: usize,
) -> FriInstanceView {
    FriInstanceView {
        oracles: seq![
            FriOracleInfo { num_polys: (num_trace + num_zs) as usize, blinding: false },
            FriOracleInfo { num_polys: num_quotient, blinding: false },
        ],
        batches: seq![
            FriBatchView {
                point: zeta,
                polynomials: poly_range(0, (num_trace + num_zs) as nat) + poly_range(
                    1,
                    num_quotient as nat,
                ),
            },
            FriBatchView {
                point: e_mul(zeta, e_from_base(g)),
                polynomials: poly_range(0, num_trace as nat),
            },
        ],
    }
}

/// Pushes references to polynomials `0..n` of the given oracle.
fn push_poly_range(dst: &mut Vec<FriPolynomialInfo>, oracle_index: usize, n: usize)
    ensures
        final(dst)@ == old(dst)@ + poly_range(oracle_index, n as nat),
{
    let mut i: usize = 0;
    while i < n
        invariant
            i <= n,
            dst@ == old(dst)@ + poly_range(oracle_index, i as nat),
        decreases n - i,
    {
        dst.push(FriPolynomialInfo { oracle_index, polynomial_index: i });
        proof {
            assert(old(dst)@ + poly_range(oracle_index, (i + 1) as nat) =~= (old(dst)@
                + poly_range(oracle_index, i as nat)).push(
                FriPolynomialInfo { oracle_index, polynomial_index: i },
            ));
        }
        i = i + 1;
    }
}

/// Builds the standard two-oracle instance description.
pub fn standard_fri_instance(zeta: ExtVal, g: u64, num_trace: usize, num_zs: usize, num_quotient: usize) -> (
    r: FriInstanceInfo)
    requires
        num_trace + num_zs <= usize::MAX,
    ensures
        r@ == standard_fri_instance_view(zeta, g, num_trace, num_zs, num_quotient),
{
    let mut oracles: Vec<FriOracleInfo> = Vec::new();
    oracles.push(FriOracleInfo { num_polys: num_trace + num_zs, blinding: false });
    oracles.push(FriOracleInfo { num_polys: num_quotient, blinding: false });

    let mut zeta_polys: Vec<FriPolynomialInfo> = Vec::new();
    push_poly_range(&mut zeta_polys, 0, num_trace + num_zs);
    push_poly_range(&mut zeta_polys, 1, num_quotient);
    let zeta_batch = FriBatchInfo { point: zeta, polynomials: zeta_polys };

    let mut next_polys: Vec<FriPolynomialInfo> = Vec::new();
    push_poly_range(&mut next_polys, 0, num_trace);
    let next_batch = FriBatchInfo { point: ext_mul(zeta, ext_from_base(g)), polynomials: next_polys };

    let mut batches: Vec<FriBatchInfo> = Vec::new();
    batches.push(zeta_batch);
    batches.push(next_batch);
    let r = FriInstanceInfo { oracles, batches };
    proof {
        let v = standard_fri_instance_view(zeta, g, num_trace, num_zs, num_quotient);
        assert(Seq::<FriPolynomialInfo>::empty() + poly_range(0, (num_trace + num_zs) as nat)
            + poly_range(1, num_quotient as nat) =~= poly_range(0, (num_trace + num_zs) as nat)
            + poly_range(1, num_quotient as nat));
        assert(Seq::<FriPolynomialInfo>::empty() + poly_range(0, num_trace as nat) =~= poly_range(
            0,
            num_trace as nat,
        ));
        assert(r@.oracles =~= v.oracles);
        assert(r@.batches =~= v.batches);
    }
    r
}

/// A concrete STARK instance: evaluates its constraints through a consumer,
/// and describes its low-degree-test instance.
pub trait Stark: Sized {
    /// Number of trace columns.
    spec fn columns(&self) -> int;

    /// Number of public inputs of the statement.
    spec fn num_public_inputs(&self) -> int;

    /// The ordered constraint evaluations the arithmetization reports for
    /// the given rows and public inputs.
    spec fn constraints(&self, locals: Seq<ExtVal>, nexts: Seq<ExtVal>, pis: Seq<ExtVal>) -> Seq<
        ConstraintEvent,
    >;

    /// The instance description this arithmetization hands to the
    /// low-degree test.
    spec fn fri_instance_view(&self, zeta: ExtVal, g: u64, rate_bits: int, num_challenges: int) -> FriInstanceView;

    /// Runtime width of the trace.
    fn columns_len(&self) -> (n: usize)
        ensures
            n == self.columns(),
    ;

    /// Runtime number of public inputs.
    fn public_inputs_len(&self) -> (n: usize)
        ensures
            n == self.num_public_inputs(),
    ;

    /// Reports every constraint evaluation to the consumer, in the order of
    /// [`Stark::constraints`].
    fn eval_ext(&self, vars: &StarkEvaluationVars<'_>, consumer: &mut ConstraintConsumer)
        requires
            vars.local_values@.len() == self.columns(),
            vars.next_values@.len() == self.columns(),
            vars.public_inputs@.len() == self.num_public_inputs(),
            vars_ok(vars.local_values@, vars.next_values@, vars.public_inputs@),
            old(consumer).wf(),
        ensures
            final(consumer).wf(),
            final(consumer).alphas == old(consumer).alphas,
            final(consumer).lagrange_basis_first == old(consumer).lagrange_basis_first,
            final(consumer).lagrange_basis_last == old(consumer).lagrange_basis_last,
            final(consumer).constraint_accs@ == consume_events(
                old(consumer).constraint_accs@,
                old(consumer).alphas@,
                old(consumer).lagrange_basis_first,
                old(consumer).lagrange_basis_last,
                self.constraints(vars.local_values@, vars.next_values@, vars.public_inputs@),
            ),
    ;

    /// Builds the instance description for the given sampling point, domain
    /// generator, blow-up rate and challenge count.
    fn fri_instance(&self, zeta: ExtVal, g: u64, rate_bits: usize, num_challenges: usize) -> (r:
        FriInstanceInfo)
        requires
            rate_bits <= 32,
            num_challenges >= 1,
            num_challenges * pow2(rate_bits as nat) <= usize::MAX,
        ensures
            r@ == self.fri_instance_view(zeta, g, rate_bits as int, num_challenges as int),
    ;
}

/// A minimal arithmetization over one column: the value increments by one
/// on every transition, and starts at zero on the first row.
pub struct CountingStark {}

impl Stark for CountingStark {
    open spec fn columns(&self) -> int {
        1
    }

    open spec fn num_public_inputs(&self) -> int {
        0
    }

    open spec fn constraints(&self, locals: Seq<ExtVal>, nexts: Seq<ExtVal>, pis: Seq<ExtVal>) -> Seq<
        ConstraintEvent,
    > {
        seq![
            ConstraintEvent {
                filter: ConstraintFilter::Everywhere,
                value: e_sub(e_sub(nexts[0], locals[0]), e_one()),
            },
            ConstraintEvent { filter: ConstraintFilter::FirstRow, value: locals[0] },
        ]
    }

    open spec fn fri_instance_view(&self, zeta: ExtVal, g: u64, rate_bits: int, num_challenges: int) -> FriInstanceView {
        standard_fri_instance_view(
            zeta,
            g,
            1,
            0,
            (num_challenges * pow2(rate_bits as nat)) as usize,
        )
    }

    fn columns_len(&self) -> (n: usize) {
        1
    }

    fn public_inputs_len(&self) -> (n: usize) {
        0
    }

    fn eval_ext(&self, vars: &StarkEvaluationVars<'_>, consumer: &mut ConstraintConsumer) {
        let transition = ext_sub(ext_sub(vars.next_values[0], vars.local_values[0]), ext_one());
        consumer.constraint(transition);
        consumer.constraint_first_row(vars.local_values[0]);
        proof {
            let evs = self.constraints(
                vars.local_values@,
                vars.next_values@,
                vars.public_inputs@,
            );
            let al = old(consumer).alphas@;
            let lf = old(consumer).lagrange_basis_first;
            let ll = old(consumer).lagrange_basis_last;
            let a0 = old(consumer).constraint_accs@;
            let s1 = crate::consumer::acc_step(a0, al, scaled_value(evs[0], lf, ll));
            let s2 = crate::consumer::acc_step(s1, al, scaled_value(evs[1], lf, ll));
            assert(evs.drop_first() =~= seq![evs[1]]);
            assert(evs.drop_first().drop_first() =~= Seq::<ConstraintEvent>::empty());
            assert(consume_events(a0, al, lf, ll, evs) == consume_events(
                s1,
                al,
                lf,
                ll,
                evs.drop_first(),
            ));
            assert(consume_events(s1, al, lf, ll, evs.drop_first()) == consume_events(
                s2,
                al,
                lf,
                ll,
                evs.drop_first().drop_first(),
            ));
            assert(consume_events(s2, al, lf, ll, Seq::<ConstraintEvent>::empty()) == s2);
        }
    }

    fn fri_instance(&self, zeta: ExtVal, g: u64, rate_bits: usize, num_challenges: usize) -> (r:
        FriInstanceInfo) {
        proof {
            assert(pow2(rate_bits as nat) <= num_challenges * pow2(rate_bits as nat))
                by (nonlinear_arith)
                requires
                    num_challenges >= 1,
                    pow2(rate_bits as nat) >= 0,
            ;
        }
        let chunk = crate::field::pow2_usize(rate_bits);
        let num_quotient: usize = num_challenges * chunk;
        standard_fri_instance(zeta, g, 1, 0, num_quotient)
    }
}

} // verus!
