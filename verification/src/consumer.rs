//! Accumulation of constraint evaluations into random linear combinations.
//!
//! The arithmetization reports each constraint's value at the sampling
//! point; for every random coefficient `alpha_i` the consumer maintains a
//! running sum `acc_i := acc_i * alpha_i + value`. Constraints that apply
//! only at the first or last trace row are scaled by the corresponding
//! Lagrange boundary value before accumulation.

use vstd::prelude::*;
use crate::extension::{ExtVal, e_add, e_mul, ext_add, ext_mul, ext_ok, ext_zero, e_zero};

verus! {

/// Where a constraint applies: everywhere on the trace, only on its first
/// row, or only on its last row.
#[derive(Clone, Copy, Debug, PartialEq, Eq, Structural)]
pub enum ConstraintFilter {
    Everywhere,
    FirstRow,
    LastRow,
}

/// One constraint evaluation as reported by the arithmetization.
#[derive(Clone, Copy, Debug, PartialEq, Eq, Structural)]
pub struct ConstraintEvent {
    pub filter: ConstraintFilter,
    pub value: ExtVal,
}

/// The boundary scaling applied to a reported value before accumulation.
pub open spec fn scaled_value(ev: ConstraintEvent, l_first: ExtVal, l_last: ExtVal) -> ExtVal {
    match ev.filter {
        ConstraintFilter::Everywhere => ev.value,
        ConstraintFilter::FirstRow => e_mul(ev.value, l_first),
        ConstraintFilter::LastRow => e_mul(ev.value, l_last),
    }
}

/// One accumulation step: every accumulator is multiplied by its coefficient
/// and the (already scaled) constraint value is added.
pub open spec fn acc_step(accs: Seq<ExtVal>, alphas: Seq<ExtVal>, v: ExtVal) -> Seq<ExtVal> {
    Seq::new(accs.len(), |i: int| e_add(e_mul(accs[i], alphas[i]), v))
}

/// Folds a whole sequence of constraint events into the accumulators.
pub open spec fn consume_events(
    accs: Seq<ExtVal>,
    alphas: Seq<ExtVal>,
    l_first: ExtVal,
    l_last: ExtVal,
    events: Seq<ConstraintEvent>,
) -> Seq<ExtVal>
    decreases events.len(),
{
    if events.len() == 0 {
        accs
    } else {
        consume_events(
            acc_step(accs, alphas, scaled_value(events[0], l_first, l_last)),
            alphas,
            l_first,
            l_last,
            events.drop_first(),
        )
    }
}

/// Collects constraint evaluations into one running weighted sum per random
/// coefficient.
pub struct ConstraintConsumer {
    /// The random coefficients, lifted into the extension field.
    pub alphas: Vec<ExtVal>,
    /// Lagrange boundary value isolating the first trace row.
    pub lagrange_basis_first: ExtVal,
    /// Lagrange boundary value isolating the last trace row.
    pub lagrange_basis_last: ExtVal,
    /// One accumulator per coefficient.
    pub constraint_accs: Vec<ExtVal>,
}

impl ConstraintConsumer {
    /// Canonical coefficients and accumulators, one accumulator each.
    pub open spec fn wf(self) -> bool {
        &&& self.constraint_accs@.len() == self.alphas@.len()
        &&& forall|i: int| 0 <= i < self.alphas@.len() ==> ext_ok(#[trigger] self.alphas@[i])
        &&& forall|i: int|
            0 <= i < self.constraint_accs@.len() ==> ext_ok(#[trigger] self.constraint_accs@[i])
    }

    /// Starts every accumulator at zero.
    pub fn new(alphas: Vec<ExtVal>, lagrange_basis_first: ExtVal, lagrange_basis_last: ExtVal) -> (
        r: ConstraintConsumer)
        requires
            forall|i: int| 0 <= i < alphas@.len() ==> ext_ok(#[trigger] alphas@[i]),
        ensures
            r.wf(),
            r.alphas == alphas,
            r.lagrange_basis_first == lagrange_basis_first,
            r.lagrange_basis_last == lagrange_basis_last,
            r.constraint_accs@ == Seq::new(alphas@.len(), |i: int| e_zero()),
    {
        let mut accs: Vec<ExtVal> = Vec::new();
        let mut i: usize = 0;
        while i < alphas.len()
            invariant
                i <= alphas@.len(),
                accs@ == Seq::new(i as nat, |j: int| e_zero()),
            decreases alphas@.len() - i,
        {
            accs.push(ext_zero());
            proof {
                assert(Seq::new(i as nat, |j: int| e_zero()).push(e_zero()) =~= Seq::new(
                    (i + 1) as nat,
                    |j: int| e_zero(),
                ));
            }
            i = i + 1;
        }
        ConstraintConsumer {
            alphas,
            lagrange_basis_first,
            lagrange_basis_last,
            constraint_accs: accs,
        }
    }

    /// Accumulates a constraint that applies to every trace row.
    pub fn constraint(&mut self, v: ExtVal)
        requires
            old(self).wf(),
        ensures
            final(self).wf(),
            final(self).alphas == old(self).alphas,
            final(self).lagrange_basis_first == old(self).lagrange_basis_first,
            final(self).lagrange_basis_last == old(self).lagrange_basis_last,
            final(self).constraint_accs@ == acc_step(
                old(self).constraint_accs@,
                old(self).alphas@,
                v,
            ),
    {
        let mut i: usize = 0;
        let n = self.constraint_accs.len();
        while i < n
            invariant
                n == old(self).constraint_accs@.len(),
                i <= n,
                self.alphas == old(self).alphas,
                self.lagrange_basis_first == old(self).lagrange_basis_first,
                self.lagrange_basis_last == old(self).lagrange_basis_last,
                self.constraint_accs@.len() == n,
                old(self).wf(),
                forall|j: int|
                    0 <= j < i ==> #[trigger] self.constraint_accs@[j] == e_add(
                        e_mul(old(self).constraint_accs@[j], old(self).alphas@[j]),
                        v,
                    ),
                forall|j: int|
                    i <= j < n ==> #[trigger] self.constraint_accs@[j] == old(
                        self,
                    ).constraint_accs@[j],
            decreases n - i,
        {
            let updated = ext_add(ext_mul(self.constraint_accs[i], self.alphas[i]), v);
            self.constraint_accs.set(i, updated);
            i = i + 1;
        }
        proof {
            assert(self.constraint_accs@ =~= acc_step(
                old(self).constraint_accs@,
                old(self).alphas@,
                v,
            ));
        }
    }

    /// Accumulates a constraint that applies only to the first trace row:
    /// the value is scaled by the first-row Lagrange basis value first.
    pub fn constraint_first_row(&mut self, v: ExtVal)
        requires
            old(self).wf(),
        ensures
            final(self).wf(),
            final(self).alphas == old(self).alphas,
            final(self).lagrange_basis_first == old(self).lagrange_basis_first,
            final(self).lagrange_basis_last == old(self).lagrange_basis_last,
            final(self).constraint_accs@ == acc_step(
                old(self).constraint_accs@,
                old(self).alphas@,
                e_mul(v, old(self).lagrange_basis_first),
            ),
    {
        let scaled = ext_mul(v, self.lagrange_basis_first);
        self.constraint(scaled);
    }

    /// Accumulates a constraint that applies only to the last trace row:
    /// the value is scaled by the last-row Lagrange basis value first.
    pub fn constraint_last_row(&mut self, v: ExtVal)
        requires
            old(self).wf(),
        ensures
            final(self).wf(),
            final(self).alphas == old(self).alphas,
            final(self).lagrange_basis_first == old(self).lagrange_basis_first,
            final(self).lagrange_basis_last == old(self).lagrange_basis_last,
            final(self).constraint_accs@ == acc_step(
                old(self).constraint_accs@,
                old(self).alphas@,
                e_mul(v, old(self).lagrange_basis_last),
            ),
    {
        let scaled = ext_mul(v, self.lagrange_basis_last);
        self.constraint(scaled);
    }

    /// Hands back the accumulated random linear combinations.
    pub fn accumulators(self) -> (r: Vec<ExtVal>)
        ensures
            r == self.constraint_accs,
    {
        self.constraint_accs
    }
}

} // verus!
