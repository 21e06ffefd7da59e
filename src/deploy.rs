//! The deploy pipeline's decisions: how much gas the session may burn, what
//! a deploy is charged, which effects it keeps, and what it reports. Running
//! the payment, session and finalization programs is the executor's work; the
//! functions here take what each phase reported.

use vstd::prelude::*;
use crate::key::Key;
use crate::transform::{Transform, TransformView};
use crate::global_state::{apply_effects, effects_view, CommitError};
use crate::value::ValueView;

verus! {

/// Why a deploy was rejected before it ran.
#[derive(Debug, Clone, Copy, PartialEq, Eq, Structural)]
pub enum PreconditionKind {
    Authorization,
    MissingAccount,
    InsufficientPayment,
    InvalidProtocolVersion,
    InvalidWasm,
    /// Finalizing the payment failed: a system-contract fault.
    FinalizationFailed,
}

/// How a session program ended, as the executor reports it.
#[derive(Debug, Clone, Copy, PartialEq, Eq, Structural)]
pub enum SessionOutcome {
    Success { gas_used: u64 },
    Revert(u32),
    OutOfGas,
    Trap,
}

/// The error a deploy reports.
#[derive(Debug, Clone, Copy, PartialEq, Eq, Structural)]
pub enum DeployError {
    Revert(u32),
    OutOfGas,
    Trap,
}

/// What one deploy produced.
#[derive(Debug)]
pub enum ExecutionResult {
    PreconditionFailure(PreconditionKind),
    Executed {
        effects: Vec<(Key, Transform)>,
        /// Gas units burned by the session.
        gas_used: u64,
        /// Tokens charged: `gas_used * gas_price`.
        cost: u64,
        error: Option<DeployError>,
    },
}

impl ExecutionResult {
    pub fn precondition_failure(kind: PreconditionKind) -> (r: ExecutionResult)
        ensures
            r == ExecutionResult::PreconditionFailure(kind),
    {
        ExecutionResult::PreconditionFailure(kind)
    }

    /// The gas the deploy burned: none where it was rejected.
    pub open spec fn spec_gas_used(&self) -> u64 {
        match self {
            ExecutionResult::PreconditionFailure(_) => 0,
            ExecutionResult::Executed { gas_used, .. } => *gas_used,
        }
    }
}

/// The gas the session may burn: what the reserved payment buys.
pub open spec fn gas_limit_for(payment: u64, gas_price: u64) -> u64 {
    (payment / gas_price) as u64
}

pub fn session_gas_limit(payment: u64, gas_price: u64) -> (r: u64)
    requires
        gas_price > 0,
    ensures
        r == gas_limit_for(payment, gas_price),
        r * gas_price <= payment,
{
    assert((payment / gas_price) * gas_price <= payment) by (nonlinear_arith)
        requires
            gas_price > 0,
    ;
    payment / gas_price
}

/// The gas a session is charged for: what it used where it succeeded within
/// its limit, the whole limit otherwise.
pub open spec fn gas_charged(session: SessionOutcome, gas_limit: u64) -> u64 {
    match session {
        SessionOutcome::Success { gas_used } => if gas_used <= gas_limit {
            gas_used
        } else {
            gas_limit
        },
        _ => gas_limit,
    }
}

/// Whether a session's effects are kept.
pub open spec fn session_kept(session: SessionOutcome, gas_limit: u64) -> bool {
    match session {
        SessionOutcome::Success { gas_used } => gas_used <= gas_limit,
        _ => false,
    }
}

pub open spec fn session_error(session: SessionOutcome, gas_limit: u64) -> Option<DeployError> {
    match session {
        SessionOutcome::Success { gas_used } => if gas_used <= gas_limit {
            None
        } else {
            Some(DeployError::OutOfGas)
        },
        SessionOutcome::Revert(c) => Some(DeployError::Revert(c)),
        SessionOutcome::OutOfGas => Some(DeployError::OutOfGas),
        SessionOutcome::Trap => Some(DeployError::Trap),
    }
}

/// What the finalization step is asked to move: `spent` to the rewards purse
/// and `refund` back to the payer (or to the refund purse set earlier).
#[derive(Debug)]
pub struct Settlement {
    pub spent: u64,
    pub refund: u64,
}

/// Splits the reserved payment between rewards and refund after a session
/// ran under `gas_limit_for(payment, gas_price)`.
pub fn settle(payment: u64, gas_price: u64, session: SessionOutcome) -> (r: Settlement)
    requires
        gas_price > 0,
    ensures
        r.spent == gas_charged(session, gas_limit_for(payment, gas_price)) * gas_price,
        r.spent + r.refund == payment,
{
    let limit = session_gas_limit(payment, gas_price);
    let gas: u64 = match session {
        SessionOutcome::Success { gas_used } => if gas_used <= limit {
            gas_used
        } else {
            limit
        },
        _ => limit,
    };
    assert(gas * gas_price <= limit * gas_price) by (nonlinear_arith)
        requires
            gas <= limit,
    ;
    let spent = gas * gas_price;
    Settlement { spent, refund: payment - spent }
}

fn append_effects(a: &mut Vec<(Key, Transform)>, b: Vec<(Key, Transform)>)
    ensures
        effects_view(final(a)@) == effects_view(old(a)@) + effects_view(b@),
{
    let ghost b0 = b@;
    let mut b = b;
    a.append(&mut b);
    assert(effects_view(a@) =~= effects_view(old(a)@) + effects_view(b0));
}

/// The result of a deploy whose payment phase succeeded: `payment_effects`
/// always stay, the session's only where it succeeded within its limit, then
/// the finalization's; where finalization failed, nothing stays and the
/// deploy is rejected.
pub fn deploy_result(
    payment: u64,
    gas_price: u64,
    payment_effects: Vec<(Key, Transform)>,
    session: SessionOutcome,
    session_effects: Vec<(Key, Transform)>,
    finalization: Option<Vec<(Key, Transform)>>,
) -> (r: ExecutionResult)
    requires
        gas_price > 0,
    ensures
        ({
            let limit = gas_limit_for(payment, gas_price);
            match finalization {
                None => r == ExecutionResult::PreconditionFailure(
                    PreconditionKind::FinalizationFailed,
                ),
                Some(fin) => match r {
                    ExecutionResult::Executed { effects, gas_used, cost, error } => {
                        &&& gas_used == gas_charged(session, limit)
                        &&& gas_used <= limit
                        &&& cost == gas_used * gas_price
                        &&& cost <= payment
                        &&& error == session_error(session, limit)
                        &&& effects_view(effects@) == effects_view(payment_effects@) + (if session_kept(
                            session,
                            limit,
                        ) {
                            effects_view(session_effects@)
                        } else {
                            Seq::empty()
                        }) + effects_view(fin@)
                    },
                    _ => false,
                },
            }
        }),
{
    let fin = match finalization {
        None => {
            return ExecutionResult::PreconditionFailure(PreconditionKind::FinalizationFailed);
        },
        Some(f) => f,
    };
    let limit = session_gas_limit(payment, gas_price);
    let (gas, kept, error) = match session {
        SessionOutcome::Success { gas_used } => if gas_used <= limit {
            (gas_used, true, None)
        } else {
            (limit, false, Some(DeployError::OutOfGas))
        },
        SessionOutcome::Revert(c) => (limit, false, Some(DeployError::Revert(c))),
        SessionOutcome::OutOfGas => (limit, false, Some(DeployError::OutOfGas)),
        SessionOutcome::Trap => (limit, false, Some(DeployError::Trap)),
    };
    assert(gas * gas_price <= limit * gas_price) by (nonlinear_arith)
        requires
            gas <= limit,
    ;
    let mut effects = payment_effects;
    let ghost pe = effects_view(effects@);
    if kept {
        append_effects(&mut effects, session_effects);
    } else {
        assert(pe + Seq::<(Key, TransformView)>::empty() =~= pe);
    }
    append_effects(&mut effects, fin);
    ExecutionResult::Executed { effects, gas_used: gas, cost: gas * gas_price, error }
}

/// Every deploy burns no more gas than its limit, and none where it was
/// rejected before running.
pub proof fn lemma_gas_bound(session: SessionOutcome, payment: u64, gas_price: u64)
    requires
        gas_price > 0,
    ensures
        gas_charged(session, gas_limit_for(payment, gas_price)) <= gas_limit_for(payment, gas_price),
        ExecutionResult::PreconditionFailure(PreconditionKind::InsufficientPayment).spec_gas_used()
            == 0,
{
}


/// Effects applied one list after another do what the joined list does.
pub proof fn lemma_effects_concat(
    s: Seq<(Key, ValueView)>,
    a: Seq<(Key, TransformView)>,
    b: Seq<(Key, TransformView)>,
)
    ensures
        apply_effects(s, a + b) == match apply_effects(s, a) {
            Ok(s2) => apply_effects(s2, b),
            Err(x) => Err::<Seq<(Key, ValueView)>, CommitError>(x),
        },
    decreases b.len(),
{
    if b.len() == 0 {
        assert(a + b =~= a);
    } else {
        lemma_effects_concat(s, a, b.drop_last());
        assert((a + b).drop_last() =~= a + b.drop_last());
        assert((a + b).last() == b.last());
    }
}

/// A deploy whose session failed changes the state only by its payment and
/// finalization effects: committing its result is committing the payment
/// effects and then the finalization effects.
pub proof fn lemma_failed_session_isolated(
    s: Seq<(Key, ValueView)>,
    payment: Seq<(Key, TransformView)>,
    finalization: Seq<(Key, TransformView)>,
)
    ensures
        apply_effects(s, payment + Seq::empty() + finalization) == match apply_effects(s, payment) {
            Ok(s2) => apply_effects(s2, finalization),
            Err(x) => Err::<Seq<(Key, ValueView)>, CommitError>(x),
        },
{
    assert(payment + Seq::<(Key, TransformView)>::empty() =~= payment);
    lemma_effects_concat(s, payment, finalization);
}


impl ExecutionResult {
    /// The effects a deploy contributes to its batch: none where it was
    /// rejected.
    pub open spec fn spec_effects(&self) -> Seq<(Key, TransformView)> {
        match self {
            ExecutionResult::PreconditionFailure(_) => Seq::empty(),
            ExecutionResult::Executed { effects, .. } => effects_view(effects@),
        }
    }

    /// Appends the deploy's effects to those of the deploys before it in its
    /// batch, so that the next deploy runs against the running post-state.
    pub fn append_effects_to(&self, batch: &mut Vec<(Key, Transform)>)
        ensures
            effects_view(final(batch)@) == effects_view(old(batch)@) + self.spec_effects(),
    {
        match self {
            ExecutionResult::PreconditionFailure(_) => {
                assert(effects_view(batch@) + Seq::<(Key, TransformView)>::empty() =~= effects_view(
                    batch@,
                ));
            },
            ExecutionResult::Executed { effects, .. } => {
                let copy = crate::engine::copy_effects(effects);
                append_effects(batch, copy);
            },
        }
    }
}

} // verus!
