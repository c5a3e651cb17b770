//! The laws of the marketplace, proved once and for all over the abstract
//! state transitions of the settlement engine.

use crate::errors::Error;
use crate::ledger::{free_of, reserved_of, Acct};
use crate::settlement::{
    lemma_open_rewards_nonneg, lemma_open_rewards_remove, resolver_share, spec_resolve,
    spec_submit, treasury_share, valid_solution, Event, Module,
};
use crate::store::Problem;
use vstd::arithmetic::div_mod::{
    lemma_div_is_ordered, lemma_div_multiples_vanish, lemma_div_pos_is_pos,
};
use vstd::prelude::*;

verus! {

/// Law: value is conserved by settlement. For every reward, the resolver's
/// share and the treasury's share are each within the reward and sum to it
/// exactly — the rounding remainder of the 80 percent split is absorbed by
/// the treasury, never created or destroyed.
pub proof fn lemma_reward_conserved(reward: u128)
    ensures
        resolver_share(reward) + treasury_share(reward) == reward,
        0 <= resolver_share(reward) <= reward,
        0 <= treasury_share(reward) <= reward,
{
    let rw = reward as int;
    lemma_div_pos_is_pos(80 * rw, 100);
    lemma_div_is_ordered(80 * rw, 100 * rw, 100);
    lemma_div_multiples_vanish(rw, 100);
    assert(100 * rw / 100 == rw);
}

/// Law: the order of the two factors has no bearing on whether a solution
/// is accepted.
pub proof fn lemma_factor_order_insignificant(number: u128, a: u128, b: u128)
    ensures
        valid_solution(number, a, b) == valid_solution(number, b, a),
{
    assert(a * b == b * a) by (nonlinear_arith);
}

/// Law: submission of a fresh number by a sufficiently funded submitter
/// succeeds, and reports exactly that submission.
pub proof fn lemma_fresh_submission_succeeds(
    problems: Map<u128, Problem>,
    balances: Map<u64, Acct>,
    who: u64,
    number: u128,
    reward: u128,
)
    requires
        !problems.contains_key(number),
        free_of(balances, who) >= reward,
    ensures
        spec_submit(problems, balances, who, number, reward).2 == Ok::<Event, Error>(
            Event::ProblemSubmitted { number, reward, submitter: who },
        ),
{
}

/// Law: a number is consumed forever by its first successful submission.
/// Once a submission of `number` has succeeded, every later submission of
/// the same number is refused with `AlreadySubmitted`, whatever reward,
/// submitter, or balance state the later call brings.
pub proof fn lemma_number_submitted_once(
    problems: Map<u128, Problem>,
    balances: Map<u64, Acct>,
    who: u64,
    number: u128,
    reward: u128,
)
    requires
        spec_submit(problems, balances, who, number, reward).2 is Ok,
    ensures
        forall|balances2: Map<u64, Acct>, who2: u64, reward2: u128|
            #[trigger] spec_submit(
                spec_submit(problems, balances, who, number, reward).0,
                balances2,
                who2,
                number,
                reward2,
            ).2 == Err::<Event, Error>(Error::AlreadySubmitted),
{
}

/// Law: resolution is write-once. After a successful resolution the record
/// holds the accepted factors and the resolver that supplied them, and a
/// second resolution of the same number — by anyone, with any factors, on
/// any balance state — is refused with `AlreadyResolved`, leaving every
/// record, the stored solution and resolver included, unchanged.
pub proof fn lemma_resolution_write_once(
    problems: Map<u128, Problem>,
    balances: Map<u64, Acct>,
    minimum: u128,
    who: u64,
    number: u128,
    a: u128,
    b: u128,
    balances2: Map<u64, Acct>,
    minimum2: u128,
    who2: u64,
    a2: u128,
    b2: u128,
)
    requires
        spec_resolve(problems, balances, minimum, who, number, a, b).2 is Ok,
    ensures
        ({
            let resolved = spec_resolve(problems, balances, minimum, who, number, a, b).0;
            let second = spec_resolve(resolved, balances2, minimum2, who2, number, a2, b2);
            &&& resolved[number].solution == Some((a, b))
            &&& resolved[number].resolver == Some(who)
            &&& second.2 == Err::<Event, Error>(Error::AlreadyResolved)
            &&& second.0 == resolved
            &&& second.1 == balances2
        }),
{
}

/// Law: a failed resolution — whatever the error kind — leaves the problem
/// store and every balance, free and reserved alike, exactly as they were.
pub proof fn lemma_failed_resolution_changes_nothing(
    problems: Map<u128, Problem>,
    balances: Map<u64, Acct>,
    minimum: u128,
    who: u64,
    number: u128,
    a: u128,
    b: u128,
)
    requires
        spec_resolve(problems, balances, minimum, who, number, a, b).2 is Err,
    ensures
        spec_resolve(problems, balances, minimum, who, number, a, b).0 == problems,
        spec_resolve(problems, balances, minimum, who, number, a, b).1 == balances,
{
}

/// Law: while a problem is open, its full reward is covered by its
/// submitter's reserved balance — the reward stays reserved until the
/// problem is resolved.
pub proof fn lemma_open_reward_covered(m: Module, number: u128)
    requires
        m.wf(),
        m.problems@.contains_key(number),
        m.problems@[number].resolver is None,
    ensures
        m.problems@[number].reward <= reserved_of(
            m.ledger@,
            m.problems@[number].submitter,
        ),
{
    let sub = m.problems@[number].submitter;
    lemma_open_rewards_remove(m.problems@, number, sub);
    lemma_open_rewards_nonneg(m.problems@.remove(number), sub);
}

/// Law: the store is append-only. Neither a submission nor a resolution —
/// successful or not — ever removes a number from the store.
pub proof fn lemma_numbers_never_deleted(
    problems: Map<u128, Problem>,
    balances: Map<u64, Acct>,
    minimum: u128,
    who: u64,
    number: u128,
    reward: u128,
    a: u128,
    b: u128,
)
    ensures
        forall|n: u128| #[trigger] problems.contains_key(n) ==> spec_submit(
            problems,
            balances,
            who,
            number,
            reward,
        ).0.contains_key(n),
        forall|n: u128| #[trigger] problems.contains_key(n) ==> spec_resolve(
            problems,
            balances,
            minimum,
            who,
            number,
            a,
            b,
        ).0.contains_key(n),
{
}

} // verus!
