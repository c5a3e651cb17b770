//! The settlement engine: submission and resolution of problems.
//!
//! A call validates its input, drives the problem store and the ledger, and
//! returns one domain event on success. All effects of one call are atomic:
//! either every write to the store and the ledger happens, or the call fails
//! and nothing is observably changed.

use crate::errors::Error;
use crate::ledger::{
    free_of, lemma_transfer_preserves_reserved, reserved_of, spec_reserve, spec_transfer,
    spec_transfer_err, spec_unreserve, Acct, Ledger,
};
use crate::primality::{is_prime, prime};
use crate::store::{Problem, ProblemStore};
use vstd::arithmetic::div_mod::{
    lemma_div_is_ordered, lemma_div_multiples_vanish, lemma_div_pos_is_pos,
    lemma_fundamental_div_mod, lemma_hoist_over_denominator, lemma_mod_bound,
};
use vstd::prelude::*;

verus! {

/// The account that holds the protocol treasury pool: the eight ASCII bytes
/// of the fixed module identifier `Treasury`, read as a little-endian word.
pub const TREASURY_ACCOUNT: u64 = 0x7972_7573_6165_7254;

/// A domain event, returned by the call that caused it and consumed by the
/// host's notification layer.
#[derive(Clone, Copy, Debug, PartialEq, Eq, Structural)]
pub enum Event {
    /// A problem was submitted: its number, the reserved reward, and the
    /// submitter.
    ProblemSubmitted { number: u128, reward: u128, submitter: u64 },
    /// A problem was resolved: its number, the accepted factor pair, and the
    /// resolver.
    ProblemResolved { number: u128, a: u128, b: u128, resolver: u64 },
}

/// The resolver's share of a reward: 80 percent, rounded down.
pub open spec fn resolver_share(reward: u128) -> int {
    reward * 80 / 100
}

/// The treasury's share of a reward: whatever the resolver's share leaves,
/// so the two shares always sum to the exact reward.
pub open spec fn treasury_share(reward: u128) -> int {
    reward - resolver_share(reward)
}

/// A correct solution: the two factors multiply (without leaving the 128-bit
/// domain) to the number, and both are prime.
pub open spec fn valid_solution(number: u128, a: u128, b: u128) -> bool {
    a * b == number && prime(a as int) && prime(b as int)
}

/// A stored record is coherent: it sits under its own number, it carries a
/// solution exactly when it carries a resolver, and any solution it carries
/// is a correct one.
pub open spec fn wf_record(n: u128, p: Problem) -> bool {
    &&& p.number == n
    &&& (p.resolver is Some <==> p.solution is Some)
    &&& match p.solution {
        Some(s) => valid_solution(n, s.0, s.1),
        None => true,
    }
}

/// The reward a record binds in its submitter's reservation: the full
/// reward while the problem is open, nothing once it is resolved.
pub open spec fn bound_reward(p: Problem, w: u64) -> int {
    if p.submitter == w && p.resolver is None {
        p.reward as int
    } else {
        0
    }
}

/// The total reward bound by the open problems of submitter `w`.
pub open spec fn open_rewards(problems: Map<u128, Problem>, w: u64) -> int
    decreases problems.dom().len(),
        when problems.dom().finite()
{
    if problems.dom().finite() && problems.dom().len() > 0 {
        let n = problems.dom().choose();
        bound_reward(problems[n], w) + open_rewards(problems.remove(n), w)
    } else {
        0
    }
}

/// No record binds a negative reward, so neither does any collection of them.
pub proof fn lemma_open_rewards_nonneg(problems: Map<u128, Problem>, w: u64)
    requires
        problems.dom().finite(),
    ensures
        open_rewards(problems, w) >= 0,
    decreases problems.dom().len(),
{
    if problems.dom().len() > 0 {
        let c = problems.dom().choose();
        assert(problems.dom().contains(c));
        lemma_open_rewards_nonneg(problems.remove(c), w);
    }
}

/// Splitting any present record off the total: the bound rewards sum in any
/// order, not only the one the recursion picks.
pub proof fn lemma_open_rewards_remove(problems: Map<u128, Problem>, n: u128, w: u64)
    requires
        problems.dom().finite(),
        problems.contains_key(n),
    ensures
        open_rewards(problems, w) == bound_reward(problems[n], w) + open_rewards(
            problems.remove(n),
            w,
        ),
    decreases problems.dom().len(),
{
    let c = problems.dom().choose();
    assert(problems.dom().len() > 0);
    assert(problems.dom().contains(c));
    if c != n {
        let m1 = problems.remove(c);
        let m2 = problems.remove(n);
        lemma_open_rewards_remove(m1, n, w);
        lemma_open_rewards_remove(m2, c, w);
        assert(m1.remove(n) =~= m2.remove(c));
    }
}

/// Adding a fresh record adds exactly the reward it binds.
pub proof fn lemma_open_rewards_insert_fresh(
    problems: Map<u128, Problem>,
    n: u128,
    p: Problem,
    w: u64,
)
    requires
        problems.dom().finite(),
        !problems.contains_key(n),
    ensures
        open_rewards(problems.insert(n, p), w) == bound_reward(p, w) + open_rewards(problems, w),
{
    let m = problems.insert(n, p);
    lemma_open_rewards_remove(m, n, w);
    assert(m.remove(n) =~= problems);
}

/// Overwriting a present record swaps its bound reward for the new one's.
pub proof fn lemma_open_rewards_update(problems: Map<u128, Problem>, n: u128, p: Problem, w: u64)
    requires
        problems.dom().finite(),
        problems.contains_key(n),
    ensures
        open_rewards(problems.insert(n, p), w) == open_rewards(problems, w) - bound_reward(
            problems[n],
            w,
        ) + bound_reward(p, w),
{
    let m = problems.insert(n, p);
    lemma_open_rewards_remove(m, n, w);
    lemma_open_rewards_remove(problems, n, w);
    assert(m.remove(n) =~= problems.remove(n));
}

/// What a `submit` call does, as one step on the abstract state: the
/// resulting problem map, the resulting balance map, and the outcome.
pub open spec fn spec_submit(
    problems: Map<u128, Problem>,
    balances: Map<u64, Acct>,
    who: u64,
    number: u128,
    reward: u128,
) -> (Map<u128, Problem>, Map<u64, Acct>, Result<Event, Error>) {
    if problems.contains_key(number) {
        (problems, balances, Err(Error::AlreadySubmitted))
    } else if free_of(balances, who) < reward {
        (problems, balances, Err(Error::Ledger(crate::ledger::LedgerError::InsufficientBalance)))
    } else {
        let problem = Problem { number, reward, solution: None, submitter: who, resolver: None };
        (
            problems.insert(number, problem),
            spec_reserve(balances, who, reward),
            Ok(Event::ProblemSubmitted { number, reward, submitter: who }),
        )
    }
}

/// What a `resolve` call does, as one step on the abstract state. On any
/// failure the input maps come back untouched; on success the reward has
/// been unreserved and split between resolver and treasury, and the record
/// has reached its terminal resolved form.
pub open spec fn spec_resolve(
    problems: Map<u128, Problem>,
    balances: Map<u64, Acct>,
    minimum: u128,
    who: u64,
    number: u128,
    a: u128,
    b: u128,
) -> (Map<u128, Problem>, Map<u64, Acct>, Result<Event, Error>) {
    if !problems.contains_key(number) {
        (problems, balances, Err(Error::InexistentNumber))
    } else if problems[number].resolver is Some {
        (problems, balances, Err(Error::AlreadyResolved))
    } else if !valid_solution(number, a, b) {
        (problems, balances, Err(Error::WrongAnswer))
    } else {
        let p = problems[number];
        let to_resolver = resolver_share(p.reward) as u128;
        let to_treasury = treasury_share(p.reward) as u128;
        let unreserved = spec_unreserve(balances, p.submitter, p.reward);
        match spec_transfer_err(unreserved, p.submitter, who, to_resolver, true, minimum) {
            Some(e) => (problems, balances, Err(Error::Ledger(e))),
            None => {
                let paid_resolver = spec_transfer(unreserved, p.submitter, who, to_resolver);
                match spec_transfer_err(
                    paid_resolver,
                    p.submitter,
                    TREASURY_ACCOUNT,
                    to_treasury,
                    true,
                    minimum,
                ) {
                    Some(e) => (problems, balances, Err(Error::Ledger(e))),
                    None => {
                        let paid = spec_transfer(
                            paid_resolver,
                            p.submitter,
                            TREASURY_ACCOUNT,
                            to_treasury,
                        );
                        let updated = Problem {
                            number,
                            reward: p.reward,
                            solution: Some((a, b)),
                            submitter: p.submitter,
                            resolver: Some(who),
                        };
                        (
                            problems.insert(number, updated),
                            paid,
                            Ok(Event::ProblemResolved { number, a, b, resolver: who }),
                        )
                    },
                }
            },
        }
    }
}

/// The resolver's share of `reward`, computed without overflow for every
/// 128-bit reward.
fn resolver_share_of(reward: u128) -> (r: u128)
    ensures
        r == resolver_share(reward),
        r <= reward,
{
    let q = reward / 100;
    let s = reward % 100;
    proof {
        let rw = reward as int;
        lemma_fundamental_div_mod(rw, 100);
        lemma_mod_bound(rw, 100);
        lemma_hoist_over_denominator(80 * (rw % 100), 80 * (rw / 100), 100nat);
        assert(80 * (rw % 100) + (80 * (rw / 100)) * 100 == 80 * rw);
        assert(80 * (rw % 100) / 100 + 80 * (rw / 100) == 80 * rw / 100);
        lemma_div_pos_is_pos(80 * (rw % 100), 100);
        lemma_div_is_ordered(80 * rw, 100 * rw, 100);
        lemma_div_multiples_vanish(rw, 100);
        assert(100 * rw / 100 == rw);
        assert(resolver_share(reward) <= rw);
    }
    q * 80 + s * 80 / 100
}

/// The settlement engine and the state it drives: the store of problems and
/// the balance ledger.
pub struct Module {
    pub problems: ProblemStore,
    pub ledger: Ledger,
}

impl Module {
    /// The whole state is coherent: the ledger is; every stored record is;
    /// and while problems are open, their rewards remain reserved — each
    /// submitter's reserved balance covers the total reward of their open
    /// problems.
    pub open spec fn wf(self) -> bool {
        &&& self.ledger.wf()
        &&& self.problems@.dom().finite()
        &&& forall|n: u128| #[trigger]
            self.problems@.contains_key(n) ==> wf_record(n, self.problems@[n])
        &&& forall|w: u64| #[trigger]
            open_rewards(self.problems@, w) <= reserved_of(self.ledger@, w)
    }

    /// A fresh module: no problems, no balances, and the given existential
    /// minimum balance.
    pub fn new(minimum_balance: u128) -> (m: Module)
        ensures
            m.wf(),
            m.problems@ == Map::<u128, Problem>::empty(),
            m.ledger@ == Map::<u64, Acct>::empty(),
            m.ledger.spec_minimum() == minimum_balance,
    {
        let m = Module { problems: ProblemStore::new(), ledger: Ledger::new(minimum_balance) };
        proof {
            assert(m.problems@.dom() =~= Set::<u128>::empty());
            assert forall|w: u64| #[trigger]
                open_rewards(m.problems@, w) <= reserved_of(m.ledger@, w) by {
                assert(open_rewards(m.problems@, w) == 0);
                assert(reserved_of(m.ledger@, w) == 0);
            };
        }
        m
    }

    /// The account that holds the module's treasury pool.
    pub fn account_id() -> (r: u64)
        ensures
            r == TREASURY_ACCOUNT,
    {
        TREASURY_ACCOUNT
    }

    /// Submit a problem: refuse a number ever submitted before, reserve the
    /// reward from the caller, store the new unresolved record, and report
    /// the submission. Any failure leaves the whole state untouched.
    pub fn submit_problem(&mut self, who: u64, number: u128, reward: u128) -> (r: Result<
        Event,
        Error,
    >)
        requires
            old(self).wf(),
        ensures
            final(self).wf(),
            final(self).ledger.spec_minimum() == old(self).ledger.spec_minimum(),
            ({
                let step = spec_submit(old(self).problems@, old(self).ledger@, who, number, reward);
                final(self).problems@ == step.0 && final(self).ledger@ == step.1 && r == step.2
            }),
    {
        if self.problems.contains(number) {
            return Err(Error::AlreadySubmitted);
        }
        match self.ledger.reserve(who, reward) {
            Err(e) => {
                return Err(Error::Ledger(e));
            },
            Ok(()) => {},
        }
        let problem = Problem { number, reward, solution: None, submitter: who, resolver: None };
        match self.problems.insert(number, problem) {
            Ok(()) => {},
            Err(e) => {
                proof {
                    assert(false);
                }
                return Err(e);
            },
        }
        proof {
            let p0 = old(self).problems@;
            let l0 = old(self).ledger@;
            assert forall|w: u64| #[trigger]
                open_rewards(self.problems@, w) <= reserved_of(self.ledger@, w) by {
                lemma_open_rewards_insert_fresh(p0, number, problem, w);
                if w == who {
                    assert(reserved_of(self.ledger@, who) == reserved_of(l0, who) + reward);
                } else {
                    assert(bound_reward(problem, w) == 0);
                    assert(reserved_of(self.ledger@, w) == reserved_of(l0, w));
                }
            };
        }
        Ok(Event::ProblemSubmitted { number, reward, submitter: who })
    }

    /// Resolve a problem: refuse an unknown number, a record already
    /// resolved, and a wrong factorization; then release the reward, pay the
    /// resolver's share to the caller and the rest to the treasury, and mark
    /// the record resolved. Any failure — a refused transfer included —
    /// leaves the whole state untouched.
    pub fn resolve_problem(&mut self, who: u64, number: u128, a: u128, b: u128) -> (r: Result<
        Event,
        Error,
    >)
        requires
            old(self).wf(),
        ensures
            final(self).wf(),
            final(self).ledger.spec_minimum() == old(self).ledger.spec_minimum(),
            ({
                let step = spec_resolve(
                    old(self).problems@,
                    old(self).ledger@,
                    old(self).ledger.spec_minimum(),
                    who,
                    number,
                    a,
                    b,
                );
                final(self).problems@ == step.0 && final(self).ledger@ == step.1 && r == step.2
            }),
    {
        let problem = match self.problems.get(number) {
            Ok(p) => p,
            Err(e) => {
                return Err(e);
            },
        };
        if problem.resolver.is_some() {
            return Err(Error::AlreadyResolved);
        }
        let correct = match a.checked_mul(b) {
            Some(product) => product == number,
            None => false,
        };
        if !correct || !is_prime(a) || !is_prime(b) {
            return Err(Error::WrongAnswer);
        }
        let to_resolver = resolver_share_of(problem.reward);
        let to_treasury = problem.reward - to_resolver;
        let saved = self.ledger.snapshot();
        let _leftover: u128 = self.ledger.unreserve(problem.submitter, problem.reward);
        match self.ledger.transfer(problem.submitter, who, to_resolver, true) {
            Err(e) => {
                self.ledger = saved;
                return Err(Error::Ledger(e));
            },
            Ok(()) => {},
        }
        match self.ledger.transfer(problem.submitter, Self::account_id(), to_treasury, true) {
            Err(e) => {
                self.ledger = saved;
                return Err(Error::Ledger(e));
            },
            Ok(()) => {},
        }
        let updated = match self.problems.mark_resolved(number, a, b, who) {
            Ok(p) => p,
            Err(e) => {
                proof {
                    assert(false);
                }
                return Err(e);
            },
        };
        proof {
            let p0 = old(self).problems@;
            let l0 = old(self).ledger@;
            let sub = problem.submitter;
            let rw = problem.reward;
            lemma_open_rewards_remove(p0, number, sub);
            lemma_open_rewards_nonneg(p0.remove(number), sub);
            assert(bound_reward(problem, sub) == rw);
            assert(rw <= reserved_of(l0, sub));
            let l1 = spec_unreserve(l0, sub, rw);
            let l2 = spec_transfer(l1, sub, who, to_resolver);
            lemma_transfer_preserves_reserved(l1, sub, who, to_resolver);
            lemma_transfer_preserves_reserved(l2, sub, TREASURY_ACCOUNT, to_treasury);
            assert forall|w: u64| #[trigger]
                open_rewards(self.problems@, w) <= reserved_of(self.ledger@, w) by {
                lemma_open_rewards_update(p0, number, updated, w);
                assert(bound_reward(updated, w) == 0);
                if w == sub {
                    assert(reserved_of(l1, sub) == reserved_of(l0, sub) - rw);
                } else {
                    assert(bound_reward(problem, w) == 0);
                    assert(reserved_of(l1, w) == reserved_of(l0, w));
                }
            };
        }
        Ok(Event::ProblemResolved { number, a, b, resolver: who })
    }
}

} // verus!
