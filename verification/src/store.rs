//! The problem store: a keyed map from a problem's number to its record.
//!
//! The store owns problem identity and lifecycle state. It is append-only: a
//! record is created by its first (and only) insertion, mutated exactly once
//! when marked resolved, and never deleted.

use crate::errors::Error;
use std::collections::HashMap;
use vstd::prelude::*;

verus! {

broadcast use vstd::std_specs::hash::group_hash_axioms;

/// A factorization problem: a number posted with a reward, and — once
/// resolved — its factor pair and resolver.
#[derive(Clone, Copy, Debug, PartialEq, Eq)]
pub struct Problem {
    /// The number to factor; also the record's unique key.
    pub number: u128,
    /// The reward reserved from the submitter at creation.
    pub reward: u128,
    /// The accepted factor pair; present iff resolved.
    pub solution: Option<(u128, u128)>,
    /// The account that posted the problem and funds the reward.
    pub submitter: u64,
    /// The account that resolved the problem; present iff resolved.
    pub resolver: Option<u64>,
}

/// Map of all the problems submitted, keyed by their number.
pub struct ProblemStore {
    problems: HashMap<u128, Problem>,
}

impl View for ProblemStore {
    type V = Map<u128, Problem>;

    closed spec fn view(&self) -> Map<u128, Problem> {
        self.problems@
    }
}

impl ProblemStore {
    /// An empty store.
    pub fn new() -> (s: ProblemStore)
        ensures
            s@ == Map::<u128, Problem>::empty(),
    {
        ProblemStore { problems: HashMap::new() }
    }

    /// Whether a problem with this number was ever submitted.
    pub fn contains(&self, number: u128) -> (r: bool)
        ensures
            r == self@.contains_key(number),
    {
        self.problems.contains_key(&number)
    }

    /// Insert a new problem under its number. Fails, changing nothing, when
    /// the number is already present: a number is consumed forever by its
    /// first submission.
    pub fn insert(&mut self, number: u128, problem: Problem) -> (r: Result<(), Error>)
        ensures
            if old(self)@.contains_key(number) {
                r == Err::<(), Error>(Error::AlreadySubmitted) && final(self)@ == old(self)@
            } else {
                r == Ok::<(), Error>(()) && final(self)@ == old(self)@.insert(number, problem)
            },
    {
        if self.problems.contains_key(&number) {
            return Err(Error::AlreadySubmitted);
        }
        self.problems.insert(number, problem);
        Ok(())
    }

    /// The record stored under this number, or `InexistentNumber` when the
    /// number was never submitted.
    pub fn get(&self, number: u128) -> (r: Result<Problem, Error>)
        ensures
            if self@.contains_key(number) {
                r == Ok::<Problem, Error>(self@[number])
            } else {
                r == Err::<Problem, Error>(Error::InexistentNumber)
            },
    {
        match self.problems.get(&number) {
            Some(p) => Ok(*p),
            None => Err(Error::InexistentNumber),
        }
    }

    /// Mark the problem under this number resolved with the factor pair
    /// `(a, b)` and the given resolver, producing the updated, now immutable
    /// record. Fails, changing nothing, when the number is absent or the
    /// record already carries a resolver.
    pub fn mark_resolved(&mut self, number: u128, a: u128, b: u128, resolver: u64) -> (r: Result<
        Problem,
        Error,
    >)
        ensures
            if !old(self)@.contains_key(number) {
                r == Err::<Problem, Error>(Error::InexistentNumber) && final(self)@ == old(self)@
            } else if old(self)@[number].resolver is Some {
                r == Err::<Problem, Error>(Error::AlreadyResolved) && final(self)@ == old(self)@
            } else {
                let updated = Problem {
                    number,
                    reward: old(self)@[number].reward,
                    solution: Some((a, b)),
                    submitter: old(self)@[number].submitter,
                    resolver: Some(resolver),
                };
                r == Ok::<Problem, Error>(updated) && final(self)@ == old(self)@.insert(
                    number,
                    updated,
                )
            },
    {
        let existing = match self.problems.get(&number) {
            Some(p) => *p,
            None => {
                return Err(Error::InexistentNumber);
            },
        };
        if existing.resolver.is_some() {
            return Err(Error::AlreadyResolved);
        }
        let updated = Problem {
            number,
            reward: existing.reward,
            solution: Some((a, b)),
            submitter: existing.submitter,
            resolver: Some(resolver),
        };
        self.problems.insert(number, updated);
        Ok(updated)
    }
}

} // verus!
