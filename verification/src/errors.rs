//! The failures a settlement call can report.

use crate::ledger::LedgerError;
use vstd::prelude::*;

verus! {

/// Why a `submit` or `resolve` call failed. Every failure aborts the whole
/// call; no partial effect is ever observable.
#[derive(Clone, Copy, Debug, PartialEq, Eq, Structural)]
pub enum Error {
    /// The number was already submitted (resolved or not), and a number is
    /// consumed forever by its first submission.
    AlreadySubmitted,
    /// The number to resolve was never submitted.
    InexistentNumber,
    /// The problem was already resolved; resolution is write-once.
    AlreadyResolved,
    /// The proposed factorization is wrong: the product overflows, or does
    /// not equal the number, or a factor is not prime. The caller cannot
    /// tell these apart.
    WrongAnswer,
    /// A ledger failure, propagated unchanged.
    Ledger(LedgerError),
}

} // verus!
