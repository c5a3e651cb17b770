//! A ledger-resident marketplace for factorization problems.
//!
//! A submitter posts a composite number together with a reward, funded by a
//! reservation against the submitter's balance. Any resolver may later claim
//! the reward by supplying the number's two prime factors. A correct solution
//! releases the reward and splits it between the resolver and a protocol
//! treasury; an incorrect or replayed attempt is rejected with no state change.

pub mod errors;
pub mod laws;
pub mod ledger;
pub mod primality;
pub mod settlement;
pub mod store;
