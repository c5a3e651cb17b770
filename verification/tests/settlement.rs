use factor_bounty::errors::Error;
use factor_bounty::ledger::LedgerError;
use factor_bounty::settlement::{Event, Module, TREASURY_ACCOUNT};

const ALICE: u64 = 1;
const BOB: u64 = 2;
const CAROL: u64 = 3;

fn funded_module(minimum: u128, endowment: u128) -> Module {
    let mut m = Module::new(minimum);
    m.ledger.deposit(ALICE, endowment).unwrap();
    m
}

#[test]
fn treasury_account_is_fixed() {
    assert_eq!(Module::account_id(), TREASURY_ACCOUNT);
}

#[test]
fn submit_reserves_reward() {
    let mut m = funded_module(0, 1000);
    let r = m.submit_problem(ALICE, 15, 100);
    assert_eq!(
        r,
        Ok(Event::ProblemSubmitted { number: 15, reward: 100, submitter: ALICE })
    );
    assert_eq!(m.ledger.free_balance(ALICE), 900);
    assert_eq!(m.ledger.reserved_balance(ALICE), 100);
    let stored = m.problems.get(15).unwrap();
    assert_eq!(stored.number, 15);
    assert_eq!(stored.reward, 100);
    assert_eq!(stored.submitter, ALICE);
    assert_eq!(stored.solution, None);
    assert_eq!(stored.resolver, None);
}

#[test]
fn second_submission_of_same_number_refused() {
    let mut m = funded_module(0, 1000);
    m.ledger.deposit(BOB, 1000).unwrap();
    assert!(m.submit_problem(ALICE, 15, 100).is_ok());
    assert_eq!(m.submit_problem(BOB, 15, 7), Err(Error::AlreadySubmitted));
    assert_eq!(m.submit_problem(ALICE, 15, 100), Err(Error::AlreadySubmitted));
    assert_eq!(m.ledger.free_balance(BOB), 1000);
    assert_eq!(m.ledger.reserved_balance(ALICE), 100);
}

#[test]
fn underfunded_submission_refused() {
    let mut m = funded_module(0, 50);
    assert_eq!(
        m.submit_problem(ALICE, 15, 100),
        Err(Error::Ledger(LedgerError::InsufficientBalance))
    );
    assert!(!m.problems.contains(15));
    assert_eq!(m.ledger.free_balance(ALICE), 50);
    assert_eq!(m.ledger.reserved_balance(ALICE), 0);
}

#[test]
fn resolve_unknown_number_refused() {
    let mut m = funded_module(0, 1000);
    assert_eq!(m.resolve_problem(BOB, 21, 3, 7), Err(Error::InexistentNumber));
}

#[test]
fn resolve_pays_eighty_twenty() {
    let mut m = funded_module(0, 1000);
    assert!(m.submit_problem(ALICE, 15, 100).is_ok());
    let r = m.resolve_problem(BOB, 15, 3, 5);
    assert_eq!(
        r,
        Ok(Event::ProblemResolved { number: 15, a: 3, b: 5, resolver: BOB })
    );
    assert_eq!(m.ledger.free_balance(BOB), 80);
    assert_eq!(m.ledger.free_balance(TREASURY_ACCOUNT), 20);
    assert_eq!(m.ledger.free_balance(ALICE), 900);
    assert_eq!(m.ledger.reserved_balance(ALICE), 0);
    let stored = m.problems.get(15).unwrap();
    assert_eq!(stored.solution, Some((3, 5)));
    assert_eq!(stored.resolver, Some(BOB));
}

#[test]
fn factor_order_is_not_significant() {
    let mut m = funded_module(0, 1000);
    assert!(m.submit_problem(ALICE, 15, 100).is_ok());
    let r = m.resolve_problem(BOB, 15, 5, 3);
    assert_eq!(
        r,
        Ok(Event::ProblemResolved { number: 15, a: 5, b: 3, resolver: BOB })
    );
    let stored = m.problems.get(15).unwrap();
    assert_eq!(stored.solution, Some((5, 3)));
}

#[test]
fn overflowing_product_is_wrong_answer() {
    let mut m = funded_module(0, 1000);
    assert!(m.submit_problem(ALICE, 15, 100).is_ok());
    assert_eq!(
        m.resolve_problem(BOB, 15, u128::MAX, 2),
        Err(Error::WrongAnswer)
    );
    assert_eq!(
        m.resolve_problem(BOB, 15, u128::MAX, u128::MAX),
        Err(Error::WrongAnswer)
    );
    assert_eq!(m.ledger.reserved_balance(ALICE), 100);
}

#[test]
fn composite_factor_is_wrong_answer() {
    let mut m = funded_module(0, 1000);
    assert!(m.submit_problem(ALICE, 16, 100).is_ok());
    assert_eq!(m.resolve_problem(BOB, 16, 4, 4), Err(Error::WrongAnswer));
    assert_eq!(m.ledger.reserved_balance(ALICE), 100);
    assert_eq!(m.problems.get(16).unwrap().resolver, None);
}

#[test]
fn wrong_product_is_wrong_answer() {
    let mut m = funded_module(0, 1000);
    assert!(m.submit_problem(ALICE, 15, 100).is_ok());
    assert_eq!(m.resolve_problem(BOB, 15, 3, 7), Err(Error::WrongAnswer));
    assert_eq!(m.ledger.reserved_balance(ALICE), 100);
}

#[test]
fn second_resolution_refused_and_record_kept() {
    let mut m = funded_module(0, 1000);
    assert!(m.submit_problem(ALICE, 15, 100).is_ok());
    assert!(m.resolve_problem(BOB, 15, 3, 5).is_ok());
    assert_eq!(m.resolve_problem(CAROL, 15, 5, 3), Err(Error::AlreadyResolved));
    // Even a wrong answer is reported as AlreadyResolved once the record is
    // terminal.
    assert_eq!(m.resolve_problem(CAROL, 15, 4, 4), Err(Error::AlreadyResolved));
    let stored = m.problems.get(15).unwrap();
    assert_eq!(stored.solution, Some((3, 5)));
    assert_eq!(stored.resolver, Some(BOB));
    assert_eq!(m.ledger.free_balance(CAROL), 0);
    assert_eq!(m.ledger.free_balance(BOB), 80);
}

#[test]
fn resolved_number_cannot_be_resubmitted() {
    let mut m = funded_module(0, 1000);
    assert!(m.submit_problem(ALICE, 15, 100).is_ok());
    assert!(m.resolve_problem(BOB, 15, 3, 5).is_ok());
    assert_eq!(m.submit_problem(ALICE, 15, 1), Err(Error::AlreadySubmitted));
}

#[test]
fn odd_reward_split_conserves_value() {
    let mut m = funded_module(0, 1000);
    assert!(m.submit_problem(ALICE, 15, 101).is_ok());
    assert!(m.resolve_problem(BOB, 15, 3, 5).is_ok());
    // floor(101 * 80 / 100) = 80; the remainder goes to the treasury.
    assert_eq!(m.ledger.free_balance(BOB), 80);
    assert_eq!(m.ledger.free_balance(TREASURY_ACCOUNT), 21);
    assert_eq!(m.ledger.free_balance(ALICE), 899);
}

#[test]
fn tiny_reward_split_conserves_value() {
    let mut m = funded_module(0, 1000);
    assert!(m.submit_problem(ALICE, 15, 1).is_ok());
    assert!(m.resolve_problem(BOB, 15, 3, 5).is_ok());
    // floor(1 * 80 / 100) = 0; the whole reward goes to the treasury.
    assert_eq!(m.ledger.free_balance(BOB), 0);
    assert_eq!(m.ledger.free_balance(TREASURY_ACCOUNT), 1);
}

#[test]
fn zero_reward_resolution() {
    let mut m = funded_module(0, 1000);
    assert!(m.submit_problem(ALICE, 15, 0).is_ok());
    assert!(m.resolve_problem(BOB, 15, 3, 5).is_ok());
    assert_eq!(m.ledger.free_balance(BOB), 0);
    assert_eq!(m.ledger.free_balance(TREASURY_ACCOUNT), 0);
    assert_eq!(m.ledger.free_balance(ALICE), 1000);
}

#[test]
fn failed_transfer_rolls_everything_back() {
    // The submitter's remaining free balance sits below the existential
    // minimum, so the payout transfer is refused and the call must leave the
    // reservation and the record untouched.
    let mut m = funded_module(1000, 1000);
    assert!(m.submit_problem(ALICE, 15, 100).is_ok());
    assert_eq!(m.ledger.free_balance(ALICE), 900);
    assert_eq!(
        m.resolve_problem(BOB, 15, 3, 5),
        Err(Error::Ledger(LedgerError::BelowMinimumBalance))
    );
    assert_eq!(m.ledger.free_balance(ALICE), 900);
    assert_eq!(m.ledger.reserved_balance(ALICE), 100);
    assert_eq!(m.ledger.free_balance(BOB), 0);
    assert_eq!(m.ledger.free_balance(TREASURY_ACCOUNT), 0);
    let stored = m.problems.get(15).unwrap();
    assert_eq!(stored.solution, None);
    assert_eq!(stored.resolver, None);
}
