//! The balance ledger: free and reserved funds per account.
//!
//! The ledger owns all balance and reservation state. It supports reservation
//! of free funds, release of reserved funds, and transfer of free funds,
//! optionally retaining the account's existential minimum balance. Every
//! operation either applies in full or fails with no change.

use std::collections::HashMap;
use vstd::prelude::*;

verus! {

broadcast use vstd::std_specs::hash::group_hash_axioms;

/// The balances of one account: spendable funds and funds reserved
/// (earmarked, unspendable until released).
#[derive(Clone, Copy, Debug, PartialEq, Eq, Structural)]
pub struct Acct {
    pub free: u128,
    pub reserved: u128,
}

/// A failure originating in the ledger. It propagates unchanged to the
/// caller of the operation that drove the ledger.
#[derive(Clone, Copy, Debug, PartialEq, Eq, Structural)]
pub enum LedgerError {
    /// The account's free balance cannot cover the requested amount.
    InsufficientBalance,
    /// The transfer would leave the source below the existential minimum.
    BelowMinimumBalance,
    /// Crediting the destination would overflow its balance.
    Overflow,
}

/// The account an absent ledger entry stands for.
pub open spec fn empty_acct() -> Acct {
    Acct { free: 0, reserved: 0 }
}

/// The balances of `who` in the ledger state `m`; an account never touched
/// holds nothing.
pub open spec fn acct_of(m: Map<u64, Acct>, who: u64) -> Acct {
    if m.contains_key(who) {
        m[who]
    } else {
        empty_acct()
    }
}

/// Free balance of `who` in `m`.
pub open spec fn free_of(m: Map<u64, Acct>, who: u64) -> u128 {
    acct_of(m, who).free
}

/// Reserved balance of `who` in `m`.
pub open spec fn reserved_of(m: Map<u64, Acct>, who: u64) -> u128 {
    acct_of(m, who).reserved
}

/// The ledger state after reserving `amount` from `who`: the amount moves
/// from free to reserved. Meaningful when `amount <= free_of(m, who)`.
pub open spec fn spec_reserve(m: Map<u64, Acct>, who: u64, amount: u128) -> Map<u64, Acct> {
    let a = acct_of(m, who);
    m.insert(
        who,
        Acct { free: (a.free - amount) as u128, reserved: (a.reserved + amount) as u128 },
    )
}

/// The ledger state after releasing up to `amount` of the reservation of
/// `who`: what is actually released is capped by the reserved balance, and
/// moves from reserved back to free.
pub open spec fn spec_unreserve(m: Map<u64, Acct>, who: u64, amount: u128) -> Map<u64, Acct> {
    let a = acct_of(m, who);
    let actual = if amount <= a.reserved {
        amount
    } else {
        a.reserved
    };
    m.insert(who, Acct { free: (a.free + actual) as u128, reserved: (a.reserved - actual) as u128 })
}

/// Why a transfer of `amount` of free funds from `from` to `to` fails in the
/// state `m`, if it fails: the source cannot cover the amount; retaining the
/// minimum (when asked) would be violated; or crediting the destination would
/// overflow. `None` means the transfer succeeds.
pub open spec fn spec_transfer_err(
    m: Map<u64, Acct>,
    from: u64,
    to: u64,
    amount: u128,
    retain_minimum: bool,
    minimum: u128,
) -> Option<LedgerError> {
    if free_of(m, from) < amount {
        Some(LedgerError::InsufficientBalance)
    } else if retain_minimum && free_of(m, from) - amount < minimum {
        Some(LedgerError::BelowMinimumBalance)
    } else if from != to && free_of(m, to) + reserved_of(m, to) + amount > u128::MAX {
        Some(LedgerError::Overflow)
    } else {
        None
    }
}

/// The ledger state after a successful transfer: the amount leaves the free
/// balance of `from`, then is credited to the free balance of `to` (reading
/// `to` after the debit, so a transfer to oneself nets to no movement).
pub open spec fn spec_transfer(m: Map<u64, Acct>, from: u64, to: u64, amount: u128) -> Map<
    u64,
    Acct,
> {
    let fa = acct_of(m, from);
    let m1 = m.insert(from, Acct { free: (fa.free - amount) as u128, reserved: fa.reserved });
    let ta = acct_of(m1, to);
    m1.insert(to, Acct { free: (ta.free + amount) as u128, reserved: ta.reserved })
}

/// A transfer moves free funds only: it leaves every account's reserved
/// balance as it was.
pub proof fn lemma_transfer_preserves_reserved(m: Map<u64, Acct>, from: u64, to: u64, amount: u128)
    ensures
        forall|w: u64| #[trigger]
            reserved_of(spec_transfer(m, from, to, amount), w) == reserved_of(m, w),
{
    assert forall|w: u64| #[trigger]
        reserved_of(spec_transfer(m, from, to, amount), w) == reserved_of(m, w) by {
        let m1 = m.insert(
            from,
            Acct { free: (acct_of(m, from).free - amount) as u128, reserved: acct_of(m, from).reserved },
        );
        assert(reserved_of(m1, w) == reserved_of(m, w));
    };
}

/// Account balances, with an existential minimum balance policy.
pub struct Ledger {
    accounts: HashMap<u64, Acct>,
    minimum: u128,
}

impl View for Ledger {
    type V = Map<u64, Acct>;

    closed spec fn view(&self) -> Map<u64, Acct> {
        self.accounts@
    }
}

impl Ledger {
    /// The existential minimum a retained account must keep.
    pub closed spec fn spec_minimum(self) -> u128 {
        self.minimum
    }

    /// Every account's two balances together fit the balance domain, so
    /// moving funds between free and reserved can never overflow.
    pub open spec fn wf(self) -> bool {
        forall|who: u64| #[trigger]
            self@.contains_key(who) ==> self@[who].free + self@[who].reserved <= u128::MAX
    }

    /// An empty ledger with the given existential minimum.
    pub fn new(minimum: u128) -> (l: Ledger)
        ensures
            l.wf(),
            l@ == Map::<u64, Acct>::empty(),
            l.spec_minimum() == minimum,
    {
        Ledger { accounts: HashMap::new(), minimum }
    }

    /// The existential minimum balance of this ledger.
    pub fn minimum_balance(&self) -> (r: u128)
        ensures
            r == self.spec_minimum(),
    {
        self.minimum
    }

    /// The balances of `who`, absent accounts holding nothing.
    fn get_acct(&self, who: u64) -> (a: Acct)
        ensures
            a == acct_of(self@, who),
    {
        match self.accounts.get(&who) {
            Some(a) => *a,
            None => Acct { free: 0, reserved: 0 },
        }
    }

    /// Overwrite the balances of `who`.
    fn set_acct(&mut self, who: u64, a: Acct)
        ensures
            final(self)@ == old(self)@.insert(who, a),
            final(self).spec_minimum() == old(self).spec_minimum(),
    {
        self.accounts.insert(who, a);
    }

    /// The free balance of `who`.
    pub fn free_balance(&self, who: u64) -> (r: u128)
        ensures
            r == free_of(self@, who),
    {
        self.get_acct(who).free
    }

    /// The reserved balance of `who`.
    pub fn reserved_balance(&self, who: u64) -> (r: u128)
        ensures
            r == reserved_of(self@, who),
    {
        self.get_acct(who).reserved
    }

    /// A copy of this ledger, used to roll a multi-step settlement back.
    pub fn snapshot(&self) -> (l: Ledger)
        ensures
            l@ == self@,
            l.spec_minimum() == self.spec_minimum(),
    {
        Ledger { accounts: self.accounts.clone(), minimum: self.minimum }
    }

    /// Mint `amount` of new free funds into `who`. Fails, changing nothing,
    /// only when the account could not hold the new total.
    pub fn deposit(&mut self, who: u64, amount: u128) -> (r: Result<(), LedgerError>)
        requires
            old(self).wf(),
        ensures
            final(self).wf(),
            final(self).spec_minimum() == old(self).spec_minimum(),
            ({
                let a = acct_of(old(self)@, who);
                if a.free + a.reserved + amount <= u128::MAX {
                    r == Ok::<(), LedgerError>(())
                        && final(self)@ == old(self)@.insert(
                        who,
                        Acct { free: (a.free + amount) as u128, reserved: a.reserved },
                    )
                } else {
                    r == Err::<(), LedgerError>(LedgerError::Overflow)
                        && final(self)@ == old(self)@
                }
            }),
    {
        let a = self.get_acct(who);
        if amount > u128::MAX - a.free - a.reserved {
            return Err(LedgerError::Overflow);
        }
        self.set_acct(who, Acct { free: a.free + amount, reserved: a.reserved });
        Ok(())
    }

    /// Move `amount` of the free balance of `who` into its reservation.
    /// Fails, changing nothing, exactly when the free balance cannot cover
    /// the amount.
    pub fn reserve(&mut self, who: u64, amount: u128) -> (r: Result<(), LedgerError>)
        requires
            old(self).wf(),
        ensures
            final(self).wf(),
            final(self).spec_minimum() == old(self).spec_minimum(),
            if free_of(old(self)@, who) >= amount {
                r == Ok::<(), LedgerError>(())
                    && final(self)@ == spec_reserve(old(self)@, who, amount)
            } else {
                r == Err::<(), LedgerError>(LedgerError::InsufficientBalance)
                    && final(self)@ == old(self)@
            },
    {
        let a = self.get_acct(who);
        if amount > a.free {
            return Err(LedgerError::InsufficientBalance);
        }
        self.set_acct(who, Acct { free: a.free - amount, reserved: a.reserved + amount });
        Ok(())
    }

    /// Release up to `amount` of the reservation of `who` back into its free
    /// balance; what exceeds the reserved balance is simply not released.
    /// Never fails; returns the part of `amount` that was not reserved.
    pub fn unreserve(&mut self, who: u64, amount: u128) -> (leftover: u128)
        requires
            old(self).wf(),
        ensures
            final(self).wf(),
            final(self).spec_minimum() == old(self).spec_minimum(),
            final(self)@ == spec_unreserve(old(self)@, who, amount),
            leftover == if amount <= reserved_of(old(self)@, who) {
                0u128
            } else {
                (amount - reserved_of(old(self)@, who)) as u128
            },
    {
        let a = self.get_acct(who);
        let actual = if amount <= a.reserved {
            amount
        } else {
            a.reserved
        };
        self.set_acct(who, Acct { free: a.free + actual, reserved: a.reserved - actual });
        amount - actual
    }

    /// Transfer `amount` of free funds from `from` to `to`. With
    /// `retain_minimum`, the source must be left with at least the
    /// existential minimum. Fails, changing nothing, exactly per
    /// `spec_transfer_err`.
    pub fn transfer(&mut self, from: u64, to: u64, amount: u128, retain_minimum: bool) -> (r:
        Result<(), LedgerError>)
        requires
            old(self).wf(),
        ensures
            final(self).wf(),
            final(self).spec_minimum() == old(self).spec_minimum(),
            match spec_transfer_err(
                old(self)@,
                from,
                to,
                amount,
                retain_minimum,
                old(self).spec_minimum(),
            ) {
                Some(e) => r == Err::<(), LedgerError>(e) && final(self)@ == old(self)@,
                None => r == Ok::<(), LedgerError>(())
                    && final(self)@ == spec_transfer(old(self)@, from, to, amount),
            },
    {
        let fa = self.get_acct(from);
        if amount > fa.free {
            return Err(LedgerError::InsufficientBalance);
        }
        let new_from_free = fa.free - amount;
        if retain_minimum && new_from_free < self.minimum {
            return Err(LedgerError::BelowMinimumBalance);
        }
        if from != to {
            let ta = self.get_acct(to);
            if amount > u128::MAX - ta.free - ta.reserved {
                return Err(LedgerError::Overflow);
            }
        }
        self.set_acct(from, Acct { free: new_from_free, reserved: fa.reserved });
        let ta = self.get_acct(to);
        self.set_acct(to, Acct { free: ta.free + amount, reserved: ta.reserved });
        Ok(())
    }
}

} // verus!
