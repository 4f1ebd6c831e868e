//! A client account and its five transitions.

use crate::amount::{
    difference_of, lemma_difference_exact, lemma_sum_exact, lemma_within_smaller_scale, max_scale,
    sum_of, within, Amount,
};
use vstd::prelude::*;

verus! {

/// Balances of one client. Once `locked`, the balances never change again.
#[derive(Clone, Copy, Debug)]
pub struct Account {
    pub id: u16,
    pub available: Amount,
    pub held: Amount,
    pub locked: bool,
}

pub open spec fn fresh_account(id: u16) -> Account {
    Account {
        id,
        available: Amount { mantissa: 0, scale: 1 },
        held: Amount { mantissa: 0, scale: 1 },
        locked: false,
    }
}

impl Account {
    pub open spec fn wf(self) -> bool {
        self.available.wf() && self.held.wf()
    }

    /// `available += v`, unless the account is locked.
    pub open spec fn deposit_spec(self, v: Amount) -> Account {
        if self.locked {
            self
        } else {
            Account { available: self.available.plus(v), ..self }
        }
    }

    /// `available -= v`, unless the account is locked or `v` exceeds what is available.
    pub open spec fn withdraw_spec(self, v: Amount) -> Account {
        if self.locked || self.available.units() < v.units() {
            self
        } else {
            Account { available: self.available.minus(v), ..self }
        }
    }

    /// Moves `v` from available to held, unless locked (or a balance would overflow).
    pub open spec fn dispute_spec(self, v: Amount) -> Account {
        if self.locked {
            self
        } else {
            match (difference_of(self.available, v), sum_of(self.held, v)) {
                (Some(a), Some(h)) => Account { available: a, held: h, ..self },
                _ => self,
            }
        }
    }

    /// Moves `v` from held back to available, unless locked (or a balance would overflow).
    pub open spec fn resolve_spec(self, v: Amount) -> Account {
        if self.locked {
            self
        } else {
            match (sum_of(self.available, v), difference_of(self.held, v)) {
                (Some(a), Some(h)) => Account { available: a, held: h, ..self },
                _ => self,
            }
        }
    }

    /// Removes `v` from held and locks the account, unless already locked (or held would overflow).
    pub open spec fn chargeback_spec(self, v: Amount) -> Account {
        if self.locked {
            self
        } else {
            match difference_of(self.held, v) {
                Some(h) => Account { held: h, locked: true, ..self },
                None => self,
            }
        }
    }

    /// An unlocked account of the given client with zero balances.
    pub fn default(client_id: u16) -> (r: Account)
        ensures
            r == fresh_account(client_id),
            r.wf(),
            r.available.units() == 0,
            r.held.units() == 0,
    {
        Account { available: Amount::zero(), held: Amount::zero(), id: client_id, locked: false }
    }

    /// `available + held`; `None` when the sum overflows.
    pub fn total(&self) -> (r: Option<Amount>)
        requires
            self.wf(),
        ensures
            r == sum_of(self.available, self.held),
            within(self.available.units() + self.held.units(), max_scale(self.available, self.held))
                ==> (r matches Some(t) && t.units() == self.available.units() + self.held.units()),
    {
        proof {
            if within(self.available.units() + self.held.units(), max_scale(self.available, self.held)) {
                lemma_sum_exact(self.available, self.held);
            }
        }
        self.available.checked_add(&self.held)
    }

    pub fn deposit(&mut self, value: Amount)
        requires
            old(self).wf(),
            value.wf(),
            value.units() >= 0,
        ensures
            *final(self) == old(self).deposit_spec(value),
            final(self).wf(),
    {
        if !self.locked {
            match self.available.checked_add(&value) {
                Some(a) => {
                    self.available = a;
                },
                None => {},
            }
        }
    }

    pub fn withdraw(&mut self, value: Amount)
        requires
            old(self).wf(),
            value.wf(),
            value.units() >= 0,
        ensures
            *final(self) == old(self).withdraw_spec(value),
            final(self).wf(),
    {
        if self.available.less_than(&value) || self.locked {
            return ;
        }
        match self.available.checked_sub(&value) {
            Some(a) => {
                self.available = a;
            },
            None => {},
        }
    }

    pub fn dispute(&mut self, value: Amount)
        requires
            old(self).wf(),
            value.wf(),
            value.units() >= 0,
        ensures
            *final(self) == old(self).dispute_spec(value),
            final(self).wf(),
    {
        if !self.locked {
            let a = self.available.checked_sub(&value);
            let h = self.held.checked_add(&value);
            match (a, h) {
                (Some(a), Some(h)) => {
                    self.available = a;
                    self.held = h;
                },
                _ => {},
            }
        }
    }

    pub fn resolve(&mut self, value: Amount)
        requires
            old(self).wf(),
            value.wf(),
            value.units() >= 0,
        ensures
            *final(self) == old(self).resolve_spec(value),
            final(self).wf(),
    {
        if !self.locked {
            let a = self.available.checked_add(&value);
            let h = self.held.checked_sub(&value);
            match (a, h) {
                (Some(a), Some(h)) => {
                    self.available = a;
                    self.held = h;
                },
                _ => {},
            }
        }
    }

    pub fn chargeback(&mut self, value: Amount)
        requires
            old(self).wf(),
            value.wf(),
            value.units() >= 0,
        ensures
            *final(self) == old(self).chargeback_spec(value),
            final(self).wf(),
    {
        if !self.locked {
            match self.held.checked_sub(&value) {
                Some(h) => {
                    self.held = h;
                    self.locked = true;
                },
                None => {},
            }
        }
    }
}


/// A withdrawal of more than is available leaves the account as it was.
pub proof fn lemma_withdraw_beyond_available(acc: Account, v: Amount)
    requires
        v.units() > acc.available.units(),
    ensures
        acc.withdraw_spec(v) == acc,
{
}

/// A dispute followed by a resolve of the same amount gives back the balances from before
/// the dispute, and leaves the account unlocked; where the balances fit in 96 bits at the
/// largest scale involved.
pub proof fn lemma_dispute_resolve_inverse(acc: Account, v: Amount)
    requires
        acc.wf(),
        v.wf(),
        !acc.locked,
        within(acc.available.units(), acc_scale(acc, v)),
        within(acc.held.units(), acc_scale(acc, v)),
        within(acc.available.units() - v.units(), acc_scale(acc, v)),
        within(acc.held.units() + v.units(), acc_scale(acc, v)),
    ensures
        acc.dispute_spec(v).resolve_spec(v).available.units() == acc.available.units(),
        acc.dispute_spec(v).resolve_spec(v).held.units() == acc.held.units(),
        !acc.dispute_spec(v).resolve_spec(v).locked,
{
    let s = acc_scale(acc, v);
    lemma_within_smaller_scale(acc.available.units() - v.units(), s, max_scale(acc.available, v));
    lemma_within_smaller_scale(acc.held.units() + v.units(), s, max_scale(acc.held, v));
    lemma_difference_exact(acc.available, v);
    lemma_sum_exact(acc.held, v);
    let d = acc.dispute_spec(v);
    lemma_within_smaller_scale(acc.available.units(), s, max_scale(d.available, v));
    lemma_within_smaller_scale(acc.held.units(), s, max_scale(d.held, v));
    lemma_sum_exact(d.available, v);
    lemma_difference_exact(d.held, v);
}

/// The largest scale among the balances of `acc` and `v`.
pub open spec fn acc_scale(acc: Account, v: Amount) -> nat {
    let s = max_scale(acc.available, acc.held);
    if s >= v.scale {
        s
    } else {
        v.scale as nat
    }
}

/// A chargeback that applies locks the account, and afterwards every transition leaves it
/// as it is.
pub proof fn lemma_chargeback_terminal(acc: Account, v: Amount, w: Amount)
    requires
        acc.wf(),
        v.wf(),
        !acc.locked,
        within(acc.held.units() - v.units(), max_scale(acc.held, v)),
    ensures
        acc.chargeback_spec(v).locked,
        acc.chargeback_spec(v).available == acc.available,
        acc.chargeback_spec(v).held.units() == acc.held.units() - v.units(),
        acc.chargeback_spec(v).deposit_spec(w) == acc.chargeback_spec(v),
        acc.chargeback_spec(v).withdraw_spec(w) == acc.chargeback_spec(v),
        acc.chargeback_spec(v).dispute_spec(w) == acc.chargeback_spec(v),
        acc.chargeback_spec(v).resolve_spec(w) == acc.chargeback_spec(v),
        acc.chargeback_spec(v).chargeback_spec(w) == acc.chargeback_spec(v),
{
    lemma_difference_exact(acc.held, v);
}

} // verus!
