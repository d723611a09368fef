use vstd::prelude::*;

use crate::types::{AssetId, Balance};

verus! {

/// The smaller of two balances.
pub open spec fn spec_min(a: Balance, b: Balance) -> Balance {
    if a <= b {
        a
    } else {
        b
    }
}

/// A token for funds of one asset that were created without the equal and
/// opposite change to the asset's total issuance. Settling it with the ledger
/// adds its amount to that issuance.
#[must_use]
pub struct PositiveImbalance {
    asset_id: AssetId,
    amount: Balance,
}

/// A token for funds of one asset that were destroyed without the equal and
/// opposite change to the asset's total issuance. Settling it with the ledger
/// takes its amount from that issuance.
#[must_use]
pub struct NegativeImbalance {
    asset_id: AssetId,
    amount: Balance,
}

/// An imbalance of either sign.
#[must_use]
pub enum SignedImbalance {
    Positive(PositiveImbalance),
    Negative(NegativeImbalance),
}

/// How an update of a free balance ended.
#[derive(Clone, Copy, Debug, PartialEq, Eq, Structural)]
pub enum UpdateBalanceOutcome {
    Updated,
    AccountKilled,
}

impl PositiveImbalance {
    /// The asset whose issuance the token is owed to.
    pub closed spec fn spec_asset_id(&self) -> AssetId {
        self.asset_id
    }

    /// The amount the token stands for.
    pub closed spec fn spec_amount(&self) -> Balance {
        self.amount
    }

    pub fn new(asset_id: AssetId, amount: Balance) -> (r: Self)
        ensures
            r.spec_asset_id() == asset_id,
            r.spec_amount() == amount,
    {
        PositiveImbalance { asset_id, amount }
    }

    /// The token for nothing; settling it changes nothing.
    pub fn zero(asset_id: AssetId) -> (r: Self)
        ensures
            r.spec_asset_id() == asset_id,
            r.spec_amount() == 0,
    {
        Self::new(asset_id, 0)
    }

    /// Consumes a token for nothing; hands any other token back.
    pub fn drop_zero(self) -> (r: Result<(), Self>)
        ensures
            r is Ok <==> self.spec_amount() == 0,
            r matches Err(s) ==> s == self,
    {
        if self.amount == 0 {
            Ok(())
        } else {
            Err(self)
        }
    }

    /// Splits the token in two: the first part is `amount` or all there is,
    /// the second the rest.
    pub fn split(self, amount: Balance) -> (r: (Self, Self))
        ensures
            r.0.spec_asset_id() == self.spec_asset_id(),
            r.1.spec_asset_id() == self.spec_asset_id(),
            r.0.spec_amount() == spec_min(self.spec_amount(), amount),
            r.0.spec_amount() + r.1.spec_amount() == self.spec_amount(),
    {
        let first = if self.amount <= amount {
            self.amount
        } else {
            amount
        };
        let second = self.amount - first;
        (Self::new(self.asset_id, first), Self::new(self.asset_id, second))
    }

    /// One token for the two amounts together, saturating at the largest balance.
    pub fn merge(self, other: Self) -> (r: Self)
        requires
            self.spec_asset_id() == other.spec_asset_id(),
        ensures
            r.spec_asset_id() == self.spec_asset_id(),
            r.spec_amount() == self.spec_amount().saturating_add(other.spec_amount()),
    {
        Self::new(self.asset_id, self.amount.saturating_add(other.amount))
    }

    /// Merges `other` into this token.
    pub fn subsume(&mut self, other: Self)
        requires
            old(self).spec_asset_id() == other.spec_asset_id(),
        ensures
            final(self).spec_asset_id() == old(self).spec_asset_id(),
            final(self).spec_amount() == old(self).spec_amount().saturating_add(
                other.spec_amount(),
            ),
    {
        self.amount = self.amount.saturating_add(other.amount);
    }

    /// Cancels this token against one of the opposite sign; what is left keeps
    /// the sign of the larger.
    pub fn offset(self, other: NegativeImbalance) -> (r: Result<Self, NegativeImbalance>)
        requires
            self.spec_asset_id() == other.spec_asset_id(),
        ensures
            r is Ok <==> self.spec_amount() >= other.spec_amount(),
            r matches Ok(p) ==> p.spec_asset_id() == self.spec_asset_id() && p.spec_amount()
                == self.spec_amount() - other.spec_amount(),
            r matches Err(n) ==> n.spec_asset_id() == self.spec_asset_id() && n.spec_amount()
                == other.spec_amount() - self.spec_amount(),
    {
        if self.amount >= other.amount {
            Ok(Self::new(self.asset_id, self.amount - other.amount))
        } else {
            Err(NegativeImbalance::new(self.asset_id, other.amount - self.amount))
        }
    }

    /// The amount, without consuming the token.
    pub fn peek(&self) -> (r: Balance)
        ensures
            r == self.spec_amount(),
    {
        self.amount
    }

    /// The asset the token belongs to.
    pub fn asset_id(&self) -> (r: AssetId)
        ensures
            r == self.spec_asset_id(),
    {
        self.asset_id
    }
}

impl NegativeImbalance {
    /// The asset whose issuance the token is owed to.
    pub closed spec fn spec_asset_id(&self) -> AssetId {
        self.asset_id
    }

    /// The amount the token stands for.
    pub closed spec fn spec_amount(&self) -> Balance {
        self.amount
    }

    pub fn new(asset_id: AssetId, amount: Balance) -> (r: Self)
        ensures
            r.spec_asset_id() == asset_id,
            r.spec_amount() == amount,
    {
        NegativeImbalance { asset_id, amount }
    }

    /// The token for nothing; settling it changes nothing.
    pub fn zero(asset_id: AssetId) -> (r: Self)
        ensures
            r.spec_asset_id() == asset_id,
            r.spec_amount() == 0,
    {
        Self::new(asset_id, 0)
    }

    /// Consumes a token for nothing; hands any other token back.
    pub fn drop_zero(self) -> (r: Result<(), Self>)
        ensures
            r is Ok <==> self.spec_amount() == 0,
            r matches Err(s) ==> s == self,
    {
        if self.amount == 0 {
            Ok(())
        } else {
            Err(self)
        }
    }

    /// Splits the token in two: the first part is `amount` or all there is,
    /// the second the rest.
    pub fn split(self, amount: Balance) -> (r: (Self, Self))
        ensures
            r.0.spec_asset_id() == self.spec_asset_id(),
            r.1.spec_asset_id() == self.spec_asset_id(),
            r.0.spec_amount() == spec_min(self.spec_amount(), amount),
            r.0.spec_amount() + r.1.spec_amount() == self.spec_amount(),
    {
        let first = if self.amount <= amount {
            self.amount
        } else {
            amount
        };
        let second = self.amount - first;
        (Self::new(self.asset_id, first), Self::new(self.asset_id, second))
    }

    /// One token for the two amounts together, saturating at the largest balance.
    pub fn merge(self, other: Self) -> (r: Self)
        requires
            self.spec_asset_id() == other.spec_asset_id(),
        ensures
            r.spec_asset_id() == self.spec_asset_id(),
            r.spec_amount() == self.spec_amount().saturating_add(other.spec_amount()),
    {
        Self::new(self.asset_id, self.amount.saturating_add(other.amount))
    }

    /// Merges `other` into this token.
    pub fn subsume(&mut self, other: Self)
        requires
            old(self).spec_asset_id() == other.spec_asset_id(),
        ensures
            final(self).spec_asset_id() == old(self).spec_asset_id(),
            final(self).spec_amount() == old(self).spec_amount().saturating_add(
                other.spec_amount(),
            ),
    {
        self.amount = self.amount.saturating_add(other.amount);
    }

    /// Cancels this token against one of the opposite sign; what is left keeps
    /// the sign of the larger.
    pub fn offset(self, other: PositiveImbalance) -> (r: Result<Self, PositiveImbalance>)
        requires
            self.spec_asset_id() == other.spec_asset_id(),
        ensures
            r is Ok <==> self.spec_amount() >= other.spec_amount(),
            r matches Ok(n) ==> n.spec_asset_id() == self.spec_asset_id() && n.spec_amount()
                == self.spec_amount() - other.spec_amount(),
            r matches Err(p) ==> p.spec_asset_id() == self.spec_asset_id() && p.spec_amount()
                == other.spec_amount() - self.spec_amount(),
    {
        if self.amount >= other.peek() {
            Ok(Self::new(self.asset_id, self.amount - other.peek()))
        } else {
            Err(PositiveImbalance::new(self.asset_id, other.peek() - self.amount))
        }
    }

    /// The amount, without consuming the token.
    pub fn peek(&self) -> (r: Balance)
        ensures
            r == self.spec_amount(),
    {
        self.amount
    }

    /// The asset the token belongs to.
    pub fn asset_id(&self) -> (r: AssetId)
        ensures
            r == self.spec_asset_id(),
    {
        self.asset_id
    }
}

} // verus!
