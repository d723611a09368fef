use std::marker::PhantomData;

use vstd::prelude::*;

use crate::imbalance::{spec_min, NegativeImbalance, PositiveImbalance, SignedImbalance, UpdateBalanceOutcome};
use crate::locks::{removed_prefix, rewritten};
use crate::module::Module;
use crate::types::{
    AccountId, AssetId, Balance, BalanceLock, BlockNumber, Error, LockIdentifier, WithdrawReason,
    WithdrawReasons,
};

verus! {

/// Picks the asset that a currency façade over the ledger works on.
pub trait AssetIdProvider {
    /// The asset the façade works on.
    spec fn spec_asset_id(ledger: Module) -> AssetId;

    /// The asset in which the façade's owner pays rewards.
    spec fn spec_reward_asset_id(ledger: Module) -> AssetId;

    /// The asset picked depends on the ledger's settings alone.
    proof fn lemma_follows_settings(a: Module, b: Module)
        requires
            a.settings_agree(b),
        ensures
            Self::spec_asset_id(a) == Self::spec_asset_id(b),
            Self::spec_reward_asset_id(a) == Self::spec_reward_asset_id(b),
    ;

    fn asset_id(ledger: &Module) -> (r: AssetId)
        ensures
            r == Self::spec_asset_id(*ledger),
    ;

    fn reward_asset_id(ledger: &Module) -> (r: AssetId)
        ensures
            r == Self::spec_reward_asset_id(*ledger),
    ;
}

/// The staking asset, for everything.
pub struct StakingAssetIdProvider;

/// The spending asset, for everything.
pub struct SpendingAssetIdProvider;

/// The staking asset, with rewards paid in the spending asset.
pub struct RewardAssetIdProvider;

impl AssetIdProvider for StakingAssetIdProvider {
    proof fn lemma_follows_settings(a: Module, b: Module) {
    }

    open spec fn spec_asset_id(ledger: Module) -> AssetId {
        ledger.spec_staking_asset_id()
    }

    open spec fn spec_reward_asset_id(ledger: Module) -> AssetId {
        ledger.spec_staking_asset_id()
    }

    fn asset_id(ledger: &Module) -> (r: AssetId) {
        ledger.staking_asset_id()
    }

    fn reward_asset_id(ledger: &Module) -> (r: AssetId) {
        ledger.staking_asset_id()
    }
}

impl AssetIdProvider for SpendingAssetIdProvider {
    proof fn lemma_follows_settings(a: Module, b: Module) {
    }

    open spec fn spec_asset_id(ledger: Module) -> AssetId {
        ledger.spec_spending_asset_id()
    }

    open spec fn spec_reward_asset_id(ledger: Module) -> AssetId {
        ledger.spec_spending_asset_id()
    }

    fn asset_id(ledger: &Module) -> (r: AssetId) {
        ledger.spending_asset_id()
    }

    fn reward_asset_id(ledger: &Module) -> (r: AssetId) {
        ledger.spending_asset_id()
    }
}

impl AssetIdProvider for RewardAssetIdProvider {
    proof fn lemma_follows_settings(a: Module, b: Module) {
    }

    open spec fn spec_asset_id(ledger: Module) -> AssetId {
        ledger.spec_staking_asset_id()
    }

    open spec fn spec_reward_asset_id(ledger: Module) -> AssetId {
        ledger.spec_spending_asset_id()
    }

    fn asset_id(ledger: &Module) -> (r: AssetId) {
        ledger.staking_asset_id()
    }

    fn reward_asset_id(ledger: &Module) -> (r: AssetId) {
        ledger.spending_asset_id()
    }
}

/// A single-asset currency over the ledger, for the asset that `P` picks.
/// Operations that create or destroy funds hand back an imbalance token, which
/// the caller settles with the ledger.
pub struct AssetCurrency<P: AssetIdProvider> {
    provider: PhantomData<P>,
}

impl<P: AssetIdProvider> AssetCurrency<P> {
    /// The free plus the reserved balance of `who`.
    pub fn total_balance(ledger: &Module, who: AccountId) -> (r: Balance)
        requires
            ledger.wf(),
        ensures
            r == ledger.free_of(P::spec_asset_id(*ledger), who) + ledger.reserved_of(P::spec_asset_id(*ledger), who),
    {
        ledger.total_balance(P::asset_id(ledger), who)
    }

    /// The free balance of `who`.
    pub fn free_balance(ledger: &Module, who: AccountId) -> (r: Balance)
        requires
            ledger.inv(),
        ensures
            r == ledger.free_of(P::spec_asset_id(*ledger), who),
    {
        ledger.free_balance(P::asset_id(ledger), who)
    }

    /// The total issuance of the asset.
    pub fn total_issuance(ledger: &Module) -> (r: Balance)
        ensures
            r == ledger.issuance_of(P::spec_asset_id(*ledger)),
    {
        ledger.total_issuance(P::asset_id(ledger))
    }

    /// There is no existential deposit: any balance may stay.
    pub fn minimum_balance() -> (r: Balance)
        ensures
            r == 0,
    {
        0
    }

    /// Moves `value` of free balance from `transactor` to `dest`, without fee.
    pub fn transfer(ledger: &mut Module, transactor: AccountId, dest: AccountId, value: Balance) -> (r: Result<(), Error>)
        requires
            old(ledger).wf(),
        ensures
            final(ledger).wf(),
            r == old(ledger).transfer_outcome(P::spec_asset_id(*old(ledger)), transactor, dest, value),
            r is Ok ==> final(ledger).is_move_of(*old(ledger), P::spec_asset_id(*old(ledger)), transactor, dest, value),
            r is Ok ==> final(ledger).agrees_but_balances(*old(ledger)),
            r is Err ==> *final(ledger) == *old(ledger),
    {
        let asset = P::asset_id(ledger);
        ledger.make_transfer(asset, transactor, dest, value)
    }

    /// `Ok` iff the locks on `who` let its free balance fall to `new_balance`
    /// for `reason`.
    pub fn ensure_can_withdraw(
        ledger: &Module,
        who: AccountId,
        amount: Balance,
        reason: WithdrawReason,
        new_balance: Balance,
    ) -> (r: Result<(), Error>)
        ensures
            r is Ok <==> ledger.withdrawal_allowed(P::spec_asset_id(*ledger), who, reason, new_balance),
            r is Err ==> r == Err::<(), Error>(Error::LiquidityRestricted),
    {
        ledger.ensure_can_withdraw(P::asset_id(ledger), who, amount, reason, new_balance)
    }

    /// Takes `value` from the free balance of `who` for `reason`, and hands back
    /// the token for the funds destroyed.
    pub fn withdraw(ledger: &mut Module, who: AccountId, value: Balance, reason: WithdrawReason) -> (r: Result<NegativeImbalance, Error>)
        requires
            old(ledger).wf(),
        ensures
            ({
                let a = P::spec_asset_id(*old(ledger));
                let free = old(ledger).free_of(a, who);
                &&& free < value ==> r == Err::<NegativeImbalance, Error>(Error::InsufficientBalance)
                &&& free >= value && !old(ledger).withdrawal_allowed(a, who, reason, (free - value) as Balance) ==> r
                    == Err::<NegativeImbalance, Error>(Error::LiquidityRestricted)
                &&& r is Err ==> *final(ledger) == *old(ledger)
                &&& r is Ok <==> free >= value && old(ledger).withdrawal_allowed(a, who, reason, (free - value) as Balance)
                &&& r matches Ok(imbalance) ==> {
                    &&& imbalance.spec_asset_id() == a
                    &&& imbalance.spec_amount() == value
                    &&& final(ledger).free_of(a, who) == free - value
                    &&& final(ledger).reserved_of(a, who) == old(ledger).reserved_of(a, who)
                    &&& final(ledger).accounts_agree_except(*old(ledger), a, who, who)
                    &&& final(ledger).agrees_but_balances(*old(ledger))
                    &&& final(ledger).pending_negative(imbalance)
                }
            }),
    {
        let asset = P::asset_id(ledger);
        let free = ledger.free_balance(asset, who);
        let new_balance = match free.checked_sub(value) {
            Some(v) => v,
            None => {
                return Err(Error::InsufficientBalance);
            },
        };
        match ledger.ensure_can_withdraw(asset, who, value, reason, new_balance) {
            Err(e) => {
                return Err(e);
            },
            Ok(()) => {},
        }
        proof {
            old(ledger).lemma_holdings_bounded(asset, who, who);
        }
        ledger.set_free_balance(asset, who, new_balance);
        proof {
            assert(old(ledger).total_of(asset) == old(ledger).issuance_of(asset));
            assert forall|a: AssetId| a != asset implies #[trigger] ledger.total_of(a) == ledger.issuance_of(a) as int by {
                assert(old(ledger).total_of(a) == old(ledger).issuance_of(a));
            }
        }
        Ok(NegativeImbalance::new(asset, value))
    }

    /// Adds `value` to the free balance of `who`, and hands back the token for
    /// the funds created. Fails with `Overflow`, changing nothing, where the
    /// balance or the issuance would then not fit.
    pub fn deposit_into_existing(ledger: &mut Module, who: AccountId, value: Balance) -> (r: Result<PositiveImbalance, Error>)
        requires
            old(ledger).wf(),
        ensures
            ({
                let a = P::spec_asset_id(*old(ledger));
                &&& r is Err <==> old(ledger).free_of(a, who) + value > Balance::MAX
                    || old(ledger).issuance_of(a) + value > Balance::MAX
                &&& r is Err ==> r == Err::<PositiveImbalance, Error>(Error::Overflow) && *final(ledger) == *old(ledger)
                &&& r matches Ok(imbalance) ==> {
                    &&& imbalance.spec_asset_id() == a
                    &&& imbalance.spec_amount() == value
                    &&& final(ledger).free_of(a, who) == old(ledger).free_of(a, who) + value
                    &&& final(ledger).reserved_of(a, who) == old(ledger).reserved_of(a, who)
                    &&& final(ledger).accounts_agree_except(*old(ledger), a, who, who)
                    &&& final(ledger).agrees_but_balances(*old(ledger))
                    &&& final(ledger).pending_positive(imbalance)
                }
            }),
    {
        let asset = P::asset_id(ledger);
        let free = ledger.free_balance(asset, who);
        let new_free = match free.checked_add(value) {
            Some(v) => v,
            None => {
                return Err(Error::Overflow);
            },
        };
        if ledger.total_issuance(asset).checked_add(value).is_none() {
            return Err(Error::Overflow);
        }
        ledger.set_free_balance(asset, who, new_free);
        proof {
            assert(old(ledger).total_of(asset) == old(ledger).issuance_of(asset));
            assert forall|a: AssetId| a != asset implies #[trigger] ledger.total_of(a) == ledger.issuance_of(a) as int by {
                assert(old(ledger).total_of(a) == old(ledger).issuance_of(a));
            }
        }
        Ok(PositiveImbalance::new(asset, value))
    }

    /// As `deposit_into_existing`, but where the deposit would overflow it
    /// changes nothing and hands back the token for nothing.
    pub fn deposit_creating(ledger: &mut Module, who: AccountId, value: Balance) -> (r: PositiveImbalance)
        requires
            old(ledger).wf(),
        ensures
            ({
                let a = P::spec_asset_id(*old(ledger));
                &&& r.spec_asset_id() == a
                &&& final(ledger).pending_positive(r)
                &&& if old(ledger).free_of(a, who) + value > Balance::MAX || old(ledger).issuance_of(a) + value
                    > Balance::MAX {
                    r.spec_amount() == 0 && *final(ledger) == *old(ledger)
                } else {
                    &&& r.spec_amount() == value
                    &&& final(ledger).free_of(a, who) == old(ledger).free_of(a, who) + value
                    &&& final(ledger).reserved_of(a, who) == old(ledger).reserved_of(a, who)
                    &&& final(ledger).accounts_agree_except(*old(ledger), a, who, who)
                    &&& final(ledger).agrees_but_balances(*old(ledger))
                }
            }),
    {
        let asset = P::asset_id(ledger);
        match Self::deposit_into_existing(ledger, who, value) {
            Ok(imbalance) => imbalance,
            Err(_) => {
                proof {
                    assert(ledger.total_of(asset) == ledger.issuance_of(asset) as int);
                }
                PositiveImbalance::zero(asset)
            },
        }
    }

    /// Sets the free balance of `who` to `balance`, and hands back the token for
    /// the difference: positive where the balance grew, negative where it shrank.
    pub fn make_free_balance_be(ledger: &mut Module, who: AccountId, balance: Balance) -> (r: (SignedImbalance, UpdateBalanceOutcome))
        requires
            old(ledger).wf(),
        ensures
            ({
                let a = P::spec_asset_id(*old(ledger));
                let current = old(ledger).free_of(a, who);
                &&& final(ledger).free_of(a, who) == balance
                &&& final(ledger).reserved_of(a, who) == old(ledger).reserved_of(a, who)
                &&& final(ledger).accounts_agree_except(*old(ledger), a, who, who)
                &&& final(ledger).agrees_but_balances(*old(ledger))
                &&& r.1 == UpdateBalanceOutcome::Updated
                &&& match r.0 {
                    SignedImbalance::Positive(p) => {
                        &&& current <= balance
                        &&& p.spec_asset_id() == a
                        &&& p.spec_amount() == balance - current
                        &&& old(ledger).issuance_of(a) + p.spec_amount() <= Balance::MAX ==> final(ledger).pending_positive(p)
                    },
                    SignedImbalance::Negative(n) => {
                        &&& current > balance
                        &&& n.spec_asset_id() == a
                        &&& n.spec_amount() == current - balance
                        &&& final(ledger).pending_negative(n)
                    },
                }
            }),
    {
        let asset = P::asset_id(ledger);
        let current = ledger.free_balance(asset, who);
        proof {
            old(ledger).lemma_holdings_bounded(asset, who, who);
        }
        let imbalance = if current <= balance {
            SignedImbalance::Positive(PositiveImbalance::new(asset, balance - current))
        } else {
            SignedImbalance::Negative(NegativeImbalance::new(asset, current - balance))
        };
        ledger.set_free_balance(asset, who, balance);
        proof {
            assert(old(ledger).total_of(asset) == old(ledger).issuance_of(asset));
            assert forall|a: AssetId| a != asset implies #[trigger] ledger.total_of(a) == ledger.issuance_of(a) as int by {
                assert(old(ledger).total_of(a) == old(ledger).issuance_of(a));
            }
        }
        (imbalance, UpdateBalanceOutcome::Updated)
    }

    /// Whether `who`'s free balance covers `value`.
    pub fn can_slash(ledger: &Module, who: AccountId, value: Balance) -> (r: bool)
        requires
            ledger.inv(),
        ensures
            r == (ledger.free_of(P::spec_asset_id(*ledger), who) >= value),
    {
        ledger.free_balance(P::asset_id(ledger), who) >= value
    }

    /// Takes up to `value` from `who`, free balance first, and hands back the
    /// token for what it took and the part of `value` it could not take.
    pub fn slash(ledger: &mut Module, who: AccountId, value: Balance) -> (r: (NegativeImbalance, Balance))
        requires
            old(ledger).wf(),
        ensures
            ({
                let a = P::spec_asset_id(*old(ledger));
                let (from_free, from_reserved) = old(ledger).slash_parts(a, who, value);
                &&& r.0.spec_asset_id() == a
                &&& r.0.spec_amount() == from_free + from_reserved
                &&& r.1 == value - from_free - from_reserved
                &&& final(ledger).free_of(a, who) == old(ledger).free_of(a, who) - from_free
                &&& final(ledger).reserved_of(a, who) == old(ledger).reserved_of(a, who) - from_reserved
                &&& final(ledger).accounts_agree_except(*old(ledger), a, who, who)
                &&& final(ledger).agrees_but_balances(*old(ledger))
                &&& final(ledger).pending_negative(r.0)
            }),
    {
        let asset = P::asset_id(ledger);
        let (from_free, from_reserved) = ledger.slash_balances(asset, who, value);
        let taken = from_free + from_reserved;
        (NegativeImbalance::new(asset, taken), value - taken)
    }

    /// Whether `reserve` of `value` from `who` would succeed: the free balance
    /// covers it and no lock forbids it.
    pub fn can_reserve(ledger: &Module, who: AccountId, value: Balance) -> (r: bool)
        requires
            ledger.inv(),
        ensures
            r == ledger.reserve_outcome(P::spec_asset_id(*ledger), who, value) is Ok,
    {
        let asset = P::asset_id(ledger);
        let free = ledger.free_balance(asset, who);
        if free < value {
            return false;
        }
        ledger.ensure_can_withdraw(asset, who, value, WithdrawReason::Reserve, free - value).is_ok()
    }

    /// The reserved balance of `who`.
    pub fn reserved_balance(ledger: &Module, who: AccountId) -> (r: Balance)
        requires
            ledger.inv(),
        ensures
            r == ledger.reserved_of(P::spec_asset_id(*ledger), who),
    {
        ledger.reserved_balance(P::asset_id(ledger), who)
    }

    /// Reserves `value` of `who`'s free balance.
    pub fn reserve(ledger: &mut Module, who: AccountId, value: Balance) -> (r: Result<(), Error>)
        requires
            old(ledger).wf(),
        ensures
            final(ledger).wf(),
            r == old(ledger).reserve_outcome(P::spec_asset_id(*old(ledger)), who, value),
            r is Ok ==> final(ledger).is_reserve_of(*old(ledger), P::spec_asset_id(*old(ledger)), who, value),
            r is Err ==> *final(ledger) == *old(ledger),
    {
        let asset = P::asset_id(ledger);
        ledger.reserve(asset, who, value)
    }

    /// Moves up to `value` of `who`'s reserved balance back to its free balance,
    /// and returns the part it could not move.
    pub fn unreserve(ledger: &mut Module, who: AccountId, value: Balance) -> (r: Balance)
        requires
            old(ledger).wf(),
        ensures
            final(ledger).wf(),
            final(ledger).is_unreserve_of(*old(ledger), P::spec_asset_id(*old(ledger)), who, value),
            r == value - spec_min(old(ledger).reserved_of(P::spec_asset_id(*old(ledger)), who), value),
    {
        let asset = P::asset_id(ledger);
        ledger.unreserve(asset, who, value)
    }

    /// Takes up to `value` from `who`'s reserved balance, and hands back the
    /// token for what it took and the part of `value` it could not take.
    pub fn slash_reserved(ledger: &mut Module, who: AccountId, value: Balance) -> (r: (NegativeImbalance, Balance))
        requires
            old(ledger).wf(),
        ensures
            ({
                let a = P::spec_asset_id(*old(ledger));
                let taken = spec_min(old(ledger).reserved_of(a, who), value);
                &&& r.0.spec_asset_id() == a
                &&& r.0.spec_amount() == taken
                &&& r.1 == value - taken
                &&& final(ledger).free_of(a, who) == old(ledger).free_of(a, who)
                &&& final(ledger).reserved_of(a, who) == old(ledger).reserved_of(a, who) - taken
                &&& final(ledger).accounts_agree_except(*old(ledger), a, who, who)
                &&& final(ledger).agrees_but_balances(*old(ledger))
                &&& final(ledger).pending_negative(r.0)
            }),
    {
        let asset = P::asset_id(ledger);
        let slash = ledger.slash_reserved_balance(asset, who, value);
        (NegativeImbalance::new(asset, slash), value - slash)
    }

    /// Moves up to `value` of `slashed`'s reserved balance to `beneficiary`'s
    /// free balance, and returns the part it could not move.
    pub fn repatriate_reserved(
        ledger: &mut Module,
        slashed: AccountId,
        beneficiary: AccountId,
        value: Balance,
    ) -> (r: Result<Balance, Error>)
        requires
            old(ledger).wf(),
        ensures
            final(ledger).wf(),
            ({
                let a = P::spec_asset_id(*old(ledger));
                let moved = spec_min(old(ledger).reserved_of(a, slashed), value);
                &&& r == Ok::<Balance, Error>((value - moved) as Balance)
                &&& final(ledger).reserved_of(a, slashed) == old(ledger).reserved_of(a, slashed) - moved
                &&& final(ledger).free_of(a, beneficiary) == old(ledger).free_of(a, beneficiary) + moved
                &&& slashed != beneficiary ==> final(ledger).free_of(a, slashed) == old(ledger).free_of(a, slashed)
                &&& slashed != beneficiary ==> final(ledger).reserved_of(a, beneficiary) == old(ledger).reserved_of(a, beneficiary)
                &&& final(ledger).accounts_agree_except(*old(ledger), a, slashed, beneficiary)
                &&& final(ledger).agrees_but_balances(*old(ledger))
            }),
    {
        let asset = P::asset_id(ledger);
        ledger.repatriate_reserved(asset, slashed, beneficiary, value)
    }
}

impl AssetCurrency<StakingAssetIdProvider> {
    /// Sets a lock on `who`'s staking-asset balance.
    pub fn set_lock(
        ledger: &mut Module,
        id: LockIdentifier,
        who: AccountId,
        amount: Balance,
        until: BlockNumber,
        reasons: WithdrawReasons,
    )
        requires
            old(ledger).wf(),
        ensures
            final(ledger).wf(),
            final(ledger).locks_of(who) == rewritten(
                old(ledger).locks_of(who),
                BalanceLock { id, amount, until, reasons },
                old(ledger).spec_block_number(),
                false,
            ),
            forall|w: AccountId| w != who ==> #[trigger] final(ledger).locks_of(w) == old(ledger).locks_of(w),
            final(ledger).balances_agree(*old(ledger)),
            final(ledger).settings_agree(*old(ledger)),
    {
        ledger.set_lock(id, who, amount, until, reasons)
    }

    /// Extends a lock on `who`'s staking-asset balance.
    pub fn extend_lock(
        ledger: &mut Module,
        id: LockIdentifier,
        who: AccountId,
        amount: Balance,
        until: BlockNumber,
        reasons: WithdrawReasons,
    )
        requires
            old(ledger).wf(),
        ensures
            final(ledger).wf(),
            final(ledger).locks_of(who) == rewritten(
                old(ledger).locks_of(who),
                BalanceLock { id, amount, until, reasons },
                old(ledger).spec_block_number(),
                true,
            ),
            forall|w: AccountId| w != who ==> #[trigger] final(ledger).locks_of(w) == old(ledger).locks_of(w),
            final(ledger).balances_agree(*old(ledger)),
            final(ledger).settings_agree(*old(ledger)),
    {
        ledger.extend_lock(id, who, amount, until, reasons)
    }

    /// Removes a lock from `who`'s staking-asset balance.
    pub fn remove_lock(ledger: &mut Module, id: LockIdentifier, who: AccountId)
        requires
            old(ledger).wf(),
        ensures
            final(ledger).wf(),
            final(ledger).locks_of(who) == removed_prefix(
                old(ledger).locks_of(who),
                old(ledger).locks_of(who).len(),
                id,
                old(ledger).spec_block_number(),
            ),
            forall|w: AccountId| w != who ==> #[trigger] final(ledger).locks_of(w) == old(ledger).locks_of(w),
            final(ledger).balances_agree(*old(ledger)),
            final(ledger).settings_agree(*old(ledger)),
    {
        ledger.remove_lock(id, who)
    }
}

} // verus!
