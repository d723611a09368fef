//! A multi-asset ledger: free and reserved balances per asset and account,
//! issuance that always equals what the accounts hold, owner-gated
//! permissions per asset, time-locked withdrawal restrictions, and linear
//! imbalance tokens that reconcile issuance exactly once.

mod currency;
mod imbalance;
mod laws;
mod locks;
mod module;
mod table;
mod types;

pub use currency::{
    AssetCurrency, AssetIdProvider, RewardAssetIdProvider, SpendingAssetIdProvider,
    StakingAssetIdProvider,
};
pub use imbalance::{
    spec_min, NegativeImbalance, PositiveImbalance, SignedImbalance, UpdateBalanceOutcome,
};
pub use laws::{
    lemma_currency_round_trip, lemma_fee_transfer_needs_funds, lemma_no_creator_superuser,
    lemma_reserve_unreserve_round_trip,
    lemma_reserves_accumulate, sum_amounts,
};
pub use locks::{
    ids_unique, lemma_removed_ids_unique, lemma_rewritten_ids_unique, permits, removed_prefix,
    replacement, rewrite_prefix, rewritten,
};
pub use module::{no_permissions, ChargeFee, DummyChargeFee, GenesisConfig, Module};
pub use types::{
    AccountId, AssetId, AssetOptions, Balance, BalanceLock, BlockNumber, Error, Event,
    LockIdentifier, Owner, PermissionLatest, PermissionType, PermissionVersions, PermissionsV1,
    WithdrawReason, WithdrawReasons,
};
