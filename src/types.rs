use vstd::prelude::*;

verus! {

/// Identifier of an asset; user-created ids come from an increasing counter.
pub type AssetId = u32;

/// Identifier of an account, supplied by the host.
pub type AccountId = u64;

/// An amount of some asset.
pub type Balance = u128;

/// A block height.
pub type BlockNumber = u64;

/// The 8-byte tag that names a balance lock.
pub type LockIdentifier = [u8; 8];

/// Who may perform a gated action on an asset: nobody, or one account.
#[derive(Clone, Copy, Debug, PartialEq, Eq, Structural)]
pub enum Owner {
    Nobody,
    Address(AccountId),
}

impl Default for Owner {
    fn default() -> (r: Self)
        ensures
            r == Owner::Nobody,
    {
        Owner::Nobody
    }
}

/// The owners of the three gated actions of one asset.
#[derive(Clone, Copy, Debug, PartialEq, Eq, Structural)]
pub struct PermissionsV1 {
    pub update: Owner,
    pub mint: Owner,
    pub burn: Owner,
}

/// The permission set in its latest layout.
pub type PermissionLatest = PermissionsV1;

impl Default for PermissionsV1 {
    fn default() -> (r: Self)
        ensures
            r == (PermissionsV1 { update: Owner::Nobody, mint: Owner::Nobody, burn: Owner::Nobody }),
    {
        PermissionsV1 { update: Owner::Nobody, mint: Owner::Nobody, burn: Owner::Nobody }
    }
}

/// A stored permission set, tagged with the layout it was written in.
#[derive(Clone, Copy, Debug, PartialEq, Eq, Structural)]
pub enum PermissionVersions {
    V1(PermissionsV1),
}

impl PermissionVersions {
    /// The permission set in the latest layout.
    pub open spec fn latest(self) -> PermissionsV1 {
        match self {
            PermissionVersions::V1(p) => p,
        }
    }
}

impl Default for PermissionVersions {
    fn default() -> (r: Self)
        ensures
            r == PermissionVersions::V1(
                PermissionsV1 { update: Owner::Nobody, mint: Owner::Nobody, burn: Owner::Nobody },
            ),
    {
        PermissionVersions::V1(PermissionsV1::default())
    }
}

impl From<PermissionVersions> for PermissionsV1 {
    fn from(v: PermissionVersions) -> (r: PermissionsV1)
        ensures
            r == v.latest(),
    {
        match v {
            PermissionVersions::V1(p) => p,
        }
    }
}

impl vstd::std_specs::convert::FromSpecImpl<PermissionVersions> for PermissionsV1 {
    open spec fn obeys_from_spec() -> bool {
        true
    }

    open spec fn from_spec(v: PermissionVersions) -> PermissionsV1 {
        v.latest()
    }
}

impl From<PermissionsV1> for PermissionVersions {
    fn from(p: PermissionsV1) -> (r: PermissionVersions)
        ensures
            r == PermissionVersions::V1(p),
    {
        PermissionVersions::V1(p)
    }
}

impl vstd::std_specs::convert::FromSpecImpl<PermissionsV1> for PermissionVersions {
    open spec fn obeys_from_spec() -> bool {
        true
    }

    open spec fn from_spec(p: PermissionsV1) -> PermissionVersions {
        PermissionVersions::V1(p)
    }
}

/// The gated actions on an asset.
#[derive(Clone, Copy, Debug, PartialEq, Eq, Structural)]
pub enum PermissionType {
    Burn,
    Mint,
    Update,
}

impl PermissionsV1 {
    /// The owner of the given action.
    pub open spec fn owner_of(self, what: PermissionType) -> Owner {
        match what {
            PermissionType::Burn => self.burn,
            PermissionType::Mint => self.mint,
            PermissionType::Update => self.update,
        }
    }

    /// Whether `who` may perform `what`: only the named owner may, and nobody
    /// may where the owner is `None`.
    pub open spec fn allows(self, who: AccountId, what: PermissionType) -> bool {
        self.owner_of(what) == Owner::Address(who)
    }
}

/// What a new asset starts with.
#[derive(Clone, Copy, Debug, PartialEq, Eq, Structural)]
pub struct AssetOptions {
    pub initial_issuance: Balance,
    pub permissions: PermissionLatest,
}

/// The failures of the ledger's operations. Each leaves storage unchanged.
#[derive(Clone, Copy, Debug, PartialEq, Eq, Structural)]
pub enum Error {
    /// The asset id is already in use.
    AssetIdTaken,
    /// A reserved asset id must lie below the next user asset id.
    AssetIdUnavailable,
    /// The user asset id counter has reached its last value.
    NoIdAvailable,
    /// The free balance does not cover the amount (and fee).
    InsufficientBalance,
    /// A transfer of nothing.
    ZeroAmount,
    /// An amount, or an amount plus a fee, does not fit in a balance.
    Overflow,
    /// The caller does not own the permission the action needs.
    PermissionDenied,
    /// Minting would take the total issuance past the largest balance.
    IssuanceOverflow,
    /// Minting would take the free balance past the largest balance.
    BalanceOverflow,
    /// Burning more than the total issuance.
    IssuanceUnderflow,
    /// Burning more than the free balance.
    BalanceUnderflow,
    /// Reserving more than the free balance.
    InsufficientFreeFunds,
    /// A balance lock forbids the withdrawal.
    LiquidityRestricted,
    /// The fee collaborator refused to charge the fee.
    FeeChargeFailed,
}

/// What the ledger reports of its successful operations.
#[derive(Clone, Copy, Debug, PartialEq, Eq, Structural)]
pub enum Event {
    /// Asset created (asset id, creator, options).
    Created(AssetId, AccountId, AssetOptions),
    /// Transfer with fee made (asset id, from, to, amount).
    Transferred(AssetId, AccountId, AccountId, Balance),
    /// Permissions replaced (asset id, new permissions).
    PermissionUpdated(AssetId, PermissionLatest),
    /// Asset minted (asset id, to, amount).
    Minted(AssetId, AccountId, Balance),
    /// Asset burned (asset id, from, amount).
    Burned(AssetId, AccountId, Balance),
}

/// Why a balance is being withdrawn.
#[derive(Clone, Copy, Debug, PartialEq, Eq, Structural)]
pub enum WithdrawReason {
    TransactionPayment,
    Transfer,
    Reserve,
    Fee,
    Tip,
}

impl WithdrawReason {
    pub open spec fn spec_bit(self) -> u8 {
        match self {
            WithdrawReason::TransactionPayment => 1,
            WithdrawReason::Transfer => 2,
            WithdrawReason::Reserve => 4,
            WithdrawReason::Fee => 8,
            WithdrawReason::Tip => 16,
        }
    }

    /// The bit of this reason in a `WithdrawReasons` mask.
    pub fn bit(self) -> (r: u8)
        ensures
            r == self.spec_bit(),
    {
        match self {
            WithdrawReason::TransactionPayment => 1,
            WithdrawReason::Transfer => 2,
            WithdrawReason::Reserve => 4,
            WithdrawReason::Fee => 8,
            WithdrawReason::Tip => 16,
        }
    }
}

/// A set of withdraw reasons, as a bit mask.
#[derive(Clone, Copy, Debug, PartialEq, Eq, Structural)]
pub struct WithdrawReasons {
    pub bits: u8,
}

impl WithdrawReasons {
    pub open spec fn spec_contains(self, reason: WithdrawReason) -> bool {
        self.bits & reason.spec_bit() != 0
    }

    /// The empty set.
    pub fn none() -> (r: Self)
        ensures
            r.bits == 0,
    {
        WithdrawReasons { bits: 0 }
    }

    /// Every reason.
    pub fn all() -> (r: Self)
        ensures
            r.bits == 31,
    {
        WithdrawReasons { bits: 31 }
    }

    /// The set that holds `reason` alone.
    pub fn from_reason(reason: WithdrawReason) -> (r: Self)
        ensures
            r.bits == reason.spec_bit(),
    {
        WithdrawReasons { bits: reason.bit() }
    }

    /// Whether `reason` is in the set.
    pub fn contains(&self, reason: WithdrawReason) -> (r: bool)
        ensures
            r == self.spec_contains(reason),
    {
        self.bits & reason.bit() != 0
    }

    /// The union of two sets.
    pub fn union(self, other: Self) -> (r: Self)
        ensures
            r.bits == self.bits | other.bits,
    {
        WithdrawReasons { bits: self.bits | other.bits }
    }
}

/// A restriction on withdrawals from an account's staking-asset free balance:
/// until block `until`, for the reasons in `reasons`, the free balance may not
/// go below `amount`.
#[derive(Clone, Copy, Debug, PartialEq, Eq)]
pub struct BalanceLock {
    pub id: LockIdentifier,
    pub amount: Balance,
    pub until: BlockNumber,
    pub reasons: WithdrawReasons,
}

} // verus!
