use std::collections::HashMap;

use vstd::prelude::*;

use crate::imbalance::{spec_min, NegativeImbalance, PositiveImbalance, SignedImbalance};
use crate::locks::{ids_unique, lemma_removed_ids_unique, lemma_rewritten_ids_unique, locks_permit, permits, remove_from_locks, removed_prefix, rewrite_locks, rewritten};
use crate::table::{
    account_in, find, keys_unique, lemma_account_bound, lemma_find, lemma_find_update,
    lemma_total_update, position, total_in, AccountBalance,
};
use crate::types::{
    AccountId, AssetId, AssetOptions, Balance, BalanceLock, BlockNumber, Error, Event,
    LockIdentifier, Owner, PermissionLatest, PermissionType, PermissionVersions, PermissionsV1,
    WithdrawReason, WithdrawReasons,
};

verus! {

broadcast use vstd::std_specs::hash::group_hash_axioms;

/// The permission set of an asset that has none stored: nobody may do anything.
pub open spec fn no_permissions() -> PermissionsV1 {
    PermissionsV1 { update: Owner::Nobody, mint: Owner::Nobody, burn: Owner::Nobody }
}

/// The collaborator that charges transfer fees, in a currency of its own
/// choosing. The ledger asks it before it changes any balance, and gives up
/// the operation where it fails.
pub trait ChargeFee {
    /// Every charge asked of the collaborator so far, oldest first: who was
    /// charged, how much, and what the charge returned.
    spec fn requests(&self) -> Seq<(AccountId, Balance, Result<(), Error>)>;

    /// Charges `amount` to `transactor`.
    fn charge_fee(&mut self, transactor: AccountId, amount: Balance) -> (r: Result<(), Error>)
        ensures
            final(self).requests() == old(self).requests().push((transactor, amount, r)),
    ;
}

/// A fee collaborator that accepts every charge and collects nothing.
pub struct DummyChargeFee {
    asked: Ghost<Seq<(AccountId, Balance, Result<(), Error>)>>,
}

impl DummyChargeFee {
    pub fn new() -> (r: Self)
        ensures
            r.requests() == Seq::<(AccountId, Balance, Result<(), Error>)>::empty(),
    {
        DummyChargeFee { asked: Ghost(Seq::empty()) }
    }
}

impl ChargeFee for DummyChargeFee {
    closed spec fn requests(&self) -> Seq<(AccountId, Balance, Result<(), Error>)> {
        self.asked@
    }

    fn charge_fee(&mut self, transactor: AccountId, amount: Balance) -> (r: Result<(), Error>) {
        self.asked = Ghost(self.asked@.push((transactor, amount, Ok(()))));
        Ok(())
    }
}

/// What a ledger starts with: the assets that exist from the start, the
/// accounts endowed with `initial_balance` of each of them, and the settings.
pub struct GenesisConfig {
    pub assets: Vec<AssetId>,
    pub initial_balance: Balance,
    pub endowed_accounts: Vec<AccountId>,
    pub next_asset_id: AssetId,
    pub create_asset_stake: Balance,
    pub transfer_fee: Balance,
    pub staking_asset_id: AssetId,
    pub spending_asset_id: AssetId,
}

/// The ledger: balances, issuance, permissions and locks of every asset, and
/// the settings it was started with.
pub struct Module {
    balances: Vec<AccountBalance>,
    total_issuance: HashMap<AssetId, Balance>,
    permissions: HashMap<AssetId, PermissionVersions>,
    locks: HashMap<AccountId, Vec<BalanceLock>>,
    next_asset_id: AssetId,
    create_asset_stake: Balance,
    transfer_fee: Balance,
    staking_asset_id: AssetId,
    spending_asset_id: AssetId,
    block_number: BlockNumber,
    events: Vec<Event>,
}

impl Module {
    /// The free and reserved balance of `who` in `asset`, zero where never set.
    pub closed spec fn account(self, asset: AssetId, who: AccountId) -> (Balance, Balance) {
        account_in(self.balances@, asset, who)
    }

    pub open spec fn free_of(self, asset: AssetId, who: AccountId) -> Balance {
        self.account(asset, who).0
    }

    pub open spec fn reserved_of(self, asset: AssetId, who: AccountId) -> Balance {
        self.account(asset, who).1
    }

    /// The sum over all accounts of free plus reserved balance in `asset`.
    pub closed spec fn total_of(self, asset: AssetId) -> int {
        total_in(self.balances@, asset)
    }

    /// The stored total issuance of each asset that has one.
    pub closed spec fn issuance_map(self) -> Map<AssetId, Balance> {
        self.total_issuance@
    }

    /// Whether `asset` has been created (it has a stored total issuance).
    pub open spec fn is_registered(self, asset: AssetId) -> bool {
        self.issuance_map().contains_key(asset)
    }

    /// The total issuance of `asset`, zero where none is stored.
    pub open spec fn issuance_of(self, asset: AssetId) -> Balance {
        if self.is_registered(asset) {
            self.issuance_map()[asset]
        } else {
            0
        }
    }

    /// The stored permission set of each asset that has one.
    pub closed spec fn permission_map(self) -> Map<AssetId, PermissionVersions> {
        self.permissions@
    }

    /// The permissions of `asset`; nobody holds any where none are stored.
    pub open spec fn permission_of(self, asset: AssetId) -> PermissionsV1 {
        if self.permission_map().contains_key(asset) {
            self.permission_map()[asset].latest()
        } else {
            no_permissions()
        }
    }

    /// The stored lock list of each account that has one.
    pub closed spec fn lock_map(self) -> Map<AccountId, Vec<BalanceLock>> {
        self.locks@
    }

    /// The locks on `who`, in order; none where none are stored.
    pub open spec fn locks_of(self, who: AccountId) -> Seq<BalanceLock> {
        if self.lock_map().contains_key(who) {
            self.lock_map()[who]@
        } else {
            Seq::empty()
        }
    }

    pub closed spec fn spec_next_asset_id(self) -> AssetId {
        self.next_asset_id
    }

    pub closed spec fn spec_create_asset_stake(self) -> Balance {
        self.create_asset_stake
    }

    pub closed spec fn spec_transfer_fee(self) -> Balance {
        self.transfer_fee
    }

    pub closed spec fn spec_staking_asset_id(self) -> AssetId {
        self.staking_asset_id
    }

    pub closed spec fn spec_spending_asset_id(self) -> AssetId {
        self.spending_asset_id
    }

    pub closed spec fn spec_block_number(self) -> BlockNumber {
        self.block_number
    }

    pub closed spec fn spec_events(self) -> Seq<Event> {
        self.events@
    }

    /// The balance table holds at most one entry per asset and account.
    pub closed spec fn inv(self) -> bool {
        keys_unique(self.balances@)
    }

    /// Conservation: the total issuance of every asset equals the sum, over all
    /// accounts, of free plus reserved balance in it.
    pub open spec fn balanced(self) -> bool {
        forall|asset: AssetId| #[trigger] self.total_of(asset) == self.issuance_of(asset) as int
    }

    /// Conservation holds for every asset but `asset`.
    pub open spec fn balanced_except(self, asset: AssetId) -> bool {
        forall|a: AssetId| a != asset ==> #[trigger] self.total_of(a) == self.issuance_of(a) as int
    }

    /// The ledger's invariant.
    pub open spec fn wf(self) -> bool {
        self.inv() && self.balanced()
    }

    /// All accounts hold what they hold in `other`, but for `w1` and `w2` in `asset`.
    pub open spec fn accounts_agree_except(self, other: Self, asset: AssetId, w1: AccountId, w2: AccountId) -> bool {
        forall|a: AssetId, w: AccountId|
            !(a == asset && (w == w1 || w == w2)) ==> #[trigger] self.account(a, w) == other.account(a, w)
    }

    /// The settings and the block number are those of `other`.
    pub open spec fn settings_agree(self, other: Self) -> bool {
        &&& self.spec_next_asset_id() == other.spec_next_asset_id()
        &&& self.spec_create_asset_stake() == other.spec_create_asset_stake()
        &&& self.spec_transfer_fee() == other.spec_transfer_fee()
        &&& self.spec_staking_asset_id() == other.spec_staking_asset_id()
        &&& self.spec_spending_asset_id() == other.spec_spending_asset_id()
        &&& self.spec_block_number() == other.spec_block_number()
    }

    /// The settings, permissions and locks are those of `other`.
    pub open spec fn registry_agrees(self, other: Self) -> bool {
        &&& self.settings_agree(other)
        &&& self.permission_map() == other.permission_map()
        &&& self.lock_map() == other.lock_map()
    }

    /// Everything but balances and issuance is as in `other`.
    pub open spec fn agrees_but_balances_issuance(self, other: Self) -> bool {
        &&& self.registry_agrees(other)
        &&& self.spec_events() == other.spec_events()
    }

    /// Everything but balances is as in `other`.
    pub open spec fn agrees_but_balances(self, other: Self) -> bool {
        &&& self.agrees_but_balances_issuance(other)
        &&& self.issuance_map() == other.issuance_map()
    }

    /// Whether the locks on `who` let its free balance in `asset` fall to
    /// `new_balance` for `reason`: locks bind the staking asset alone.
    pub open spec fn withdrawal_allowed(
        self,
        asset: AssetId,
        who: AccountId,
        reason: WithdrawReason,
        new_balance: Balance,
    ) -> bool {
        asset != self.spec_staking_asset_id() || permits(
            self.locks_of(who),
            self.spec_block_number(),
            reason,
            new_balance,
        )
    }

    /// In a ledger that conserves issuance, an account holds no more of an
    /// asset than its issuance, and two accounts together hold no more either.
    pub proof fn lemma_holdings_bounded(self, asset: AssetId, w1: AccountId, w2: AccountId)
        requires
            self.wf(),
        ensures
            self.free_of(asset, w1) + self.reserved_of(asset, w1) <= self.issuance_of(asset),
            w1 != w2 ==> self.free_of(asset, w1) + self.reserved_of(asset, w1) + self.free_of(
                asset,
                w2,
            ) + self.reserved_of(asset, w2) <= self.issuance_of(asset),
    {
        lemma_account_bound(self.balances@, asset, w1, w2);
        assert(self.total_of(asset) == self.issuance_of(asset));
    }

    /// Sets the free and reserved balance of `who` in `asset`. Issuance is left
    /// as it is: the caller answers for it.
    fn write_account(&mut self, asset: AssetId, who: AccountId, free: Balance, reserved: Balance)
        requires
            old(self).inv(),
        ensures
            final(self).inv(),
            final(self).account(asset, who) == (free, reserved),
            final(self).accounts_agree_except(*old(self), asset, who, who),
            final(self).total_of(asset) == old(self).total_of(asset) - old(self).free_of(asset, who)
                - old(self).reserved_of(asset, who) + free + reserved,
            forall|a: AssetId| a != asset ==> #[trigger] final(self).total_of(a) == old(self).total_of(a),
            final(self).agrees_but_balances(*old(self)),
    {
        let ghost s = self.balances@;
        let e = AccountBalance { asset_id: asset, who, free, reserved };
        match position(&self.balances, asset, who) {
            Some(i) => {
                proof {
                    lemma_find(s, asset, who);
                    lemma_total_update(s, i as int, e, asset);
                    assert forall|a: AssetId, w: AccountId| #[trigger] find(s.update(i as int, e), a, w) == find(s, a, w) by {
                        lemma_find_update(s, i as int, e, a, w);
                    }
                    assert forall|a: AssetId| a != asset implies #[trigger] total_in(s.update(i as int, e), a) == total_in(s, a) by {
                        lemma_total_update(s, i as int, e, a);
                    }
                }
                self.balances.set(i, e);
                proof {
                    let t = self.balances@;
                    assert(t == s.update(i as int, e));
                    assert forall|a: AssetId, w: AccountId| !(a == asset && w == who) implies #[trigger] account_in(t, a, w) == account_in(s, a, w) by {
                        lemma_find(s, a, w);
                    }
                    assert(keys_unique(t)) by {
                        assert forall|j: int, k: int| 0 <= j < t.len() && 0 <= k < t.len() && j != k implies !crate::table::is_entry_of(#[trigger] t[j], t[k].asset_id, #[trigger] t[k].who) by {
                            assert(s[j].asset_id == t[j].asset_id && s[j].who == t[j].who);
                            assert(s[k].asset_id == t[k].asset_id && s[k].who == t[k].who);
                        }
                    }
                }
            },
            None => {
                proof {
                    lemma_find(s, asset, who);
                }
                if free != 0 || reserved != 0 {
                    self.balances.push(e);
                    proof {
                        let t = self.balances@;
                        assert(t.drop_last() =~= s);
                        assert forall|a: AssetId| a != asset implies #[trigger] total_in(t, a) == total_in(s, a) by {}
                        assert forall|a: AssetId, w: AccountId| !(a == asset && w == who) implies #[trigger] account_in(t, a, w) == account_in(s, a, w) by {
                            assert(find(t, a, w) == find(s, a, w));
                            lemma_find(s, a, w);
                        }
                        assert(keys_unique(t)) by {
                            assert forall|j: int, k: int| 0 <= j < t.len() && 0 <= k < t.len() && j != k implies !crate::table::is_entry_of(#[trigger] t[j], t[k].asset_id, #[trigger] t[k].who) by {
                                if j < s.len() && k < s.len() {
                                    assert(t[j] == s[j] && t[k] == s[k]);
                                } else if j < s.len() {
                                    assert(t[j] == s[j]);
                                } else {
                                    assert(t[k] == s[k]);
                                }
                            }
                        }
                    }
                }
            },
        }
    }

    /// Sets the free balance of `who` in `asset`; issuance is the caller's to keep.
    pub(crate) fn set_free_balance(&mut self, asset: AssetId, who: AccountId, balance: Balance)
        requires
            old(self).inv(),
        ensures
            final(self).inv(),
            final(self).account(asset, who) == (balance, old(self).reserved_of(asset, who)),
            final(self).accounts_agree_except(*old(self), asset, who, who),
            final(self).total_of(asset) == old(self).total_of(asset) - old(self).free_of(asset, who) + balance,
            forall|a: AssetId| a != asset ==> #[trigger] final(self).total_of(a) == old(self).total_of(a),
            final(self).agrees_but_balances(*old(self)),
    {
        let reserved = self.reserved_balance(asset, who);
        self.write_account(asset, who, balance, reserved);
    }

    /// Sets the reserved balance of `who` in `asset`; issuance is the caller's to keep.
    pub(crate) fn set_reserved_balance(&mut self, asset: AssetId, who: AccountId, balance: Balance)
        requires
            old(self).inv(),
        ensures
            final(self).inv(),
            final(self).account(asset, who) == (old(self).free_of(asset, who), balance),
            final(self).accounts_agree_except(*old(self), asset, who, who),
            final(self).total_of(asset) == old(self).total_of(asset) - old(self).reserved_of(asset, who) + balance,
            forall|a: AssetId| a != asset ==> #[trigger] final(self).total_of(a) == old(self).total_of(a),
            final(self).agrees_but_balances(*old(self)),
    {
        let free = self.free_balance(asset, who);
        self.write_account(asset, who, free, balance);
    }

    /// The free balance of `who` in `asset`.
    pub fn free_balance(&self, asset: AssetId, who: AccountId) -> (r: Balance)
        requires
            self.inv(),
        ensures
            r == self.free_of(asset, who),
    {
        match position(&self.balances, asset, who) {
            Some(i) => self.balances[i].free,
            None => 0,
        }
    }

    /// The reserved balance of `who` in `asset`.
    pub fn reserved_balance(&self, asset: AssetId, who: AccountId) -> (r: Balance)
        requires
            self.inv(),
        ensures
            r == self.reserved_of(asset, who),
    {
        match position(&self.balances, asset, who) {
            Some(i) => self.balances[i].reserved,
            None => 0,
        }
    }

    /// The free plus the reserved balance of `who` in `asset`.
    pub fn total_balance(&self, asset: AssetId, who: AccountId) -> (r: Balance)
        requires
            self.wf(),
        ensures
            r == self.free_of(asset, who) + self.reserved_of(asset, who),
    {
        proof {
            self.lemma_holdings_bounded(asset, who, who);
        }
        self.free_balance(asset, who) + self.reserved_balance(asset, who)
    }

    /// The total issuance of `asset`; zero for an asset never created.
    pub fn total_issuance(&self, asset: AssetId) -> (r: Balance)
        ensures
            r == self.issuance_of(asset),
    {
        match self.total_issuance.get(&asset) {
            Some(v) => *v,
            None => 0,
        }
    }

    /// The id the next user-created asset will get.
    pub fn next_asset_id(&self) -> (r: AssetId)
        ensures
            r == self.spec_next_asset_id(),
    {
        self.next_asset_id
    }

    /// The stored permissions of `asset`, or the set that grants nobody anything.
    pub fn get_permission(&self, asset: AssetId) -> (r: PermissionVersions)
        ensures
            r.latest() == self.permission_of(asset),
    {
        match self.permissions.get(&asset) {
            Some(p) => *p,
            None => PermissionVersions::default(),
        }
    }

    /// The staking-asset amount that creating an asset reserves.
    pub fn create_asset_stake(&self) -> (r: Balance)
        ensures
            r == self.spec_create_asset_stake(),
    {
        self.create_asset_stake
    }

    /// The fee of a transfer.
    pub fn transfer_fee(&self) -> (r: Balance)
        ensures
            r == self.spec_transfer_fee(),
    {
        self.transfer_fee
    }

    /// The asset that locks bind and that pays the creation stake.
    pub fn staking_asset_id(&self) -> (r: AssetId)
        ensures
            r == self.spec_staking_asset_id(),
    {
        self.staking_asset_id
    }

    /// The asset used for spending and rewards.
    pub fn spending_asset_id(&self) -> (r: AssetId)
        ensures
            r == self.spec_spending_asset_id(),
    {
        self.spending_asset_id
    }

    /// The current block height, which lock expiry is measured against.
    pub fn block_number(&self) -> (r: BlockNumber)
        ensures
            r == self.spec_block_number(),
    {
        self.block_number
    }

    /// The events reported so far, oldest first.
    pub fn events(&self) -> (r: &Vec<Event>)
        ensures
            r@ == self.spec_events(),
    {
        &self.events
    }

    /// The locks on `who`, in order.
    pub fn locks(&self, who: AccountId) -> (r: Vec<BalanceLock>)
        ensures
            r@ == self.locks_of(who),
    {
        let mut out: Vec<BalanceLock> = Vec::new();
        match self.locks.get(&who) {
            Some(v) => {
                let mut i: usize = 0;
                while i < v.len()
                    invariant
                        i <= v.len(),
                        out@ == v@.take(i as int),
                    decreases v.len() - i,
                {
                    out.push(v[i]);
                    assert(out@ =~= v@.take(i + 1));
                    i = i + 1;
                }
                assert(v@.take(v.len() as int) =~= v@);
            },
            None => {},
        }
        out
    }

    /// Moves the ledger to block `now`, as the host advances.
    pub fn set_block_number(&mut self, now: BlockNumber)
        ensures
            final(self).spec_block_number() == now,
            final(self).spec_next_asset_id() == old(self).spec_next_asset_id(),
            final(self).spec_create_asset_stake() == old(self).spec_create_asset_stake(),
            final(self).spec_transfer_fee() == old(self).spec_transfer_fee(),
            final(self).spec_staking_asset_id() == old(self).spec_staking_asset_id(),
            final(self).spec_spending_asset_id() == old(self).spec_spending_asset_id(),
            final(self).inv() == old(self).inv(),
            old(self).wf() ==> final(self).wf(),
            final(self).balances_agree(*old(self)),
            final(self).permission_map() == old(self).permission_map(),
            final(self).lock_map() == old(self).lock_map(),
            final(self).spec_events() == old(self).spec_events(),
    {
        self.block_number = now;
        proof {
            if old(self).wf() {
                assert forall|a: AssetId| #[trigger] self.total_of(a) == self.issuance_of(a) as int by {
                    assert(old(self).total_of(a) == old(self).issuance_of(a));
                }
            }
        }
    }

    /// Every account holds what it holds in `other`, and every total and
    /// issuance is as in `other`.
    pub open spec fn balances_agree(self, other: Self) -> bool {
        &&& forall|a: AssetId, w: AccountId| #[trigger] self.account(a, w) == other.account(a, w)
        &&& forall|a: AssetId| #[trigger] self.total_of(a) == other.total_of(a)
        &&& self.issuance_map() == other.issuance_map()
    }

    /// The stored issuances once `imbalance` is settled: its amount added to
    /// its asset's issuance, saturating at the largest balance; nothing stored
    /// for a token for nothing.
    pub open spec fn issuance_after_positive(self, imbalance: PositiveImbalance) -> Map<AssetId, Balance> {
        if imbalance.spec_amount() == 0 {
            self.issuance_map()
        } else {
            self.issuance_map().insert(
                imbalance.spec_asset_id(),
                self.issuance_of(imbalance.spec_asset_id()).saturating_add(imbalance.spec_amount()),
            )
        }
    }

    /// The stored issuances once `imbalance` is settled: its amount taken from
    /// its asset's issuance, stopping at zero; nothing stored for a token for
    /// nothing.
    pub open spec fn issuance_after_negative(self, imbalance: NegativeImbalance) -> Map<AssetId, Balance> {
        if imbalance.spec_amount() == 0 {
            self.issuance_map()
        } else {
            self.issuance_map().insert(
                imbalance.spec_asset_id(),
                self.issuance_of(imbalance.spec_asset_id()).saturating_sub(imbalance.spec_amount()),
            )
        }
    }

    /// Settles a positive imbalance: its amount is added to its asset's total
    /// issuance, saturating at the largest balance. A token for nothing changes
    /// nothing.
    pub fn settle_positive(&mut self, imbalance: PositiveImbalance)
        requires
            old(self).inv(),
        ensures
            final(self).inv(),
            final(self).issuance_map() == old(self).issuance_after_positive(imbalance),
            forall|a: AssetId, w: AccountId| #[trigger] final(self).account(a, w) == old(self).account(a, w),
            forall|a: AssetId| #[trigger] final(self).total_of(a) == old(self).total_of(a),
            final(self).agrees_but_balances_issuance(*old(self)),
            old(self).pending_positive(imbalance) ==> final(self).wf(),
    {
        let asset = imbalance.asset_id();
        let amount = imbalance.peek();
        if amount != 0 {
            let current = self.total_issuance(asset);
            self.total_issuance.insert(asset, current.saturating_add(amount));
        }
        proof {
            if old(self).pending_positive(imbalance) {
                assert forall|a: AssetId| #[trigger] self.total_of(a) == self.issuance_of(a) as int by {
                    if a != asset {
                        assert(old(self).total_of(a) == old(self).issuance_of(a));
                    }
                }
            }
        }
    }

    /// Settles a negative imbalance: its amount is taken from its asset's total
    /// issuance, stopping at zero. A token for nothing changes nothing.
    pub fn settle_negative(&mut self, imbalance: NegativeImbalance)
        requires
            old(self).inv(),
        ensures
            final(self).inv(),
            final(self).issuance_map() == old(self).issuance_after_negative(imbalance),
            forall|a: AssetId, w: AccountId| #[trigger] final(self).account(a, w) == old(self).account(a, w),
            forall|a: AssetId| #[trigger] final(self).total_of(a) == old(self).total_of(a),
            final(self).agrees_but_balances_issuance(*old(self)),
            old(self).pending_negative(imbalance) ==> final(self).wf(),
    {
        let asset = imbalance.asset_id();
        let amount = imbalance.peek();
        if amount != 0 {
            let current = self.total_issuance(asset);
            self.total_issuance.insert(asset, current.saturating_sub(amount));
        }
        proof {
            if old(self).pending_negative(imbalance) {
                assert forall|a: AssetId| #[trigger] self.total_of(a) == self.issuance_of(a) as int by {
                    if a != asset {
                        assert(old(self).total_of(a) == old(self).issuance_of(a));
                    } else {
                        crate::table::lemma_total_nonneg(old(self).balances@, a);
                    }
                }
            }
        }
    }

    /// Settles an imbalance of either sign.
    pub fn settle(&mut self, imbalance: SignedImbalance)
        requires
            old(self).inv(),
        ensures
            final(self).inv(),
            forall|a: AssetId, w: AccountId| #[trigger] final(self).account(a, w) == old(self).account(a, w),
            forall|a: AssetId| #[trigger] final(self).total_of(a) == old(self).total_of(a),
            final(self).agrees_but_balances_issuance(*old(self)),
            match imbalance {
                SignedImbalance::Positive(p) => {
                    &&& final(self).issuance_map() == old(self).issuance_after_positive(p)
                    &&& old(self).pending_positive(p) ==> final(self).wf()
                },
                SignedImbalance::Negative(n) => {
                    &&& final(self).issuance_map() == old(self).issuance_after_negative(n)
                    &&& old(self).pending_negative(n) ==> final(self).wf()
                },
            },
    {
        match imbalance {
            SignedImbalance::Positive(p) => self.settle_positive(p),
            SignedImbalance::Negative(n) => self.settle_negative(n),
        }
    }

    /// The ledger conserves issuance but for `imbalance`, which stands for funds
    /// created and not yet counted in the issuance; counting them will not
    /// saturate.
    pub open spec fn pending_positive(self, imbalance: PositiveImbalance) -> bool {
        let a = imbalance.spec_asset_id();
        &&& self.inv()
        &&& self.balanced_except(a)
        &&& self.total_of(a) == self.issuance_of(a) + imbalance.spec_amount()
        &&& self.total_of(a) <= Balance::MAX
    }

    /// The ledger conserves issuance but for `imbalance`, which stands for funds
    /// destroyed and still counted in the issuance.
    pub open spec fn pending_negative(self, imbalance: NegativeImbalance) -> bool {
        let a = imbalance.spec_asset_id();
        &&& self.inv()
        &&& self.balanced_except(a)
        &&& self.total_of(a) + imbalance.spec_amount() == self.issuance_of(a)
    }

    /// Whether `who` holds the permission `what` on `asset`.
    pub fn check_permission(&self, asset: AssetId, who: AccountId, what: PermissionType) -> (r: bool)
        ensures
            r == self.permission_of(asset).allows(who, what),
    {
        let permissions: PermissionsV1 = PermissionsV1::from(self.get_permission(asset));
        let owner = match what {
            PermissionType::Burn => permissions.burn,
            PermissionType::Mint => permissions.mint,
            PermissionType::Update => permissions.update,
        };
        match owner {
            Owner::Address(account) => account == who,
            Owner::Nobody => false,
        }
    }

    /// `Ok` iff the locks on `who` let its free balance in `asset` fall to
    /// `new_balance` for `reason`. Only the resulting balance is looked at, not
    /// the amount withdrawn.
    pub fn ensure_can_withdraw(
        &self,
        asset: AssetId,
        who: AccountId,
        amount: Balance,
        reason: WithdrawReason,
        new_balance: Balance,
    ) -> (r: Result<(), Error>)
        ensures
            r is Ok <==> self.withdrawal_allowed(asset, who, reason, new_balance),
            r is Err ==> r == Err::<(), Error>(Error::LiquidityRestricted),
    {
        if asset != self.staking_asset_id {
            return Ok(());
        }
        match self.locks.get(&who) {
            None => Ok(()),
            Some(v) => {
                if locks_permit(v, self.block_number, reason, new_balance) {
                    Ok(())
                } else {
                    Err(Error::LiquidityRestricted)
                }
            },
        }
    }

    /// How `reserve` of `amount` from `who` in `asset` ends.
    pub open spec fn reserve_outcome(self, asset: AssetId, who: AccountId, amount: Balance) -> Result<(), Error> {
        if self.free_of(asset, who) < amount {
            Err(Error::InsufficientFreeFunds)
        } else if !self.withdrawal_allowed(
            asset,
            who,
            WithdrawReason::Reserve,
            (self.free_of(asset, who) - amount) as Balance,
        ) {
            Err(Error::LiquidityRestricted)
        } else {
            Ok(())
        }
    }

    /// This ledger is `pre` with `amount` of `who`'s free balance in `asset`
    /// moved to its reserved balance.
    pub open spec fn is_reserve_of(self, pre: Self, asset: AssetId, who: AccountId, amount: Balance) -> bool {
        &&& self.free_of(asset, who) == pre.free_of(asset, who) - amount
        &&& self.reserved_of(asset, who) == pre.reserved_of(asset, who) + amount
        &&& self.accounts_agree_except(pre, asset, who, who)
        &&& self.agrees_but_balances(pre)
    }

    /// Moves `amount` from the free to the reserved balance of `who`. Fails,
    /// moving nothing, where the free balance is short or a lock forbids it.
    pub fn reserve(&mut self, asset: AssetId, who: AccountId, amount: Balance) -> (r: Result<(), Error>)
        requires
            old(self).wf(),
        ensures
            final(self).wf(),
            r == old(self).reserve_outcome(asset, who, amount),
            r is Ok ==> final(self).is_reserve_of(*old(self), asset, who, amount),
            r is Err ==> *final(self) == *old(self),
    {
        let reserved_before = self.reserved_balance(asset, who);
        let free_before = self.free_balance(asset, who);
        if free_before < amount {
            return Err(Error::InsufficientFreeFunds);
        }
        let new_free_balance = free_before - amount;
        match self.ensure_can_withdraw(asset, who, amount, WithdrawReason::Reserve, new_free_balance) {
            Err(e) => {
                return Err(e);
            },
            Ok(()) => {},
        }
        proof {
            self.lemma_holdings_bounded(asset, who, who);
        }
        let new_reserve_balance = reserved_before + amount;
        self.write_account(asset, who, new_free_balance, new_reserve_balance);
        proof {
            assert forall|a: AssetId| #[trigger] self.total_of(a) == self.issuance_of(a) as int by {
                assert(old(self).total_of(a) == old(self).issuance_of(a));
            }
        }
        Ok(())
    }

    /// This ledger is `pre` with `min(reserved, amount)` of `who`'s reserved
    /// balance in `asset` moved back to its free balance.
    pub open spec fn is_unreserve_of(self, pre: Self, asset: AssetId, who: AccountId, amount: Balance) -> bool {
        let moved = if pre.reserved_of(asset, who) <= amount {
            pre.reserved_of(asset, who)
        } else {
            amount
        };
        &&& self.free_of(asset, who) == pre.free_of(asset, who) + moved
        &&& self.reserved_of(asset, who) == pre.reserved_of(asset, who) - moved
        &&& self.accounts_agree_except(pre, asset, who, who)
        &&& self.agrees_but_balances(pre)
    }

    /// Moves up to `amount` from the reserved to the free balance of `who`, as
    /// much as there is, and returns the part of `amount` it could not move.
    /// It cannot fail.
    pub fn unreserve(&mut self, asset: AssetId, who: AccountId, amount: Balance) -> (r: Balance)
        requires
            old(self).wf(),
        ensures
            final(self).wf(),
            final(self).is_unreserve_of(*old(self), asset, who, amount),
            r <= amount,
            r == if old(self).reserved_of(asset, who) >= amount {
                0
            } else {
                amount - old(self).reserved_of(asset, who)
            },
            final(self).reserved_of(asset, who) == if old(self).reserved_of(asset, who) >= amount {
                old(self).reserved_of(asset, who) - amount
            } else {
                0
            },
    {
        let b = self.reserved_balance(asset, who);
        let actual = if b <= amount {
            b
        } else {
            amount
        };
        let free_before = self.free_balance(asset, who);
        proof {
            self.lemma_holdings_bounded(asset, who, who);
        }
        self.write_account(asset, who, free_before + actual, b - actual);
        proof {
            assert forall|a: AssetId| #[trigger] self.total_of(a) == self.issuance_of(a) as int by {
                assert(old(self).total_of(a) == old(self).issuance_of(a));
            }
        }
        amount - actual
    }

    /// How `make_transfer` of `amount` from `from` to `to` in `asset` ends.
    pub open spec fn transfer_outcome(self, asset: AssetId, from: AccountId, to: AccountId, amount: Balance) -> Result<(), Error> {
        if self.free_of(asset, from) < amount {
            Err(Error::InsufficientBalance)
        } else if from != to && !self.withdrawal_allowed(
            asset,
            from,
            WithdrawReason::Transfer,
            (self.free_of(asset, from) - amount) as Balance,
        ) {
            Err(Error::LiquidityRestricted)
        } else {
            Ok(())
        }
    }

    /// The balances of this ledger are those of `pre` with `amount` of free
    /// balance in `asset` moved from `from` to `to` (nothing moves where they
    /// are the same account).
    pub open spec fn is_move_of(self, pre: Self, asset: AssetId, from: AccountId, to: AccountId, amount: Balance) -> bool {
        &&& from != to ==> self.free_of(asset, from) == pre.free_of(asset, from) - amount
        &&& from != to ==> self.free_of(asset, to) == pre.free_of(asset, to) + amount
        &&& self.reserved_of(asset, from) == pre.reserved_of(asset, from)
        &&& self.reserved_of(asset, to) == pre.reserved_of(asset, to)
        &&& from == to ==> self.free_of(asset, from) == pre.free_of(asset, from)
        &&& self.accounts_agree_except(pre, asset, from, to)
        &&& self.issuance_map() == pre.issuance_map()
    }

    /// Moves `amount` of free balance in `asset` from `from` to `to`, with no
    /// fee and no event. Issuance does not change.
    pub fn make_transfer(&mut self, asset: AssetId, from: AccountId, to: AccountId, amount: Balance) -> (r: Result<(), Error>)
        requires
            old(self).wf(),
        ensures
            final(self).wf(),
            r == old(self).transfer_outcome(asset, from, to, amount),
            r is Ok ==> final(self).is_move_of(*old(self), asset, from, to, amount),
            r is Ok ==> final(self).agrees_but_balances(*old(self)),
            r is Err ==> *final(self) == *old(self),
    {
        let from_balance = self.free_balance(asset, from);
        if from_balance < amount {
            return Err(Error::InsufficientBalance);
        }
        if from != to {
            match self.ensure_can_withdraw(asset, from, amount, WithdrawReason::Transfer, from_balance - amount) {
                Err(e) => {
                    return Err(e);
                },
                Ok(()) => {},
            }
            self.move_free(asset, from, to, amount);
        }
        Ok(())
    }

    /// Moves `amount` of free balance from `from` to a different account `to`.
    fn move_free(&mut self, asset: AssetId, from: AccountId, to: AccountId, amount: Balance)
        requires
            old(self).wf(),
            from != to,
            old(self).free_of(asset, from) >= amount,
        ensures
            final(self).wf(),
            final(self).is_move_of(*old(self), asset, from, to, amount),
            final(self).agrees_but_balances(*old(self)),
    {
        proof {
            self.lemma_holdings_bounded(asset, from, to);
        }
        let from_balance = self.free_balance(asset, from);
        self.set_free_balance(asset, from, from_balance - amount);
        let to_balance = self.free_balance(asset, to);
        self.set_free_balance(asset, to, to_balance + amount);
        proof {
            assert forall|a: AssetId| #[trigger] self.total_of(a) == self.issuance_of(a) as int by {
                assert(old(self).total_of(a) == old(self).issuance_of(a));
            }
        }
    }

    /// The parts of `amount` that slashing `who` in `asset` takes from its free
    /// balance (first) and from its reserved balance (for the rest).
    pub open spec fn slash_parts(self, asset: AssetId, who: AccountId, amount: Balance) -> (Balance, Balance) {
        let from_free = spec_min(self.free_of(asset, who), amount);
        let rest = (amount - from_free) as Balance;
        (from_free, spec_min(self.reserved_of(asset, who), rest))
    }

    /// Takes up to `amount` from `who` in `asset`, free balance first, and
    /// returns the parts taken from free and from reserved. Issuance is left as
    /// it is.
    pub(crate) fn slash_balances(&mut self, asset: AssetId, who: AccountId, amount: Balance) -> (r: (Balance, Balance))
        requires
            old(self).wf(),
        ensures
            final(self).inv(),
            r == old(self).slash_parts(asset, who, amount),
            r.0 + r.1 <= amount,
            final(self).free_of(asset, who) == old(self).free_of(asset, who) - r.0,
            final(self).reserved_of(asset, who) == old(self).reserved_of(asset, who) - r.1,
            final(self).accounts_agree_except(*old(self), asset, who, who),
            final(self).agrees_but_balances(*old(self)),
            final(self).total_of(asset) + r.0 + r.1 == old(self).issuance_of(asset),
            r.0 + r.1 <= old(self).issuance_of(asset),
            final(self).balanced_except(asset),
    {
        let free = self.free_balance(asset, who);
        let reserved = self.reserved_balance(asset, who);
        let from_free = if free <= amount {
            free
        } else {
            amount
        };
        let rest = amount - from_free;
        let from_reserved = if reserved <= rest {
            reserved
        } else {
            rest
        };
        self.write_account(asset, who, free - from_free, reserved - from_reserved);
        proof {
            crate::table::lemma_total_nonneg(self.balances@, asset);
            assert(old(self).total_of(asset) == old(self).issuance_of(asset));
            assert forall|a: AssetId| a != asset implies #[trigger] self.total_of(a) == self.issuance_of(a) as int by {
                assert(old(self).total_of(a) == old(self).issuance_of(a));
            }
        }
        (from_free, from_reserved)
    }

    /// Takes up to `amount` from `who` in `asset`, from its free balance first
    /// and then from its reserved balance, and takes what it took from the
    /// asset's issuance. Returns `None` where it took all of `amount`, else
    /// `Some` of the part it could not take. It cannot fail.
    pub fn slash(&mut self, asset: AssetId, who: AccountId, amount: Balance) -> (r: Option<Balance>)
        requires
            old(self).wf(),
        ensures
            final(self).wf(),
            ({
                let (from_free, from_reserved) = old(self).slash_parts(asset, who, amount);
                &&& final(self).free_of(asset, who) == old(self).free_of(asset, who) - from_free
                &&& final(self).reserved_of(asset, who) == old(self).reserved_of(asset, who) - from_reserved
                &&& final(self).issuance_map() == if from_free + from_reserved == 0 {
                    old(self).issuance_map()
                } else {
                    old(self).issuance_map().insert(
                        asset,
                        (old(self).issuance_of(asset) - from_free - from_reserved) as Balance,
                    )
                }
                &&& r == if from_free + from_reserved == amount {
                    None::<Balance>
                } else {
                    Some((amount - from_free - from_reserved) as Balance)
                }
            }),
            final(self).accounts_agree_except(*old(self), asset, who, who),
            final(self).agrees_but_balances_issuance(*old(self)),
    {
        let (from_free, from_reserved) = self.slash_balances(asset, who, amount);
        self.settle_negative(NegativeImbalance::new(asset, from_free + from_reserved));
        if from_free + from_reserved == amount {
            None
        } else {
            Some(amount - from_free - from_reserved)
        }
    }

    /// Takes up to `amount` from `who`'s reserved balance in `asset`, and
    /// returns what it took. Issuance is left as it is.
    pub(crate) fn slash_reserved_balance(&mut self, asset: AssetId, who: AccountId, amount: Balance) -> (r: Balance)
        requires
            old(self).wf(),
        ensures
            final(self).inv(),
            r == spec_min(old(self).reserved_of(asset, who), amount),
            final(self).free_of(asset, who) == old(self).free_of(asset, who),
            final(self).reserved_of(asset, who) == old(self).reserved_of(asset, who) - r,
            final(self).accounts_agree_except(*old(self), asset, who, who),
            final(self).agrees_but_balances(*old(self)),
            final(self).total_of(asset) + r == old(self).issuance_of(asset),
            r <= old(self).issuance_of(asset),
            final(self).balanced_except(asset),
    {
        let reserved = self.reserved_balance(asset, who);
        let slash = if reserved <= amount {
            reserved
        } else {
            amount
        };
        self.set_reserved_balance(asset, who, reserved - slash);
        proof {
            crate::table::lemma_total_nonneg(self.balances@, asset);
            assert(old(self).total_of(asset) == old(self).issuance_of(asset));
            assert forall|a: AssetId| a != asset implies #[trigger] self.total_of(a) == self.issuance_of(a) as int by {
                assert(old(self).total_of(a) == old(self).issuance_of(a));
            }
        }
        slash
    }

    /// Takes up to `amount` from `who`'s reserved balance in `asset`, and takes
    /// what it took from the asset's issuance. Returns `None` where it took all
    /// of `amount`, else `Some` of the part it could not take. It cannot fail.
    pub fn slash_reserved(&mut self, asset: AssetId, who: AccountId, amount: Balance) -> (r: Option<Balance>)
        requires
            old(self).wf(),
        ensures
            final(self).wf(),
            ({
                let taken = spec_min(old(self).reserved_of(asset, who), amount);
                &&& final(self).free_of(asset, who) == old(self).free_of(asset, who)
                &&& final(self).reserved_of(asset, who) == old(self).reserved_of(asset, who) - taken
                &&& final(self).issuance_map() == if taken == 0 {
                    old(self).issuance_map()
                } else {
                    old(self).issuance_map().insert(asset, (old(self).issuance_of(asset) - taken) as Balance)
                }
                &&& r == if taken == amount {
                    None::<Balance>
                } else {
                    Some((amount - taken) as Balance)
                }
            }),
            final(self).accounts_agree_except(*old(self), asset, who, who),
            final(self).agrees_but_balances_issuance(*old(self)),
    {
        let slash = self.slash_reserved_balance(asset, who, amount);
        self.settle_negative(NegativeImbalance::new(asset, slash));
        if amount == slash {
            None
        } else {
            Some(amount - slash)
        }
    }

    /// Adds `amount` to the free balance of `who` in `asset`, and to the asset's
    /// issuance. Fails with `Overflow`, changing nothing, where either sum would
    /// not fit in a balance.
    pub fn reward(&mut self, asset: AssetId, who: AccountId, amount: Balance) -> (r: Result<(), Error>)
        requires
            old(self).wf(),
        ensures
            final(self).wf(),
            r is Err <==> old(self).free_of(asset, who) + amount > Balance::MAX
                || old(self).issuance_of(asset) + amount > Balance::MAX,
            r is Err ==> r == Err::<(), Error>(Error::Overflow) && *final(self) == *old(self),
            r is Ok ==> {
                &&& final(self).free_of(asset, who) == old(self).free_of(asset, who) + amount
                &&& final(self).reserved_of(asset, who) == old(self).reserved_of(asset, who)
                &&& final(self).issuance_map() == if amount == 0 {
                    old(self).issuance_map()
                } else {
                    old(self).issuance_map().insert(asset, (old(self).issuance_of(asset) + amount) as Balance)
                }
                &&& final(self).accounts_agree_except(*old(self), asset, who, who)
                &&& final(self).agrees_but_balances_issuance(*old(self))
            },
    {
        let free_before = self.free_balance(asset, who);
        let new_free_balance = match free_before.checked_add(amount) {
            Some(v) => v,
            None => {
                return Err(Error::Overflow);
            },
        };
        let issuance = self.total_issuance(asset);
        if issuance.checked_add(amount).is_none() {
            return Err(Error::Overflow);
        }
        self.set_free_balance(asset, who, new_free_balance);
        proof {
            assert(old(self).total_of(asset) == old(self).issuance_of(asset));
            assert forall|a: AssetId| a != asset implies #[trigger] self.total_of(a) == self.issuance_of(a) as int by {
                assert(old(self).total_of(a) == old(self).issuance_of(a));
            }
        }
        self.settle_positive(PositiveImbalance::new(asset, amount));
        Ok(())
    }

    /// Moves up to `amount` from the reserved balance of `who` in `asset` to the
    /// free balance of `beneficiary`, as much as there is, and returns the part
    /// of `amount` it could not move. It does not fail.
    pub fn repatriate_reserved(
        &mut self,
        asset: AssetId,
        who: AccountId,
        beneficiary: AccountId,
        amount: Balance,
    ) -> (r: Result<Balance, Error>)
        requires
            old(self).wf(),
        ensures
            final(self).wf(),
            ({
                let moved = spec_min(old(self).reserved_of(asset, who), amount);
                &&& r == Ok::<Balance, Error>((amount - moved) as Balance)
                &&& final(self).reserved_of(asset, who) == old(self).reserved_of(asset, who) - moved
                &&& final(self).free_of(asset, beneficiary) == old(self).free_of(asset, beneficiary) + moved
                &&& who != beneficiary ==> final(self).free_of(asset, who) == old(self).free_of(asset, who)
                &&& who != beneficiary ==> final(self).reserved_of(asset, beneficiary) == old(self).reserved_of(asset, beneficiary)
            }),
            final(self).accounts_agree_except(*old(self), asset, who, beneficiary),
            final(self).agrees_but_balances(*old(self)),
    {
        proof {
            self.lemma_holdings_bounded(asset, who, beneficiary);
        }
        let b = self.reserved_balance(asset, who);
        let slash = if b <= amount {
            b
        } else {
            amount
        };
        let free_before = self.free_balance(asset, beneficiary);
        self.set_free_balance(asset, beneficiary, free_before + slash);
        self.set_reserved_balance(asset, who, b - slash);
        proof {
            assert forall|a: AssetId| #[trigger] self.total_of(a) == self.issuance_of(a) as int by {
                assert(old(self).total_of(a) == old(self).issuance_of(a));
            }
        }
        Ok(amount - slash)
    }

    /// How `make_transfer_with_fee` of `amount` from `from` to `to` in `asset`
    /// ends, where the fee collaborator does not decide it.
    pub open spec fn fee_transfer_outcome(self, asset: AssetId, from: AccountId, to: AccountId, amount: Balance) -> Result<(), Error> {
        if amount == 0 {
            Err(Error::ZeroAmount)
        } else if amount + self.spec_transfer_fee() > Balance::MAX {
            Err(Error::Overflow)
        } else if self.free_of(asset, from) < amount + self.spec_transfer_fee() {
            Err(Error::InsufficientBalance)
        } else if from != to && !self.withdrawal_allowed(
            asset,
            from,
            WithdrawReason::Transfer,
            (self.free_of(asset, from) - amount) as Balance,
        ) {
            Err(Error::LiquidityRestricted)
        } else {
            Ok(())
        }
    }

    /// Finishes a transfer with fee whose checks passed, once the fee
    /// collaborator has answered with `charged`: where the fee was charged the
    /// amount moves and the transfer is reported; otherwise the collaborator's
    /// error is handed back and nothing changes.
    pub fn complete_transfer_with_fee(
        &mut self,
        charged: Result<(), Error>,
        asset: AssetId,
        from: AccountId,
        to: AccountId,
        amount: Balance,
    ) -> (r: Result<(), Error>)
        requires
            old(self).wf(),
            from != to,
            old(self).fee_transfer_outcome(asset, from, to, amount) is Ok,
        ensures
            final(self).wf(),
            r == charged,
            charged is Err ==> *final(self) == *old(self),
            charged is Ok ==> {
                &&& final(self).is_move_of(*old(self), asset, from, to, amount)
                &&& final(self).registry_agrees(*old(self))
                &&& final(self).spec_events() == old(self).spec_events().push(
                    Event::Transferred(asset, from, to, amount),
                )
            },
    {
        if charged.is_ok() {
            self.move_free(asset, from, to, amount);
            self.deposit_event(Event::Transferred(asset, from, to, amount));
        }
        charged
    }

    /// Moves `amount` of free balance in `asset` from `from` to `to`, where the
    /// free balance covers the amount and the transfer fee. The fee is charged
    /// through `fees`, once, before any balance changes; where that fails its
    /// error is handed back and nothing changes. A rejected transfer, or one to
    /// oneself, asks nothing of `fees` and changes nothing. A transfer that is
    /// made is reported.
    pub fn make_transfer_with_fee<F: ChargeFee>(
        &mut self,
        fees: &mut F,
        asset: AssetId,
        from: AccountId,
        to: AccountId,
        amount: Balance,
    ) -> (r: Result<(), Error>)
        requires
            old(self).wf(),
        ensures
            final(self).wf(),
            old(self).fee_transfer_outcome(asset, from, to, amount) is Err ==> {
                &&& r == old(self).fee_transfer_outcome(asset, from, to, amount)
                &&& *final(self) == *old(self)
                &&& *final(fees) == *old(fees)
            },
            old(self).fee_transfer_outcome(asset, from, to, amount) is Ok && from == to ==> {
                &&& r is Ok
                &&& *final(self) == *old(self)
                &&& *final(fees) == *old(fees)
            },
            old(self).fee_transfer_outcome(asset, from, to, amount) is Ok && from != to ==> {
                &&& final(fees).requests() == old(fees).requests().push(
                    (from, old(self).spec_transfer_fee(), r),
                )
                &&& r is Err ==> *final(self) == *old(self)
                &&& r is Ok ==> {
                    &&& final(self).is_move_of(*old(self), asset, from, to, amount)
                    &&& final(self).registry_agrees(*old(self))
                    &&& final(self).spec_events() == old(self).spec_events().push(
                        Event::Transferred(asset, from, to, amount),
                    )
                }
            },
    {
        if amount == 0 {
            return Err(Error::ZeroAmount);
        }
        let from_balance = self.free_balance(asset, from);
        let total_amount = match amount.checked_add(self.transfer_fee) {
            Some(v) => v,
            None => {
                return Err(Error::Overflow);
            },
        };
        if from_balance < total_amount {
            return Err(Error::InsufficientBalance);
        }
        if from != to {
            match self.ensure_can_withdraw(asset, from, amount, WithdrawReason::Transfer, from_balance - amount) {
                Err(e) => {
                    return Err(e);
                },
                Ok(()) => {},
            }
            let charged = fees.charge_fee(from, self.transfer_fee);
            self.complete_transfer_with_fee(charged, asset, from, to, amount)
        } else {
            Ok(())
        }
    }

    /// The signed-in `origin` transfers `amount` of `asset` to `to`, paying the
    /// transfer fee.
    pub fn transfer<F: ChargeFee>(
        &mut self,
        fees: &mut F,
        origin: AccountId,
        asset: AssetId,
        to: AccountId,
        amount: Balance,
    ) -> (r: Result<(), Error>)
        requires
            old(self).wf(),
        ensures
            final(self).wf(),
            old(self).fee_transfer_outcome(asset, origin, to, amount) is Err ==> {
                &&& r == old(self).fee_transfer_outcome(asset, origin, to, amount)
                &&& *final(self) == *old(self)
                &&& *final(fees) == *old(fees)
            },
            old(self).fee_transfer_outcome(asset, origin, to, amount) is Ok && origin == to ==> {
                &&& r is Ok
                &&& *final(self) == *old(self)
                &&& *final(fees) == *old(fees)
            },
            old(self).fee_transfer_outcome(asset, origin, to, amount) is Ok && origin != to ==> {
                &&& final(fees).requests() == old(fees).requests().push(
                    (origin, old(self).spec_transfer_fee(), r),
                )
                &&& r is Err ==> *final(self) == *old(self)
                &&& r is Ok ==> {
                    &&& final(self).is_move_of(*old(self), asset, origin, to, amount)
                    &&& final(self).registry_agrees(*old(self))
                    &&& final(self).spec_events() == old(self).spec_events().push(
                        Event::Transferred(asset, origin, to, amount),
                    )
                }
            },
    {
        self.make_transfer_with_fee(fees, asset, origin, to, amount)
    }

    /// How `mint` of `amount` of `asset` to `to` by `origin` ends.
    pub open spec fn mint_outcome(self, origin: AccountId, asset: AssetId, to: AccountId, amount: Balance) -> Result<(), Error> {
        if !self.permission_of(asset).allows(origin, PermissionType::Mint) {
            Err(Error::PermissionDenied)
        } else if self.issuance_of(asset) + amount > Balance::MAX {
            Err(Error::IssuanceOverflow)
        } else if self.free_of(asset, to) + amount > Balance::MAX {
            Err(Error::BalanceOverflow)
        } else {
            Ok(())
        }
    }

    /// The owner of the mint permission of `asset` adds `amount` to the free
    /// balance of `to` and to the asset's issuance.
    pub fn mint(&mut self, origin: AccountId, asset: AssetId, to: AccountId, amount: Balance) -> (r: Result<(), Error>)
        requires
            old(self).wf(),
        ensures
            final(self).wf(),
            r == old(self).mint_outcome(origin, asset, to, amount),
            r != Err::<(), Error>(Error::BalanceOverflow),
            r is Err ==> *final(self) == *old(self),
            r is Ok ==> {
                &&& final(self).free_of(asset, to) == old(self).free_of(asset, to) + amount
                &&& final(self).reserved_of(asset, to) == old(self).reserved_of(asset, to)
                &&& final(self).accounts_agree_except(*old(self), asset, to, to)
                &&& final(self).issuance_map() == old(self).issuance_map().insert(
                    asset,
                    (old(self).issuance_of(asset) + amount) as Balance,
                )
                &&& final(self).registry_agrees(*old(self))
                &&& final(self).spec_events() == old(self).spec_events().push(Event::Minted(asset, to, amount))
            },
    {
        if !self.check_permission(asset, origin, PermissionType::Mint) {
            return Err(Error::PermissionDenied);
        }
        proof {
            self.lemma_holdings_bounded(asset, to, to);
        }
        let free_before = self.free_balance(asset, to);
        let current_total_issuance = self.total_issuance(asset);
        let new_total_issuance = match current_total_issuance.checked_add(amount) {
            Some(v) => v,
            None => {
                return Err(Error::IssuanceOverflow);
            },
        };
        let value = match free_before.checked_add(amount) {
            Some(v) => v,
            None => {
                return Err(Error::BalanceOverflow);
            },
        };
        self.put_issuance(asset, new_total_issuance);
        self.set_free_balance(asset, to, value);
        proof {
            assert forall|a: AssetId| #[trigger] self.total_of(a) == self.issuance_of(a) as int by {
                assert(old(self).total_of(a) == old(self).issuance_of(a));
            }
        }
        self.deposit_event(Event::Minted(asset, to, amount));
        Ok(())
    }

    /// How `burn` of `amount` of `asset` from `from` by `origin` ends.
    pub open spec fn burn_outcome(self, origin: AccountId, asset: AssetId, from: AccountId, amount: Balance) -> Result<(), Error> {
        if !self.permission_of(asset).allows(origin, PermissionType::Burn) {
            Err(Error::PermissionDenied)
        } else if self.issuance_of(asset) < amount {
            Err(Error::IssuanceUnderflow)
        } else if self.free_of(asset, from) < amount {
            Err(Error::BalanceUnderflow)
        } else {
            Ok(())
        }
    }

    /// The owner of the burn permission of `asset` takes `amount` from the free
    /// balance of `from` and from the asset's issuance.
    pub fn burn(&mut self, origin: AccountId, asset: AssetId, from: AccountId, amount: Balance) -> (r: Result<(), Error>)
        requires
            old(self).wf(),
        ensures
            final(self).wf(),
            r == old(self).burn_outcome(origin, asset, from, amount),
            r is Err ==> *final(self) == *old(self),
            r is Ok ==> {
                &&& final(self).free_of(asset, from) == old(self).free_of(asset, from) - amount
                &&& final(self).reserved_of(asset, from) == old(self).reserved_of(asset, from)
                &&& final(self).accounts_agree_except(*old(self), asset, from, from)
                &&& final(self).issuance_map() == old(self).issuance_map().insert(
                    asset,
                    (old(self).issuance_of(asset) - amount) as Balance,
                )
                &&& final(self).registry_agrees(*old(self))
                &&& final(self).spec_events() == old(self).spec_events().push(Event::Burned(asset, from, amount))
            },
    {
        if !self.check_permission(asset, origin, PermissionType::Burn) {
            return Err(Error::PermissionDenied);
        }
        let free_before = self.free_balance(asset, from);
        let current_total_issuance = self.total_issuance(asset);
        let new_total_issuance = match current_total_issuance.checked_sub(amount) {
            Some(v) => v,
            None => {
                return Err(Error::IssuanceUnderflow);
            },
        };
        let value = match free_before.checked_sub(amount) {
            Some(v) => v,
            None => {
                return Err(Error::BalanceUnderflow);
            },
        };
        self.put_issuance(asset, new_total_issuance);
        self.set_free_balance(asset, from, value);
        proof {
            assert forall|a: AssetId| #[trigger] self.total_of(a) == self.issuance_of(a) as int by {
                assert(old(self).total_of(a) == old(self).issuance_of(a));
            }
        }
        self.deposit_event(Event::Burned(asset, from, amount));
        Ok(())
    }

    /// The owner of the update permission of `asset` replaces its whole
    /// permission set.
    pub fn update_permission(
        &mut self,
        origin: AccountId,
        asset: AssetId,
        new_permission: PermissionLatest,
    ) -> (r: Result<(), Error>)
        requires
            old(self).wf(),
        ensures
            final(self).wf(),
            r is Ok <==> old(self).permission_of(asset).allows(origin, PermissionType::Update),
            r is Err ==> r == Err::<(), Error>(Error::PermissionDenied) && *final(self) == *old(self),
            r is Ok ==> {
                &&& final(self).permission_map() == old(self).permission_map().insert(
                    asset,
                    PermissionVersions::V1(new_permission),
                )
                &&& final(self).permission_of(asset) == new_permission
                &&& final(self).balances_agree(*old(self))
                &&& final(self).settings_agree(*old(self))
                &&& final(self).lock_map() == old(self).lock_map()
                &&& final(self).spec_events() == old(self).spec_events().push(
                    Event::PermissionUpdated(asset, new_permission),
                )
            },
    {
        if self.check_permission(asset, origin, PermissionType::Update) {
            self.put_permissions(asset, PermissionVersions::from(new_permission));
            self.deposit_event(Event::PermissionUpdated(asset, new_permission));
            Ok(())
        } else {
            Err(Error::PermissionDenied)
        }
    }

    /// Records `event`.
    fn deposit_event(&mut self, event: Event)
        ensures
            final(self).spec_events() == old(self).spec_events().push(event),
            final(self).inv() == old(self).inv(),
            final(self).balances_agree(*old(self)),
            final(self).registry_agrees(*old(self)),
            old(self).wf() ==> final(self).wf(),
    {
        self.events.push(event);
        proof {
            if old(self).wf() {
                assert forall|a: AssetId| #[trigger] self.total_of(a) == self.issuance_of(a) as int by {
                    assert(old(self).total_of(a) == old(self).issuance_of(a));
                }
            }
        }
    }

    /// Stores `value` as the total issuance of `asset`.
    fn put_issuance(&mut self, asset: AssetId, value: Balance)
        ensures
            final(self).issuance_map() == old(self).issuance_map().insert(asset, value),
            final(self).inv() == old(self).inv(),
            forall|a: AssetId, w: AccountId| #[trigger] final(self).account(a, w) == old(self).account(a, w),
            forall|a: AssetId| #[trigger] final(self).total_of(a) == old(self).total_of(a),
            final(self).agrees_but_balances_issuance(*old(self)),
    {
        self.total_issuance.insert(asset, value);
    }

    /// The id `create_asset` gives the new asset: `asset_id` where one is asked
    /// for, the next user asset id otherwise; or why there is none.
    pub open spec fn new_asset_id(self, asset_id: Option<AssetId>) -> Result<AssetId, Error> {
        match asset_id {
            Some(id) => if self.is_registered(id) {
                Err(Error::AssetIdTaken)
            } else if id >= self.spec_next_asset_id() {
                Err(Error::AssetIdUnavailable)
            } else {
                Ok(id)
            },
            None => if self.spec_next_asset_id() == AssetId::MAX {
                Err(Error::NoIdAvailable)
            } else if self.is_registered(self.spec_next_asset_id()) {
                Err(Error::AssetIdTaken)
            } else {
                Ok(self.spec_next_asset_id())
            },
        }
    }

    /// This ledger is `pre` with asset `id` created: its issuance is the initial
    /// issuance, all of it the free balance of `owner`, and its permissions are
    /// those of `options`. The creation is reported.
    pub open spec fn is_creation_of(self, pre: Self, id: AssetId, owner: AccountId, options: AssetOptions) -> bool {
        &&& self.issuance_map() == pre.issuance_map().insert(id, options.initial_issuance)
        &&& self.permission_map() == pre.permission_map().insert(id, PermissionVersions::V1(options.permissions))
        &&& self.free_of(id, owner) == options.initial_issuance
        &&& self.reserved_of(id, owner) == 0
        &&& self.accounts_agree_except(pre, id, owner, owner)
        &&& self.lock_map() == pre.lock_map()
        &&& self.spec_create_asset_stake() == pre.spec_create_asset_stake()
        &&& self.spec_transfer_fee() == pre.spec_transfer_fee()
        &&& self.spec_staking_asset_id() == pre.spec_staking_asset_id()
        &&& self.spec_spending_asset_id() == pre.spec_spending_asset_id()
        &&& self.spec_block_number() == pre.spec_block_number()
        &&& self.spec_events() == pre.spec_events().push(Event::Created(id, owner, options))
    }

    /// Creates asset `id`, which has no issuance yet, for `owner`.
    fn insert_asset(&mut self, id: AssetId, owner: AccountId, options: AssetOptions)
        requires
            old(self).wf(),
            !old(self).is_registered(id),
        ensures
            final(self).wf(),
            final(self).is_creation_of(*old(self), id, owner, options),
            final(self).spec_next_asset_id() == old(self).spec_next_asset_id(),
    {
        proof {
            self.lemma_holdings_bounded(id, owner, owner);
        }
        self.write_account(id, owner, options.initial_issuance, 0);
        self.put_issuance(id, options.initial_issuance);
        proof {
            assert forall|a: AssetId| #[trigger] self.total_of(a) == self.issuance_of(a) as int by {
                assert(old(self).total_of(a) == old(self).issuance_of(a));
            }
        }
        self.put_permissions(id, PermissionVersions::from(options.permissions));
        self.deposit_event(Event::Created(id, owner, options));
    }

    /// Creates an asset: the reserved id `asset_id`, which must be free and
    /// below the next user asset id, or else the next user asset id, which then
    /// advances. Its whole initial issuance goes to the free balance of
    /// `from_account`, or of the default account 0.
    pub fn create_asset(
        &mut self,
        asset_id: Option<AssetId>,
        from_account: Option<AccountId>,
        options: AssetOptions,
    ) -> (r: Result<(), Error>)
        requires
            old(self).wf(),
        ensures
            final(self).wf(),
            match old(self).new_asset_id(asset_id) {
                Err(e) => r == Err::<(), Error>(e) && *final(self) == *old(self),
                Ok(id) => {
                    &&& r is Ok
                    &&& final(self).is_creation_of(
                        *old(self),
                        id,
                        match from_account {
                            Some(w) => w,
                            None => 0,
                        },
                        options,
                    )
                    &&& final(self).spec_next_asset_id() == if asset_id is None {
                        (id + 1) as AssetId
                    } else {
                        old(self).spec_next_asset_id()
                    }
                },
            },
    {
        let id = match asset_id {
            Some(id) => {
                if self.total_issuance.contains_key(&id) {
                    return Err(Error::AssetIdTaken);
                }
                if id >= self.next_asset_id {
                    return Err(Error::AssetIdUnavailable);
                }
                id
            },
            None => {
                let id = self.next_asset_id;
                let next_id = match id.checked_add(1) {
                    Some(v) => v,
                    None => {
                        return Err(Error::NoIdAvailable);
                    },
                };
                if self.total_issuance.contains_key(&id) {
                    return Err(Error::AssetIdTaken);
                }
                self.next_asset_id = next_id;
                proof {
                    assert forall|a: AssetId| #[trigger] self.total_of(a) == self.issuance_of(a) as int by {
                        assert(old(self).total_of(a) == old(self).issuance_of(a));
                    }
                }
                id
            },
        };
        let account_id = match from_account {
            Some(w) => w,
            None => 0,
        };
        self.insert_asset(id, account_id, options);
        Ok(())
    }

    /// Creates the reserved asset `asset_id` for the default account 0.
    pub fn create_reserved(&mut self, asset_id: AssetId, options: AssetOptions) -> (r: Result<(), Error>)
        requires
            old(self).wf(),
        ensures
            final(self).wf(),
            match old(self).new_asset_id(Some(asset_id)) {
                Err(e) => r == Err::<(), Error>(e) && *final(self) == *old(self),
                Ok(id) => r is Ok && final(self).is_creation_of(*old(self), id, 0, options)
                    && final(self).spec_next_asset_id() == old(self).spec_next_asset_id(),
            },
    {
        self.create_asset(Some(asset_id), None, options)
    }

    /// How `create` of an asset by `origin` ends.
    pub open spec fn create_outcome(self, origin: AccountId) -> Result<(), Error> {
        if self.spec_next_asset_id() == AssetId::MAX {
            Err(Error::NoIdAvailable)
        } else if self.is_registered(self.spec_next_asset_id()) {
            Err(Error::AssetIdTaken)
        } else {
            self.reserve_outcome(self.spec_staking_asset_id(), origin, self.spec_create_asset_stake())
        }
    }

    /// The signed-in `origin` creates an asset under the next user asset id,
    /// which then advances. The creation stake is first reserved from the
    /// creator's staking-asset balance; the whole initial issuance goes to the
    /// creator's free balance.
    pub fn create(&mut self, origin: AccountId, options: AssetOptions) -> (r: Result<(), Error>)
        requires
            old(self).wf(),
        ensures
            final(self).wf(),
            r == old(self).create_outcome(origin),
            r is Err ==> *final(self) == *old(self),
            r is Ok ==> exists|staked: Module|
                {
                    &&& #[trigger] staked.is_reserve_of(
                        *old(self),
                        old(self).spec_staking_asset_id(),
                        origin,
                        old(self).spec_create_asset_stake(),
                    )
                    &&& final(self).is_creation_of(staked, old(self).spec_next_asset_id(), origin, options)
                },
            r is Ok ==> final(self).spec_next_asset_id() == old(self).spec_next_asset_id() + 1,
    {
        let id = self.next_asset_id;
        let next_id = match id.checked_add(1) {
            Some(v) => v,
            None => {
                return Err(Error::NoIdAvailable);
            },
        };
        if self.total_issuance.contains_key(&id) {
            return Err(Error::AssetIdTaken);
        }
        let staking = self.staking_asset_id;
        let stake = self.create_asset_stake;
        match self.reserve(staking, origin, stake) {
            Err(e) => {
                return Err(e);
            },
            Ok(()) => {},
        }
        let ghost staked = *self;
        self.next_asset_id = next_id;
        proof {
            assert forall|a: AssetId| #[trigger] self.total_of(a) == self.issuance_of(a) as int by {
                assert(staked.total_of(a) == staked.issuance_of(a));
            }
        }
        self.insert_asset(id, origin, options);
        proof {
            assert(self.is_creation_of(staked, id, origin, options));
        }
        Ok(())
    }

    /// Stores `permissions` as the permission set of `asset`.
    fn put_permissions(&mut self, asset: AssetId, permissions: PermissionVersions)
        ensures
            final(self).permission_map() == old(self).permission_map().insert(asset, permissions),
            final(self).inv() == old(self).inv(),
            final(self).balances_agree(*old(self)),
            final(self).settings_agree(*old(self)),
            final(self).lock_map() == old(self).lock_map(),
            final(self).spec_events() == old(self).spec_events(),
            old(self).wf() ==> final(self).wf(),
    {
        self.permissions.insert(asset, permissions);
        proof {
            if old(self).wf() {
                assert forall|a: AssetId| #[trigger] self.total_of(a) == self.issuance_of(a) as int by {
                    assert(old(self).total_of(a) == old(self).issuance_of(a));
                }
            }
        }
    }

    /// Stores `locks` as the lock list of `who`.
    fn put_locks(&mut self, who: AccountId, locks: Vec<BalanceLock>)
        requires
            old(self).wf(),
        ensures
            final(self).wf(),
            final(self).locks_of(who) == locks@,
            forall|w: AccountId| w != who ==> #[trigger] final(self).locks_of(w) == old(self).locks_of(w),
            final(self).balances_agree(*old(self)),
            final(self).settings_agree(*old(self)),
            final(self).permission_map() == old(self).permission_map(),
            final(self).spec_events() == old(self).spec_events(),
    {
        self.locks.insert(who, locks);
        proof {
            assert forall|a: AssetId| #[trigger] self.total_of(a) == self.issuance_of(a) as int by {
                assert(old(self).total_of(a) == old(self).issuance_of(a));
            }
        }
    }

    /// Sets a lock on `who`: a lock with the same id gives way to it, and locks
    /// that have expired are dropped.
    pub fn set_lock(
        &mut self,
        id: LockIdentifier,
        who: AccountId,
        amount: Balance,
        until: BlockNumber,
        reasons: WithdrawReasons,
    )
        requires
            old(self).wf(),
        ensures
            final(self).wf(),
            final(self).locks_of(who) == rewritten(
                old(self).locks_of(who),
                BalanceLock { id, amount, until, reasons },
                old(self).spec_block_number(),
                false,
            ),
            ids_unique(old(self).locks_of(who)) ==> ids_unique(final(self).locks_of(who)),
            forall|w: AccountId| w != who ==> #[trigger] final(self).locks_of(w) == old(self).locks_of(w),
            final(self).balances_agree(*old(self)),
            final(self).settings_agree(*old(self)),
            final(self).permission_map() == old(self).permission_map(),
            final(self).spec_events() == old(self).spec_events(),
    {
        let new_lock = BalanceLock { id, amount, until, reasons };
        let current = self.locks(who);
        let locks = rewrite_locks(&current, new_lock, self.block_number, false);
        proof {
            if ids_unique(current@) {
                lemma_rewritten_ids_unique(current@, new_lock, self.block_number, false);
            }
        }
        self.put_locks(who, locks);
    }

    /// Extends a lock on `who`: a lock with the same id takes the larger amount,
    /// the later end and the reasons of both; where there is none, the lock is
    /// set. Locks that have expired are dropped.
    pub fn extend_lock(
        &mut self,
        id: LockIdentifier,
        who: AccountId,
        amount: Balance,
        until: BlockNumber,
        reasons: WithdrawReasons,
    )
        requires
            old(self).wf(),
        ensures
            final(self).wf(),
            final(self).locks_of(who) == rewritten(
                old(self).locks_of(who),
                BalanceLock { id, amount, until, reasons },
                old(self).spec_block_number(),
                true,
            ),
            ids_unique(old(self).locks_of(who)) ==> ids_unique(final(self).locks_of(who)),
            forall|w: AccountId| w != who ==> #[trigger] final(self).locks_of(w) == old(self).locks_of(w),
            final(self).balances_agree(*old(self)),
            final(self).settings_agree(*old(self)),
            final(self).permission_map() == old(self).permission_map(),
            final(self).spec_events() == old(self).spec_events(),
    {
        let new_lock = BalanceLock { id, amount, until, reasons };
        let current = self.locks(who);
        let locks = rewrite_locks(&current, new_lock, self.block_number, true);
        proof {
            if ids_unique(current@) {
                lemma_rewritten_ids_unique(current@, new_lock, self.block_number, true);
            }
        }
        self.put_locks(who, locks);
    }

    /// Removes the lock with id `id` from `who`, and the locks that have expired.
    pub fn remove_lock(&mut self, id: LockIdentifier, who: AccountId)
        requires
            old(self).wf(),
        ensures
            final(self).wf(),
            final(self).locks_of(who) == removed_prefix(
                old(self).locks_of(who),
                old(self).locks_of(who).len(),
                id,
                old(self).spec_block_number(),
            ),
            ids_unique(old(self).locks_of(who)) ==> ids_unique(final(self).locks_of(who)),
            forall|w: AccountId| w != who ==> #[trigger] final(self).locks_of(w) == old(self).locks_of(w),
            final(self).balances_agree(*old(self)),
            final(self).settings_agree(*old(self)),
            final(self).permission_map() == old(self).permission_map(),
            final(self).spec_events() == old(self).spec_events(),
    {
        let current = self.locks(who);
        let locks = remove_from_locks(&current, id, self.block_number);
        proof {
            if ids_unique(current@) {
                lemma_removed_ids_unique(current@, id, self.block_number);
            }
        }
        self.put_locks(who, locks);
    }

    /// A ledger at block 0 as `config` describes it: each listed asset exists,
    /// each endowed account holds `initial_balance` of it, free, and its
    /// issuance is `initial_balance` times the number of endowed accounts. No
    /// asset has permissions, no account has locks.
    pub fn new(config: &GenesisConfig) -> (r: Module)
        requires
            config.endowed_accounts@.no_duplicates(),
            config.initial_balance * config.endowed_accounts@.len() <= Balance::MAX,
        ensures
            r.wf(),
            forall|a: AssetId| #[trigger] r.is_registered(a) == config.assets@.contains(a),
            forall|a: AssetId|
                #[trigger] r.is_registered(a) ==> r.issuance_of(a) == config.initial_balance
                    * config.endowed_accounts@.len(),
            forall|a: AssetId, w: AccountId|
                #[trigger] r.account(a, w) == if config.assets@.contains(a) && config.endowed_accounts@.contains(w) {
                    (config.initial_balance, 0u128)
                } else {
                    (0u128, 0u128)
                },
            r.permission_map() == Map::<AssetId, PermissionVersions>::empty(),
            forall|w: AccountId| #[trigger] r.locks_of(w) == Seq::<BalanceLock>::empty(),
            r.spec_events() == Seq::<Event>::empty(),
            r.spec_next_asset_id() == config.next_asset_id,
            r.spec_create_asset_stake() == config.create_asset_stake,
            r.spec_transfer_fee() == config.transfer_fee,
            r.spec_staking_asset_id() == config.staking_asset_id,
            r.spec_spending_asset_id() == config.spending_asset_id,
            r.spec_block_number() == 0,
    {
        let mut m = Module {
            balances: Vec::new(),
            total_issuance: HashMap::new(),
            permissions: HashMap::new(),
            locks: HashMap::new(),
            next_asset_id: config.next_asset_id,
            create_asset_stake: config.create_asset_stake,
            transfer_fee: config.transfer_fee,
            staking_asset_id: config.staking_asset_id,
            spending_asset_id: config.spending_asset_id,
            block_number: 0,
            events: Vec::new(),
        };
        let ghost m0 = m;
        let initial = config.initial_balance;
        let n = config.endowed_accounts.len();
        let issuance = initial * (n as Balance);
        let ghost assets = config.assets@;
        let ghost endowed = config.endowed_accounts@;
        proof {
            assert forall|a: AssetId| #[trigger] m.total_of(a) == m.issuance_of(a) as int by {}
            assert forall|a: AssetId, w: AccountId| #[trigger] m.account(a, w) == (0u128, 0u128) by {}
        }
        let mut i: usize = 0;
        while i < config.assets.len()
            invariant
                i <= assets.len(),
                assets == config.assets@,
                endowed == config.endowed_accounts@,
                n == endowed.len(),
                endowed.no_duplicates(),
                issuance == initial * n,
                initial == config.initial_balance,
                m.wf(),
                m.agrees_but_balances_issuance(m0),
                forall|a: AssetId| #[trigger] m.is_registered(a) == exists|k: int| 0 <= k < i && assets[k] == a,
                forall|a: AssetId| #[trigger] m.is_registered(a) ==> m.issuance_of(a) == issuance,
                forall|a: AssetId, w: AccountId|
                    #[trigger] m.account(a, w) == if m.is_registered(a) && endowed.contains(w) {
                        (initial, 0u128)
                    } else {
                        (0u128, 0u128)
                    },
            decreases assets.len() - i,
        {
            let a = config.assets[i];
            let ghost before = m;
            if !m.total_issuance.contains_key(&a) {
                let ghost start = m;
                let mut j: usize = 0;
                while j < n
                    invariant
                        j <= n,
                        endowed == config.endowed_accounts@,
                        n == endowed.len(),
                        endowed.no_duplicates(),
                        issuance == initial * n,
                        initial == config.initial_balance,
                        initial * n <= Balance::MAX,
                        m.inv(),
                        m.balanced_except(a),
                        m.agrees_but_balances(start),
                        !m.is_registered(a),
                        m.total_of(a) == initial * j,
                        forall|a2: AssetId, w: AccountId|
                            #[trigger] m.account(a2, w) == if (m.is_registered(a2) && endowed.contains(w))
                                || (a2 == a && exists|k: int| 0 <= k < j && endowed[k] == w) {
                                (initial, 0u128)
                            } else {
                                (0u128, 0u128)
                            },
                    decreases n - j,
                {
                    let w = config.endowed_accounts[j];
                    proof {
                        assert(!exists|k: int| 0 <= k < j && endowed[k] == w) by {
                            if exists|k: int| 0 <= k < j && endowed[k] == w {
                                let k = choose|k: int| 0 <= k < j && endowed[k] == w;
                                assert(endowed[k] == endowed[j as int]);
                            }
                        }
                        assert(m.account(a, w) == (0u128, 0u128));
                        assert(initial * j + initial == initial * (j + 1)) by (nonlinear_arith);
                        assert(initial * (j + 1) <= initial * n) by (nonlinear_arith)
                            requires
                                j + 1 <= n,
                        ;
                    }
                    m.write_account(a, w, initial, 0);
                    proof {
                        assert forall|a2: AssetId, w2: AccountId|
                            #[trigger] m.account(a2, w2) == if (m.is_registered(a2) && endowed.contains(w2))
                                || (a2 == a && exists|k: int| 0 <= k < j + 1 && endowed[k] == w2) {
                                (initial, 0u128)
                            } else {
                                (0u128, 0u128)
                            } by {
                            if a2 == a && w2 == w {
                                assert(endowed[j as int] == w);
                            }
                        }
                    }
                    j = j + 1;
                }
                proof {
                    assert(initial * j == issuance);
                    assert forall|w: AccountId| endowed.contains(w) implies (exists|k: int| 0 <= k < j && endowed[k] == w) by {
                        let k = choose|k: int| 0 <= k < endowed.len() && endowed[k] == w;
                        assert(0 <= k < j && endowed[k] == w);
                    }
                }
                m.put_issuance(a, issuance);
            }
            proof {
                assert forall|a2: AssetId| #[trigger] m.is_registered(a2) == exists|k: int| 0 <= k < i + 1 && assets[k] == a2 by {
                    if a2 == a {
                        assert(assets[i as int] == a);
                    } else {
                        assert(m.is_registered(a2) == before.is_registered(a2));
                        if exists|k: int| 0 <= k < i + 1 && assets[k] == a2 {
                            let k = choose|k: int| 0 <= k < i + 1 && assets[k] == a2;
                            assert(k < i);
                        }
                    }
                }
                assert forall|a2: AssetId| #[trigger] m.is_registered(a2) implies m.issuance_of(a2) == issuance by {
                    if a2 != a {
                        assert(before.is_registered(a2));
                    }
                }
                assert forall|a2: AssetId| #[trigger] m.total_of(a2) == m.issuance_of(a2) as int by {}
            }
            i = i + 1;
        }
        proof {
            assert forall|a: AssetId| #[trigger] m.is_registered(a) == config.assets@.contains(a) by {}
            assert forall|w: AccountId| #[trigger] m.locks_of(w) == Seq::<BalanceLock>::empty() by {}
        }
        m
    }
}

} // verus!
