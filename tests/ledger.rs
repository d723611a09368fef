use generic_asset::{
    AssetOptions, ChargeFee, DummyChargeFee, Error, Event, GenesisConfig, Module, Owner,
    PermissionType, PermissionsV1,
};

const ALICE: u64 = 1;
const BOB: u64 = 2;
const CHARLIE: u64 = 3;
const STAKING: u32 = 16000;
const SPENDING: u32 = 16001;

fn config(initial_balance: u128, accounts: Vec<u64>) -> GenesisConfig {
    GenesisConfig {
        assets: vec![STAKING, SPENDING],
        initial_balance,
        endowed_accounts: accounts,
        next_asset_id: 1000,
        create_asset_stake: 10,
        transfer_fee: 0,
        staking_asset_id: STAKING,
        spending_asset_id: SPENDING,
    }
}

fn owned_by(who: u64) -> PermissionsV1 {
    PermissionsV1 {
        update: Owner::Address(who),
        mint: Owner::Address(who),
        burn: Owner::Address(who),
    }
}

fn nobody() -> PermissionsV1 {
    PermissionsV1 { update: Owner::Nobody, mint: Owner::Nobody, burn: Owner::Nobody }
}

fn empty_ledger() -> Module {
    Module::new(&config(0, vec![]))
}

/// A ledger where ALICE owns asset 1000 with an issuance of `issuance`.
fn ledger_with_asset(issuance: u128) -> Module {
    let mut m = empty_ledger();
    let options = AssetOptions { initial_issuance: issuance, permissions: owned_by(ALICE) };
    assert_eq!(m.create_asset(None, Some(ALICE), options), Ok(()));
    m
}

struct FailingFee;

impl ChargeFee for FailingFee {
    // The record of requests exists for verification only; nothing calls it.
    fn requests(&self) -> vstd::seq::Seq<(u64, u128, Result<(), Error>)> {
        unreachable!()
    }

    fn charge_fee(&mut self, _transactor: u64, _amount: u128) -> Result<(), Error> {
        Err(Error::FeeChargeFailed)
    }
}

struct CountingFee {
    charged: u128,
}

impl ChargeFee for CountingFee {
    // The record of requests exists for verification only; nothing calls it.
    fn requests(&self) -> vstd::seq::Seq<(u64, u128, Result<(), Error>)> {
        unreachable!()
    }

    fn charge_fee(&mut self, _transactor: u64, amount: u128) -> Result<(), Error> {
        self.charged += amount;
        Ok(())
    }
}

#[test]
fn genesis_endows_each_account_of_each_asset() {
    let m = Module::new(&config(100, vec![ALICE, BOB, CHARLIE]));
    assert_eq!(m.total_issuance(STAKING), 300);
    assert_eq!(m.total_issuance(SPENDING), 300);
    assert_eq!(m.free_balance(STAKING, BOB), 100);
    assert_eq!(m.free_balance(SPENDING, CHARLIE), 100);
    assert_eq!(m.reserved_balance(STAKING, ALICE), 0);
    assert_eq!(m.free_balance(STAKING, 99), 0);
    assert_eq!(m.total_issuance(5), 0);
    assert_eq!(m.next_asset_id(), 1000);
    assert_eq!(m.staking_asset_id(), STAKING);
    assert_eq!(m.spending_asset_id(), SPENDING);
    assert_eq!(m.create_asset_stake(), 10);
    assert_eq!(m.transfer_fee(), 0);
    assert_eq!(m.block_number(), 0);
    assert!(m.events().is_empty());
}

#[test]
fn create_then_reserve_then_slash_scenario() {
    let mut m = ledger_with_asset(1000);
    let asset = 1000;
    assert_eq!(m.total_issuance(asset), 1000);
    assert_eq!(m.free_balance(asset, ALICE), 1000);
    assert_eq!(m.reserve(asset, ALICE, 300), Ok(()));
    assert_eq!(m.free_balance(asset, ALICE), 700);
    assert_eq!(m.reserved_balance(asset, ALICE), 300);
    assert_eq!(m.slash(asset, ALICE, 800), None);
    assert_eq!(m.free_balance(asset, ALICE), 0);
    assert_eq!(m.reserved_balance(asset, ALICE), 200);
    assert_eq!(m.total_issuance(asset), 200);
}

#[test]
fn slash_prefers_free_balance() {
    let mut m = ledger_with_asset(15);
    let asset = 1000;
    assert_eq!(m.reserve(asset, ALICE, 5), Ok(()));
    assert_eq!(m.free_balance(asset, ALICE), 10);
    assert_eq!(m.slash(asset, ALICE, 12), None);
    assert_eq!(m.free_balance(asset, ALICE), 0);
    assert_eq!(m.reserved_balance(asset, ALICE), 3);
    assert_eq!(m.total_issuance(asset), 3);
}

#[test]
fn slash_reports_what_it_could_not_take() {
    let mut m = ledger_with_asset(15);
    let asset = 1000;
    assert_eq!(m.reserve(asset, ALICE, 5), Ok(()));
    assert_eq!(m.slash(asset, ALICE, 20), Some(5));
    assert_eq!(m.total_balance(asset, ALICE), 0);
    assert_eq!(m.total_issuance(asset), 0);
}

#[test]
fn slash_reserved_takes_from_reserved_only() {
    let mut m = ledger_with_asset(100);
    let asset = 1000;
    assert_eq!(m.reserve(asset, ALICE, 30), Ok(()));
    assert_eq!(m.slash_reserved(asset, ALICE, 20), None);
    assert_eq!(m.reserved_balance(asset, ALICE), 10);
    assert_eq!(m.free_balance(asset, ALICE), 70);
    assert_eq!(m.slash_reserved(asset, ALICE, 25), Some(15));
    assert_eq!(m.reserved_balance(asset, ALICE), 0);
    assert_eq!(m.total_issuance(asset), 70);
}

#[test]
fn unreserve_is_bounded_and_never_fails() {
    let mut m = ledger_with_asset(100);
    let asset = 1000;
    assert_eq!(m.reserve(asset, ALICE, 40), Ok(()));
    assert_eq!(m.unreserve(asset, ALICE, 15), 0);
    assert_eq!(m.reserved_balance(asset, ALICE), 25);
    assert_eq!(m.free_balance(asset, ALICE), 75);
    assert_eq!(m.unreserve(asset, ALICE, 60), 35);
    assert_eq!(m.reserved_balance(asset, ALICE), 0);
    assert_eq!(m.free_balance(asset, ALICE), 100);
    assert_eq!(m.unreserve(asset, BOB, 7), 7);
    assert_eq!(m.total_issuance(asset), 100);
}

#[test]
fn reserve_then_covering_unreserve_restores_balances() {
    let mut m = ledger_with_asset(100);
    let asset = 1000;
    assert_eq!(m.reserve(asset, ALICE, 10), Ok(()));
    assert_eq!(m.reserve(asset, ALICE, 25), Ok(()));
    assert_eq!(m.reserve(asset, ALICE, 5), Ok(()));
    assert_eq!(m.free_balance(asset, ALICE), 60);
    assert_eq!(m.unreserve(asset, ALICE, 40), 0);
    assert_eq!(m.free_balance(asset, ALICE), 100);
    assert_eq!(m.reserved_balance(asset, ALICE), 0);
}

#[test]
fn reserve_more_than_free_fails() {
    let mut m = ledger_with_asset(100);
    assert_eq!(m.reserve(1000, ALICE, 101), Err(Error::InsufficientFreeFunds));
    assert_eq!(m.free_balance(1000, ALICE), 100);
    assert_eq!(m.reserved_balance(1000, ALICE), 0);
}

#[test]
fn make_transfer_moves_free_balance() {
    let mut m = ledger_with_asset(100);
    assert_eq!(m.make_transfer(1000, ALICE, BOB, 40), Ok(()));
    assert_eq!(m.free_balance(1000, ALICE), 60);
    assert_eq!(m.free_balance(1000, BOB), 40);
    assert_eq!(m.total_issuance(1000), 100);
    assert_eq!(m.make_transfer(1000, BOB, BOB, 40), Ok(()));
    assert_eq!(m.free_balance(1000, BOB), 40);
    assert_eq!(m.make_transfer(1000, BOB, ALICE, 41), Err(Error::InsufficientBalance));
    assert_eq!(m.free_balance(1000, BOB), 40);
}

#[test]
fn transfer_with_fee_charges_and_reports() {
    let mut cfg = config(100, vec![ALICE, BOB]);
    cfg.transfer_fee = 3;
    let mut m = Module::new(&cfg);
    let mut fees = CountingFee { charged: 0 };
    assert_eq!(m.make_transfer_with_fee(&mut fees, SPENDING, ALICE, BOB, 50), Ok(()));
    assert_eq!(fees.charged, 3);
    assert_eq!(m.free_balance(SPENDING, ALICE), 50);
    assert_eq!(m.free_balance(SPENDING, BOB), 150);
    assert_eq!(m.events(), &vec![Event::Transferred(SPENDING, ALICE, BOB, 50)]);
    assert_eq!(m.transfer(&mut fees, BOB, SPENDING, ALICE, 10), Ok(()));
    assert_eq!(fees.charged, 6);
    assert_eq!(m.free_balance(SPENDING, ALICE), 60);
}

#[test]
fn transfer_with_fee_short_of_fee_changes_nothing() {
    let mut cfg = config(100, vec![ALICE, BOB]);
    cfg.transfer_fee = 5;
    let mut m = Module::new(&cfg);
    let mut fees = CountingFee { charged: 0 };
    assert_eq!(
        m.make_transfer_with_fee(&mut fees, SPENDING, ALICE, BOB, 96),
        Err(Error::InsufficientBalance)
    );
    assert_eq!(fees.charged, 0);
    assert_eq!(m.free_balance(SPENDING, ALICE), 100);
    assert_eq!(m.free_balance(SPENDING, BOB), 100);
    assert_eq!(m.total_issuance(SPENDING), 200);
    assert!(m.events().is_empty());
}

#[test]
fn transfer_with_fee_rejects_zero_and_overflow() {
    let mut cfg = config(100, vec![ALICE, BOB]);
    cfg.transfer_fee = 1;
    let mut m = Module::new(&cfg);
    let mut fees = DummyChargeFee::new();
    assert_eq!(m.make_transfer_with_fee(&mut fees, SPENDING, ALICE, BOB, 0), Err(Error::ZeroAmount));
    assert_eq!(
        m.make_transfer_with_fee(&mut fees, SPENDING, ALICE, BOB, u128::MAX),
        Err(Error::Overflow)
    );
    assert_eq!(m.free_balance(SPENDING, ALICE), 100);
}

#[test]
fn transfer_with_fee_stops_when_fee_fails() {
    let mut m = Module::new(&config(100, vec![ALICE, BOB]));
    let mut fees = FailingFee;
    assert_eq!(
        m.make_transfer_with_fee(&mut fees, SPENDING, ALICE, BOB, 10),
        Err(Error::FeeChargeFailed)
    );
    assert_eq!(m.free_balance(SPENDING, ALICE), 100);
    assert_eq!(m.free_balance(SPENDING, BOB), 100);
    assert!(m.events().is_empty());
    // A transfer to oneself charges nothing, so the failing collaborator is not asked.
    assert_eq!(m.make_transfer_with_fee(&mut fees, SPENDING, ALICE, ALICE, 10), Ok(()));
}

#[test]
fn create_asset_ids_and_errors() {
    let mut m = empty_ledger();
    let options = AssetOptions { initial_issuance: 7, permissions: nobody() };
    assert_eq!(m.create_asset(None, None, options), Ok(()));
    assert_eq!(m.next_asset_id(), 1001);
    assert_eq!(m.free_balance(1000, 0), 7);
    assert_eq!(m.create_asset(Some(1000), None, options), Err(Error::AssetIdTaken));
    assert_eq!(m.create_asset(Some(1001), None, options), Err(Error::AssetIdUnavailable));
    assert_eq!(m.create_asset(Some(STAKING), None, options), Err(Error::AssetIdTaken));
    assert_eq!(m.create_reserved(5, options), Ok(()));
    assert_eq!(m.total_issuance(5), 7);
    assert_eq!(m.next_asset_id(), 1001);
    assert_eq!(m.events().len(), 2);
    assert_eq!(m.events()[1], Event::Created(5, 0, options));
}

#[test]
fn create_asset_fails_when_ids_run_out() {
    let mut cfg = config(0, vec![]);
    cfg.next_asset_id = u32::MAX;
    let mut m = Module::new(&cfg);
    let options = AssetOptions { initial_issuance: 7, permissions: nobody() };
    assert_eq!(m.create_asset(None, None, options), Err(Error::NoIdAvailable));
    assert_eq!(m.next_asset_id(), u32::MAX);
    assert_eq!(m.total_issuance(u32::MAX), 0);
}

#[test]
fn create_reserves_the_stake() {
    let mut m = Module::new(&config(100, vec![ALICE]));
    let options = AssetOptions { initial_issuance: 500, permissions: owned_by(ALICE) };
    assert_eq!(m.create(ALICE, options), Ok(()));
    assert_eq!(m.free_balance(STAKING, ALICE), 90);
    assert_eq!(m.reserved_balance(STAKING, ALICE), 10);
    assert_eq!(m.free_balance(1000, ALICE), 500);
    assert_eq!(m.total_issuance(1000), 500);
    assert_eq!(m.next_asset_id(), 1001);
    assert_eq!(m.create(BOB, options), Err(Error::InsufficientFreeFunds));
    assert_eq!(m.next_asset_id(), 1001);
}

#[test]
fn mint_and_burn_need_permission() {
    let mut m = ledger_with_asset(100);
    assert_eq!(m.mint(BOB, 1000, BOB, 5), Err(Error::PermissionDenied));
    assert_eq!(m.mint(ALICE, 1000, BOB, 5), Ok(()));
    assert_eq!(m.free_balance(1000, BOB), 5);
    assert_eq!(m.total_issuance(1000), 105);
    assert_eq!(m.burn(BOB, 1000, ALICE, 5), Err(Error::PermissionDenied));
    assert_eq!(m.burn(ALICE, 1000, ALICE, 30), Ok(()));
    assert_eq!(m.free_balance(1000, ALICE), 70);
    assert_eq!(m.total_issuance(1000), 75);
    assert_eq!(
        m.events()[1..].to_vec(),
        vec![Event::Minted(1000, BOB, 5), Event::Burned(1000, ALICE, 30)]
    );
}

#[test]
fn mint_and_burn_arithmetic_errors() {
    let mut m = ledger_with_asset(100);
    assert_eq!(m.mint(ALICE, 1000, BOB, u128::MAX), Err(Error::IssuanceOverflow));
    assert_eq!(m.burn(ALICE, 1000, ALICE, 101), Err(Error::IssuanceUnderflow));
    assert_eq!(m.make_transfer(1000, ALICE, BOB, 50), Ok(()));
    assert_eq!(m.burn(ALICE, 1000, BOB, 60), Err(Error::BalanceUnderflow));
    assert_eq!(m.total_issuance(1000), 100);
    assert_eq!(m.free_balance(1000, BOB), 50);
}

#[test]
fn mint_past_the_largest_issuance_fails() {
    let mut m = ledger_with_asset(u128::MAX - 1);
    // the issuance has room for one more unit, and then for none
    assert_eq!(m.mint(ALICE, 1000, ALICE, 1), Ok(()));
    assert_eq!(m.mint(ALICE, 1000, ALICE, 1), Err(Error::IssuanceOverflow));
    assert_eq!(m.free_balance(1000, ALICE), u128::MAX);
}

#[test]
fn nobody_can_mint_without_an_owner() {
    let mut m = empty_ledger();
    let perms = PermissionsV1 { update: Owner::Address(ALICE), mint: Owner::Nobody, burn: Owner::Address(ALICE) };
    let options = AssetOptions { initial_issuance: 100, permissions: perms };
    assert_eq!(m.create_asset(None, Some(ALICE), options), Ok(()));
    for who in [0u64, ALICE, BOB] {
        assert!(!m.check_permission(1000, who, PermissionType::Mint));
        assert_eq!(m.mint(who, 1000, who, 1), Err(Error::PermissionDenied));
    }
    assert_eq!(m.total_issuance(1000), 100);
}

#[test]
fn update_permission_replaces_the_whole_set() {
    let mut m = ledger_with_asset(100);
    assert!(m.check_permission(1000, ALICE, PermissionType::Update));
    assert_eq!(m.update_permission(BOB, 1000, owned_by(BOB)), Err(Error::PermissionDenied));
    assert_eq!(m.update_permission(ALICE, 1000, owned_by(BOB)), Ok(()));
    assert!(!m.check_permission(1000, ALICE, PermissionType::Burn));
    assert!(m.check_permission(1000, BOB, PermissionType::Burn));
    assert_eq!(PermissionsV1::from(m.get_permission(1000)), owned_by(BOB));
    assert_eq!(PermissionsV1::from(m.get_permission(77)), nobody());
    assert_eq!(m.events().last(), Some(&Event::PermissionUpdated(1000, owned_by(BOB))));
}

#[test]
fn reward_adds_to_balance_and_issuance() {
    let mut m = ledger_with_asset(100);
    assert_eq!(m.reward(1000, BOB, 20), Ok(()));
    assert_eq!(m.free_balance(1000, BOB), 20);
    assert_eq!(m.total_issuance(1000), 120);
    assert_eq!(m.reward(1000, BOB, u128::MAX), Err(Error::Overflow));
    assert_eq!(m.total_issuance(1000), 120);
}

#[test]
fn repatriate_moves_reserved_to_beneficiary() {
    let mut m = ledger_with_asset(100);
    assert_eq!(m.reserve(1000, ALICE, 30), Ok(()));
    assert_eq!(m.repatriate_reserved(1000, ALICE, BOB, 20), Ok(0));
    assert_eq!(m.reserved_balance(1000, ALICE), 10);
    assert_eq!(m.free_balance(1000, BOB), 20);
    assert_eq!(m.repatriate_reserved(1000, ALICE, BOB, 25), Ok(15));
    assert_eq!(m.reserved_balance(1000, ALICE), 0);
    assert_eq!(m.free_balance(1000, BOB), 30);
    assert_eq!(m.total_issuance(1000), 100);
}

#[test]
fn issuance_stays_the_sum_of_balances() {
    let mut m = ledger_with_asset(1000);
    let asset = 1000;
    let mut fees = DummyChargeFee::new();
    assert_eq!(m.make_transfer(asset, ALICE, BOB, 100), Ok(()));
    assert_eq!(m.reserve(asset, BOB, 40), Ok(()));
    assert_eq!(m.mint(ALICE, asset, CHARLIE, 50), Ok(()));
    assert_eq!(m.slash(asset, BOB, 70), None);
    assert_eq!(m.reward(asset, ALICE, 5), Ok(()));
    assert_eq!(m.repatriate_reserved(asset, BOB, CHARLIE, 100), Ok(70));
    assert_eq!(m.burn(ALICE, asset, CHARLIE, 20), Ok(()));
    assert_eq!(m.make_transfer_with_fee(&mut fees, asset, ALICE, CHARLIE, 1), Ok(()));
    assert_eq!(m.slash_reserved(asset, BOB, 1), Some(1));
    let sum: u128 = [0u64, ALICE, BOB, CHARLIE].iter().map(|w| m.total_balance(asset, *w)).sum();
    assert_eq!(m.total_issuance(asset), sum);
    assert_eq!(sum, 1000 + 50 - 70 + 5 - 20);
}

#[test]
fn completing_a_transfer_follows_the_fee_answer() {
    let mut m = Module::new(&config(100, vec![ALICE, BOB]));
    assert_eq!(
        m.complete_transfer_with_fee(Err(Error::FeeChargeFailed), SPENDING, ALICE, BOB, 10),
        Err(Error::FeeChargeFailed)
    );
    assert_eq!(m.free_balance(SPENDING, ALICE), 100);
    assert!(m.events().is_empty());
    assert_eq!(m.complete_transfer_with_fee(Ok(()), SPENDING, ALICE, BOB, 10), Ok(()));
    assert_eq!(m.free_balance(SPENDING, ALICE), 90);
    assert_eq!(m.free_balance(SPENDING, BOB), 110);
    assert_eq!(m.events(), &vec![Event::Transferred(SPENDING, ALICE, BOB, 10)]);
}

#[test]
fn rejected_transfer_asks_nothing_of_the_fee_collaborator() {
    let mut cfg = config(100, vec![ALICE, BOB]);
    cfg.transfer_fee = 5;
    let mut m = Module::new(&cfg);
    let mut fees = CountingFee { charged: 0 };
    assert_eq!(m.make_transfer_with_fee(&mut fees, SPENDING, ALICE, BOB, 0), Err(Error::ZeroAmount));
    assert_eq!(
        m.make_transfer_with_fee(&mut fees, SPENDING, ALICE, BOB, u128::MAX),
        Err(Error::Overflow)
    );
    assert_eq!(m.make_transfer_with_fee(&mut fees, SPENDING, ALICE, ALICE, 10), Ok(()));
    assert_eq!(fees.charged, 0);
}
