use generic_asset::{
    AssetCurrency, BalanceLock, Error, GenesisConfig, Module, StakingAssetIdProvider,
    WithdrawReason, WithdrawReasons,
};

const ALICE: u64 = 1;
const BOB: u64 = 2;
const STAKING: u32 = 16000;
const SPENDING: u32 = 16001;

fn ledger() -> Module {
    Module::new(&GenesisConfig {
        assets: vec![STAKING, SPENDING],
        initial_balance: 100,
        endowed_accounts: vec![ALICE, BOB],
        next_asset_id: 1000,
        create_asset_stake: 0,
        transfer_fee: 0,
        staking_asset_id: STAKING,
        spending_asset_id: SPENDING,
    })
}

fn lock(id: u8, amount: u128, until: u64, reasons: WithdrawReasons) -> BalanceLock {
    BalanceLock { id: [id; 8], amount, until, reasons }
}

#[test]
fn lock_blocks_transfer_until_it_expires() {
    let mut m = ledger();
    m.set_block_number(10);
    let transfer_only = WithdrawReasons::from_reason(WithdrawReason::Transfer);
    m.set_lock([1; 8], ALICE, 100, 50, transfer_only);
    assert_eq!(m.make_transfer(STAKING, ALICE, BOB, 1), Err(Error::LiquidityRestricted));
    assert_eq!(m.free_balance(STAKING, ALICE), 100);
    m.set_block_number(51);
    assert_eq!(m.make_transfer(STAKING, ALICE, BOB, 1), Ok(()));
    assert_eq!(m.free_balance(STAKING, ALICE), 99);
}

#[test]
fn lock_binds_the_staking_asset_and_its_reasons_only() {
    let mut m = ledger();
    m.set_block_number(10);
    let transfer_only = WithdrawReasons::from_reason(WithdrawReason::Transfer);
    m.set_lock([1; 8], ALICE, 60, 50, transfer_only);
    assert_eq!(m.make_transfer(SPENDING, ALICE, BOB, 90), Ok(()));
    assert_eq!(m.make_transfer(STAKING, ALICE, BOB, 40), Ok(()));
    assert_eq!(m.make_transfer(STAKING, ALICE, BOB, 1), Err(Error::LiquidityRestricted));
    assert_eq!(m.reserve(STAKING, ALICE, 30), Ok(()));
    assert_eq!(
        m.ensure_can_withdraw(STAKING, ALICE, 0, WithdrawReason::Transfer, 59),
        Err(Error::LiquidityRestricted)
    );
    assert_eq!(m.ensure_can_withdraw(STAKING, ALICE, 0, WithdrawReason::Fee, 0), Ok(()));
    assert_eq!(m.ensure_can_withdraw(STAKING, BOB, 0, WithdrawReason::Transfer, 0), Ok(()));
}

#[test]
fn lock_on_reserve_blocks_reserving() {
    let mut m = ledger();
    m.set_lock([2; 8], ALICE, 80, 50, WithdrawReasons::all());
    assert_eq!(m.reserve(STAKING, ALICE, 21), Err(Error::LiquidityRestricted));
    assert_eq!(m.reserve(STAKING, ALICE, 20), Ok(()));
}

#[test]
fn set_lock_replaces_same_id_and_drops_expired() {
    let mut m = ledger();
    let all = WithdrawReasons::all();
    m.set_lock([1; 8], ALICE, 10, 5, all);
    m.set_lock([2; 8], ALICE, 20, 100, all);
    m.set_block_number(6);
    m.set_lock([2; 8], ALICE, 30, 200, all);
    assert_eq!(m.locks(ALICE), vec![lock(2, 30, 200, all)]);
    m.set_lock([3; 8], ALICE, 5, 7, all);
    assert_eq!(m.locks(ALICE), vec![lock(2, 30, 200, all), lock(3, 5, 7, all)]);
    assert!(m.locks(BOB).is_empty());
}

#[test]
fn extend_lock_merges_with_same_id() {
    let mut m = ledger();
    let transfer = WithdrawReasons::from_reason(WithdrawReason::Transfer);
    let reserve = WithdrawReasons::from_reason(WithdrawReason::Reserve);
    m.extend_lock([1; 8], ALICE, 50, 20, transfer);
    assert_eq!(m.locks(ALICE), vec![lock(1, 50, 20, transfer)]);
    m.extend_lock([1; 8], ALICE, 30, 40, reserve);
    let both = transfer.union(reserve);
    assert_eq!(m.locks(ALICE), vec![lock(1, 50, 40, both)]);
    assert!(both.contains(WithdrawReason::Transfer));
    assert!(both.contains(WithdrawReason::Reserve));
    assert!(!both.contains(WithdrawReason::Fee));
}

#[test]
fn remove_lock_drops_it_and_the_expired() {
    let mut m = ledger();
    let all = WithdrawReasons::all();
    m.set_lock([1; 8], ALICE, 10, 5, all);
    m.set_lock([2; 8], ALICE, 20, 100, all);
    m.set_lock([3; 8], ALICE, 30, 100, all);
    m.set_block_number(5);
    m.remove_lock([2; 8], ALICE);
    assert_eq!(m.locks(ALICE), vec![lock(3, 30, 100, all)]);
    assert_eq!(m.make_transfer(STAKING, ALICE, BOB, 70), Ok(()));
    assert_eq!(m.make_transfer(STAKING, ALICE, BOB, 1), Err(Error::LiquidityRestricted));
}

#[test]
fn staking_currency_locks_go_through_the_ledger() {
    let mut m = ledger();
    let all = WithdrawReasons::all();
    AssetCurrency::<StakingAssetIdProvider>::set_lock(&mut m, [9; 8], ALICE, 70, 10, all);
    AssetCurrency::<StakingAssetIdProvider>::extend_lock(&mut m, [9; 8], ALICE, 80, 5, WithdrawReasons::none());
    assert_eq!(m.locks(ALICE), vec![lock(9, 80, 10, all)]);
    assert_eq!(
        AssetCurrency::<StakingAssetIdProvider>::withdraw(&mut m, ALICE, 30, WithdrawReason::Fee).map(|n| n.peek()),
        Err(Error::LiquidityRestricted)
    );
    AssetCurrency::<StakingAssetIdProvider>::remove_lock(&mut m, [9; 8], ALICE);
    assert!(m.locks(ALICE).is_empty());
}
