use generic_asset::{
    AssetCurrency, Error, GenesisConfig, Module, NegativeImbalance, PositiveImbalance,
    RewardAssetIdProvider, SignedImbalance, SpendingAssetIdProvider, StakingAssetIdProvider,
    UpdateBalanceOutcome, WithdrawReason, WithdrawReasons,
};

const ALICE: u64 = 1;
const BOB: u64 = 2;
const STAKING: u32 = 16000;
const SPENDING: u32 = 16001;

type Staking = AssetCurrency<StakingAssetIdProvider>;
type Spending = AssetCurrency<SpendingAssetIdProvider>;
type Reward = AssetCurrency<RewardAssetIdProvider>;

fn ledger() -> Module {
    Module::new(&GenesisConfig {
        assets: vec![STAKING, SPENDING],
        initial_balance: 100,
        endowed_accounts: vec![ALICE, BOB],
        next_asset_id: 1000,
        create_asset_stake: 0,
        transfer_fee: 0,
        staking_asset_id: STAKING,
        spending_asset_id: SPENDING,
    })
}

#[test]
fn imbalance_split_merge_offset() {
    let p = PositiveImbalance::new(7, 10);
    let (a, b) = p.split(4);
    assert_eq!((a.peek(), b.peek()), (4, 6));
    let (c, d) = PositiveImbalance::new(7, 3).split(5);
    assert_eq!((c.peek(), d.peek()), (3, 0));
    let merged = a.merge(b);
    assert_eq!(merged.peek(), 10);
    assert_eq!(merged.asset_id(), 7);
    let mut big = PositiveImbalance::new(7, u128::MAX - 1);
    big.subsume(PositiveImbalance::new(7, 5));
    assert_eq!(big.peek(), u128::MAX);
    match PositiveImbalance::new(7, 10).offset(NegativeImbalance::new(7, 4)) {
        Ok(p) => assert_eq!(p.peek(), 6),
        Err(_) => panic!("the positive side is larger"),
    }
    match PositiveImbalance::new(7, 4).offset(NegativeImbalance::new(7, 10)) {
        Ok(_) => panic!("the negative side is larger"),
        Err(n) => assert_eq!(n.peek(), 6),
    }
    match NegativeImbalance::new(7, 4).offset(PositiveImbalance::new(7, 4)) {
        Ok(n) => assert_eq!(n.peek(), 0),
        Err(_) => panic!("equal sides leave a negative zero"),
    }
    assert!(PositiveImbalance::zero(7).drop_zero().is_ok());
    assert!(NegativeImbalance::new(7, 1).drop_zero().is_err());
    let (e, f) = NegativeImbalance::new(3, 9).split(2);
    assert_eq!((e.peek(), f.peek()), (2, 7));
    let mut g = e.merge(f);
    g.subsume(NegativeImbalance::new(3, 1));
    assert_eq!(g.peek(), 10);
}

#[test]
fn withdraw_then_settle_restores_issuance() {
    let mut m = ledger();
    let imbalance = Staking::withdraw(&mut m, ALICE, 30, WithdrawReason::Fee).ok().unwrap();
    assert_eq!(imbalance.peek(), 30);
    assert_eq!(m.free_balance(STAKING, ALICE), 70);
    assert_eq!(m.total_issuance(STAKING), 200);
    m.settle_negative(imbalance);
    assert_eq!(m.total_issuance(STAKING), 170);
    assert_eq!(
        Staking::withdraw(&mut m, ALICE, 71, WithdrawReason::Fee).map(|n| n.peek()),
        Err(Error::InsufficientBalance)
    );
}

#[test]
fn deposit_then_settle_restores_issuance() {
    let mut m = ledger();
    let imbalance = Spending::deposit_into_existing(&mut m, BOB, 25).ok().unwrap();
    assert_eq!(m.free_balance(SPENDING, BOB), 125);
    assert_eq!(Spending::total_issuance(&m), 200);
    m.settle_positive(imbalance);
    assert_eq!(Spending::total_issuance(&m), 225);
    assert_eq!(
        Spending::deposit_into_existing(&mut m, BOB, u128::MAX).map(|p| p.peek()),
        Err(Error::Overflow)
    );
    let nothing = Spending::deposit_creating(&mut m, BOB, u128::MAX);
    assert_eq!(nothing.peek(), 0);
    let created = Spending::deposit_creating(&mut m, 77, 5);
    assert_eq!(created.peek(), 5);
    m.settle_positive(created);
    m.settle_positive(nothing);
    assert_eq!(Spending::free_balance(&m, 77), 5);
    assert_eq!(Spending::total_issuance(&m), 230);
}

#[test]
fn make_free_balance_be_hands_back_the_difference() {
    let mut m = ledger();
    let (up, outcome) = Staking::make_free_balance_be(&mut m, ALICE, 150);
    assert_eq!(outcome, UpdateBalanceOutcome::Updated);
    match &up {
        SignedImbalance::Positive(p) => assert_eq!(p.peek(), 50),
        SignedImbalance::Negative(_) => panic!("the balance grew"),
    }
    m.settle(up);
    assert_eq!(Staking::total_issuance(&m), 250);
    let (down, _) = Staking::make_free_balance_be(&mut m, ALICE, 20);
    match &down {
        SignedImbalance::Negative(n) => assert_eq!(n.peek(), 130),
        SignedImbalance::Positive(_) => panic!("the balance shrank"),
    }
    m.settle(down);
    assert_eq!(Staking::total_issuance(&m), 120);
    assert_eq!(Staking::total_balance(&m, ALICE), 20);
}

#[test]
fn currency_slash_and_reserve() {
    let mut m = ledger();
    assert!(Staking::can_reserve(&m, ALICE, 100));
    assert!(!Staking::can_slash(&m, ALICE, 101));
    assert_eq!(Staking::reserve(&mut m, ALICE, 40), Ok(()));
    assert_eq!(Staking::reserved_balance(&m, ALICE), 40);
    let (taken, left) = Staking::slash(&mut m, ALICE, 120);
    assert_eq!((taken.peek(), left), (100, 20));
    assert_eq!(Staking::free_balance(&m, ALICE), 0);
    assert_eq!(Staking::reserved_balance(&m, ALICE), 0);
    m.settle_negative(taken);
    assert_eq!(Staking::total_issuance(&m), 100);
    assert_eq!(Staking::unreserve(&mut m, ALICE, 5), 5);
}

#[test]
fn currency_slash_reserved_and_repatriate() {
    let mut m = ledger();
    assert_eq!(Staking::reserve(&mut m, BOB, 50), Ok(()));
    let (taken, left) = Staking::slash_reserved(&mut m, BOB, 20);
    assert_eq!((taken.peek(), left), (20, 0));
    m.settle_negative(taken);
    assert_eq!(Staking::repatriate_reserved(&mut m, BOB, ALICE, 40), Ok(10));
    assert_eq!(Staking::free_balance(&m, ALICE), 130);
    assert_eq!(Staking::reserved_balance(&m, BOB), 0);
    assert_eq!(Staking::total_issuance(&m), 180);
    assert_eq!(Staking::minimum_balance(), 0);
}

#[test]
fn reward_provider_reserves_in_its_own_asset() {
    let mut m = ledger();
    assert_eq!(Reward::reserve(&mut m, ALICE, 30), Ok(()));
    assert_eq!(m.reserved_balance(STAKING, ALICE), 30);
    assert_eq!(m.reserved_balance(SPENDING, ALICE), 0);
    assert_eq!(Reward::unreserve(&mut m, ALICE, 30), 0);
    assert_eq!(m.free_balance(STAKING, ALICE), 100);
    assert_eq!(m.reserved_balance(STAKING, ALICE), 0);
    assert_eq!(Reward::transfer(&mut m, ALICE, BOB, 10), Ok(()));
    assert_eq!(m.free_balance(STAKING, BOB), 110);
    assert_eq!(Reward::ensure_can_withdraw(&m, ALICE, 0, WithdrawReason::Transfer, 0), Ok(()));
}

#[test]
fn can_reserve_agrees_with_reserve() {
    let mut m = ledger();
    m.set_lock([4; 8], ALICE, 80, 50, WithdrawReasons::from_reason(WithdrawReason::Reserve));
    assert!(Staking::can_reserve(&m, ALICE, 20));
    assert!(!Staking::can_reserve(&m, ALICE, 21));
    assert_eq!(Staking::reserve(&mut m, ALICE, 21), Err(Error::LiquidityRestricted));
    assert!(!Staking::can_reserve(&m, BOB, 101));
    assert_eq!(Staking::reserve(&mut m, BOB, 101), Err(Error::InsufficientFreeFunds));
    assert!(Spending::can_reserve(&m, ALICE, 100));
    assert_eq!(Spending::reserve(&mut m, ALICE, 100), Ok(()));
}

#[test]
fn withdraw_succeeds_where_balance_and_locks_allow() {
    let mut m = ledger();
    m.set_lock([4; 8], ALICE, 50, 50, WithdrawReasons::from_reason(WithdrawReason::Fee));
    assert_eq!(
        Staking::withdraw(&mut m, ALICE, 51, WithdrawReason::Fee).map(|n| n.peek()),
        Err(Error::LiquidityRestricted)
    );
    let taken = Staking::withdraw(&mut m, ALICE, 50, WithdrawReason::Fee).ok().unwrap();
    assert_eq!(taken.peek(), 50);
    m.settle_negative(taken);
    let other = Staking::withdraw(&mut m, BOB, 100, WithdrawReason::Transfer).ok().unwrap();
    m.settle_negative(other);
    assert_eq!(Staking::total_issuance(&m), 50);
}
