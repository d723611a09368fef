use vstd::prelude::*;

use crate::currency::AssetIdProvider;
use crate::module::Module;
use crate::types::{AccountId, AssetId, Balance, Error, Owner, PermissionType};

verus! {

/// Where nobody holds the mint permission of an asset, nobody can mint it:
/// not its creator, not anyone, whatever the amount. `mint` then fails with
/// `PermissionDenied` and changes nothing.
pub proof fn lemma_no_creator_superuser(ledger: Module, asset: AssetId, origin: AccountId, to: AccountId, amount: Balance)
    requires
        ledger.permission_of(asset).mint == Owner::Nobody,
    ensures
        ledger.mint_outcome(origin, asset, to, amount) == Err::<(), Error>(Error::PermissionDenied),
        !ledger.permission_of(asset).allows(origin, PermissionType::Mint),
{
}

/// A transfer with fee whose amount plus fee exceeds the sender's free balance
/// fails with `InsufficientBalance` (and, by the contract of
/// `make_transfer_with_fee`, changes nothing).
pub proof fn lemma_fee_transfer_needs_funds(
    ledger: Module,
    asset: AssetId,
    from: AccountId,
    to: AccountId,
    amount: Balance,
)
    requires
        amount != 0,
        amount + ledger.spec_transfer_fee() <= Balance::MAX,
        ledger.free_of(asset, from) < amount + ledger.spec_transfer_fee(),
    ensures
        ledger.fee_transfer_outcome(asset, from, to, amount) == Err::<(), Error>(Error::InsufficientBalance),
{
}

/// The sum of a sequence of amounts.
pub open spec fn sum_amounts(amounts: Seq<Balance>) -> int
    decreases amounts.len(),
{
    if amounts.len() == 0 {
        0
    } else {
        sum_amounts(amounts.drop_last()) + amounts.last()
    }
}

/// After the reserves `amounts[0..k]`, made one after another from `states[0]`,
/// `who` has that much less free and that much more reserved balance in
/// `asset`, and every other balance is as it was.
pub proof fn lemma_reserves_accumulate(
    states: Seq<Module>,
    amounts: Seq<Balance>,
    asset: AssetId,
    who: AccountId,
    k: int,
)
    requires
        states.len() == amounts.len() + 1,
        forall|i: int|
            0 <= i < amounts.len() ==> #[trigger] states[i + 1].is_reserve_of(states[i], asset, who, amounts[i]),
        0 <= k <= amounts.len(),
    ensures
        states[k].free_of(asset, who) == states[0].free_of(asset, who) - sum_amounts(amounts.take(k)),
        states[k].reserved_of(asset, who) == states[0].reserved_of(asset, who) + sum_amounts(amounts.take(k)),
        states[k].accounts_agree_except(states[0], asset, who, who),
    decreases k,
{
    if k > 0 {
        lemma_reserves_accumulate(states, amounts, asset, who, k - 1);
        assert(states[(k - 1) + 1].is_reserve_of(states[k - 1], asset, who, amounts[k - 1]));
        assert(amounts.take(k).drop_last() =~= amounts.take(k - 1));
    } else {
        assert(amounts.take(0) =~= Seq::<Balance>::empty());
    }
}

/// Reserving amounts one after another and then unreserving their sum leaves
/// every free and reserved balance as it was before the reserves. Where
/// nothing was reserved before, unreserving any larger amount does too.
pub proof fn lemma_reserve_unreserve_round_trip(
    states: Seq<Module>,
    amounts: Seq<Balance>,
    last: Module,
    asset: AssetId,
    who: AccountId,
    total: Balance,
)
    requires
        states.len() == amounts.len() + 1,
        forall|i: int|
            0 <= i < amounts.len() ==> #[trigger] states[i + 1].is_reserve_of(states[i], asset, who, amounts[i]),
        total == sum_amounts(amounts) || (total >= sum_amounts(amounts) && states[0].reserved_of(asset, who)
            == 0),
        last.is_unreserve_of(states.last(), asset, who, total),
    ensures
        last.free_of(asset, who) == states[0].free_of(asset, who),
        last.reserved_of(asset, who) == states[0].reserved_of(asset, who),
        forall|a: AssetId, w: AccountId| #[trigger] last.account(a, w) == states[0].account(a, w),
{
    let n = amounts.len() as int;
    lemma_reserves_accumulate(states, amounts, asset, who, n);
    assert(amounts.take(n) =~= amounts);
    assert(states.last() == states[n]);
    assert forall|a: AssetId, w: AccountId| #[trigger] last.account(a, w) == states[0].account(a, w) by {
        if a != asset || w != who {
            assert(last.account(a, w) == states[n].account(a, w));
            assert(states[n].account(a, w) == states[0].account(a, w));
        }
    }
}

/// The same round trip through a currency façade: reserves and a covering
/// unreserve, each on the asset that `P` picks, restore every balance.
pub proof fn lemma_currency_round_trip<P: AssetIdProvider>(
    states: Seq<Module>,
    amounts: Seq<Balance>,
    last: Module,
    who: AccountId,
    total: Balance,
)
    requires
        states.len() == amounts.len() + 1,
        forall|i: int|
            0 <= i < amounts.len() ==> #[trigger] states[i + 1].is_reserve_of(
                states[i],
                P::spec_asset_id(states[i]),
                who,
                amounts[i],
            ),
        total == sum_amounts(amounts) || (total >= sum_amounts(amounts) && states[0].reserved_of(
            P::spec_asset_id(states[0]),
            who,
        ) == 0),
        last.is_unreserve_of(states.last(), P::spec_asset_id(states.last()), who, total),
    ensures
        forall|a: AssetId, w: AccountId| #[trigger] last.account(a, w) == states[0].account(a, w),
{
    let asset = P::spec_asset_id(states[0]);
    assert forall|i: int| 0 <= i < states.len() implies P::spec_asset_id(#[trigger] states[i]) == asset by {
        lemma_same_asset_along::<P>(states, amounts, who, i);
    }
    assert forall|i: int| 0 <= i < amounts.len() implies #[trigger] states[i + 1].is_reserve_of(
        states[i],
        asset,
        who,
        amounts[i],
    ) by {
        assert(P::spec_asset_id(states[i]) == asset);
    }
    assert(P::spec_asset_id(states[states.len() - 1]) == asset);
    lemma_reserve_unreserve_round_trip(states, amounts, last, asset, who, total);
}

proof fn lemma_same_asset_along<P: AssetIdProvider>(states: Seq<Module>, amounts: Seq<Balance>, who: AccountId, k: int)
    requires
        states.len() == amounts.len() + 1,
        forall|i: int|
            0 <= i < amounts.len() ==> #[trigger] states[i + 1].is_reserve_of(
                states[i],
                P::spec_asset_id(states[i]),
                who,
                amounts[i],
            ),
        0 <= k < states.len(),
    ensures
        P::spec_asset_id(states[k]) == P::spec_asset_id(states[0]),
    decreases k,
{
    if k > 0 {
        lemma_same_asset_along::<P>(states, amounts, who, k - 1);
        assert(states[(k - 1) + 1].is_reserve_of(states[k - 1], P::spec_asset_id(states[k - 1]), who, amounts[k - 1]));
        P::lemma_follows_settings(states[k], states[k - 1]);
    }
}

} // verus!
