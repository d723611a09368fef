use vstd::prelude::*;

use crate::types::{AccountId, AssetId, Balance};

verus! {

/// One account's holdings of one asset.
#[derive(Clone, Copy, Debug, PartialEq, Eq, Structural)]
pub struct AccountBalance {
    pub asset_id: AssetId,
    pub who: AccountId,
    pub free: Balance,
    pub reserved: Balance,
}

pub open spec fn is_entry_of(e: AccountBalance, a: AssetId, w: AccountId) -> bool {
    e.asset_id == a && e.who == w
}

/// No two entries of the table are for the same asset and account.
pub open spec fn keys_unique(s: Seq<AccountBalance>) -> bool {
    forall|i: int, j: int|
        0 <= i < s.len() && 0 <= j < s.len() && i != j ==> !is_entry_of(
            #[trigger] s[i],
            s[j].asset_id,
            #[trigger] s[j].who,
        )
}

/// Index of the entry for asset `a` and account `w`, or -1 where there is none.
pub open spec fn find(s: Seq<AccountBalance>, a: AssetId, w: AccountId) -> int
    decreases s.len(),
{
    if s.len() == 0 {
        -1
    } else if is_entry_of(s.last(), a, w) {
        s.len() - 1
    } else {
        find(s.drop_last(), a, w)
    }
}

/// The free and reserved balance of account `w` in asset `a`; both zero where
/// the table has no entry.
pub open spec fn account_in(s: Seq<AccountBalance>, a: AssetId, w: AccountId) -> (Balance, Balance) {
    let i = find(s, a, w);
    if i >= 0 {
        (s[i].free, s[i].reserved)
    } else {
        (0, 0)
    }
}

/// What an entry holds of asset `a`.
pub open spec fn holding(e: AccountBalance, a: AssetId) -> int {
    if e.asset_id == a {
        e.free + e.reserved
    } else {
        0
    }
}

/// The sum, over the entries, of free plus reserved balance in asset `a`.
pub open spec fn total_in(s: Seq<AccountBalance>, a: AssetId) -> int
    decreases s.len(),
{
    if s.len() == 0 {
        0
    } else {
        total_in(s.drop_last(), a) + holding(s.last(), a)
    }
}

pub proof fn lemma_find(s: Seq<AccountBalance>, a: AssetId, w: AccountId)
    ensures
        -1 <= find(s, a, w) < s.len(),
        find(s, a, w) >= 0 ==> is_entry_of(s[find(s, a, w)], a, w),
        find(s, a, w) == -1 ==> forall|i: int| 0 <= i < s.len() ==> !is_entry_of(#[trigger] s[i], a, w),
        keys_unique(s) ==> forall|i: int|
            0 <= i < s.len() && is_entry_of(#[trigger] s[i], a, w) ==> find(s, a, w) == i,
    decreases s.len(),
{
    if s.len() > 0 {
        let t = s.drop_last();
        lemma_find(t, a, w);
        assert forall|i: int| 0 <= i < t.len() implies t[i] == s[i] by {}
        if keys_unique(s) {
            assert(keys_unique(t)) by {
                assert forall|i: int, j: int|
                    0 <= i < t.len() && 0 <= j < t.len() && i != j implies !is_entry_of(
                    #[trigger] t[i],
                    t[j].asset_id,
                    #[trigger] t[j].who,
                ) by {
                    assert(s[i] == t[i] && s[j] == t[j]);
                }
            }
            assert forall|i: int| 0 <= i < s.len() && is_entry_of(#[trigger] s[i], a, w) implies find(s, a, w) == i by {
                if i < s.len() - 1 {
                    assert(s[i] == t[i]);
                    if is_entry_of(s.last(), a, w) {
                        assert(s[s.len() - 1] == s.last());
                        assert(!is_entry_of(s[i], s[s.len() - 1].asset_id, s[s.len() - 1].who));
                    }
                }
            }
        }
    }
}

pub proof fn lemma_total_nonneg(s: Seq<AccountBalance>, a: AssetId)
    ensures
        total_in(s, a) >= 0,
    decreases s.len(),
{
    if s.len() > 0 {
        lemma_total_nonneg(s.drop_last(), a);
    }
}

/// Rewriting one entry without changing its key moves no entry's index.
pub proof fn lemma_find_update(s: Seq<AccountBalance>, i: int, e: AccountBalance, a: AssetId, w: AccountId)
    requires
        0 <= i < s.len(),
        e.asset_id == s[i].asset_id,
        e.who == s[i].who,
    ensures
        find(s.update(i, e), a, w) == find(s, a, w),
    decreases s.len(),
{
    let u = s.update(i, e);
    if i < s.len() - 1 {
        assert(u.drop_last() =~= s.drop_last().update(i, e));
        lemma_find_update(s.drop_last(), i, e, a, w);
    } else {
        assert(u.drop_last() =~= s.drop_last());
    }
}

/// Rewriting one entry changes the total of its asset by the difference.
pub proof fn lemma_total_update(s: Seq<AccountBalance>, i: int, e: AccountBalance, a: AssetId)
    requires
        0 <= i < s.len(),
    ensures
        total_in(s.update(i, e), a) == total_in(s, a) - holding(s[i], a) + holding(e, a),
    decreases s.len(),
{
    let u = s.update(i, e);
    if i < s.len() - 1 {
        assert(u.drop_last() =~= s.drop_last().update(i, e));
        lemma_total_update(s.drop_last(), i, e, a);
    } else {
        assert(u.drop_last() =~= s.drop_last());
    }
}

/// Each entry holds at most the total of its asset; two distinct entries
/// together hold at most that total.
pub proof fn lemma_holding_bound(s: Seq<AccountBalance>, i: int, j: int, a: AssetId)
    requires
        0 <= i < s.len(),
        0 <= j < s.len(),
    ensures
        holding(s[i], a) <= total_in(s, a),
        i != j ==> holding(s[i], a) + holding(s[j], a) <= total_in(s, a),
    decreases s.len(),
{
    let t = s.drop_last();
    let n = s.len() - 1;
    lemma_total_nonneg(t, a);
    if i < n {
        lemma_holding_bound(t, i, if j < n { j } else { i }, a);
        assert(s[i] == t[i]);
        if j < n {
            assert(s[j] == t[j]);
        }
    } else if j < n {
        lemma_holding_bound(t, j, j, a);
        assert(s[j] == t[j]);
    }
}

/// What one account holds of an asset is bounded by the asset's total, and so is
/// what two distinct accounts hold together.
pub proof fn lemma_account_bound(s: Seq<AccountBalance>, a: AssetId, w1: AccountId, w2: AccountId)
    ensures
        account_in(s, a, w1).0 + account_in(s, a, w1).1 <= total_in(s, a),
        w1 != w2 ==> account_in(s, a, w1).0 + account_in(s, a, w1).1 + account_in(s, a, w2).0
            + account_in(s, a, w2).1 <= total_in(s, a),
{
    lemma_find(s, a, w1);
    lemma_find(s, a, w2);
    lemma_total_nonneg(s, a);
    let i = find(s, a, w1);
    let j = find(s, a, w2);
    if i >= 0 {
        lemma_holding_bound(s, i, if j >= 0 { j } else { i }, a);
    }
    if j >= 0 {
        lemma_holding_bound(s, j, j, a);
    }
}

/// The index of the entry for `a` and `w`, where there is one.
pub fn position(v: &Vec<AccountBalance>, a: AssetId, w: AccountId) -> (r: Option<usize>)
    requires
        keys_unique(v@),
    ensures
        match r {
            Some(i) => i < v.len() && i == find(v@, a, w),
            None => find(v@, a, w) == -1,
        },
{
    proof {
        lemma_find(v@, a, w);
    }
    let mut i: usize = 0;
    while i < v.len()
        invariant
            i <= v.len(),
            keys_unique(v@),
            forall|j: int| 0 <= j < i ==> !is_entry_of(#[trigger] v@[j], a, w),
        decreases v.len() - i,
    {
        if v[i].asset_id == a && v[i].who == w {
            proof {
                lemma_find(v@, a, w);
                assert(is_entry_of(v@[i as int], a, w));
            }
            return Some(i);
        }
        i = i + 1;
    }
    None
}

} // verus!
