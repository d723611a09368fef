use vstd::prelude::*;

use crate::types::{Balance, BalanceLock, BlockNumber, LockIdentifier, WithdrawReason};

verus! {

/// The lock that takes the place of `l` when a lock with its id is set
/// (`extend` false: `new` itself) or extended (`extend` true: the larger amount,
/// the later block, and the reasons of both).
pub open spec fn replacement(l: BalanceLock, new: BalanceLock, extend: bool) -> BalanceLock {
    if extend {
        BalanceLock {
            id: l.id,
            amount: if l.amount >= new.amount {
                l.amount
            } else {
                new.amount
            },
            until: if l.until >= new.until {
                l.until
            } else {
                new.until
            },
            reasons: crate::types::WithdrawReasons { bits: l.reasons.bits | new.reasons.bits },
        }
    } else {
        new
    }
}

/// The first `n` locks of `s` rewritten for `new` at block `now`: the first lock
/// with `new`'s id gives way to its replacement, later ones with that id go,
/// other locks stay while `now` is before their `until`. The flag tells whether
/// a lock with `new`'s id was met.
pub open spec fn rewrite_prefix(
    s: Seq<BalanceLock>,
    n: nat,
    new: BalanceLock,
    now: BlockNumber,
    extend: bool,
) -> (Seq<BalanceLock>, bool)
    decreases n,
{
    if n == 0 {
        (Seq::empty(), false)
    } else {
        let (acc, met) = rewrite_prefix(s, (n - 1) as nat, new, now, extend);
        let l = s[n - 1];
        if l.id@ == new.id@ {
            if met {
                (acc, true)
            } else {
                (acc.push(replacement(l, new, extend)), true)
            }
        } else if l.until > now {
            (acc.push(l), met)
        } else {
            (acc, met)
        }
    }
}

/// The locks after `new` is set (or, with `extend`, merged into one with its id)
/// at block `now`: expired locks of other ids are dropped, and `new` goes last
/// where no lock had its id.
pub open spec fn rewritten(s: Seq<BalanceLock>, new: BalanceLock, now: BlockNumber, extend: bool) -> Seq<BalanceLock> {
    let (acc, met) = rewrite_prefix(s, s.len(), new, now, extend);
    if met {
        acc
    } else {
        acc.push(new)
    }
}

/// The first `n` locks of `s` without those with id `id` and those expired at `now`.
pub open spec fn removed_prefix(s: Seq<BalanceLock>, n: nat, id: LockIdentifier, now: BlockNumber) -> Seq<BalanceLock>
    decreases n,
{
    if n == 0 {
        Seq::empty()
    } else {
        let acc = removed_prefix(s, (n - 1) as nat, id, now);
        let l = s[n - 1];
        if l.until > now && l.id@ != id@ {
            acc.push(l)
        } else {
            acc
        }
    }
}

/// Whether no lock in `s` forbids leaving `new_balance` behind for `reason` at
/// block `now`: each lock has expired, or is covered by the new balance, or does
/// not name the reason.
pub open spec fn permits(s: Seq<BalanceLock>, now: BlockNumber, reason: WithdrawReason, new_balance: Balance) -> bool {
    forall|i: int|
        0 <= i < s.len() ==> now >= (#[trigger] s[i]).until || new_balance >= s[i].amount
            || !s[i].reasons.spec_contains(reason)
}

/// No two locks in `s` have the same id.
pub open spec fn ids_unique(s: Seq<BalanceLock>) -> bool {
    forall|i: int, j: int|
        0 <= i < s.len() && 0 <= j < s.len() && i != j ==> (#[trigger] s[i]).id@ != (#[trigger] s[j]).id@
}

proof fn lemma_rewrite_prefix_ids(s: Seq<BalanceLock>, n: nat, new: BalanceLock, now: BlockNumber, extend: bool)
    requires
        ids_unique(s),
        n <= s.len(),
    ensures
        ({
            let (acc, met) = rewrite_prefix(s, n, new, now, extend);
            &&& ids_unique(acc)
            &&& met <==> exists|i: int| 0 <= i < acc.len() && (#[trigger] acc[i]).id@ == new.id@
            &&& forall|i: int|
                0 <= i < acc.len() ==> (#[trigger] acc[i]).id@ == new.id@ || exists|k: int|
                    0 <= k < n && s[k] == acc[i]
        }),
    decreases n,
{
    if n > 0 {
        lemma_rewrite_prefix_ids(s, (n - 1) as nat, new, now, extend);
        let (acc, met) = rewrite_prefix(s, (n - 1) as nat, new, now, extend);
        let l = s[n - 1];
        let (acc2, met2) = rewrite_prefix(s, n, new, now, extend);
        if l.id@ == new.id@ {
            if !met {
                let r = replacement(l, new, extend);
                assert(acc2 == acc.push(r));
                assert(r.id@ == new.id@);
                assert forall|i: int| 0 <= i < acc2.len() implies (#[trigger] acc2[i]).id@ == new.id@ || exists|k: int| 0 <= k < n && s[k] == acc2[i] by {
                    if i < acc.len() {
                        assert(acc2[i] == acc[i]);
                        if acc[i].id@ != new.id@ {
                            let k = choose|k: int| 0 <= k < n - 1 && s[k] == acc[i];
                            assert(0 <= k < n && s[k] == acc2[i]);
                        }
                    }
                }
                assert(acc2[acc.len() as int] == r);
            }
        } else if l.until > now {
            assert(acc2 == acc.push(l));
            assert(ids_unique(acc2)) by {
                assert forall|i: int, j: int| 0 <= i < acc2.len() && 0 <= j < acc2.len() && i != j implies (#[trigger] acc2[i]).id@ != (#[trigger] acc2[j]).id@ by {
                    if i < acc.len() && j == acc.len() {
                        assert(acc2[i] == acc[i]);
                        if acc[i].id@ != new.id@ {
                            let k = choose|k: int| 0 <= k < n - 1 && s[k] == acc[i];
                            assert(s[k].id@ != s[n - 1].id@);
                        }
                    } else if j < acc.len() && i == acc.len() {
                        assert(acc2[j] == acc[j]);
                        if acc[j].id@ != new.id@ {
                            let k = choose|k: int| 0 <= k < n - 1 && s[k] == acc[j];
                            assert(s[k].id@ != s[n - 1].id@);
                        }
                    } else if i < acc.len() && j < acc.len() {
                        assert(acc2[i] == acc[i] && acc2[j] == acc[j]);
                    }
                }
            }
            assert forall|i: int| 0 <= i < acc2.len() implies (#[trigger] acc2[i]).id@ == new.id@ || exists|k: int| 0 <= k < n && s[k] == acc2[i] by {
                if i < acc.len() {
                    assert(acc2[i] == acc[i]);
                    if acc[i].id@ != new.id@ {
                        let k = choose|k: int| 0 <= k < n - 1 && s[k] == acc[i];
                        assert(0 <= k < n && s[k] == acc2[i]);
                    }
                } else {
                    assert(s[n - 1] == acc2[i]);
                }
            }
            if met2 {
                let i = choose|i: int| 0 <= i < acc.len() && (#[trigger] acc[i]).id@ == new.id@;
                assert(acc2[i] == acc[i]);
            }
            if exists|i: int| 0 <= i < acc2.len() && (#[trigger] acc2[i]).id@ == new.id@ {
                let i = choose|i: int| 0 <= i < acc2.len() && (#[trigger] acc2[i]).id@ == new.id@;
                assert(i < acc.len());
                assert(acc2[i] == acc[i]);
            }
        } else {
            assert forall|i: int| 0 <= i < acc2.len() implies (#[trigger] acc2[i]).id@ == new.id@ || exists|k: int| 0 <= k < n && s[k] == acc2[i] by {
                if acc[i].id@ != new.id@ {
                    let k = choose|k: int| 0 <= k < n - 1 && s[k] == acc[i];
                    assert(0 <= k < n && s[k] == acc2[i]);
                }
            }
        }
    }
}

/// Setting or extending a lock keeps lock ids unique: the list holds exactly
/// one lock with the new id.
pub proof fn lemma_rewritten_ids_unique(s: Seq<BalanceLock>, new: BalanceLock, now: BlockNumber, extend: bool)
    requires
        ids_unique(s),
    ensures
        ids_unique(rewritten(s, new, now, extend)),
        exists|i: int|
            0 <= i < rewritten(s, new, now, extend).len() && (#[trigger] rewritten(s, new, now, extend)[i]).id@
                == new.id@,
{
    lemma_rewrite_prefix_ids(s, s.len(), new, now, extend);
    let (acc, met) = rewrite_prefix(s, s.len(), new, now, extend);
    if !met {
        let r = acc.push(new);
        assert(r[acc.len() as int] == new);
        assert forall|i: int, j: int| 0 <= i < r.len() && 0 <= j < r.len() && i != j implies (#[trigger] r[i]).id@ != (#[trigger] r[j]).id@ by {
            if i < acc.len() && j < acc.len() {
                assert(r[i] == acc[i] && r[j] == acc[j]);
            } else if i < acc.len() {
                assert(r[i] == acc[i]);
            } else {
                assert(r[j] == acc[j]);
            }
        }
        assert(rewritten(s, new, now, extend)[acc.len() as int].id@ == new.id@);
    } else {
        let i = choose|i: int| 0 <= i < acc.len() && (#[trigger] acc[i]).id@ == new.id@;
        assert(rewritten(s, new, now, extend)[i].id@ == new.id@);
    }
}

proof fn lemma_removed_prefix_from(s: Seq<BalanceLock>, n: nat, id: LockIdentifier, now: BlockNumber)
    requires
        n <= s.len(),
    ensures
        ({
            let acc = removed_prefix(s, n, id, now);
            forall|i: int| 0 <= i < acc.len() ==> exists|k: int| 0 <= k < n && s[k] == #[trigger] acc[i]
        }),
        forall|i: int, j: int|
            0 <= i < j < removed_prefix(s, n, id, now).len() ==> exists|k1: int, k2: int|
                0 <= k1 < k2 < n && s[k1] == #[trigger] removed_prefix(s, n, id, now)[i] && s[k2]
                    == #[trigger] removed_prefix(s, n, id, now)[j],
    decreases n,
{
    if n > 0 {
        lemma_removed_prefix_from(s, (n - 1) as nat, id, now);
        let acc = removed_prefix(s, (n - 1) as nat, id, now);
        let acc2 = removed_prefix(s, n, id, now);
        let l = s[n - 1];
        if l.until > now && l.id@ != id@ {
            assert(acc2 == acc.push(l));
            assert forall|i: int| 0 <= i < acc2.len() implies exists|k: int| 0 <= k < n && s[k] == #[trigger] acc2[i] by {
                if i < acc.len() {
                    assert(acc2[i] == acc[i]);
                    let k = choose|k: int| 0 <= k < n - 1 && s[k] == acc[i];
                    assert(0 <= k < n && s[k] == acc2[i]);
                } else {
                    assert(s[n - 1] == acc2[i]);
                }
            }
            assert forall|i: int, j: int| 0 <= i < j < acc2.len() implies exists|k1: int, k2: int|
                0 <= k1 < k2 < n && s[k1] == #[trigger] acc2[i] && s[k2] == #[trigger] acc2[j] by {
                assert(acc2[i] == acc[i]);
                if j < acc.len() {
                    assert(acc2[j] == acc[j]);
                    let (k1, k2) = choose|k1: int, k2: int| 0 <= k1 < k2 < n - 1 && s[k1] == acc[i] && s[k2] == acc[j];
                    assert(0 <= k1 < k2 < n && s[k1] == acc2[i] && s[k2] == acc2[j]);
                } else {
                    let k1 = choose|k: int| 0 <= k < n - 1 && s[k] == acc[i];
                    assert(0 <= k1 < n - 1 < n && s[k1] == acc2[i] && s[n - 1] == acc2[j]);
                }
            }
        }
    }
}

/// Removing a lock keeps lock ids unique, and leaves no lock with that id.
pub proof fn lemma_removed_ids_unique(s: Seq<BalanceLock>, id: LockIdentifier, now: BlockNumber)
    requires
        ids_unique(s),
    ensures
        ids_unique(removed_prefix(s, s.len(), id, now)),
{
    lemma_removed_prefix_from(s, s.len(), id, now);
    let r = removed_prefix(s, s.len(), id, now);
    assert forall|i: int, j: int| 0 <= i < r.len() && 0 <= j < r.len() && i != j implies (#[trigger] r[i]).id@ != (#[trigger] r[j]).id@ by {
        if i < j {
            let (k1, k2) = choose|k1: int, k2: int| 0 <= k1 < k2 < s.len() && s[k1] == r[i] && s[k2] == r[j];
            assert(s[k1].id@ != s[k2].id@);
        } else {
            let (k1, k2) = choose|k1: int, k2: int| 0 <= k1 < k2 < s.len() && s[k1] == r[j] && s[k2] == r[i];
            assert(s[k1].id@ != s[k2].id@);
        }
    }
}

/// Whether two lock ids are the same bytes.
pub fn ids_equal(a: &LockIdentifier, b: &LockIdentifier) -> (r: bool)
    ensures
        r == (a@ == b@),
{
    let mut i: usize = 0;
    while i < 8
        invariant
            i <= 8,
            a@.len() == 8,
            b@.len() == 8,
            forall|j: int| 0 <= j < i ==> a@[j] == b@[j],
        decreases 8 - i,
    {
        if a[i] != b[i] {
            return false;
        }
        i = i + 1;
    }
    assert(a@ =~= b@);
    true
}

/// The lock list `s` with `new` set, or with `extend`, merged in.
pub fn rewrite_locks(s: &Vec<BalanceLock>, new: BalanceLock, now: BlockNumber, extend: bool) -> (r: Vec<BalanceLock>)
    ensures
        r@ == rewritten(s@, new, now, extend),
{
    let mut out: Vec<BalanceLock> = Vec::new();
    let mut met = false;
    let mut i: usize = 0;
    while i < s.len()
        invariant
            i <= s.len(),
            (out@, met) == rewrite_prefix(s@, i as nat, new, now, extend),
        decreases s.len() - i,
    {
        let l = s[i];
        if ids_equal(&l.id, &new.id) {
            if !met {
                if extend {
                    let amount = if l.amount >= new.amount {
                        l.amount
                    } else {
                        new.amount
                    };
                    let until = if l.until >= new.until {
                        l.until
                    } else {
                        new.until
                    };
                    out.push(BalanceLock { id: l.id, amount, until, reasons: l.reasons.union(new.reasons) });
                } else {
                    out.push(new);
                }
                met = true;
            }
        } else if l.until > now {
            out.push(l);
        }
        i = i + 1;
    }
    if !met {
        out.push(new);
    }
    out
}

/// The lock list `s` without the lock with id `id` and without expired locks.
pub fn remove_from_locks(s: &Vec<BalanceLock>, id: LockIdentifier, now: BlockNumber) -> (r: Vec<BalanceLock>)
    ensures
        r@ == removed_prefix(s@, s@.len(), id, now),
{
    let mut out: Vec<BalanceLock> = Vec::new();
    let mut i: usize = 0;
    while i < s.len()
        invariant
            i <= s.len(),
            out@ == removed_prefix(s@, i as nat, id, now),
        decreases s.len() - i,
    {
        let l = s[i];
        if l.until > now && !ids_equal(&l.id, &id) {
            out.push(l);
        }
        i = i + 1;
    }
    out
}

/// Whether the locks in `s` let the free balance fall to `new_balance` for
/// `reason` at block `now`.
pub fn locks_permit(s: &Vec<BalanceLock>, now: BlockNumber, reason: WithdrawReason, new_balance: Balance) -> (r: bool)
    ensures
        r == permits(s@, now, reason, new_balance),
{
    let mut i: usize = 0;
    while i < s.len()
        invariant
            i <= s.len(),
            permits(s@.take(i as int), now, reason, new_balance),
        decreases s.len() - i,
    {
        let l = s[i];
        if !(now >= l.until || new_balance >= l.amount || !l.reasons.contains(reason)) {
            assert(!permits(s@, now, reason, new_balance)) by {
                assert(s@[i as int] == l);
            }
            return false;
        }
        assert forall|j: int| 0 <= j < i + 1 implies #[trigger] s@.take(i + 1)[j] == s@[j] by {}
        i = i + 1;
    }
    assert(s@.take(s.len() as int) =~= s@);
    true
}

} // verus!
