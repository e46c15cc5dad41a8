//! Stable ranking by descending integer keys, the order that sorting a list
//! by a key from largest to smallest leaves.
use vstd::prelude::*;

verus! {

/// Item `a` ranks before item `b`: a larger key first, equal keys in the
/// order given (what a stable sort by descending key yields).
pub open spec fn key_before(keys: Seq<u64>, a: int, b: int) -> bool {
    keys[a] > keys[b] || (keys[a] == keys[b] && a < b)
}

/// `order` holds items (by index) in ranking order.
pub open spec fn ranked_desc(keys: Seq<u64>, order: Seq<usize>) -> bool {
    &&& forall|i: int| 0 <= i < order.len() ==> #[trigger] order[i] < keys.len()
    &&& forall|i: int, j: int|
        0 <= i < j < order.len() ==> key_before(keys, #[trigger] order[i] as int, #[trigger] order[j] as int)
}

/// Index `k` occurs in `order`.
pub open spec fn listed_index(order: Seq<usize>, k: int) -> bool {
    exists|j: int| 0 <= j < order.len() && order[j] == k
}

/// The items ranked by key, largest first (equal keys in the order given),
/// cut to the first `limit`: the indices of the top items, and every item
/// left out ranks after all that are listed.
pub fn rank_desc(keys: &[u64], limit: usize) -> (r: Vec<usize>)
    ensures
        r@.len() == if limit < keys@.len() {
            limit as int
        } else {
            keys@.len() as int
        },
        ranked_desc(keys@, r@),
        forall|k: int|
            0 <= k < keys@.len() && !listed_index(r@, k) ==> forall|i: int|
                0 <= i < r@.len() ==> key_before(keys@, #[trigger] r@[i] as int, k),
{
    let ghost ks = keys@;
    let n = keys.len();
    let mut order: Vec<usize> = Vec::new();
    let mut i: usize = 0;
    while i < n
        invariant
            0 <= i <= n,
            n == ks.len(),
            ks == keys@,
            order@.len() == i,
            forall|j: int| 0 <= j < order@.len() ==> #[trigger] order@[j] < i,
            forall|k: int| 0 <= k < i ==> listed_index(order@, k),
            ranked_desc(ks, order@),
        decreases n - i,
    {
        let m = keys[i];
        let mut p: usize = 0;
        while p < order.len() && keys[order[p]] >= m
            invariant
                0 <= p <= order@.len(),
                order@.len() == i,
                i < n,
                n == ks.len(),
                ks == keys@,
                m == ks[i as int],
                forall|j: int| 0 <= j < order@.len() ==> #[trigger] order@[j] < i,
                forall|j: int| 0 <= j < p ==> ks[#[trigger] order@[j] as int] >= m,
            decreases order@.len() - p,
        {
            p = p + 1;
        }
        let ghost old_order = order@;
        proof {
            assert forall|j: int| p <= j < old_order.len() implies ks[#[trigger] old_order[j] as int] < m by {
                if j > p {
                    assert(key_before(ks, old_order[p as int] as int, old_order[j] as int));
                }
            }
        }
        order.insert(p, i);
        proof {
            let no = order@;
            assert(no == old_order.insert(p as int, i));
            assert forall|j: int| 0 <= j < no.len() implies #[trigger] no[j] < i + 1 by {
                if j < p {
                    assert(no[j] == old_order[j]);
                } else if j > p {
                    assert(no[j] == old_order[j - 1]);
                }
            }
            assert forall|k: int| 0 <= k < i + 1 implies listed_index(no, k) by {
                if k == i {
                    assert(no[p as int] == i);
                } else {
                    assert(listed_index(old_order, k));
                    let j = choose|j: int| 0 <= j < old_order.len() && old_order[j] == k;
                    if j < p {
                        assert(no[j] == k);
                    } else {
                        assert(no[j + 1] == k);
                    }
                }
            }
            assert forall|j: int| 0 <= j < no.len() implies #[trigger] no[j] < ks.len() by {
                assert(no[j] < i + 1);
            }
            assert forall|a: int, b: int| 0 <= a < b < no.len() implies key_before(
                ks,
                #[trigger] no[a] as int,
                #[trigger] no[b] as int,
            ) by {
                if b < p {
                    assert(no[a] == old_order[a] && no[b] == old_order[b]);
                    assert(key_before(ks, old_order[a] as int, old_order[b] as int));
                } else if b == p {
                    assert(no[a] == old_order[a]);
                    assert(old_order[a] < i);
                } else if a < p {
                    assert(no[a] == old_order[a] && no[b] == old_order[b - 1]);
                    assert(key_before(ks, old_order[a] as int, old_order[b - 1] as int));
                } else if a == p {
                    assert(no[b] == old_order[b - 1]);
                } else {
                    assert(no[a] == old_order[a - 1] && no[b] == old_order[b - 1]);
                    assert(key_before(ks, old_order[a - 1] as int, old_order[b - 1] as int));
                }
            }
        }
        i = i + 1;
    }
    let ghost full = order@;
    let cut = if limit < n {
        limit
    } else {
        n
    };
    order.truncate(cut);
    proof {
        let r = order@;
        assert(r == full.subrange(0, cut as int));
        assert forall|j: int| 0 <= j < r.len() implies #[trigger] r[j] < ks.len() by {
            assert(r[j] == full[j]);
        }
        assert forall|a: int, b: int| 0 <= a < b < r.len() implies key_before(
            ks,
            #[trigger] r[a] as int,
            #[trigger] r[b] as int,
        ) by {
            assert(r[a] == full[a] && r[b] == full[b]);
        }
        assert forall|k: int| 0 <= k < ks.len() && !listed_index(r, k) implies forall|i2: int|
            0 <= i2 < r.len() ==> key_before(ks, #[trigger] r[i2] as int, k) by {
            assert(listed_index(full, k));
            let j = choose|j: int| 0 <= j < full.len() && full[j] == k;
            if j < cut {
                assert(r[j] == k);
            }
            assert forall|i2: int| 0 <= i2 < r.len() implies key_before(ks, #[trigger] r[i2] as int, k) by {
                assert(r[i2] == full[i2]);
                assert(key_before(ks, full[i2] as int, full[j] as int));
            }
        }
    }
    order
}

} // verus!
