//! Stable ranking by key: the positions of the entries with the largest keys,
//! largest first, entries with equal keys in the order they are given.

use vstd::prelude::*;

verus! {

/// Whether entry `i` ranks before entry `j`: a larger key first, and between
/// equal keys the earlier entry.
pub open spec fn precedes(keys: Seq<i128>, i: int, j: int) -> bool {
    keys[i] > keys[j] || (keys[i] == keys[j] && i < j)
}

/// `r` lists the positions of the `limit` best-ranked entries of `keys` (all
/// of them when there are fewer), in rank order.
pub open spec fn is_top_selection(keys: Seq<i128>, limit: nat, r: Seq<usize>) -> bool {
    &&& r.len() == (if limit < keys.len() { limit } else { keys.len() })
    &&& forall|a: int| 0 <= a < r.len() ==> #[trigger] r[a] < keys.len()
    &&& forall|a: int, b: int|
        0 <= a < b < r.len() ==> precedes(keys, #[trigger] r[a] as int, #[trigger] r[b] as int)
    &&& forall|j: int, a: int|
        #![trigger r[a], keys[j]]
        0 <= j < keys.len() && !r.contains(j as usize) && 0 <= a < r.len() ==> precedes(
            keys,
            r[a] as int,
            j,
        )
}

/// Law of ranking: two top selections of the same keys and limit are the same
/// selection, so a ranking has exactly one possible answer.
pub proof fn lemma_top_selection_unique(keys: Seq<i128>, limit: nat, r1: Seq<usize>, r2: Seq<usize>)
    requires
        is_top_selection(keys, limit, r1),
        is_top_selection(keys, limit, r2),
    ensures
        r1 == r2,
{
    lemma_top_prefix_equal(keys, limit, r1, r2, r1.len() as int);
    assert(r1 =~= r2);
}

/// The first `k` entries of two top selections agree.
proof fn lemma_top_prefix_equal(
    keys: Seq<i128>,
    limit: nat,
    r1: Seq<usize>,
    r2: Seq<usize>,
    k: int,
)
    requires
        is_top_selection(keys, limit, r1),
        is_top_selection(keys, limit, r2),
        0 <= k <= r1.len(),
    ensures
        forall|c: int| 0 <= c < k ==> r1[c] == r2[c],
    decreases k,
{
    if k > 0 {
        let a = k - 1;
        lemma_top_prefix_equal(keys, limit, r1, r2, a);
        let x = r1[a];
        let y = r2[a];
        if x != y {
            lemma_top_entry_first(keys, limit, r1, r2, a);
            lemma_top_entry_first(keys, limit, r2, r1, a);
            assert(precedes(keys, x as int, y as int) || precedes(keys, y as int, x as int));
        }
    }
}

/// When two top selections agree before position `a`, the entry of the first
/// at `a` does not rank before the entry of the second there.
proof fn lemma_top_entry_first(
    keys: Seq<i128>,
    limit: nat,
    r1: Seq<usize>,
    r2: Seq<usize>,
    a: int,
)
    requires
        is_top_selection(keys, limit, r1),
        is_top_selection(keys, limit, r2),
        0 <= a < r1.len(),
        forall|c: int| 0 <= c < a ==> r1[c] == r2[c],
    ensures
        !precedes(keys, r1[a] as int, r2[a] as int),
{
    let x = r1[a];
    let y = r2[a];
    if precedes(keys, x as int, y as int) {
        if r2.contains(x) {
            let b = choose|b: int| 0 <= b < r2.len() && r2[b] == x;
            if b < a {
                assert(r1[b] == x);
                assert(precedes(keys, r1[b] as int, r1[a] as int));
            } else if b > a {
                assert(precedes(keys, r2[a] as int, r2[b] as int));
            }
        } else {
            assert(precedes(keys, r2[a] as int, x as int));
        }
    }
}

/// The positions of all entries of `keys`, in rank order.
fn rank_order(keys: &Vec<i128>) -> (order: Vec<usize>)
    ensures
        order@.len() == keys@.len(),
        forall|a: int| 0 <= a < order@.len() ==> #[trigger] order@[a] < keys@.len(),
        forall|j: int| 0 <= j < keys@.len() ==> #[trigger] order@.contains(j as usize),
        forall|a: int, b: int|
            0 <= a < b < order@.len() ==> precedes(
                keys@,
                #[trigger] order@[a] as int,
                #[trigger] order@[b] as int,
            ),
{
    let n = keys.len();
    let mut order: Vec<usize> = Vec::new();
    let mut i: usize = 0;
    while i < n
        invariant
            n == keys@.len(),
            i <= n,
            order@.len() == i,
            forall|a: int| 0 <= a < order@.len() ==> #[trigger] order@[a] < i,
            forall|j: int| 0 <= j < i ==> #[trigger] order@.contains(j as usize),
            forall|a: int, b: int|
                0 <= a < b < order@.len() ==> precedes(
                    keys@,
                    #[trigger] order@[a] as int,
                    #[trigger] order@[b] as int,
                ),
        decreases n - i,
    {
        let t = keys[i];
        let mut p: usize = 0;
        let mut found = false;
        while !found && p < order.len()
            invariant
                n == keys@.len(),
                i < n,
                t == keys@[i as int],
                order@.len() == i,
                p <= order@.len(),
                found ==> p < order@.len() && keys@[order@[p as int] as int] < t,
                forall|a: int| 0 <= a < order@.len() ==> #[trigger] order@[a] < i,
                forall|a: int| 0 <= a < p ==> precedes(keys@, #[trigger] order@[a] as int, i as int),
            decreases order@.len() - p + (if found { 0int } else { 1int }),
        {
            if keys[order[p]] < t {
                found = true;
            } else {
                p = p + 1;
            }
        }
        let ghost before = order@;
        proof {
            assert forall|a: int| p <= a < before.len() implies precedes(
                keys@,
                i as int,
                #[trigger] before[a] as int,
            ) by {
                if p < before.len() {
                    assert(found);
                    if a > p {
                        assert(precedes(keys@, before[p as int] as int, before[a] as int));
                    }
                }
            }
        }
        order.insert(p, i);
        proof {
            let after = order@;
            assert(after == before.insert(p as int, i));
            assert forall|j: int| 0 <= j < i + 1 implies #[trigger] after.contains(j as usize) by {
                if j == i {
                    assert(after[p as int] == i);
                } else {
                    assert(before.contains(j as usize));
                    let a = choose|a: int| 0 <= a < before.len() && before[a] == j as usize;
                    if a < p {
                        assert(after[a] == before[a]);
                    } else {
                        assert(after[a + 1] == before[a]);
                    }
                }
            }
            assert forall|a: int, b: int|
                0 <= a < b < after.len() implies precedes(
                    keys@,
                    #[trigger] after[a] as int,
                    #[trigger] after[b] as int,
                ) by {
                if b < p {
                    assert(after[a] == before[a] && after[b] == before[b]);
                } else if b == p {
                    assert(after[a] == before[a]);
                } else if a < p {
                    assert(after[a] == before[a] && after[b] == before[b - 1]);
                    if p < before.len() {
                        assert(precedes(keys@, i as int, before[b - 1] as int));
                    }
                } else if a == p {
                    assert(after[b] == before[b - 1]);
                } else {
                    assert(after[a] == before[a - 1] && after[b] == before[b - 1]);
                }
            }
        }
        i = i + 1;
    }
    order
}

/// The positions of the `limit` best-ranked entries of `keys`, in rank order.
pub fn top_positions(keys: &Vec<i128>, limit: usize) -> (r: Vec<usize>)
    ensures
        is_top_selection(keys@, limit as nat, r@),
{
    let mut order = rank_order(keys);
    let ghost full = order@;
    if limit < order.len() {
        order.truncate(limit);
    }
    proof {
        let r = order@;
        let k = r.len() as int;
        assert(r =~= full.take(k));
        assert forall|j: int, c: int|
            #![trigger r[c], keys@[j]]
            0 <= j < keys@.len() && !r.contains(j as usize) && 0 <= c < r.len() implies precedes(
            keys@,
            r[c] as int,
            j,
        ) by {
            assert(full.contains(j as usize));
            let q = choose|q: int| 0 <= q < full.len() && full[q] == j as usize;
            if q < k {
                assert(r[q] == j as usize);
                assert(r.contains(j as usize));
            }
            assert(r[c] == full[c]);
        }
    }
    order
}

} // verus!
