use crate::item::WorkItem;
use vstd::prelude::*;

verus! {

/// The number of items over all the lists.
pub open spec fn total_len(results: Seq<Vec<WorkItem>>) -> int
    decreases results.len(),
{
    if results.len() == 0 {
        0
    } else {
        total_len(results.drop_last()) + results.last()@.len()
    }
}

/// `(c, i)` names an item: the `i`-th of list `c`.
pub open spec fn is_position(results: Seq<Vec<WorkItem>>, c: int, i: int) -> bool {
    0 <= c < results.len() && 0 <= i < results[c]@.len()
}

/// The item at position `(c, i)`.
pub open spec fn item_at(results: Seq<Vec<WorkItem>>, c: int, i: int) -> WorkItem {
    results[c]@[i]
}

/// `k` is one of the keys that a run of `p` producers with `n` items each makes.
pub open spec fn key_in_run(k: (u64, i64), p: u64, n: u64) -> bool {
    k.0 < p && 0 <= k.1 < n
}

/// Every item made by `p` producers with `n` items each stands in `results`
/// exactly once, and nothing else does: the lists hold `p * n` items, each
/// key of the run, no key twice, and every key of the run at least once.
pub open spec fn exactly_once(results: Seq<Vec<WorkItem>>, p: u64, n: u64) -> bool {
    &&& total_len(results) == p * n
    &&& forall|c: int, i: int|
        is_position(results, c, i) ==> key_in_run(#[trigger] item_at(results, c, i).key(), p, n)
    &&& forall|c1: int, i1: int, c2: int, i2: int|
        is_position(results, c1, i1) && is_position(results, c2, i2) && (c1 != c2 || i1 != i2)
            ==> #[trigger] item_at(results, c1, i1).key() != #[trigger] item_at(
            results,
            c2,
            i2,
        ).key()
    &&& forall|pid: u64, s: i64|
        key_in_run((pid, s), p, n) ==> exists|c: int, i: int|
            is_position(results, c, i) && #[trigger] item_at(results, c, i).key() == (pid, s)
}

/// The slot of key `k` in a table of the run's keys.
pub open spec fn slot_of(k: (u64, i64), n: u64) -> int {
    k.0 * n + k.1
}

/// Position `(c2, i2)` comes before `(c, i)`.
pub open spec fn before(results: Seq<Vec<WorkItem>>, c: int, i: int, c2: int, i2: int) -> bool {
    is_position(results, c2, i2) && (c2 < c || (c2 == c && i2 < i))
}

proof fn lemma_slot_in_table(pid: int, s: int, p: int, n: int)
    requires
        0 <= pid < p,
        0 <= s < n,
    ensures
        0 <= pid * n + s < p * n,
{
    assert(0 <= pid * n + s < p * n) by (nonlinear_arith)
        requires
            0 <= pid < p,
            0 <= s < n,
    ;
}

proof fn lemma_slot_injective(pid1: int, s1: int, pid2: int, s2: int, n: int)
    requires
        0 <= pid1,
        0 <= pid2,
        0 <= s1 < n,
        0 <= s2 < n,
        pid1 * n + s1 == pid2 * n + s2,
    ensures
        pid1 == pid2,
        s1 == s2,
{
    if pid1 < pid2 {
        assert(pid1 * n + s1 < pid2 * n + s2) by (nonlinear_arith)
            requires
                pid1 < pid2,
                0 <= s1 < n,
                0 <= s2,
        ;
    } else if pid2 < pid1 {
        assert(pid2 * n + s2 < pid1 * n + s1) by (nonlinear_arith)
            requires
                pid2 < pid1,
                0 <= s2 < n,
                0 <= s1,
        ;
    }
}

proof fn lemma_slot_split(k: int, p: int, n: int)
    requires
        0 <= k < p * n,
        0 < n,
    ensures
        0 <= k / n < p,
        0 <= k % n < n,
        (k / n) * n + k % n == k,
{
    vstd::arithmetic::div_mod::lemma_fundamental_div_mod(k, n);
    vstd::arithmetic::mul::lemma_mul_is_commutative(k / n, n);
    assert(0 <= k / n < p) by (nonlinear_arith)
        requires
            0 <= k < p * n,
            0 < n,
            k == n * (k / n) + k % n,
            0 <= k % n < n,
    ;
}

proof fn lemma_total_len_prefix(results: Seq<Vec<WorkItem>>, j: int)
    requires
        0 <= j < results.len(),
    ensures
        total_len(results.subrange(0, j + 1)) == total_len(results.subrange(0, j))
            + results[j]@.len(),
        total_len(results.subrange(0, j + 1)) <= total_len(results),
    decreases results.len(),
{
    assert(results.subrange(0, j + 1).drop_last() =~= results.subrange(0, j));
    if j + 1 == results.len() {
        assert(results.subrange(0, j + 1) =~= results);
    } else {
        lemma_total_len_prefix(results.drop_last(), j);
        assert(results.drop_last().subrange(0, j + 1) =~= results.subrange(0, j + 1));
        assert(results.drop_last().subrange(0, j) =~= results.subrange(0, j));
    }
}

/// What the table `seen` records after the items before `(c, i)` were read:
/// each of them is a key of the run and marked; each mark comes from one of
/// them; and no two of them share a key.
pub open spec fn table_tracks(
    results: Seq<Vec<WorkItem>>,
    c: int,
    i: int,
    seen: Seq<bool>,
    p: u64,
    n: u64,
) -> bool {
    &&& forall|c2: int, i2: int|
        #[trigger] before(results, c, i, c2, i2) ==> {
            &&& key_in_run(item_at(results, c2, i2).key(), p, n)
            &&& 0 <= slot_of(item_at(results, c2, i2).key(), n) < seen.len()
            &&& seen[slot_of(item_at(results, c2, i2).key(), n)]
        }
    &&& forall|k: int|
        0 <= k < seen.len() && #[trigger] seen[k] ==> exists|c2: int, i2: int|
            #[trigger] before(results, c, i, c2, i2) && slot_of(item_at(results, c2, i2).key(), n)
                == k
    &&& forall|c1: int, i1: int, c2: int, i2: int|
        #[trigger] before(results, c, i, c1, i1) && #[trigger] before(results, c, i, c2, i2) && (c1
            != c2 || i1 != i2) ==> item_at(results, c1, i1).key() != item_at(results, c2, i2).key()
}

proof fn lemma_tracks_next_list(rs: Seq<Vec<WorkItem>>, c: int, seen: Seq<bool>, p: u64, n: u64)
    requires
        0 <= c < rs.len(),
        table_tracks(rs, c, rs[c]@.len() as int, seen, p, n),
    ensures
        table_tracks(rs, c + 1, 0, seen, p, n),
{
    let len = rs[c]@.len() as int;
    assert forall|c2: int, i2: int| #[trigger] before(rs, c + 1, 0, c2, i2) implies before(
        rs,
        c,
        len,
        c2,
        i2,
    ) by {}
    assert forall|k: int|
        0 <= k < seen.len() && #[trigger] seen[k] implies exists|c2: int, i2: int|
            #[trigger] before(rs, c + 1, 0, c2, i2) && slot_of(item_at(rs, c2, i2).key(), n)
                == k by {
        let (c2, i2) = choose|c2: int, i2: int|
            #[trigger] before(rs, c, len, c2, i2) && slot_of(item_at(rs, c2, i2).key(), n) == k;
        assert(before(rs, c + 1, 0, c2, i2));
    }
}

/// Whether the lists that the consumers claimed hold every item of a run of
/// `producer_count` producers with `items_per_producer` items each, exactly
/// once. The run's items must fit in memory.
pub fn delivered_exactly_once(
    results: &Vec<Vec<WorkItem>>,
    producer_count: u32,
    items_per_producer: u64,
) -> (r: bool)
    requires
        producer_count * items_per_producer <= usize::MAX,
        items_per_producer <= i64::MAX,
    ensures
        r == exactly_once(results@, producer_count as u64, items_per_producer),
{
    let ghost rs = results@;
    let p: u64 = producer_count as u64;
    let n: u64 = items_per_producer;
    let total: u64 = p * n;

    let mut acc: u64 = 0;
    let mut j: usize = 0;
    while j < results.len()
        invariant
            rs == results@,
            p == producer_count,
            n == items_per_producer,
            total == p * n,
            j <= rs.len(),
            acc == total_len(rs.subrange(0, j as int)),
            acc <= total,
        decreases rs.len() - j,
    {
        let len = results[j].len() as u64;
        proof {
            lemma_total_len_prefix(rs, j as int);
        }
        if len > total - acc {
            assert(total_len(rs) > p * n);
            return false;
        }
        acc = acc + len;
        j = j + 1;
    }
    assert(rs.subrange(0, rs.len() as int) =~= rs);
    if acc != total {
        return false;
    }

    let ts: usize = total as usize;
    let mut seen: Vec<bool> = Vec::new();
    while seen.len() < ts
        invariant
            seen@.len() <= ts,
            forall|k: int| 0 <= k < seen@.len() ==> !seen@[k],
        decreases ts - seen@.len(),
    {
        seen.push(false);
    }

    let mut c: usize = 0;
    while c < results.len()
        invariant
            rs == results@,
            p == producer_count,
            n == items_per_producer,
            total == p * n,
            ts == total,
            n <= i64::MAX,
            c <= rs.len(),
            seen@.len() == ts,
            table_tracks(rs, c as int, 0, seen@, p, n),
        decreases rs.len() - c,
    {
        let list = &results[c];
        let mut i: usize = 0;
        while i < list.len()
            invariant
                rs == results@,
                p == producer_count,
                n == items_per_producer,
                total == p * n,
                ts == total,
                n <= i64::MAX,
                c < rs.len(),
                list@ == rs[c as int]@,
                i <= list@.len(),
                seen@.len() == ts,
                table_tracks(rs, c as int, i as int, seen@, p, n),
            decreases list@.len() - i,
        {
            let x = list[i];
            assert(is_position(rs, c as int, i as int) && item_at(rs, c as int, i as int) == x);
            if !(x.producer_id < p && x.sequence_number >= 0 && (x.sequence_number as u64) < n) {
                assert(!key_in_run(item_at(rs, c as int, i as int).key(), p, n));
                return false;
            }
            proof {
                lemma_slot_in_table(x.producer_id as int, x.sequence_number as int, p as int, n as int);
            }
            let k: u64 = x.producer_id * n + x.sequence_number as u64;
            assert(k == slot_of(x.key(), n));
            if seen[k as usize] {
                proof {
                    let (c2, i2) = choose|c2: int, i2: int|
                        #[trigger] before(rs, c as int, i as int, c2, i2) && slot_of(
                            item_at(rs, c2, i2).key(),
                            n,
                        ) == k;
                    let y = item_at(rs, c2, i2);
                    assert(before(rs, c as int, i as int, c2, i2));
                    lemma_slot_injective(
                        y.producer_id as int,
                        y.sequence_number as int,
                        x.producer_id as int,
                        x.sequence_number as int,
                        n as int,
                    );
                    assert(is_position(rs, c2, i2));
                    assert(y.key() == x.key());
                    assert(c2 != c || i2 != i);
                    assert(item_at(rs, c2, i2).key() == item_at(rs, c as int, i as int).key());
                }
                return false;
            }
            let ghost old_seen = seen@;
            seen.set(k as usize, true);
            proof {
                let ci = c as int;
                let ii = i as int;
                assert forall|c2: int, i2: int| #[trigger]
                    before(rs, ci, ii + 1, c2, i2) implies {
                    &&& key_in_run(item_at(rs, c2, i2).key(), p, n)
                    &&& 0 <= slot_of(item_at(rs, c2, i2).key(), n) < seen@.len()
                    &&& seen@[slot_of(item_at(rs, c2, i2).key(), n)]
                } by {
                    if before(rs, ci, ii, c2, i2) {
                    } else {
                        assert(c2 == ci && i2 == ii);
                    }
                }
                assert forall|k2: int| 0 <= k2 < seen@.len() && #[trigger] seen@[k2] implies exists|
                    c2: int,
                    i2: int,
                |
                    #[trigger] before(rs, ci, ii + 1, c2, i2) && slot_of(item_at(rs, c2, i2).key(), n)
                        == k2 by {
                    if k2 == k {
                        assert(before(rs, ci, ii + 1, ci, ii));
                    } else {
                        assert(old_seen[k2]);
                        let (c2, i2) = choose|c2: int, i2: int|
                            #[trigger] before(rs, ci, ii, c2, i2) && slot_of(
                                item_at(rs, c2, i2).key(),
                                n,
                            ) == k2;
                        assert(before(rs, ci, ii + 1, c2, i2));
                    }
                }
                assert forall|c1: int, i1: int, c2: int, i2: int|
                    #[trigger] before(rs, ci, ii + 1, c1, i1) && #[trigger] before(
                        rs,
                        ci,
                        ii + 1,
                        c2,
                        i2,
                    ) && (c1 != c2 || i1 != i2) implies item_at(rs, c1, i1).key() != item_at(
                    rs,
                    c2,
                    i2,
                ).key() by {
                    if before(rs, ci, ii, c1, i1) && before(rs, ci, ii, c2, i2) {
                    } else if before(rs, ci, ii, c1, i1) {
                        assert(c2 == ci && i2 == ii);
                        assert(old_seen[slot_of(item_at(rs, c1, i1).key(), n)]);
                    } else {
                        assert(c1 == ci && i1 == ii);
                        assert(before(rs, ci, ii, c2, i2));
                        assert(old_seen[slot_of(item_at(rs, c2, i2).key(), n)]);
                    }
                }
            }
            i = i + 1;
        }
        proof {
            lemma_tracks_next_list(rs, c as int, seen@, p, n);
        }
        c = c + 1;
    }

    let ghost m = rs.len() as int;
    assert forall|c2: int, i2: int| #[trigger] before(rs, m, 0, c2, i2) == is_position(rs, c2, i2) by {}

    let mut k: usize = 0;
    while k < ts
        invariant
            rs == results@,
            m == rs.len(),
            p == producer_count,
            n == items_per_producer,
            n <= i64::MAX,
            total == p * n,
            ts == total,
            seen@.len() == ts,
            k <= ts,
            table_tracks(rs, m, 0, seen@, p, n),
            forall|k2: int| 0 <= k2 < k ==> seen@[k2],
        decreases ts - k,
    {
        if !seen[k] {
            proof {
                assert(n > 0) by (nonlinear_arith)
                    requires
                        0 <= k < p * n,
                ;
                lemma_slot_split(k as int, p as int, n as int);
                let pid = (k as int / n as int) as u64;
                let s = (k as int % n as int) as i64;
                assert(key_in_run((pid, s), p, n));
                assert forall|c2: int, i2: int| is_position(rs, c2, i2) implies #[trigger] item_at(
                    rs,
                    c2,
                    i2,
                ).key() != (pid, s) by {
                    assert(before(rs, m, 0, c2, i2));
                    if item_at(rs, c2, i2).key() == (pid, s) {
                        assert(slot_of((pid, s), n) == k);
                    }
                }
            }
            return false;
        }
        k = k + 1;
    }
    proof {
        assert forall|pid: u64, s: i64| key_in_run((pid, s), p, n) implies exists|c2: int, i2: int|
            is_position(rs, c2, i2) && #[trigger] item_at(rs, c2, i2).key() == (pid, s) by {
            lemma_slot_in_table(pid as int, s as int, p as int, n as int);
            let kk = slot_of((pid, s), n);
            assert(seen@[kk]);
            let (c2, i2) = choose|c2: int, i2: int|
                #[trigger] before(rs, m, 0, c2, i2) && slot_of(item_at(rs, c2, i2).key(), n) == kk;
            let y = item_at(rs, c2, i2);
            assert(before(rs, m, 0, c2, i2));
            lemma_slot_injective(
                y.producer_id as int,
                y.sequence_number as int,
                pid as int,
                s as int,
                n as int,
            );
        }
        assert forall|c1: int, i1: int, c2: int, i2: int|
            is_position(rs, c1, i1) && is_position(rs, c2, i2) && (c1 != c2 || i1 != i2)
                implies #[trigger] item_at(rs, c1, i1).key() != #[trigger] item_at(
            rs,
            c2,
            i2,
        ).key() by {
            assert(before(rs, m, 0, c1, i1) && before(rs, m, 0, c2, i2));
        }
        assert forall|c2: int, i2: int| is_position(rs, c2, i2) implies key_in_run(
            #[trigger] item_at(rs, c2, i2).key(),
            p,
            n,
        ) by {
            assert(before(rs, m, 0, c2, i2));
        }
    }
    true
}

/// The keys of all the items in `results`.
pub open spec fn claimed_keys(results: Seq<Vec<WorkItem>>) -> Set<(u64, i64)> {
    Set::new(|k: (u64, i64)| exists|c: int, i: int| is_position(results, c, i) && item_at(results, c, i).key() == k)
}

/// The keys that a run of `p` producers with `n` items each makes.
pub open spec fn run_keys(p: u64, n: u64) -> Set<(u64, i64)> {
    Set::new(|k: (u64, i64)| key_in_run(k, p, n))
}

/// When every item was delivered exactly once, the claimed keys are exactly
/// the run's keys, `{0..p} x {0..n}`, the lists hold `p * n` items, and no
/// two positions hold the same key.
pub proof fn lemma_exactly_once_claims_every_key(results: Seq<Vec<WorkItem>>, p: u64, n: u64)
    requires
        exactly_once(results, p, n),
    ensures
        claimed_keys(results) == run_keys(p, n),
        total_len(results) == p * n,
        forall|c1: int, i1: int, c2: int, i2: int|
            is_position(results, c1, i1) && is_position(results, c2, i2) && item_at(
                results,
                c1,
                i1,
            ).key() == item_at(results, c2, i2).key() ==> c1 == c2 && i1 == i2,
{
    assert forall|k: (u64, i64)| claimed_keys(results).contains(k) == run_keys(p, n).contains(k) by {
        if claimed_keys(results).contains(k) {
            let (c, i) = choose|c: int, i: int|
                is_position(results, c, i) && item_at(results, c, i).key() == k;
            assert(key_in_run(item_at(results, c, i).key(), p, n));
        }
        if run_keys(p, n).contains(k) {
            assert(key_in_run((k.0, k.1), p, n));
        }
    }
    assert(claimed_keys(results) =~= run_keys(p, n));
}

} // verus!
