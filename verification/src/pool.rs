//! Specification helpers for the worker pool.
//!
//! The pool is an association list from grouping key to [`Worker`], with
//! pairwise-distinct keys. The spec functions here select from it and
//! restrict an ingestion history to one key; the lemmas say how the
//! selectors behave under the pool operations the dispatcher performs
//! (update in place, append, removal).

use vstd::prelude::*;

use crate::update::{key_of, Update};
use crate::worker::Worker;

verus! {

/// The updates of `s` whose derived key is `k`, in arrival order.
pub open spec fn keyed_seq(s: Seq<Update>, k: i64) -> Seq<Update>
    decreases s.len(),
{
    if s.len() == 0 {
        Seq::empty()
    } else if key_of(s.last()) == Some(k) {
        keyed_seq(s.drop_last(), k).push(s.last())
    } else {
        keyed_seq(s.drop_last(), k)
    }
}

/// The updates of `s` that map to no key, in arrival order.
pub open spec fn keyless_seq(s: Seq<Update>) -> Seq<Update>
    decreases s.len(),
{
    if s.len() == 0 {
        Seq::empty()
    } else if key_of(s.last()) is None {
        keyless_seq(s.drop_last()).push(s.last())
    } else {
        keyless_seq(s.drop_last())
    }
}

/// Restricting to a key commutes with appending one update.
pub proof fn lemma_keyed_seq_push(s: Seq<Update>, u: Update, k: i64)
    ensures
        keyed_seq(s.push(u), k) == if key_of(u) == Some(k) {
            keyed_seq(s, k).push(u)
        } else {
            keyed_seq(s, k)
        },
{
    assert(s.push(u).drop_last() =~= s);
    assert(s.push(u).last() == u);
}

/// Restricting to the keyless updates commutes with appending one update.
pub proof fn lemma_keyless_seq_push(s: Seq<Update>, u: Update)
    ensures
        keyless_seq(s.push(u)) == if key_of(u) is None {
            keyless_seq(s).push(u)
        } else {
            keyless_seq(s)
        },
{
    assert(s.push(u).drop_last() =~= s);
    assert(s.push(u).last() == u);
}

/// Whether the pool holds a worker for key `k`.
pub open spec fn pool_has(s: Seq<(i64, Worker)>, k: i64) -> bool {
    exists|i: int| 0 <= i < s.len() && (#[trigger] s[i]).0 == k
}

/// The position of key `k`'s entry (meaningful under `keys_distinct`).
pub open spec fn pool_idx(s: Seq<(i64, Worker)>, k: i64) -> int {
    choose|i: int| 0 <= i < s.len() && (#[trigger] s[i]).0 == k
}

/// The worker registered for key `k`.
pub open spec fn pool_worker(s: Seq<(i64, Worker)>, k: i64) -> Worker {
    s[pool_idx(s, k)].1
}

/// At most one live worker per key.
pub open spec fn keys_distinct(s: Seq<(i64, Worker)>) -> bool {
    forall|i: int, j: int|
        0 <= i < j < s.len() ==> (#[trigger] s[i]).0 != (#[trigger] s[j]).0
}

/// Under distinct keys, `pool_idx` is the one position that holds `k`.
pub proof fn lemma_pool_idx(s: Seq<(i64, Worker)>, k: i64)
    requires
        keys_distinct(s),
        pool_has(s, k),
    ensures
        0 <= pool_idx(s, k) < s.len(),
        s[pool_idx(s, k)].0 == k,
        forall|i: int| 0 <= i < s.len() && (#[trigger] s[i]).0 == k ==> i == pool_idx(s, k),
{
    let j = pool_idx(s, k);
    assert(0 <= j < s.len() && s[j].0 == k);
    assert forall|i: int| 0 <= i < s.len() && (#[trigger] s[i]).0 == k implies i == j by {
        if i < j {
            assert(s[i].0 != s[j].0);
        } else if j < i {
            assert(s[j].0 != s[i].0);
        }
    }
}

/// Replacing the worker at position `i` (same key) leaves every other
/// selection unchanged.
pub proof fn lemma_pool_update_frame(s: Seq<(i64, Worker)>, i: int, w: Worker)
    requires
        keys_distinct(s),
        0 <= i < s.len(),
    ensures
        keys_distinct(s.update(i, (s[i].0, w))),
        forall|k: i64| pool_has(s.update(i, (s[i].0, w)), k) == pool_has(s, k),
        pool_worker(s.update(i, (s[i].0, w)), s[i].0) == w,
        forall|k: i64|
            k != s[i].0 && pool_has(s, k) ==> pool_worker(
                s.update(i, (s[i].0, w)),
                k,
            ) == pool_worker(s, k),
{
    let t = s.update(i, (s[i].0, w));
    assert(forall|j: int| 0 <= j < s.len() ==> (#[trigger] t[j]).0 == s[j].0);
    assert forall|k: i64| pool_has(t, k) == pool_has(s, k) by {
        if pool_has(t, k) {
            let j = choose|j: int| 0 <= j < t.len() && (#[trigger] t[j]).0 == k;
            assert(s[j].0 == k);
        }
        if pool_has(s, k) {
            let j = choose|j: int| 0 <= j < s.len() && (#[trigger] s[j]).0 == k;
            assert(t[j].0 == k);
        }
    }
    assert(pool_has(t, s[i].0)) by {
        assert(t[i].0 == s[i].0);
    }
    lemma_pool_idx(t, s[i].0);
    assert(pool_idx(t, s[i].0) == i);
    assert forall|k: i64|
        k != s[i].0 && pool_has(s, k) implies pool_worker(t, k) == pool_worker(s, k) by {
        lemma_pool_idx(s, k);
        lemma_pool_idx(t, k);
        let j = pool_idx(s, k);
        assert(t[j].0 == k);
        assert(pool_idx(t, k) == j);
        assert(j != i);
        assert(t[j].1 == s[j].1);
    }
}

/// Appending a worker for a fresh key leaves every other selection unchanged.
pub proof fn lemma_pool_push_frame(s: Seq<(i64, Worker)>, k0: i64, w: Worker)
    requires
        keys_distinct(s),
        !pool_has(s, k0),
    ensures
        keys_distinct(s.push((k0, w))),
        pool_has(s.push((k0, w)), k0),
        pool_worker(s.push((k0, w)), k0) == w,
        forall|k: i64| k != k0 ==> pool_has(s.push((k0, w)), k) == pool_has(s, k),
        forall|k: i64|
            k != k0 && pool_has(s, k) ==> pool_worker(s.push((k0, w)), k) == pool_worker(s, k),
{
    let t = s.push((k0, w));
    assert(t[s.len() as int].0 == k0);
    assert forall|i: int, j: int| 0 <= i < j < t.len() implies t[i].0 != t[j].0 by {
        if j < s.len() {
            assert(s[i].0 != s[j].0);
        } else {
            assert(t[j].0 == k0);
            assert(t[i].0 == s[i].0);
            assert(s[i].0 != k0);
        }
    }
    lemma_pool_idx(t, k0);
    assert(pool_idx(t, k0) == s.len() as int);
    assert forall|k: i64| k != k0 implies pool_has(t, k) == pool_has(s, k) by {
        if pool_has(t, k) {
            let j = choose|j: int| 0 <= j < t.len() && (#[trigger] t[j]).0 == k;
            assert(j != s.len() as int);
            assert(s[j].0 == k);
        }
        if pool_has(s, k) {
            let j = choose|j: int| 0 <= j < s.len() && (#[trigger] s[j]).0 == k;
            assert(t[j].0 == k);
        }
    }
    assert forall|k: i64|
        k != k0 && pool_has(s, k) implies pool_worker(t, k) == pool_worker(s, k) by {
        lemma_pool_idx(s, k);
        lemma_pool_idx(t, k);
        let j = pool_idx(s, k);
        assert(t[j].0 == k);
        assert(pool_idx(t, k) == j);
        assert(t[j].1 == s[j].1);
    }
}

/// Removing the entry at position `i` leaves every other selection unchanged.
pub proof fn lemma_pool_remove_frame(s: Seq<(i64, Worker)>, i: int)
    requires
        keys_distinct(s),
        0 <= i < s.len(),
    ensures
        keys_distinct(s.remove(i)),
        !pool_has(s.remove(i), s[i].0),
        forall|k: i64| k != s[i].0 ==> pool_has(s.remove(i), k) == pool_has(s, k),
        forall|k: i64|
            k != s[i].0 && pool_has(s, k) ==> pool_worker(s.remove(i), k) == pool_worker(s, k),
{
    let t = s.remove(i);
    assert(forall|j: int| 0 <= j < i ==> (#[trigger] t[j]) == s[j]);
    assert(forall|j: int| i <= j < t.len() ==> (#[trigger] t[j]) == s[j + 1]);
    assert forall|a: int, b: int| 0 <= a < b < t.len() implies t[a].0 != t[b].0 by {
        let a0 = if a < i { a } else { a + 1 };
        let b0 = if b < i { b } else { b + 1 };
        assert(s[a0].0 != s[b0].0);
    }
    assert forall|j: int| 0 <= j < t.len() implies (#[trigger] t[j]).0 != s[i].0 by {
        let j0 = if j < i { j } else { j + 1 };
        assert(t[j] == s[j0]);
        if j0 < i {
            assert(s[j0].0 != s[i].0);
        } else {
            assert(s[i].0 != s[j0].0);
        }
    }
    assert forall|k: i64| k != s[i].0 implies pool_has(t, k) == pool_has(s, k) by {
        if pool_has(t, k) {
            let j = choose|j: int| 0 <= j < t.len() && (#[trigger] t[j]).0 == k;
            let j0 = if j < i { j } else { j + 1 };
            assert(s[j0].0 == k);
        }
        if pool_has(s, k) {
            let j0 = choose|j: int| 0 <= j < s.len() && (#[trigger] s[j]).0 == k;
            assert(j0 != i);
            let j = if j0 < i { j0 } else { j0 - 1 };
            assert(t[j].0 == k);
        }
    }
    assert forall|k: i64|
        k != s[i].0 && pool_has(s, k) implies pool_worker(t, k) == pool_worker(s, k) by {
        lemma_pool_idx(s, k);
        lemma_pool_idx(t, k);
        let j0 = pool_idx(s, k);
        assert(j0 != i);
        let j = if j0 < i { j0 } else { j0 - 1 };
        assert(t[j].0 == k);
        assert(pool_idx(t, k) == j);
        assert(t[j].1 == s[j0].1);
    }
}

/// How many keyed workers have an update in flight: `1` for a busy worker.
pub open spec fn busy1(w: Worker) -> int {
    if w.in_flight_view().len() > 0 {
        1
    } else {
        0
    }
}

/// The number of busy keyed workers, which the dispatcher's active-worker
/// counter tracks.
pub open spec fn busy_count(s: Seq<(i64, Worker)>) -> int
    decreases s.len(),
{
    if s.len() == 0 {
        0
    } else {
        busy_count(s.drop_last()) + busy1(s.last().1)
    }
}

/// The busy count is bounded by the pool size.
pub proof fn lemma_busy_count_le(s: Seq<(i64, Worker)>)
    ensures
        0 <= busy_count(s) <= s.len(),
    decreases s.len(),
{
    if s.len() > 0 {
        lemma_busy_count_le(s.drop_last());
    }
}

/// The busy count adds over concatenation.
pub proof fn lemma_busy_count_add(a: Seq<(i64, Worker)>, b: Seq<(i64, Worker)>)
    ensures
        busy_count(a + b) == busy_count(a) + busy_count(b),
    decreases b.len(),
{
    if b.len() == 0 {
        assert(a + b =~= a);
    } else {
        assert((a + b).drop_last() =~= a + b.drop_last());
        assert((a + b).last() == b.last());
        lemma_busy_count_add(a, b.drop_last());
    }
}

/// The busy count of a one-entry pool.
pub proof fn lemma_busy_count_one(p: (i64, Worker))
    ensures
        busy_count(seq![p]) == busy1(p.1),
{
    let s1: Seq<(i64, Worker)> = seq![p];
    assert(s1.drop_last() =~= Seq::<(i64, Worker)>::empty());
    assert(busy_count(Seq::<(i64, Worker)>::empty()) == 0);
    assert(s1.last() == p);
}

/// The busy count after replacing one entry.
pub proof fn lemma_busy_count_update(s: Seq<(i64, Worker)>, i: int, p: (i64, Worker))
    requires
        0 <= i < s.len(),
    ensures
        busy_count(s.update(i, p)) == busy_count(s) - busy1(s[i].1) + busy1(p.1),
{
    let t = s.update(i, p);
    assert(s =~= s.subrange(0, i) + seq![s[i]] + s.subrange(i + 1, s.len() as int));
    assert(t =~= s.subrange(0, i) + seq![p] + s.subrange(i + 1, s.len() as int));
    lemma_busy_count_add(s.subrange(0, i) + seq![s[i]], s.subrange(i + 1, s.len() as int));
    lemma_busy_count_add(s.subrange(0, i), seq![s[i]]);
    lemma_busy_count_add(s.subrange(0, i) + seq![p], s.subrange(i + 1, s.len() as int));
    lemma_busy_count_add(s.subrange(0, i), seq![p]);
    lemma_busy_count_one(s[i]);
    lemma_busy_count_one(p);
}

/// The busy count after removing one entry.
pub proof fn lemma_busy_count_remove(s: Seq<(i64, Worker)>, i: int)
    requires
        0 <= i < s.len(),
    ensures
        busy_count(s.remove(i)) == busy_count(s) - busy1(s[i].1),
{
    assert(s =~= s.subrange(0, i) + seq![s[i]] + s.subrange(i + 1, s.len() as int));
    assert(s.remove(i) =~= s.subrange(0, i) + s.subrange(i + 1, s.len() as int));
    lemma_busy_count_add(s.subrange(0, i) + seq![s[i]], s.subrange(i + 1, s.len() as int));
    lemma_busy_count_add(s.subrange(0, i), seq![s[i]]);
    lemma_busy_count_add(s.subrange(0, i), s.subrange(i + 1, s.len() as int));
    lemma_busy_count_one(s[i]);
}

/// The busy count after appending one entry.
pub proof fn lemma_busy_count_push(s: Seq<(i64, Worker)>, p: (i64, Worker))
    ensures
        busy_count(s.push(p)) == busy_count(s) + busy1(p.1),
{
    assert(s.push(p).drop_last() =~= s);
    assert(s.push(p).last() == p);
}

} // verus!
