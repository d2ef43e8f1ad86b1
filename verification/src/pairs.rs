//! The pairwise collision pass, without its numbers.
//!
//! A pass reads one snapshot of the balls, asks a kernel about every
//! unordered pair, and only then writes: what the kernel says of one pair
//! can never change what it is asked about another. The kernel holds the
//! arithmetic and belongs to the host; the order of the questions and the
//! place of every answer are fixed here.

use vstd::prelude::*;

verus! {

/// A kernel's answer for one pair of balls: a value for each of them.
#[derive(Clone, Copy, Debug)]
pub struct PairUpdate<V> {
    /// Index of the pair's first ball.
    pub first: usize,
    /// Index of the pair's second ball.
    pub second: usize,
    pub first_value: V,
    pub second_value: V,
}

/// Update `u` is the one for the pair `(i, j)`.
pub open spec fn hit_at<V>(updates: Seq<PairUpdate<V>>, u: int, i: int, j: int) -> bool {
    &&& 0 <= u < updates.len()
    &&& updates[u].first == i
    &&& updates[u].second == j
}

/// The pair `(a, b)` comes before the pair `(i, j)` in a pass: passes go
/// by the first ball, then by the second.
pub open spec fn pair_before(a: int, b: int, i: int, j: int) -> bool {
    a < i || (a == i && b < j)
}

/// `updates` is what a pass over `balls` with the kernel `resolve`
/// collects: every update is an answer of the kernel for a pair
/// `first < second` of the snapshot, the updates stand in the order of the
/// pass, and the kernel declined every pair that has none.
pub open spec fn scanned<B, V, F: Fn(&B, &B) -> Option<(V, V)>>(
    balls: Seq<B>,
    resolve: F,
    updates: Seq<PairUpdate<V>>,
) -> bool {
    &&& forall|u: int|
        0 <= u < updates.len() ==> {
            &&& (#[trigger] updates[u]).first < updates[u].second < balls.len()
            &&& call_ensures(
                resolve,
                (&balls[updates[u].first as int], &balls[updates[u].second as int]),
                Some((updates[u].first_value, updates[u].second_value)),
            )
        }
    &&& forall|u: int, v: int|
        0 <= u < v < updates.len() ==> pair_before(
            (#[trigger] updates[u]).first as int,
            updates[u].second as int,
            (#[trigger] updates[v]).first as int,
            updates[v].second as int,
        )
    &&& forall|i: int, j: int|
        0 <= i < j < balls.len() ==> (exists|u: int| hit_at(updates, u, i, j)) || #[trigger] call_ensures(
            resolve,
            (&balls[i], &balls[j]),
            None,
        )
}

/// The buffer after the updates are written over a snapshot, one after the
/// other: where two updates name one ball, the later one stays.
pub open spec fn committed<V>(snapshot: Seq<V>, updates: Seq<PairUpdate<V>>) -> Seq<V>
    decreases updates.len(),
{
    if updates.len() == 0 {
        snapshot
    } else {
        let last = updates.last();
        committed(snapshot, updates.drop_last()).update(last.first as int, last.first_value).update(
            last.second as int,
            last.second_value,
        )
    }
}

/// Every update names two balls of a collection of `count`.
pub open spec fn updates_in_range<V>(updates: Seq<PairUpdate<V>>, count: int) -> bool {
    forall|u: int|
        0 <= u < updates.len() ==> (#[trigger] updates[u]).first < count && updates[u].second
            < count
}

/// Update `u` names ball `k`.
pub open spec fn names<V>(updates: Seq<PairUpdate<V>>, u: int, k: int) -> bool {
    updates[u].first == k || updates[u].second == k
}

/// What update `u` gives ball `k`: as the second ball of the pair if it
/// is that, else as the first.
pub open spec fn value_for<V>(updates: Seq<PairUpdate<V>>, u: int, k: int) -> V {
    if updates[u].second == k {
        updates[u].second_value
    } else {
        updates[u].first_value
    }
}

/// Asks the kernel about every pair `i < j` of the snapshot, in the order
/// of `i` and then of `j`, and collects its answers. Nothing is written to
/// the snapshot.
pub fn scan_pairs<B, V, F: Fn(&B, &B) -> Option<(V, V)>>(balls: &Vec<B>, resolve: F) -> (updates: Vec<
    PairUpdate<V>,
>)
    requires
        forall|i: int, j: int|
            0 <= i < j < balls@.len() ==> #[trigger] call_requires(resolve, (&balls@[i], &balls@[j])),
    ensures
        scanned(balls@, resolve, updates@),
{
    let count: usize = balls.len();
    let mut updates: Vec<PairUpdate<V>> = Vec::new();
    let mut i: usize = 0;
    while i < count
        invariant
            count == balls@.len(),
            0 <= i <= count,
            forall|a: int, b: int|
                0 <= a < b < balls@.len() ==> #[trigger] call_requires(resolve, (&balls@[a], &balls@[b])),
            scanned_up_to(balls@, resolve, updates@, i as int, 0),
        decreases count - i,
    {
        let mut j: usize = i + 1;
        while j < count
            invariant
                count == balls@.len(),
                0 <= i < count,
                i < j <= count,
                forall|a: int, b: int|
                    0 <= a < b < balls@.len() ==> #[trigger] call_requires(
                        resolve,
                        (&balls@[a], &balls@[b]),
                    ),
                scanned_up_to(balls@, resolve, updates@, i as int, j as int),
            decreases count - j,
        {
            let ghost earlier = updates@;
            match resolve(&balls[i], &balls[j]) {
                Some((first_value, second_value)) => {
                    updates.push(PairUpdate { first: i, second: j, first_value, second_value });
                    proof {
                        let hit = earlier.len() as int;
                        assert(hit_at(updates@, hit, i as int, j as int));
                        assert forall|a: int, b: int|
                            0 <= a < b < balls@.len() && pair_before(
                                a,
                                b,
                                i as int,
                                j + 1,
                            ) implies (exists|u: int| hit_at(updates@, u, a, b)) || #[trigger] call_ensures(
                            resolve,
                            (&balls@[a], &balls@[b]),
                            None,
                        ) by {
                            if pair_before(a, b, i as int, j as int) {
                                if exists|u: int| hit_at(earlier, u, a, b) {
                                    let u = choose|u: int| hit_at(earlier, u, a, b);
                                    assert(hit_at(updates@, u, a, b));
                                }
                            }
                        }
                    }
                },
                None => {},
            }
            j = j + 1;
        }
        i = i + 1;
    }
    updates
}

/// The state of a pass that has dealt with every pair before `(i, j)`.
spec fn scanned_up_to<B, V, F: Fn(&B, &B) -> Option<(V, V)>>(
    balls: Seq<B>,
    resolve: F,
    updates: Seq<PairUpdate<V>>,
    i: int,
    j: int,
) -> bool {
    &&& forall|u: int|
        0 <= u < updates.len() ==> {
            &&& (#[trigger] updates[u]).first < updates[u].second < balls.len()
            &&& pair_before(updates[u].first as int, updates[u].second as int, i, j)
            &&& call_ensures(
                resolve,
                (&balls[updates[u].first as int], &balls[updates[u].second as int]),
                Some((updates[u].first_value, updates[u].second_value)),
            )
        }
    &&& forall|u: int, v: int|
        0 <= u < v < updates.len() ==> pair_before(
            (#[trigger] updates[u]).first as int,
            updates[u].second as int,
            (#[trigger] updates[v]).first as int,
            updates[v].second as int,
        )
    &&& forall|a: int, b: int|
        0 <= a < b < balls.len() && pair_before(a, b, i, j) ==> (exists|u: int|
            hit_at(updates, u, a, b)) || #[trigger] call_ensures(resolve, (&balls[a], &balls[b]), None)
}

/// Writes the updates over a copy of the snapshot, in their order.
pub fn commit<V: Copy>(snapshot: &Vec<V>, updates: &Vec<PairUpdate<V>>) -> (next: Vec<V>)
    requires
        updates_in_range(updates@, snapshot@.len() as int),
    ensures
        next@ == committed(snapshot@, updates@),
        next@.len() == snapshot@.len(),
{
    let mut next: Vec<V> = Vec::new();
    let mut k: usize = 0;
    while k < snapshot.len()
        invariant
            0 <= k <= snapshot@.len(),
            next@ == snapshot@.take(k as int),
        decreases snapshot@.len() - k,
    {
        next.push(snapshot[k]);
        assert(next@ =~= snapshot@.take(k + 1));
        k = k + 1;
    }
    assert(next@ =~= snapshot@);
    let mut u: usize = 0;
    while u < updates.len()
        invariant
            0 <= u <= updates@.len(),
            updates_in_range(updates@, snapshot@.len() as int),
            next@.len() == snapshot@.len(),
            next@ == committed(snapshot@, updates@.take(u as int)),
        decreases updates@.len() - u,
    {
        let update = updates[u];
        assert(updates@.take(u + 1).drop_last() =~= updates@.take(u as int));
        next.set(update.first, update.first_value);
        next.set(update.second, update.second_value);
        u = u + 1;
    }
    assert(updates@.take(u as int) =~= updates@);
    next
}

/// One whole collision pass: asks the kernel about every pair of the
/// snapshot `balls`, then writes its answers over a copy of `values`.
pub fn collision_pass<B, V: Copy, F: Fn(&B, &B) -> Option<(V, V)>>(
    balls: &Vec<B>,
    values: &Vec<V>,
    resolve: F,
) -> (next: Vec<V>)
    requires
        balls@.len() == values@.len(),
        forall|i: int, j: int|
            0 <= i < j < balls@.len() ==> #[trigger] call_requires(resolve, (&balls@[i], &balls@[j])),
    ensures
        next@.len() == values@.len(),
        exists|updates: Seq<PairUpdate<V>>| #[trigger]
            scanned(balls@, resolve, updates) && next@ == committed(values@, updates),
{
    let updates = scan_pairs(balls, resolve);
    commit(values, &updates)
}

/// Committing keeps the number of values.
pub proof fn lemma_committed_len<V>(snapshot: Seq<V>, updates: Seq<PairUpdate<V>>)
    requires
        updates_in_range(updates, snapshot.len() as int),
    ensures
        committed(snapshot, updates).len() == snapshot.len(),
    decreases updates.len(),
{
    if updates.len() > 0 {
        lemma_committed_len(snapshot, updates.drop_last());
    }
}

/// A ball that no update names keeps the value it had in the snapshot.
pub proof fn lemma_unnamed_ball_keeps_value<V>(snapshot: Seq<V>, updates: Seq<PairUpdate<V>>, k: int)
    requires
        updates_in_range(updates, snapshot.len() as int),
        0 <= k < snapshot.len(),
        forall|u: int| 0 <= u < updates.len() ==> !names(updates, u, k),
    ensures
        committed(snapshot, updates)[k] == snapshot[k],
    decreases updates.len(),
{
    if updates.len() > 0 {
        let earlier = updates.drop_last();
        assert forall|u: int| 0 <= u < earlier.len() implies !names(earlier, u, k) by {
            assert(!names(updates, u, k));
        }
        lemma_unnamed_ball_keeps_value(snapshot, earlier, k);
        lemma_committed_len(snapshot, earlier);
        assert(!names(updates, updates.len() - 1, k));
    }
}

/// A ball has the value that the last update naming it gives it, whatever
/// came before.
pub proof fn lemma_last_update_stays<V>(
    snapshot: Seq<V>,
    updates: Seq<PairUpdate<V>>,
    u: int,
    k: int,
)
    requires
        updates_in_range(updates, snapshot.len() as int),
        0 <= k < snapshot.len(),
        0 <= u < updates.len(),
        names(updates, u, k),
        forall|v: int| u < v < updates.len() ==> !names(updates, v, k),
    ensures
        committed(snapshot, updates)[k] == value_for(updates, u, k),
    decreases updates.len(),
{
    let earlier = updates.drop_last();
    lemma_committed_len(snapshot, earlier);
    if u < updates.len() - 1 {
        assert forall|v: int| u < v < earlier.len() implies !names(earlier, v, k) by {
            assert(!names(updates, v, k));
        }
        assert(names(earlier, u, k));
        lemma_last_update_stays(snapshot, earlier, u, k);
        assert(!names(updates, updates.len() - 1, k));
    }
}

/// A pass whose kernel answers for no pair collects nothing, and
/// committing nothing leaves every value as it was.
pub proof fn lemma_quiet_pass<B, V, F: Fn(&B, &B) -> Option<(V, V)>>(
    balls: Seq<B>,
    values: Seq<V>,
    resolve: F,
    updates: Seq<PairUpdate<V>>,
)
    requires
        scanned(balls, resolve, updates),
        forall|i: int, j: int, answer: (V, V)|
            0 <= i < j < balls.len() ==> !#[trigger] call_ensures(
                resolve,
                (&balls[i], &balls[j]),
                Some(answer),
            ),
    ensures
        updates.len() == 0,
        committed(values, updates) == values,
{
    if updates.len() > 0 {
        let first = updates[0];
        assert(call_ensures(
            resolve,
            (&balls[first.first as int], &balls[first.second as int]),
            Some((first.first_value, first.second_value)),
        ));
    }
}

/// A pass answers for no pair twice: two updates of one pass never name
/// the same two balls.
pub proof fn lemma_one_update_per_pair<B, V, F: Fn(&B, &B) -> Option<(V, V)>>(
    balls: Seq<B>,
    resolve: F,
    updates: Seq<PairUpdate<V>>,
    u: int,
    v: int,
)
    requires
        scanned(balls, resolve, updates),
        0 <= u < updates.len(),
        0 <= v < updates.len(),
        updates[u].first == updates[v].first,
        updates[u].second == updates[v].second,
    ensures
        u == v,
{
    if u < v {
        assert(pair_before(
            updates[u].first as int,
            updates[u].second as int,
            updates[v].first as int,
            updates[v].second as int,
        ));
    } else if v < u {
        assert(pair_before(
            updates[v].first as int,
            updates[v].second as int,
            updates[u].first as int,
            updates[u].second as int,
        ));
    }
}

} // verus!
