//! The spring pass, without its numbers.
//!
//! Every spring is shown to a kernel together with the two balls it
//! joins, as they are in one snapshot; the kernel answers with what the
//! spring adds to each of them. The answers are then summed ball by ball
//! in a buffer of their own, so that springs sharing a ball cannot see one
//! another's work. The kernel and the sum hold the arithmetic and belong
//! to the host.

use vstd::prelude::*;
use crate::mesh::{Spring, spring_in_range};
use crate::pairs::{PairUpdate, updates_in_range};

verus! {

/// Every spring joins two balls of a collection of `count`.
pub open spec fn springs_in_range(springs: Seq<Spring>, count: int) -> bool {
    forall|s: int| 0 <= s < springs.len() ==> spring_in_range(#[trigger] springs[s], count)
}

/// `pulls` is what a pass over `springs` with the kernel `pull` collects:
/// one entry for each spring, in the springs' order, naming the spring's
/// two balls and holding an answer of the kernel for them as they are in
/// `balls`.
pub open spec fn pulled<B, A, F: Fn(&B, &B, &Spring) -> (A, A)>(
    balls: Seq<B>,
    springs: Seq<Spring>,
    pull: F,
    pulls: Seq<PairUpdate<A>>,
) -> bool {
    &&& pulls.len() == springs.len()
    &&& forall|s: int|
        0 <= s < springs.len() ==> {
            &&& (#[trigger] pulls[s]).first == springs[s].ball1_index
            &&& pulls[s].second == springs[s].ball2_index
            &&& call_ensures(
                pull,
                (
                    &balls[springs[s].ball1_index as int],
                    &balls[springs[s].ball2_index as int],
                    &springs[s],
                ),
                (pulls[s].first_value, pulls[s].second_value),
            )
        }
}

/// `after` is `before` with one entry summed in: first its first value
/// onto its first ball, then its second value onto its second ball.
pub open spec fn summed_one<A, S: Fn(A, A) -> A>(
    sum: S,
    before: Seq<A>,
    entry: PairUpdate<A>,
    after: Seq<A>,
) -> bool {
    exists|first_sum: A, second_sum: A|
        {
            &&& call_ensures(sum, (before[entry.first as int], entry.first_value), first_sum)
            &&& call_ensures(
                sum,
                (before.update(entry.first as int, first_sum)[entry.second as int], entry.second_value),
                second_sum,
            )
            &&& after == before.update(entry.first as int, first_sum).update(
                entry.second as int,
                second_sum,
            )
        }
}

/// `total` is `start` with all entries summed in, one after the other in
/// their order.
pub open spec fn summed<A, S: Fn(A, A) -> A>(
    sum: S,
    start: Seq<A>,
    entries: Seq<PairUpdate<A>>,
    total: Seq<A>,
) -> bool
    decreases entries.len(),
{
    if entries.len() == 0 {
        total == start
    } else {
        exists|before: Seq<A>|
            {
                &&& before.len() == start.len()
                &&& summed(sum, start, entries.drop_last(), before)
                &&& #[trigger] summed_one(sum, before, entries.last(), total)
            }
    }
}

/// Shows the kernel every spring with its two balls, in the springs'
/// order, and collects its answers. Nothing is written to the snapshot.
pub fn scan_springs<B, A, F: Fn(&B, &B, &Spring) -> (A, A)>(
    balls: &Vec<B>,
    springs: &Vec<Spring>,
    pull: F,
) -> (pulls: Vec<PairUpdate<A>>)
    requires
        springs_in_range(springs@, balls@.len() as int),
        forall|s: int|
            0 <= s < springs@.len() ==> call_requires(
                pull,
                (
                    &balls@[springs@[s].ball1_index as int],
                    &balls@[springs@[s].ball2_index as int],
                    &#[trigger] springs@[s],
                ),
            ),
    ensures
        pulled(balls@, springs@, pull, pulls@),
        updates_in_range(pulls@, balls@.len() as int),
{
    let mut pulls: Vec<PairUpdate<A>> = Vec::new();
    let mut s: usize = 0;
    while s < springs.len()
        invariant
            0 <= s <= springs@.len(),
            springs_in_range(springs@, balls@.len() as int),
            forall|t: int|
                0 <= t < springs@.len() ==> call_requires(
                    pull,
                    (
                        &balls@[springs@[t].ball1_index as int],
                        &balls@[springs@[t].ball2_index as int],
                        &#[trigger] springs@[t],
                    ),
                ),
            pulled(balls@, springs@.take(s as int), pull, pulls@),
            updates_in_range(pulls@, balls@.len() as int),
        decreases springs@.len() - s,
    {
        let spring = &springs[s];
        assert(spring_in_range(springs@[s as int], balls@.len() as int));
        let (first_value, second_value) = pull(
            &balls[spring.ball1_index],
            &balls[spring.ball2_index],
            spring,
        );
        pulls.push(
            PairUpdate {
                first: spring.ball1_index,
                second: spring.ball2_index,
                first_value,
                second_value,
            },
        );
        s = s + 1;
    }
    assert(springs@.take(s as int) =~= springs@);
    pulls
}

/// Sums the entries into a copy of `start`, in their order: each entry's
/// first value onto its first ball, then its second value onto its second
/// ball.
pub fn accumulate<A: Copy, S: Fn(A, A) -> A>(
    start: &Vec<A>,
    entries: &Vec<PairUpdate<A>>,
    sum: &S,
) -> (total: Vec<A>)
    requires
        updates_in_range(entries@, start@.len() as int),
        forall|a: A, b: A| call_requires(*sum, (a, b)),
    ensures
        total@.len() == start@.len(),
        summed(*sum, start@, entries@, total@),
{
    let mut total: Vec<A> = Vec::new();
    let mut k: usize = 0;
    while k < start.len()
        invariant
            0 <= k <= start@.len(),
            total@ == start@.take(k as int),
        decreases start@.len() - k,
    {
        total.push(start[k]);
        assert(total@ =~= start@.take(k + 1));
        k = k + 1;
    }
    assert(total@ =~= start@);
    assert(entries@.take(0) =~= Seq::empty());
    let mut e: usize = 0;
    while e < entries.len()
        invariant
            0 <= e <= entries@.len(),
            updates_in_range(entries@, start@.len() as int),
            forall|a: A, b: A| call_requires(*sum, (a, b)),
            total@.len() == start@.len(),
            summed(*sum, start@, entries@.take(e as int), total@),
        decreases entries@.len() - e,
    {
        let entry = entries[e];
        let ghost before = total@;
        let first_sum = sum(total[entry.first], entry.first_value);
        total.set(entry.first, first_sum);
        let second_sum = sum(total[entry.second], entry.second_value);
        total.set(entry.second, second_sum);
        proof {
            let now = entries@.take(e + 1);
            assert(now.drop_last() =~= entries@.take(e as int));
            assert(now.len() == e + 1 && now.last() == entry);
            assert(summed(*sum, start@, now.drop_last(), before));
            assert(summed_one(*sum, before, now.last(), total@));
            assert(summed(*sum, start@, now, total@));
        }
        e = e + 1;
    }
    assert(entries@.take(e as int) =~= entries@);
    total
}

/// `after` is `before` with `totals` summed on, ball by ball.
pub open spec fn applied<A, S: Fn(A, A) -> A>(sum: S, before: Seq<A>, totals: Seq<A>, after: Seq<A>) -> bool {
    &&& after.len() == before.len()
    &&& forall|k: int|
        0 <= k < before.len() ==> call_ensures(sum, (before[k], totals[k]), #[trigger] after[k])
}

/// One whole spring pass. Shows the kernel every spring with its balls as
/// they are in the snapshot, sums its answers ball by ball in a buffer
/// that starts from `zero` for every ball, and only then sums each ball's
/// total onto its acceleration. Returns the new accelerations.
pub fn apply_spring_forces<B, A: Copy, F: Fn(&B, &B, &Spring) -> (A, A), S: Fn(A, A) -> A>(
    balls: &Vec<B>,
    springs: &Vec<Spring>,
    accelerations: &Vec<A>,
    zero: A,
    pull: F,
    sum: &S,
) -> (after: Vec<A>)
    requires
        accelerations@.len() == balls@.len(),
        springs_in_range(springs@, balls@.len() as int),
        forall|s: int|
            0 <= s < springs@.len() ==> call_requires(
                pull,
                (
                    &balls@[springs@[s].ball1_index as int],
                    &balls@[springs@[s].ball2_index as int],
                    &#[trigger] springs@[s],
                ),
            ),
        forall|a: A, b: A| call_requires(*sum, (a, b)),
    ensures
        exists|pulls: Seq<PairUpdate<A>>, totals: Seq<A>|
            {
                &&& #[trigger] pulled(balls@, springs@, pull, pulls)
                &&& summed(*sum, Seq::new(balls@.len(), |k: int| zero), pulls, totals)
                &&& #[trigger] applied(*sum, accelerations@, totals, after@)
            },
{
    let pulls = scan_springs(balls, springs, pull);
    let mut start: Vec<A> = Vec::new();
    let mut k: usize = 0;
    while k < balls.len()
        invariant
            0 <= k <= balls@.len(),
            start@ == Seq::new(k as nat, |t: int| zero),
        decreases balls@.len() - k,
    {
        start.push(zero);
        assert(start@ =~= Seq::new((k + 1) as nat, |t: int| zero));
        k = k + 1;
    }
    let totals = accumulate(&start, &pulls, sum);
    let mut after: Vec<A> = Vec::new();
    let mut k: usize = 0;
    while k < accelerations.len()
        invariant
            0 <= k <= accelerations@.len(),
            totals@.len() == accelerations@.len(),
            forall|a: A, b: A| call_requires(*sum, (a, b)),
            after@.len() == k,
            forall|t: int|
                0 <= t < k ==> call_ensures(*sum, (accelerations@[t], totals@[t]), #[trigger] after@[t]),
        decreases accelerations@.len() - k,
    {
        after.push(sum(accelerations[k], totals[k]));
        k = k + 1;
    }
    assert(pulled(balls@, springs@, pull, pulls@) && applied(*sum, accelerations@, totals@, after@));
    after
}

/// Summing in entries whose values are all neutral changes nothing: the
/// totals are where they started.
pub proof fn lemma_neutral_entries_sum_to_start<A, S: Fn(A, A) -> A>(
    sum: S,
    neutral: A,
    start: Seq<A>,
    entries: Seq<PairUpdate<A>>,
    total: Seq<A>,
)
    requires
        updates_in_range(entries, start.len() as int),
        forall|a: A, r: A| #[trigger] call_ensures(sum, (a, neutral), r) ==> r == a,
        forall|e: int|
            0 <= e < entries.len() ==> (#[trigger] entries[e]).first_value == neutral
                && entries[e].second_value == neutral,
        summed(sum, start, entries, total),
    ensures
        total == start,
    decreases entries.len(),
{
    if entries.len() > 0 {
        let last = entries.last();
        let before = choose|before: Seq<A>|
            {
                &&& before.len() == start.len()
                &&& summed(sum, start, entries.drop_last(), before)
                &&& #[trigger] summed_one(sum, before, last, total)
            };
        lemma_neutral_entries_sum_to_start(sum, neutral, start, entries.drop_last(), before);
        assert(last.first < start.len() && last.second < start.len());
        assert(total =~= before);
    }
}

/// Where every spring pulls with a neutral value on both of its ends, as
/// a spring at rest between balls that do not move against each other
/// does, a spring pass leaves every acceleration as it was.
pub proof fn lemma_springs_at_rest_change_nothing<A, S: Fn(A, A) -> A>(
    sum: S,
    neutral: A,
    accelerations: Seq<A>,
    pulls: Seq<PairUpdate<A>>,
    totals: Seq<A>,
    after: Seq<A>,
)
    requires
        updates_in_range(pulls, accelerations.len() as int),
        forall|a: A, r: A| #[trigger] call_ensures(sum, (a, neutral), r) ==> r == a,
        forall|s: int|
            0 <= s < pulls.len() ==> (#[trigger] pulls[s]).first_value == neutral
                && pulls[s].second_value == neutral,
        summed(sum, Seq::new(accelerations.len(), |k: int| neutral), pulls, totals),
        applied(sum, accelerations, totals, after),
    ensures
        after == accelerations,
{
    let start = Seq::new(accelerations.len(), |k: int| neutral);
    lemma_neutral_entries_sum_to_start(sum, neutral, start, pulls, totals);
    assert(after =~= accelerations);
}

} // verus!
