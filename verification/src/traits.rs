//! Random choices of a test: which task a user runs next, weighted by the
//! tasks' priorities, and how long a user sleeps between two tasks.

use vstd::prelude::*;

use rand::distributions::{Distribution, WeightedIndex};
use rand::rngs::ThreadRng;
use rand::Rng;

use crate::spawn_coordinator::{lemma_prefix_sum_le, seq_sum};

verus! {

#[verifier::external_type_specification]
#[verifier::external_body]
pub struct ExThreadRng(ThreadRng);

/// Holds a `WeightedIndex<u64>`, the weighted distribution of `rand`, which
/// cannot be declared as an outside type (its type parameter is bound by a
/// trait of `rand`).
#[verifier::external_body]
pub struct WeightedChoice {
    dist: WeightedIndex<u64>,
}

/// The weights a `WeightedChoice` was made from.
pub uninterp spec fn weighted_index_weights(dist: WeightedChoice) -> Seq<u64>;

/// Calls `rand::thread_rng`, the generator of the current thread.
#[verifier::external_body]
fn thread_rng() -> ThreadRng {
    rand::thread_rng()
}

/// Calls `WeightedIndex::new`. Its source fails exactly on no weight or on
/// weights that are all zero (a `u64` weight is never negative); it panics
/// where the sum of the weights overflows, which `requires` leaves out.
#[verifier::external_body]
fn weighted_index_new(weights: &Vec<u64>) -> (res: Option<WeightedChoice>)
    requires
        seq_sum(weights@) <= u64::MAX,
    ensures
        res is Some <==> (weights@.len() > 0 && seq_sum(weights@) > 0),
        res matches Some(dist) ==> weighted_index_weights(dist) == weights@,
{
    match WeightedIndex::new(weights.iter().copied()) {
        Ok(dist) => Some(WeightedChoice { dist }),
        Err(_) => None,
    }
}

/// Calls `Distribution::sample` on a `WeightedIndex`: an index chosen at
/// random with probability proportional to its weight. The chosen index is
/// random; its source only ever picks an index of positive weight. Also
/// returns the distribution that was sampled.
#[verifier::external_body]
fn sample_index(dist: &WeightedChoice, rng: &mut ThreadRng) -> (res: (usize, Ghost<WeightedChoice>))
    ensures
        res.1@ == *dist,
        res.0 < weighted_index_weights(*dist).len(),
        weighted_index_weights(*dist)[res.0 as int] > 0,
{
    (dist.dist.sample(rng), Ghost(*dist))
}

/// Calls `Rng::gen_range` on the inclusive range `low..=high`: a random value
/// in that range. It panics on an empty range, which `requires` leaves out.
/// Also returns the bounds of the range that was drawn from.
#[verifier::external_body]
fn gen_range_inclusive(rng: &mut ThreadRng, low: u64, high: u64) -> (res: (u64, Ghost<(u64, u64)>))
    requires
        low <= high,
    ensures
        res.1@ == (low, high),
        low <= res.0 <= high,
{
    (rng.gen_range(low..=high), Ghost((low, high)))
}

/// Chooses an index at random, with probability proportional to its weight.
/// There is none when there is no weight or all weights are zero. Also
/// returns the weights of the distribution that was sampled, if one was:
/// exactly `weights`.
pub fn select_weighted_index(weights: &Vec<u64>) -> (res: (Option<usize>, Ghost<Option<Seq<u64>>>))
    requires
        seq_sum(weights@) <= u64::MAX,
    ensures
        res.0 is Some <==> (weights@.len() > 0 && seq_sum(weights@) > 0),
        res.0 is Some <==> res.1@ == Some(weights@),
        res.0 is None ==> res.1@ is None,
        res.0 matches Some(i) ==> i < weights@.len() && weights@[i as int] > 0,
{
    match weighted_index_new(weights) {
        Some(dist) => {
            let mut rng = thread_rng();
            let (index, sampled) = sample_index(&dist, &mut rng);
            (Some(index), Ghost(Some(weighted_index_weights(sampled@))))
        },
        None => (None, Ghost(None)),
    }
}

/// How many seconds a user sleeps between two tasks: the lower bound where
/// the range is empty or a single value, else a random value drawn from the
/// whole range. Also returns the range drawn from, if a draw was made.
pub fn sleep_seconds_between(between: (u64, u64)) -> (res: (u64, Ghost<Option<(u64, u64)>>))
    ensures
        between.0 >= between.1 ==> res.0 == between.0 && res.1@ is None,
        between.0 < between.1 ==> between.0 <= res.0 <= between.1 && res.1@ == Some(between),
{
    if between.0 >= between.1 {
        return (between.0, Ghost(None));
    }
    let mut rng = thread_rng();
    let (secs, drawn) = gen_range_inclusive(&mut rng, between.0, between.1);
    (secs, Ghost(Some(drawn@)))
}

/// Something that can be chosen with a weight.
pub trait Prioritised {
    fn get_priority(&self) -> u64;
}

/// `priorities` are what `get_priority` gives for `items`, in order. The
/// implementations of `Prioritised` lie with the library's users, so a
/// priority is known only as a result of `get_priority`.
pub open spec fn read_priorities<T: Prioritised>(items: Seq<T>, priorities: Seq<u64>) -> bool {
    &&& priorities.len() == items.len()
    &&& forall|i: int|
        0 <= i < items.len() ==> call_ensures(T::get_priority, (&items[i],), #[trigger] priorities[i])
}

/// Chooses one of several prioritised items at random.
pub trait PrioritisedRandom<T: Prioritised> {
    /// An item chosen with probability proportional to its priority, so never
    /// one of priority zero. There is one exactly when the priorities add up
    /// to more than zero and to no more than a `u64` holds; so none where
    /// there is no item or all priorities are zero.
    fn get_prioritised_random(&self) -> (res: Option<&T>)
        ensures
            res matches Some(r) ==> exists|priorities: Seq<u64>, i: int|
                #![trigger read_priorities(self.spec_items(), priorities), self.spec_items()[i]]
                read_priorities(self.spec_items(), priorities) && 0 < seq_sum(priorities) <= u64::MAX
                    && 0 <= i < priorities.len() && self.spec_items()[i] == *r && priorities[i] > 0,
            res is None ==> exists|priorities: Seq<u64>|
                #[trigger] read_priorities(self.spec_items(), priorities) && !(0 < seq_sum(priorities)
                    <= u64::MAX),
    ;

    /// The items to choose from.
    spec fn spec_items(&self) -> Seq<T>;
}

/// Draws one of `items` at random with probability proportional to its
/// priority. The priorities are read with `get_priority`, in order; where
/// they add up to more than zero and to no more than a `u64` holds, the draw
/// is made on exactly those priorities (returned beside the item), else none
/// is made.
pub fn prioritised_random<T: Prioritised>(items: &Vec<T>) -> (res: (Option<&T>, Ghost<Option<Seq<u64>>>))
    ensures
        res.0 is Some <==> res.1@ is Some,
        res.1@ matches Some(priorities) ==> read_priorities(items@, priorities) && 0 < seq_sum(priorities)
            <= u64::MAX,
        res.0 matches Some(r) ==> exists|i: int|
            0 <= i < items@.len() && #[trigger] items@[i] == *r && res.1@->0[i] > 0,
        res.1@ is None ==> exists|priorities: Seq<u64>|
            #[trigger] read_priorities(items@, priorities) && !(0 < seq_sum(priorities) <= u64::MAX),
{
    let n = items.len();
    let mut weights: Vec<u64> = Vec::new();
    let mut i: usize = 0;
    while i < n
        invariant
            n == items@.len(),
            i <= n,
            weights@.len() == i,
            forall|j: int| 0 <= j < i ==> call_ensures(T::get_priority, (&items@[j],), #[trigger] weights@[j]),
        decreases n - i,
    {
        let w = items[i].get_priority();
        weights.push(w);
        i = i + 1;
    }
    assert(read_priorities(items@, weights@));
    let mut sum: u64 = 0;
    let mut k: usize = 0;
    while k < n
        invariant
            n == weights@.len(),
            k <= n,
            sum == seq_sum(weights@.take(k as int)),
            read_priorities(items@, weights@),
        decreases n - k,
    {
        proof {
            assert(weights@.take(k + 1).drop_last() =~= weights@.take(k as int));
        }
        if weights[k] > u64::MAX - sum {
            proof {
                lemma_prefix_sum_le(weights@, k + 1);
            }
            return (None, Ghost(None));
        }
        sum = sum + weights[k];
        k = k + 1;
    }
    assert(weights@.take(n as int) =~= weights@);
    let (choice, drawn) = select_weighted_index(&weights);
    match choice {
        Some(idx) => {
            assert(items@[idx as int] == items@[idx as int]);
            (Some(&items[idx]), drawn)
        },
        None => (None, drawn),
    }
}

impl<T: Prioritised> PrioritisedRandom<T> for Vec<T> {
    open spec fn spec_items(&self) -> Seq<T> {
        self@
    }

    fn get_prioritised_random(&self) -> (res: Option<&T>) {
        let (choice, drawn) = prioritised_random(self);
        proof {
            if let Some(r) = choice {
                let priorities = drawn@->0;
                let i = choose|i: int| 0 <= i < self@.len() && #[trigger] self@[i] == *r && priorities[i] > 0;
                assert(read_priorities(self.spec_items(), priorities) && self.spec_items()[i] == *r);
            } else {
                let priorities = choose|priorities: Seq<u64>|
                    #[trigger] read_priorities(self@, priorities) && !(0 < seq_sum(priorities) <= u64::MAX);
                assert(read_priorities(self.spec_items(), priorities));
            }
        }
        choice
    }
}

} // verus!
