//! The search for parameters with a low score.
//!
//! A small population of parameter vectors is kept. Each round sorts it by
//! score, proposes a mutation of each entry of the better half and a fresh
//! vector for each of the others, measures every proposal, and lets a
//! proposal take its entry's place only where it scores strictly lower.

use crate::measure::{chunks_for, measure_avalanche, measurement};
use crate::mixer::Mixer;
use crate::score::{score, score_numerator};
use crate::stats::{Stats, Tally};
use std::marker::PhantomData;
use vstd::prelude::*;

verus! {

/// The samples that each proposal is measured with.
pub const STAT_ROUNDS: u32 = 16384;

/// What a search is made of: where parameter vectors come from, how one is
/// varied, and the mixing function that a vector stands for.
pub trait Strategy {
    /// A parameter vector. The search does not look inside.
    type Params: Copy + Sync;

    /// What the methods need of the value they are called on.
    spec fn valid(&self) -> bool;

    /// Whether `generate` can return `params`.
    spec fn generates(&self, params: Self::Params) -> bool;

    /// Whether `mutate` can make `to` of `from`.
    spec fn mutates(&self, from: Self::Params, to: Self::Params) -> bool;

    /// What `params` make of `input` under `seed`.
    spec fn execute_spec(&self, input: u32, params: Self::Params, seed: u32) -> u32;

    /// A fresh parameter vector. Two calls may differ.
    fn generate(&self) -> (p: Self::Params)
        requires
            self.valid(),
        ensures
            self.generates(p),
    ;

    /// A variation of `params`. Two calls may differ.
    fn mutate(&self, params: Self::Params) -> (p: Self::Params)
        requires
            self.valid(),
        ensures
            self.mutates(params, p),
    ;

    /// Mixes `input` under `seed` as `params` say.
    fn execute(&self, input: u32, params: Self::Params, seed: u32) -> (r: u32)
        requires
            self.valid(),
        ensures
            r == self.execute_spec(input, params, seed),
    ;
}

/// Three closures or functions taken as a `Strategy`.
pub struct FnStrategy<P, G, M, E> {
    pub generate: G,
    pub mutate: M,
    pub execute: E,
    pub params: PhantomData<P>,
}

/// Whether the three accept every argument, and `execute` can return one
/// word only for each input, parameter vector and seed.
pub open spec fn usable<P, G: Fn() -> P, M: Fn(P) -> P, E: Fn(u32, P, u32) -> u32>(
    generate: G,
    mutate: M,
    execute: E,
) -> bool {
    &&& call_requires(generate, ())
    &&& forall|params: P| #[trigger] call_requires(mutate, (params,))
    &&& forall|input: u32, params: P, seed: u32| #[trigger]
        call_requires(execute, (input, params, seed))
    &&& forall|input: u32, params: P, seed: u32, a: u32, b: u32|
        #[trigger] call_ensures(execute, (input, params, seed), a) && #[trigger] call_ensures(
            execute,
            (input, params, seed),
            b,
        ) ==> a == b
}

impl<P: Copy + Sync, G: Fn() -> P, M: Fn(P) -> P, E: Fn(u32, P, u32) -> u32> FnStrategy<
    P,
    G,
    M,
    E,
> {
    /// Takes the three, which must be usable. The strategy generates what
    /// `generate` can return, mutates as `mutate` can, and its parameters
    /// make of an input whatever `execute` can return for it.
    pub fn new(generate: G, mutate: M, execute: E) -> (s: Self)
        requires
            usable(generate, mutate, execute),
        ensures
            s.generate == generate,
            s.mutate == mutate,
            s.execute == execute,
            s.valid(),
            forall|params: P| #[trigger]
                s.generates(params) <==> call_ensures(generate, (), params),
            forall|from: P, to: P| #[trigger] s.mutates(from, to) <==> call_ensures(
                mutate,
                (from,),
                to,
            ),
            forall|input: u32, params: P, seed: u32, r: u32| #[trigger]
                call_ensures(execute, (input, params, seed), r) ==> s.execute_spec(
                    input,
                    params,
                    seed,
                ) == r,
    {
        FnStrategy { generate, mutate, execute, params: PhantomData }
    }
}

impl<
    P: Copy + Sync,
    G: Fn() -> P,
    M: Fn(P) -> P,
    E: Fn(u32, P, u32) -> u32,
> Strategy for FnStrategy<P, G, M, E> {
    type Params = P;

    open spec fn valid(&self) -> bool {
        usable(self.generate, self.mutate, self.execute)
    }

    open spec fn generates(&self, params: P) -> bool {
        call_ensures(self.generate, (), params)
    }

    open spec fn mutates(&self, from: P, to: P) -> bool {
        call_ensures(self.mutate, (from,), to)
    }

    open spec fn execute_spec(&self, input: u32, params: P, seed: u32) -> u32 {
        choose|r: u32| call_ensures(self.execute, (input, params, seed), r)
    }

    fn generate(&self) -> (p: P) {
        (self.generate)()
    }

    fn mutate(&self, params: P) -> (p: P) {
        (self.mutate)(params)
    }

    fn execute(&self, input: u32, params: P, seed: u32) -> (r: u32)
        ensures
            call_ensures(self.execute, (input, params, seed), r),
    {
        (self.execute)(input, params, seed)
    }
}

/// The mixing function that one parameter vector stands for.
pub struct Bound<'a, S: Strategy> {
    pub strategy: &'a S,
    pub params: S::Params,
}

impl<'a, S: Strategy> Mixer for Bound<'a, S> {
    open spec fn valid(&self) -> bool {
        self.strategy.valid()
    }

    open spec fn mix_spec(&self, input: u32, seed: u32) -> u32 {
        self.strategy.execute_spec(input, self.params, seed)
    }

    fn mix(&self, input: u32, seed: u32) -> (r: u32) {
        self.strategy.execute(input, self.params, seed)
    }
}

/// A score's numerator, or the score of what has not been measured yet,
/// which is above every other.
#[derive(Copy, Clone, Debug, PartialEq, Eq, Structural)]
pub enum Score {
    /// The numerator of the score of a measurement of `STAT_ROUNDS` samples.
    Finite(u128),
    /// Not measured yet.
    Infinite,
}

impl Score {
    /// Whether this score is strictly lower than `other`.
    pub open spec fn below(self, other: Score) -> bool {
        match (self, other) {
            (Score::Finite(a), Score::Finite(b)) => a < b,
            (Score::Finite(_), Score::Infinite) => true,
            (Score::Infinite, _) => false,
        }
    }

    /// Whether this score is `other` or lower.
    pub open spec fn at_most(self, other: Score) -> bool {
        !other.below(self)
    }

    /// Whether this score is strictly lower than `other`.
    pub fn is_below(&self, other: &Score) -> (r: bool)
        ensures
            r == self.below(*other),
    {
        match (*self, *other) {
            (Score::Finite(a), Score::Finite(b)) => a < b,
            (Score::Finite(_), Score::Infinite) => true,
            (Score::Infinite, _) => false,
        }
    }
}

/// A parameter vector with the score and the measurement it last won its
/// place with.
#[derive(Copy, Debug)]
pub struct Candidate<P> {
    /// The parameter vector.
    pub params: P,
    /// The score of `stats`, or the infinite one.
    pub score: Score,
    /// The measurement, or nothing counted.
    pub stats: Stats,
}

impl<P: Copy> Clone for Candidate<P> {
    fn clone(&self) -> (c: Self)
        ensures
            c == *self,
    {
        *self
    }
}

/// The mixing function that `params` stand for under `strategy`.
pub open spec fn bound<S: Strategy>(strategy: &S, params: S::Params) -> Bound<'_, S> {
    Bound { strategy, params }
}

/// Whether an entry's score and measurement belong to its parameters: an
/// entry that was never measured has the infinite score and holds no counts;
/// any other holds a measurement of its parameters and that measurement's
/// score.
pub open spec fn settled<S: Strategy>(strategy: &S, c: Candidate<S::Params>) -> bool {
    match c.score {
        Score::Infinite => c.stats@ == Tally::zero(),
        Score::Finite(v) => v == score_numerator(c.stats@) && measurement(
            &bound(strategy, c.params),
            chunks_for(STAT_ROUNDS as nat),
            c.stats@,
        ),
    }
}

/// The lowest score in a population; the infinite one if it is empty.
pub open spec fn best_score<P>(population: Seq<Candidate<P>>) -> Score
    decreases population.len(),
{
    if population.len() == 0 {
        Score::Infinite
    } else {
        let rest = best_score(population.drop_last());
        if population.last().score.below(rest) {
            population.last().score
        } else {
            rest
        }
    }
}

/// Whether no entry comes before one with a higher score.
pub open spec fn ascending<P>(population: Seq<Candidate<P>>) -> bool {
    forall|i: int, j: int|
        0 <= i < j < population.len() ==> (#[trigger] population[i]).score.at_most(
            (#[trigger] population[j]).score,
        )
}

/// Whether entry `i` of `candidates` is in the better half once they are
/// sorted: those are varied, the others replaced.
pub open spec fn in_better_half(i: int, candidates: int) -> bool {
    i < candidates / 2
}

/// What greedy acceptance leaves in an entry's place: the proposal where it
/// scores strictly lower, the entry otherwise.
pub open spec fn accepted<P>(current: Candidate<P>, proposal: Candidate<P>) -> Candidate<P> {
    if proposal.score.below(current.score) {
        proposal
    } else {
        current
    }
}

/// Whether `chain` starts with generated parameters and goes on by
/// mutations.
pub open spec fn lineage<S: Strategy>(strategy: &S, chain: Seq<S::Params>) -> bool {
    &&& chain.len() > 0
    &&& strategy.generates(chain[0])
    &&& forall|k: int| 0 < k < chain.len() ==> strategy.mutates(chain[k - 1], #[trigger] chain[k])
}

/// Whether `params` can come of generating once and mutating any number of
/// times.
pub open spec fn derived<S: Strategy>(strategy: &S, params: S::Params) -> bool {
    exists|chain: Seq<S::Params>| #[trigger] lineage(strategy, chain) && chain.last() == params
}

/// Whether `params` can be proposed for entry `i` of a sorted population: a
/// mutation of the entry's own in the better half, fresh ones in the other.
pub open spec fn proposed<S: Strategy>(
    strategy: &S,
    population: Seq<Candidate<S::Params>>,
    i: int,
    params: S::Params,
) -> bool {
    if in_better_half(i, population.len() as int) {
        strategy.mutates(population[i].params, params)
    } else {
        strategy.generates(params)
    }
}

/// Whether `proposal` can be made for entry `i` of a sorted population: its
/// parameters can be proposed, and it holds their measurement and score.
pub open spec fn proposal_for<S: Strategy>(
    strategy: &S,
    sorted: Seq<Candidate<S::Params>>,
    i: int,
    proposal: Candidate<S::Params>,
) -> bool {
    &&& proposed(strategy, sorted, i, proposal.params)
    &&& proposal.score is Finite
    &&& settled(strategy, proposal)
}

/// Whether a round can leave `after` in place `i` of a sorted population:
/// some proposal for the entry was accepted or not.
pub open spec fn slot_outcome<S: Strategy>(
    strategy: &S,
    sorted: Seq<Candidate<S::Params>>,
    i: int,
    after: Candidate<S::Params>,
) -> bool {
    exists|proposal: Candidate<S::Params>|
        proposal_for(strategy, sorted, i, proposal) && after == #[trigger] accepted(
            sorted[i],
            proposal,
        )
}

/// Whether a round can make `after` of one sorting of a population.
pub open spec fn round_from<S: Strategy>(
    strategy: &S,
    sorted: Seq<Candidate<S::Params>>,
    after: Seq<Candidate<S::Params>>,
) -> bool {
    &&& ascending(sorted)
    &&& after.len() == sorted.len()
    &&& forall|i: int|
        0 <= i < sorted.len() ==> slot_outcome(strategy, sorted, i, #[trigger] after[i])
}

/// Whether a round can make `after` of `before`: the population is sorted
/// by score, and then each entry stays or gives way to a proposal that scores
/// strictly lower.
pub open spec fn round_outcome<S: Strategy>(
    strategy: &S,
    before: Seq<Candidate<S::Params>>,
    after: Seq<Candidate<S::Params>>,
) -> bool {
    exists|sorted: Seq<Candidate<S::Params>>|
        sorted.to_multiset() == before.to_multiset() && #[trigger] round_from(
            strategy,
            sorted,
            after,
        )
}

/// Whether `population` is one that a search starts with: every entry is
/// generated and not measured yet.
pub open spec fn initial<S: Strategy>(strategy: &S, population: Seq<Candidate<S::Params>>) -> bool {
    forall|i: int|
        0 <= i < population.len() ==> (#[trigger] population[i]).score is Infinite
            && population[i].stats@ == Tally::zero() && strategy.generates(population[i].params)
}

/// Whether `populations` are those of a search, from the one it starts with
/// to the one after its last round.
pub open spec fn history<S: Strategy>(
    strategy: &S,
    populations: Seq<Seq<Candidate<S::Params>>>,
) -> bool {
    &&& populations.len() > 0
    &&& initial(strategy, populations[0])
    &&& forall|r: int|
        0 < r < populations.len() ==> round_outcome(
            strategy,
            populations[r - 1],
            #[trigger] populations[r],
        )
}

/// Whether entry `k` has the lowest score, and is the first that has it.
pub open spec fn lowest_first<P>(population: Seq<Candidate<P>>, k: int) -> bool {
    &&& 0 <= k < population.len()
    &&& population[k].score == best_score(population)
    &&& forall|j: int| 0 <= j < k ==> population[k].score.below((#[trigger] population[j]).score)
}

/// Whether a search of `rounds` rounds over `candidates` entries can return
/// `best`: the parameters and the measurement of the first entry with the
/// lowest score in the population after the last round.
pub open spec fn search_outcome<S: Strategy>(
    strategy: &S,
    rounds: nat,
    candidates: nat,
    best: (S::Params, Stats),
) -> bool {
    exists|populations: Seq<Seq<Candidate<S::Params>>>, k: int|
        {
            &&& #[trigger] history(strategy, populations)
            &&& populations.len() == rounds + 1
            &&& populations[0].len() == candidates
            &&& #[trigger] lowest_first(populations.last(), k)
            &&& best == (populations.last()[k].params, populations.last()[k].stats)
        }
}

/// No entry scores below the best.
pub proof fn lemma_best_is_lowest<P>(population: Seq<Candidate<P>>, i: int)
    requires
        0 <= i < population.len(),
    ensures
        best_score(population).at_most(population[i].score),
    decreases population.len(),
{
    if i < population.len() - 1 {
        lemma_best_is_lowest(population.drop_last(), i);
    }
}

/// Some entry has the best score.
pub proof fn lemma_best_is_held<P>(population: Seq<Candidate<P>>) -> (i: int)
    requires
        population.len() > 0,
    ensures
        0 <= i < population.len(),
        population[i].score == best_score(population),
    decreases population.len(),
{
    let rest = population.drop_last();
    if population.last().score.below(best_score(rest)) || rest.len() == 0 {
        population.len() - 1
    } else {
        lemma_best_is_held(rest)
    }
}

/// The best score does not depend on the order of the entries.
pub proof fn lemma_best_reordered<P>(a: Seq<Candidate<P>>, b: Seq<Candidate<P>>)
    requires
        a.to_multiset() == b.to_multiset(),
    ensures
        best_score(a) == best_score(b),
{
    vstd::seq_lib::to_multiset_len(a);
    vstd::seq_lib::to_multiset_len(b);
    if a.len() > 0 {
        let i = lemma_best_is_held(a);
        let j = lemma_best_is_held(b);
        vstd::seq_lib::to_multiset_contains(a, a[i]);
        vstd::seq_lib::to_multiset_contains(b, a[i]);
        vstd::seq_lib::to_multiset_contains(a, b[j]);
        vstd::seq_lib::to_multiset_contains(b, b[j]);
        assert(a.contains(a[i]));
        assert(b.contains(b[j]));
        let i2 = choose|k: int| 0 <= k < b.len() && b[k] == a[i];
        let j2 = choose|k: int| 0 <= k < a.len() && a[k] == b[j];
        lemma_best_is_lowest(b, i2);
        lemma_best_is_lowest(a, j2);
    }
}

/// Greedy acceptance never raises the best score: an entry's score can only
/// fall, and with it the lowest of all.
pub proof fn lemma_acceptance_keeps_best<P>(
    population: Seq<Candidate<P>>,
    i: int,
    proposal: Candidate<P>,
)
    requires
        0 <= i < population.len(),
    ensures
        accepted(population[i], proposal).score.at_most(population[i].score),
        best_score(population.update(i, accepted(population[i], proposal))).at_most(
            best_score(population),
        ),
{
    let after = population.update(i, accepted(population[i], proposal));
    let j = lemma_best_is_held(population);
    lemma_best_is_lowest(after, j);
}

/// Generated parameters are derived.
pub proof fn lemma_generated_is_derived<S: Strategy>(strategy: &S, params: S::Params)
    requires
        strategy.generates(params),
    ensures
        derived(strategy, params),
{
    let chain = seq![params];
    assert(lineage(strategy, chain));
    assert(chain.last() == params);
}

/// A mutation of derived parameters is derived.
pub proof fn lemma_mutated_is_derived<S: Strategy>(strategy: &S, from: S::Params, to: S::Params)
    requires
        derived(strategy, from),
        strategy.mutates(from, to),
    ensures
        derived(strategy, to),
{
    let chain = choose|chain: Seq<S::Params>| #[trigger]
        lineage(strategy, chain) && chain.last() == from;
    let longer = chain.push(to);
    assert forall|k: int| 0 < k < longer.len() implies strategy.mutates(
        longer[k - 1],
        #[trigger] longer[k],
    ) by {
        if k < chain.len() {
            assert(longer[k] == chain[k]);
        }
    }
    assert(lineage(strategy, longer));
    assert(longer.last() == to);
}

/// Across a round the best score does not rise: sorting keeps the entries,
/// and greedy acceptance lets no entry's score rise.
pub proof fn lemma_round_keeps_best<S: Strategy>(
    strategy: &S,
    before: Seq<Candidate<S::Params>>,
    after: Seq<Candidate<S::Params>>,
)
    requires
        round_outcome(strategy, before, after),
    ensures
        best_score(after).at_most(best_score(before)),
{
    let sorted = choose|sorted: Seq<Candidate<S::Params>>|
        sorted.to_multiset() == before.to_multiset() && #[trigger] round_from(
            strategy,
            sorted,
            after,
        );
    lemma_best_reordered(sorted, before);
    if sorted.len() > 0 {
        let j = lemma_best_is_held(sorted);
        assert(slot_outcome(strategy, sorted, j, after[j]));
        lemma_best_is_lowest(after, j);
    }
}

/// After a round of a population whose entries are settled, every entry is
/// settled and measured.
pub proof fn lemma_round_settles<S: Strategy>(
    strategy: &S,
    before: Seq<Candidate<S::Params>>,
    after: Seq<Candidate<S::Params>>,
)
    requires
        round_outcome(strategy, before, after),
        forall|i: int| 0 <= i < before.len() ==> settled(strategy, #[trigger] before[i]),
    ensures
        after.len() == before.len(),
        forall|i: int|
            0 <= i < after.len() ==> settled(strategy, #[trigger] after[i]) && after[i].score
                is Finite,
{
    let sorted = choose|sorted: Seq<Candidate<S::Params>>|
        sorted.to_multiset() == before.to_multiset() && #[trigger] round_from(
            strategy,
            sorted,
            after,
        );
    vstd::seq_lib::to_multiset_len(sorted);
    vstd::seq_lib::to_multiset_len(before);
    assert forall|i: int| 0 <= i < after.len() implies settled(strategy, #[trigger] after[i])
        && after[i].score is Finite by {
        vstd::seq_lib::to_multiset_contains(sorted, sorted[i]);
        vstd::seq_lib::to_multiset_contains(before, sorted[i]);
        assert(sorted.contains(sorted[i]));
        let k = choose|k: int| 0 <= k < before.len() && before[k] == sorted[i];
        assert(settled(strategy, before[k]));
        assert(slot_outcome(strategy, sorted, i, after[i]));
    }
}

/// After a round of a population whose parameters are derived, every
/// entry's parameters are derived.
pub proof fn lemma_round_derives<S: Strategy>(
    strategy: &S,
    before: Seq<Candidate<S::Params>>,
    after: Seq<Candidate<S::Params>>,
)
    requires
        round_outcome(strategy, before, after),
        forall|i: int| 0 <= i < before.len() ==> derived(strategy, (#[trigger] before[i]).params),
    ensures
        forall|i: int| 0 <= i < after.len() ==> derived(strategy, (#[trigger] after[i]).params),
{
    let sorted = choose|sorted: Seq<Candidate<S::Params>>|
        sorted.to_multiset() == before.to_multiset() && #[trigger] round_from(
            strategy,
            sorted,
            after,
        );
    assert forall|i: int| 0 <= i < after.len() implies derived(
        strategy,
        (#[trigger] after[i]).params,
    ) by {
        vstd::seq_lib::to_multiset_contains(sorted, sorted[i]);
        vstd::seq_lib::to_multiset_contains(before, sorted[i]);
        assert(sorted.contains(sorted[i]));
        let k = choose|k: int| 0 <= k < before.len() && before[k] == sorted[i];
        assert(derived(strategy, before[k].params));
        assert(slot_outcome(strategy, sorted, i, after[i]));
        let proposal = choose|proposal: Candidate<S::Params>|
            proposal_for(strategy, sorted, i, proposal) && after[i] == #[trigger] accepted(
                sorted[i],
                proposal,
            );
        if in_better_half(i, sorted.len() as int) {
            lemma_mutated_is_derived(strategy, sorted[i].params, proposal.params);
        } else {
            lemma_generated_is_derived(strategy, proposal.params);
        }
    }
}

/// Whether every entry is settled and has derived parameters.
pub open spec fn sound<S: Strategy>(strategy: &S, population: Seq<Candidate<S::Params>>) -> bool {
    forall|i: int|
        0 <= i < population.len() ==> settled(strategy, #[trigger] population[i]) && derived(
            strategy,
            population[i].params,
        )
}

/// Every population of a search is sound and has as many entries as the
/// first, and from the first round on every entry is measured.
pub proof fn lemma_history_sound<S: Strategy>(
    strategy: &S,
    populations: Seq<Seq<Candidate<S::Params>>>,
    r: int,
)
    requires
        history(strategy, populations),
        0 <= r < populations.len(),
    ensures
        sound(strategy, populations[r]),
        populations[r].len() == populations[0].len(),
        r > 0 ==> forall|i: int|
            0 <= i < populations[r].len() ==> (#[trigger] populations[r][i]).score is Finite,
    decreases r,
{
    if r == 0 {
        assert forall|i: int| 0 <= i < populations[0].len() implies settled(
            strategy,
            #[trigger] populations[0][i],
        ) && derived(strategy, populations[0][i].params) by {
            lemma_generated_is_derived(strategy, populations[0][i].params);
        }
    } else {
        lemma_history_sound(strategy, populations, r - 1);
        lemma_round_settles(strategy, populations[r - 1], populations[r]);
        lemma_round_derives(strategy, populations[r - 1], populations[r]);
    }
}

/// From round to round of a search the best score does not rise.
pub proof fn lemma_history_best_falls<S: Strategy>(
    strategy: &S,
    populations: Seq<Seq<Candidate<S::Params>>>,
    earlier: int,
    later: int,
)
    requires
        history(strategy, populations),
        0 <= earlier <= later < populations.len(),
    ensures
        best_score(populations[later]).at_most(best_score(populations[earlier])),
    decreases later - earlier,
{
    if earlier < later {
        lemma_history_best_falls(strategy, populations, earlier, later - 1);
        lemma_round_keeps_best(strategy, populations[later - 1], populations[later]);
    }
}

/// What a search returns is derived; after no rounds it is generated and not
/// measured, and after any it comes with a measurement of it.
pub proof fn lemma_search_result<S: Strategy>(
    strategy: &S,
    rounds: nat,
    candidates: nat,
    best: (S::Params, Stats),
)
    requires
        search_outcome(strategy, rounds, candidates, best),
    ensures
        derived(strategy, best.0),
        rounds == 0 ==> best.1@ == Tally::zero() && strategy.generates(best.0),
        rounds > 0 ==> measurement(
            &bound(strategy, best.0),
            chunks_for(STAT_ROUNDS as nat),
            best.1@,
        ),
{
    let (populations, k) = choose|populations: Seq<Seq<Candidate<S::Params>>>, k: int|
        {
            &&& #[trigger] history(strategy, populations)
            &&& populations.len() == rounds + 1
            &&& populations[0].len() == candidates
            &&& #[trigger] lowest_first(populations.last(), k)
            &&& best == (populations.last()[k].params, populations.last()[k].stats)
        };
    lemma_history_sound(strategy, populations, rounds as int);
    let last = populations.last();
    assert(settled(strategy, last[k]) && derived(strategy, last[k].params));
}

/// A parameter vector that has not been measured yet.
pub fn fresh<P>(params: P) -> (c: Candidate<P>)
    ensures
        c.params == params,
        c.score == Score::Infinite,
        c.stats@ == Tally::zero(),
{
    Candidate { params, score: Score::Infinite, stats: Stats::zero() }
}

/// Measures what `params` stand for, and scores the measurement.
pub fn evaluate<S: Strategy + Sync>(strategy: &S, params: S::Params) -> (c: Candidate<S::Params>)
    requires
        strategy.valid(),
    ensures
        c.params == params,
        c.score is Finite,
        settled(strategy, c),
{
    let hash = Bound { strategy, params };
    let stats = measure_avalanche(&hash, STAT_ROUNDS);
    let value = score(&stats);
    Candidate { params, score: Score::Finite(value), stats }
}

/// Puts `proposal` in the place of entry `i` if it scores strictly lower,
/// and leaves the entry otherwise.
pub fn settle<P: Copy>(population: &mut Vec<Candidate<P>>, i: usize, proposal: Candidate<P>)
    requires
        i < old(population).len(),
    ensures
        final(population)@ == old(population)@.update(
            i as int,
            accepted(old(population)@[i as int], proposal),
        ),
{
    if proposal.score.is_below(&population[i].score) {
        population[i] = proposal;
    }
    assert(population@ =~= old(population)@.update(
        i as int,
        accepted(old(population)@[i as int], proposal),
    ));
}

/// The parameters proposed for entry `i`: a variation of the entry's own if
/// it is in the better half, fresh ones otherwise.
pub fn propose<S: Strategy>(
    strategy: &S,
    population: &Vec<Candidate<S::Params>>,
    i: usize,
) -> (p: S::Params)
    requires
        strategy.valid(),
        i < population.len(),
    ensures
        proposed(strategy, population@, i as int, p),
{
    if i < population.len() / 2 {
        strategy.mutate(population[i].params)
    } else {
        strategy.generate()
    }
}

/// Exchanging two entries keeps the entries.
proof fn lemma_exchange_keeps_entries<A>(s: Seq<A>, i: int, j: int)
    requires
        0 <= i < s.len(),
        0 <= j < s.len(),
    ensures
        s.update(i, s[j]).update(j, s[i]).to_multiset() == s.to_multiset(),
{
    broadcast use vstd::multiset::group_multiset_axioms;

    let half = s.update(i, s[j]);
    vstd::seq_lib::to_multiset_update(s, i, s[j]);
    vstd::seq_lib::to_multiset_update(half, j, s[i]);
    vstd::seq_lib::to_multiset_contains(s, s[i]);
    vstd::seq_lib::to_multiset_contains(s, s[j]);
    assert(s.contains(s[i]) && s.contains(s[j]));
    assert(half.update(j, s[i]).to_multiset() =~= s.to_multiset());
}

/// Whether the entries up to and with place `last` are in ascending order
/// but for the one in place `moving`, which may score below those before it
/// and does not score above those behind it.
spec fn ascending_but<P>(population: Seq<Candidate<P>>, last: int, moving: int) -> bool {
    &&& forall|a: int, b: int|
        0 <= a < b <= last && a != moving && b != moving ==> (
        #[trigger] population[a]).score.at_most((#[trigger] population[b]).score)
    &&& forall|b: int|
        moving < b <= last ==> population[moving].score.at_most((#[trigger] population[b]).score)
}

/// Sorts the population by score, lowest first.
pub fn sort_by_score<P: Copy>(population: &mut Vec<Candidate<P>>)
    ensures
        final(population)@.to_multiset() == old(population)@.to_multiset(),
        ascending(final(population)@),
{
    let count = population.len();
    let mut i: usize = 1;
    while i < count
        invariant
            1 <= i,
            count == population.len(),
            population@.to_multiset() == old(population)@.to_multiset(),
            forall|a: int, b: int|
                0 <= a < b < i && b < count ==> (#[trigger] population@[a]).score.at_most(
                    (#[trigger] population@[b]).score,
                ),
        decreases count - i,
    {
        let mut j: usize = i;
        while j > 0 && population[j].score.is_below(&population[j - 1].score)
            invariant
                j <= i < count,
                count == population.len(),
                population@.to_multiset() == old(population)@.to_multiset(),
                ascending_but(population@, i as int, j as int),
            decreases j,
        {
            let ghost before = population@;
            let lower = population[j];
            let upper = population[j - 1];
            population[j - 1] = lower;
            population[j] = upper;
            proof {
                lemma_exchange_keeps_entries(before, j - 1, j as int);
                assert(population@ =~= before.update(j - 1, before[j as int]).update(
                    j as int,
                    before[j - 1],
                ));
            }
            j -= 1;
        }
        i += 1;
    }
}

/// One round: sorts the population, then proposes, measures and settles
/// entry by entry.
pub fn run_round<S: Strategy + Sync>(strategy: &S, population: &mut Vec<Candidate<S::Params>>)
    requires
        strategy.valid(),
    ensures
        round_outcome(strategy, old(population)@, final(population)@),
        best_score(final(population)@).at_most(best_score(old(population)@)),
{
    sort_by_score(population);
    let ghost sorted = population@;
    let count = population.len();
    let mut i: usize = 0;
    while i < count
        invariant
            i <= count,
            count == population.len(),
            count == sorted.len(),
            strategy.valid(),
            forall|k: int|
                0 <= k < i ==> slot_outcome(strategy, sorted, k, #[trigger] population@[k]),
            forall|k: int| i <= k < count ==> #[trigger] population@[k] == sorted[k],
        decreases count - i,
    {
        let params = propose(strategy, population, i);
        let proposal = evaluate(strategy, params);
        assert(proposal_for(strategy, sorted, i as int, proposal));
        settle(population, i, proposal);
        assert(population@[i as int] == accepted(sorted[i as int], proposal));
        i += 1;
    }
    proof {
        assert(round_from(strategy, sorted, population@));
        lemma_round_keeps_best(strategy, old(population)@, population@);
    }
}

/// The place of the lowest score, the first of them if several entries
/// share it.
pub fn best_index<P>(population: &Vec<Candidate<P>>) -> (best: usize)
    requires
        population.len() > 0,
    ensures
        lowest_first(population@, best as int),
{
    let mut best: usize = 0;
    let mut i: usize = 1;
    assert(best_score(population@.take(1).drop_last()) == Score::Infinite);
    while i < population.len()
        invariant
            1 <= i <= population.len(),
            best < i,
            population@[best as int].score == best_score(population@.take(i as int)),
            forall|k: int|
                0 <= k < best ==> population@[best as int].score.below(population@[k].score),
        decreases population.len() - i,
    {
        proof {
            assert(population@.take(i + 1).drop_last() =~= population@.take(i as int));
            assert forall|k: int| 0 <= k < i implies best_score(
                population@.take(i as int),
            ).at_most(population@[k].score) by {
                lemma_best_is_lowest(population@.take(i as int), k);
            }
        }
        if population[i].score.is_below(&population[best].score) {
            best = i;
        }
        i += 1;
    }
    assert(population@.take(i as int) =~= population@);
    best
}

/// Searches for parameters with a low score: `rounds` rounds over
/// `candidates` entries. Returns the parameters of the entry with the lowest
/// score, and the measurement they won their place with.
pub fn optimize<S: Strategy + Sync>(rounds: usize, candidates: usize, strategy: &S) -> (best: (
    S::Params,
    Stats,
))
    requires
        strategy.valid(),
        candidates > 0,
    ensures
        search_outcome(strategy, rounds as nat, candidates as nat, best),
        derived(strategy, best.0),
        rounds == 0 ==> best.1@ == Tally::zero() && strategy.generates(best.0),
        rounds > 0 ==> measurement(
            &bound(strategy, best.0),
            chunks_for(STAT_ROUNDS as nat),
            best.1@,
        ),
{
    let mut population: Vec<Candidate<S::Params>> = Vec::new();
    let mut i: usize = 0;
    while i < candidates
        invariant
            i <= candidates,
            population.len() == i,
            strategy.valid(),
            initial(strategy, population@),
        decreases candidates - i,
    {
        population.push(fresh(strategy.generate()));
        i += 1;
    }
    let ghost mut populations = seq![population@];
    let mut round: usize = 0;
    while round < rounds
        invariant
            round <= rounds,
            strategy.valid(),
            population.len() == candidates,
            history(strategy, populations),
            populations.len() == round + 1,
            populations[0].len() == candidates,
            populations.last() == population@,
        decreases rounds - round,
    {
        let ghost before = populations;
        run_round(strategy, &mut population);
        proof {
            populations = before.push(population@);
            assert forall|r: int| 0 < r < populations.len() implies round_outcome(
                strategy,
                populations[r - 1],
                #[trigger] populations[r],
            ) by {
                if r < before.len() {
                    assert(populations[r] == before[r]);
                    assert(populations[r - 1] == before[r - 1]);
                }
            }
            lemma_history_sound(strategy, populations, populations.len() - 1);
        }
        round += 1;
    }
    let k = best_index(&population);
    let best = (population[k].params, population[k].stats);
    proof {
        assert(lowest_first(populations.last(), k as int));
        assert(search_outcome(strategy, rounds as nat, candidates as nat, best));
        lemma_search_result(strategy, rounds as nat, candidates as nat, best);
    }
    best
}

} // verus!
