//! A population of candidate solutions for the genetic-family searches.
//!
//! A population is an ordered sequence of solutions over one dataset and
//! cluster count. Operators return new populations rather than mutating in
//! place, apart from targeted single-slot replacement; selection, elitism
//! and competition read the cached fitness keys and therefore require an
//! evaluated population, consuming no evaluation themselves.

use vstd::prelude::*;
use vstd::multiset::Multiset;
use vstd::pervasive::VecAdditionalExecFns;
use crate::counting::genes_below;
use crate::eval::FitnessEvaluationResult;
use crate::priority::{pq_contents, pq_into_sorted_vec, pq_new, pq_push};
use crate::rng::RandomGenerator;
use crate::solution::{Solution, same_solution, one_of, assignments_equal, crossed_from, segment_crossed_from};

verus! {

/// The cached fitness key of an evaluated solution.
pub open spec fn sol_key(s: Solution) -> u64 {
    s.cached_key().unwrap()
}

/// The index of the best (lowest-key) solution among the first `i`,
/// earliest index winning ties: the index the linear scan keeps.
pub open spec fn best_index_upto(s: Seq<Solution>, i: int) -> int
    decreases i,
{
    if i <= 1 {
        0
    } else {
        let prev = best_index_upto(s, i - 1);
        if sol_key(s[i - 1]) < sol_key(s[prev]) {
            i - 1
        } else {
            prev
        }
    }
}

/// The index of the worst (highest-key) solution among the first `i`,
/// earliest index winning ties.
pub open spec fn worst_index_upto(s: Seq<Solution>, i: int) -> int
    decreases i,
{
    if i <= 1 {
        0
    } else {
        let prev = worst_index_upto(s, i - 1);
        if sol_key(s[i - 1]) > sol_key(s[prev]) {
            i - 1
        } else {
            prev
        }
    }
}

/// The scan index stays in range and names a minimum.
pub proof fn lemma_best_index_upto(s: Seq<Solution>, i: int)
    requires
        1 <= i <= s.len(),
    ensures
        0 <= best_index_upto(s, i) < i,
        forall|j: int| 0 <= j < i ==> sol_key(s[best_index_upto(s, i)]) <= sol_key(#[trigger] s[j]),
    decreases i,
{
    if i > 1 {
        lemma_best_index_upto(s, i - 1);
    }
}

/// The scan index stays in range and names a maximum.
pub proof fn lemma_worst_index_upto(s: Seq<Solution>, i: int)
    requires
        1 <= i <= s.len(),
    ensures
        0 <= worst_index_upto(s, i) < i,
        forall|j: int|
            0 <= j < i ==> sol_key(s[worst_index_upto(s, i)]) >= sol_key(#[trigger] s[j]),
    decreases i,
{
    if i > 1 {
        lemma_worst_index_upto(s, i - 1);
    }
}

/// One steady-state duel: the candidate overwrites the slot of the current
/// worst individual exactly when the candidate's fitness key is strictly
/// lower; otherwise the population is left as it is.
pub open spec fn compete_step(pop: Seq<Solution>, candidate: Solution) -> Seq<Solution> {
    let w = worst_index_upto(pop, pop.len() as int);
    if sol_key(candidate) < sol_key(pop[w]) {
        pop.update(w, candidate)
    } else {
        pop
    }
}

/// The first `i` candidates, applied to the population in order, each by
/// one steady-state duel.
pub open spec fn compete_fold(pop: Seq<Solution>, candidates: Seq<Solution>, i: int) -> Seq<
    Solution,
>
    decreases i,
{
    if i <= 0 {
        pop
    } else {
        compete_step(compete_fold(pop, candidates, i - 1), candidates[i - 1])
    }
}

/// Folding duels never changes the population's size.
pub proof fn lemma_compete_fold_len(pop: Seq<Solution>, candidates: Seq<Solution>, i: int)
    requires
        pop.len() > 0,
    ensures
        compete_fold(pop, candidates, i).len() == pop.len(),
    decreases i,
{
    if i > 0 {
        lemma_compete_fold_len(pop, candidates, i - 1);
        let prev = compete_fold(pop, candidates, i - 1);
        lemma_worst_index_upto(prev, prev.len() as int);
        assert(compete_step(prev, candidates[i - 1]).len() == prev.len());
    }
}

/// Two populations whose solutions agree slot by slot have their worst
/// individual at the same index: the scan reads only the cached keys.
proof fn lemma_worst_index_congruent(s1: Seq<Solution>, s2: Seq<Solution>, i: int)
    requires
        s1.len() == s2.len(),
        forall|j: int| 0 <= j < s1.len() ==> same_solution(#[trigger] s1[j], s2[j]),
        1 <= i <= s1.len(),
    ensures
        worst_index_upto(s1, i) == worst_index_upto(s2, i),
    decreases i,
{
    if i > 1 {
        lemma_worst_index_congruent(s1, s2, i - 1);
        lemma_worst_index_upto(s1, i - 1);
    }
}

/// Number of solutions among the first `i` whose fitness key is not cached:
/// what evaluating them all costs.
pub open spec fn uncached_count(s: Seq<Solution>, i: int) -> nat
    decreases i,
{
    if i <= 0 {
        0
    } else {
        uncached_count(s, i - 1) + if s[i - 1].cached_key() is None {
            1nat
        } else {
            0nat
        }
    }
}

/// An ordered collection of solutions bred and culled together.
pub struct Population {
    individuals: Vec<Solution>,
}

impl Population {
    /// The solutions, in order.
    pub closed spec fn individuals(&self) -> Seq<Solution> {
        self.individuals@
    }

    /// Every individual has its fitness key cached.
    pub open spec fn all_cached(&self) -> bool {
        forall|i: int|
            0 <= i < self.individuals().len() ==> (#[trigger] self.individuals()[i]).cached_key()
                is Some
    }

    /// No individual has its fitness key cached.
    pub open spec fn none_cached(&self) -> bool {
        forall|i: int|
            0 <= i < self.individuals().len() ==> (#[trigger] self.individuals()[i]).cached_key()
                is None
    }

    /// The shared cluster count: the first individual's.
    pub open spec fn pop_k(&self) -> u32 {
        self.individuals()[0].spec_k()
    }

    /// The shared dataset size: the first individual's.
    pub open spec fn pop_n(&self) -> int {
        self.individuals()[0].spec_n()
    }

    /// Every individual belongs to the same problem: same cluster count and
    /// dataset size, an assignment of the dataset's length, genes in range.
    pub open spec fn uniform_shape(&self) -> bool {
        forall|i: int|
            0 <= i < self.individuals().len() ==> {
                let s = #[trigger] self.individuals()[i];
                &&& s.spec_k() == self.pop_k()
                &&& s.spec_n() == self.pop_n()
                &&& s.assignment().len() == s.spec_n()
                &&& genes_below(s.assignment(), s.spec_k())
            }
    }

    /// A population without individuals.
    pub fn new_empty_population() -> (r: Self)
        ensures
            r.individuals() =~= Seq::<Solution>::empty(),
    {
        return Self { individuals: Vec::new() };
    }

    /// `population_size` random, unevaluated solutions over one problem.
    pub fn new_random_population(
        num_points: usize,
        number_of_clusters: u32,
        population_size: usize,
        rng: &mut RandomGenerator,
    ) -> (r: Self)
        requires
            number_of_clusters >= 1,
        ensures
            r.individuals().len() == population_size,
            population_size > 0 ==> r.pop_k() == number_of_clusters && r.pop_n() == num_points
                && r.uniform_shape(),
            r.none_cached(),
    {
        let mut individuals: Vec<Solution> = Vec::new();
        let mut i: usize = 0;
        while i < population_size
            invariant
                i <= population_size,
                number_of_clusters >= 1,
                individuals@.len() == i,
                forall|j: int|
                    0 <= j < i ==> {
                        let s = #[trigger] individuals@[j];
                        &&& s.spec_k() == number_of_clusters
                        &&& s.spec_n() == num_points
                        &&& s.assignment().len() == num_points
                        &&& genes_below(s.assignment(), number_of_clusters)
                        &&& s.cached_key() is None
                    },
            decreases population_size - i,
        {
            let new_individual = Solution::generate_random_solution(
                num_points,
                number_of_clusters,
                rng,
            );
            individuals.push(new_individual);
            i = i + 1;
        }
        return Self { individuals };
    }

    /// Number of individuals.
    pub fn population_size(&self) -> (r: usize)
        ensures
            r == self.individuals().len(),
    {
        return self.individuals.len();
    }

    pub fn get_individual(&self, index: usize) -> (r: &Solution)
        requires
            index < self.individuals().len(),
        ensures
            *r == self.individuals()[index as int],
    {
        return &self.individuals[index];
    }

    /// Replaces the individual at `index`.
    pub fn set_individual(&mut self, index: usize, individual: Solution)
        requires
            index < old(self).individuals().len(),
        ensures
            final(self).individuals() == old(self).individuals().update(
                index as int,
                individual,
            ),
    {
        self.individuals.set(index, individual);
    }

    /// The index of the best (lowest fitness key) individual, earliest on
    /// ties: the winner of the linear scan. The population being evaluated,
    /// the query consumes nothing.
    pub fn get_best_individual(&self) -> (r: FitnessEvaluationResult<usize>)
        requires
            self.individuals().len() > 0,
            self.all_cached(),
        ensures
            r.spec_consumed() == 0,
            r.spec_result() == best_index_upto(
                self.individuals(),
                self.individuals().len() as int,
            ),
            0 <= r.spec_result() < self.individuals().len(),
            forall|j: int|
                0 <= j < self.individuals().len() ==> sol_key(
                    self.individuals()[r.spec_result() as int],
                ) <= sol_key(#[trigger] self.individuals()[j]),
    {
        let n = self.individuals.len();
        let mut best_index: usize = 0;
        let mut best_fitness = self.individuals[0].cached_fitness().unwrap();
        let mut index: usize = 1;
        while index < n
            invariant
                n == self.individuals().len(),
                self.all_cached(),
                1 <= index <= n,
                best_index < index,
                best_index == best_index_upto(self.individuals(), index as int),
                best_fitness == sol_key(self.individuals()[best_index as int]),
            decreases n - index,
        {
            let individual_fitness = self.individuals[index].cached_fitness().unwrap();
            if individual_fitness < best_fitness {
                best_index = index;
                best_fitness = individual_fitness;
            }
            index = index + 1;
        }
        proof {
            lemma_best_index_upto(self.individuals(), n as int);
        }
        return FitnessEvaluationResult::new(best_index, 0);
    }

    /// The index of the worst (highest fitness key) individual, earliest on
    /// ties.
    pub fn get_index_worst_individual(&self) -> (r: FitnessEvaluationResult<usize>)
        requires
            self.individuals().len() > 0,
            self.all_cached(),
        ensures
            r.spec_consumed() == 0,
            r.spec_result() == worst_index_upto(
                self.individuals(),
                self.individuals().len() as int,
            ),
            0 <= r.spec_result() < self.individuals().len(),
            forall|j: int|
                0 <= j < self.individuals().len() ==> sol_key(
                    self.individuals()[r.spec_result() as int],
                ) >= sol_key(#[trigger] self.individuals()[j]),
    {
        let n = self.individuals.len();
        let mut worst_index: usize = 0;
        let mut worst_fitness = self.individuals[0].cached_fitness().unwrap();
        let mut index: usize = 1;
        while index < n
            invariant
                n == self.individuals().len(),
                self.all_cached(),
                1 <= index <= n,
                worst_index < index,
                worst_index == worst_index_upto(self.individuals(), index as int),
                worst_fitness == sol_key(self.individuals()[worst_index as int]),
            decreases n - index,
        {
            let individual_fitness = self.individuals[index].cached_fitness().unwrap();
            if individual_fitness > worst_fitness {
                worst_index = index;
                worst_fitness = individual_fitness;
            }
            index = index + 1;
        }
        proof {
            lemma_worst_index_upto(self.individuals(), n as int);
        }
        return FitnessEvaluationResult::new(worst_index, 0);
    }

    /// Whether every individual still awaits evaluation.
    pub fn all_population_is_not_cached(&self) -> (r: bool)
        ensures
            r == self.none_cached(),
    {
        let n = self.individuals.len();
        let mut i: usize = 0;
        while i < n
            invariant
                n == self.individuals().len(),
                i <= n,
                forall|j: int|
                    0 <= j < i ==> (#[trigger] self.individuals()[j]).cached_key() is None,
            decreases n - i,
        {
            if self.individuals[i].is_fitness_cached() {
                return false;
            }
            i = i + 1;
        }
        return true;
    }

    /// Whether every individual has been evaluated.
    pub fn all_population_is_cached(&self) -> (r: bool)
        ensures
            r == self.all_cached(),
    {
        let n = self.individuals.len();
        let mut i: usize = 0;
        while i < n
            invariant
                n == self.individuals().len(),
                i <= n,
                forall|j: int|
                    0 <= j < i ==> (#[trigger] self.individuals()[j]).cached_key() is Some,
            decreases n - i,
        {
            if self.individuals[i].is_fitness_cached() == false {
                return false;
            }
            i = i + 1;
        }
        return true;
    }

    /// Evaluates the whole population against the keys the evaluator
    /// computed, one per individual: already-evaluated individuals keep
    /// their key and cost nothing, the others store theirs and cost one
    /// evaluation each.
    pub fn evaluate_all_individuals(&mut self, computed: &Vec<u64>) -> (r:
        FitnessEvaluationResult<()>)
        requires
            computed@.len() == old(self).individuals().len(),
            old(self).individuals().len() <= u32::MAX,
        ensures
            final(self).individuals().len() == old(self).individuals().len(),
            final(self).all_cached(),
            forall|i: int|
                0 <= i < old(self).individuals().len() ==> {
                    let before = old(self).individuals()[i];
                    let after = #[trigger] final(self).individuals()[i];
                    &&& after.assignment() == before.assignment()
                    &&& after.spec_k() == before.spec_k()
                    &&& after.spec_n() == before.spec_n()
                    &&& after.cached_key() == (if before.cached_key() is Some {
                        before.cached_key()
                    } else {
                        Some(computed@[i])
                    })
                },
            r.spec_consumed() == uncached_count(
                old(self).individuals(),
                old(self).individuals().len() as int,
            ),
    {
        let n = self.individuals.len();
        let mut fit_evals_consumed: u32 = 0;
        let mut i: usize = 0;
        while i < n
            invariant
                n == self.individuals().len(),
                n == old(self).individuals().len(),
                n == computed@.len(),
                n <= u32::MAX,
                i <= n,
                fit_evals_consumed == uncached_count(old(self).individuals(), i as int),
                fit_evals_consumed <= i,
                forall|j: int|
                    i <= j < n ==> #[trigger] self.individuals()[j] == old(self).individuals()[j],
                forall|j: int|
                    0 <= j < i ==> {
                        let before = old(self).individuals()[j];
                        let after = #[trigger] self.individuals()[j];
                        &&& after.assignment() == before.assignment()
                        &&& after.spec_k() == before.spec_k()
                        &&& after.spec_n() == before.spec_n()
                        &&& after.cached_key() == (if before.cached_key() is Some {
                            before.cached_key()
                        } else {
                            Some(computed@[j])
                        })
                    },
            decreases n - i,
        {
            let was_cached = self.individuals[i].is_fitness_cached();
            if was_cached == false {
                let key = computed[i];
                let mut individual = self.individuals.remove(i);
                let (_value, consumed) = individual.fitness_and_consumed(key);
                self.individuals.insert(i, individual);
                fit_evals_consumed = fit_evals_consumed + consumed;
            }
            i = i + 1;
        }
        return FitnessEvaluationResult::new((), fit_evals_consumed);
    }

    /// Builds a new population of the requested size by repeating a binary
    /// tournament: two individuals drawn uniformly at random with
    /// replacement, the one with the lower fitness key kept. On an
    /// evaluated population this consumes no evaluation.
    pub fn select_population_binary_tournament(
        &self,
        new_population_size: usize,
        rng: &mut RandomGenerator,
    ) -> (r: FitnessEvaluationResult<Population>)
        requires
            self.individuals().len() > 0,
            self.all_cached(),
        ensures
            r.spec_consumed() == 0,
            r.spec_result().individuals().len() == new_population_size,
            forall|i: int|
                0 <= i < new_population_size ==> one_of(
                    #[trigger] r.spec_result().individuals()[i],
                    self.individuals(),
                ),
    {
        let mut new_individuals: Vec<Solution> = Vec::new();
        let mut i: usize = 0;
        while i < new_population_size
            invariant
                self.individuals().len() > 0,
                self.all_cached(),
                i <= new_population_size,
                new_individuals@.len() == i,
                forall|a: int|
                    0 <= a < i ==> one_of(#[trigger] new_individuals@[a], self.individuals()),
            decreases new_population_size - i,
        {
            let first_index = rng.gen_index(self.individuals.len());
            let second_index = rng.gen_index(self.individuals.len());
            let first_candidate = &self.individuals[first_index];
            let second_candidate = &self.individuals[second_index];
            let (winner, _consumed) = Solution::binary_tournament(
                first_candidate,
                second_candidate,
            );
            let kept = winner.copy();
            proof {
                if first_candidate.cached_key().unwrap() < second_candidate.cached_key().unwrap() {
                    assert(same_solution(kept, self.individuals()[first_index as int]));
                } else {
                    assert(same_solution(kept, self.individuals()[second_index as int]));
                }
                assert(one_of(kept, self.individuals()));
            }
            new_individuals.push(kept);
            i = i + 1;
        }
        let result_population = Population { individuals: new_individuals };
        return FitnessEvaluationResult::new(result_population, 0);
    }

    /// Appends one individual at the end.
    pub fn push_individual(&mut self, individual: Solution)
        ensures
            final(self).individuals() == old(self).individuals().push(individual),
    {
        self.individuals.push(individual);
    }
}

impl Population {
    /// Crosses the first `individuals_to_cross` individuals in adjacent
    /// pairs with the uniform crossover, leaving the rest untouched.
    /// Crossover performs no fitness evaluation: the children come back
    /// valid and unevaluated.
    pub fn cross_population_uniform(
        &self,
        individuals_to_cross: usize,
        rng: &mut RandomGenerator,
    ) -> (r: FitnessEvaluationResult<Population>)
        requires
            individuals_to_cross <= self.individuals().len(),
            self.individuals().len() > 0,
            self.uniform_shape(),
            self.pop_n() >= self.pop_k(),
        ensures
            r.spec_consumed() == 0,
            r.spec_result().individuals().len() == self.individuals().len(),
            r.spec_result().pop_k() == self.pop_k(),
            r.spec_result().pop_n() == self.pop_n(),
            r.spec_result().uniform_shape(),
            forall|i: int|
                0 <= i < self.individuals().len() ==> same_solution(
                    #[trigger] r.spec_result().individuals()[i],
                    self.individuals()[i],
                ) || (r.spec_result().individuals()[i].spec_valid()
                    && r.spec_result().individuals()[i].cached_key() is None),
            forall|i: int|
                individuals_to_cross <= i < self.individuals().len() ==> same_solution(
                    #[trigger] r.spec_result().individuals()[i],
                    self.individuals()[i],
                ),
            forall|i: int|
                0 <= i < 2 * (individuals_to_cross as int / 2) ==> crossed_from(
                    #[trigger] r.spec_result().individuals()[i],
                    self.individuals()[i].assignment(),
                    self.individuals()[if i % 2 == 0 { i + 1 } else { i - 1 }].assignment(),
                    self.pop_k(),
                ) && r.spec_result().individuals()[i].spec_valid()
                    && r.spec_result().individuals()[i].cached_key() is None,
    {
        let len = self.individuals.len();
        let mut new_individuals = clone_individuals(&self.individuals);
        let mut index: usize = 0;
        while index < individuals_to_cross && index + 1 < individuals_to_cross
            invariant
                index <= individuals_to_cross,
                index % 2 == 0,
                individuals_to_cross <= len,
                len == self.individuals().len(),
                len > 0,
                self.uniform_shape(),
                self.pop_n() >= self.pop_k(),
                new_individuals@.len() == len,
                forall|i: int|
                    0 <= i < len ==> {
                        let s = #[trigger] new_individuals@[i];
                        &&& s.spec_k() == self.pop_k()
                        &&& s.spec_n() == self.pop_n()
                        &&& s.assignment().len() == s.spec_n()
                        &&& genes_below(s.assignment(), s.spec_k())
                    },
                forall|i: int|
                    0 <= i < len ==> same_solution(
                        #[trigger] new_individuals@[i],
                        self.individuals()[i],
                    ) || (new_individuals@[i].spec_valid() && new_individuals@[i].cached_key()
                        is None),
                forall|i: int|
                    index <= i < len ==> same_solution(
                        #[trigger] new_individuals@[i],
                        self.individuals()[i],
                    ),
                forall|i: int|
                    0 <= i < index ==> crossed_from(
                        #[trigger] new_individuals@[i],
                        self.individuals()[i].assignment(),
                        self.individuals()[if i % 2 == 0 { i + 1 } else { i - 1 }].assignment(),
                        self.pop_k(),
                    ) && new_individuals@[i].spec_valid() && new_individuals@[i].cached_key()
                        is None,
            decreases individuals_to_cross - index,
        {
            let first_child = Solution::uniform_cross(
                &self.individuals[index],
                &self.individuals[index + 1],
                rng,
            );
            new_individuals.set(index, first_child);
            let second_child = Solution::uniform_cross(
                &self.individuals[index + 1],
                &self.individuals[index],
                rng,
            );
            new_individuals.set(index + 1, second_child);
            proof {
                assert(crossed_from(
                    new_individuals@[index as int],
                    self.individuals()[index as int].assignment(),
                    self.individuals()[index + 1].assignment(),
                    self.pop_k(),
                ));
                assert(crossed_from(
                    new_individuals@[index + 1],
                    self.individuals()[index + 1].assignment(),
                    self.individuals()[index as int].assignment(),
                    self.pop_k(),
                ));
            }
            index = index + 2;
        }
        return FitnessEvaluationResult::new(Population { individuals: new_individuals }, 0);
    }

    /// Crosses the first `individuals_to_cross` individuals in adjacent
    /// pairs with the fixed-segment crossover, leaving the rest untouched.
    /// Crossover performs no fitness evaluation: the children come back
    /// valid and unevaluated.
    pub fn cross_population_segment(
        &self,
        individuals_to_cross: usize,
        rng: &mut RandomGenerator,
    ) -> (r: FitnessEvaluationResult<Population>)
        requires
            individuals_to_cross <= self.individuals().len(),
            self.individuals().len() > 0,
            self.uniform_shape(),
            self.pop_n() >= self.pop_k(),
            self.pop_n() >= 1,
            self.pop_n() < usize::MAX / 2,
        ensures
            r.spec_consumed() == 0,
            r.spec_result().individuals().len() == self.individuals().len(),
            r.spec_result().pop_k() == self.pop_k(),
            r.spec_result().pop_n() == self.pop_n(),
            r.spec_result().uniform_shape(),
            forall|i: int|
                0 <= i < self.individuals().len() ==> same_solution(
                    #[trigger] r.spec_result().individuals()[i],
                    self.individuals()[i],
                ) || (r.spec_result().individuals()[i].spec_valid()
                    && r.spec_result().individuals()[i].cached_key() is None),
            forall|i: int|
                individuals_to_cross <= i < self.individuals().len() ==> same_solution(
                    #[trigger] r.spec_result().individuals()[i],
                    self.individuals()[i],
                ),
            forall|i: int|
                0 <= i < 2 * (individuals_to_cross as int / 2) ==> segment_crossed_from(
                    #[trigger] r.spec_result().individuals()[i],
                    self.individuals()[i].assignment(),
                    self.individuals()[if i % 2 == 0 { i + 1 } else { i - 1 }].assignment(),
                    self.pop_k(),
                ) && r.spec_result().individuals()[i].spec_valid()
                    && r.spec_result().individuals()[i].cached_key() is None,
    {
        let len = self.individuals.len();
        let mut new_individuals = clone_individuals(&self.individuals);
        let mut index: usize = 0;
        while index < individuals_to_cross && index + 1 < individuals_to_cross
            invariant
                index <= individuals_to_cross,
                index % 2 == 0,
                individuals_to_cross <= len,
                len == self.individuals().len(),
                len > 0,
                self.uniform_shape(),
                self.pop_n() >= self.pop_k(),
                self.pop_n() >= 1,
                self.pop_n() < usize::MAX / 2,
                new_individuals@.len() == len,
                forall|i: int|
                    0 <= i < len ==> {
                        let s = #[trigger] new_individuals@[i];
                        &&& s.spec_k() == self.pop_k()
                        &&& s.spec_n() == self.pop_n()
                        &&& s.assignment().len() == s.spec_n()
                        &&& genes_below(s.assignment(), s.spec_k())
                    },
                forall|i: int|
                    0 <= i < len ==> same_solution(
                        #[trigger] new_individuals@[i],
                        self.individuals()[i],
                    ) || (new_individuals@[i].spec_valid() && new_individuals@[i].cached_key()
                        is None),
                forall|i: int|
                    index <= i < len ==> same_solution(
                        #[trigger] new_individuals@[i],
                        self.individuals()[i],
                    ),
                forall|i: int|
                    0 <= i < index ==> segment_crossed_from(
                        #[trigger] new_individuals@[i],
                        self.individuals()[i].assignment(),
                        self.individuals()[if i % 2 == 0 { i + 1 } else { i - 1 }].assignment(),
                        self.pop_k(),
                    ) && new_individuals@[i].spec_valid() && new_individuals@[i].cached_key()
                        is None,
            decreases individuals_to_cross - index,
        {
            let first_child = Solution::cross_segment(
                &self.individuals[index],
                &self.individuals[index + 1],
                rng,
            );
            new_individuals.set(index, first_child);
            let second_child = Solution::cross_segment(
                &self.individuals[index + 1],
                &self.individuals[index],
                rng,
            );
            new_individuals.set(index + 1, second_child);
            proof {
                assert(segment_crossed_from(
                    new_individuals@[index as int],
                    self.individuals()[index as int].assignment(),
                    self.individuals()[index + 1].assignment(),
                    self.pop_k(),
                ));
                assert(segment_crossed_from(
                    new_individuals@[index + 1],
                    self.individuals()[index + 1].assignment(),
                    self.individuals()[index as int].assignment(),
                    self.pop_k(),
                ));
            }
            index = index + 2;
        }
        return FitnessEvaluationResult::new(Population { individuals: new_individuals }, 0);
    }

    /// Applies `individuals_to_mutate` mutation draws, each to a uniformly
    /// random individual (with replacement, so one individual can mutate
    /// more than once). Mutation performs no fitness evaluation.
    pub fn mutate_population(&self, individuals_to_mutate: usize, rng: &mut RandomGenerator) -> (r:
        Population)
        requires
            self.individuals().len() > 0,
            self.uniform_shape(),
            self.pop_n() > self.pop_k(),
            self.pop_k() >= 2,
        ensures
            r.individuals().len() == self.individuals().len(),
            r.pop_k() == self.pop_k(),
            r.pop_n() == self.pop_n(),
            r.uniform_shape(),
            forall|i: int|
                0 <= i < self.individuals().len() ==> same_solution(
                    #[trigger] r.individuals()[i],
                    self.individuals()[i],
                ) || (r.individuals()[i].spec_valid() && r.individuals()[i].cached_key() is None),
    {
        let len = self.individuals.len();
        let mut new_individuals = clone_individuals(&self.individuals);
        let mut round: usize = 0;
        while round < individuals_to_mutate
            invariant
                round <= individuals_to_mutate,
                len == self.individuals().len(),
                len > 0,
                self.uniform_shape(),
                self.pop_n() > self.pop_k(),
                self.pop_k() >= 2,
                new_individuals@.len() == len,
                forall|i: int|
                    0 <= i < len ==> {
                        let s = #[trigger] new_individuals@[i];
                        &&& s.spec_k() == self.pop_k()
                        &&& s.spec_n() == self.pop_n()
                        &&& s.assignment().len() == s.spec_n()
                        &&& genes_below(s.assignment(), s.spec_k())
                    },
                forall|i: int|
                    0 <= i < len ==> same_solution(
                        #[trigger] new_individuals@[i],
                        self.individuals()[i],
                    ) || (new_individuals@[i].spec_valid() && new_individuals@[i].cached_key()
                        is None),
            decreases individuals_to_mutate - round,
        {
            let random_index = rng.gen_index(len);
            let mutated = new_individuals[random_index].mutated(rng);
            new_individuals.set(random_index, mutated);
            round = round + 1;
        }
        return Population { individuals: new_individuals };
    }

    /// Walks every individual and rolls the per-gene mutation probability
    /// (given as a ratio) once per gene; each success mutates that
    /// individual. Mutation performs no fitness evaluation.
    pub fn mutate_population_given_prob(
        &self,
        probability_numerator: u32,
        probability_denominator: u32,
        rng: &mut RandomGenerator,
    ) -> (r: Population)
        requires
            self.individuals().len() > 0,
            self.uniform_shape(),
            self.pop_n() > self.pop_k(),
            self.pop_k() >= 2,
            0 < probability_denominator,
            probability_numerator <= probability_denominator,
        ensures
            r.individuals().len() == self.individuals().len(),
            r.pop_k() == self.pop_k(),
            r.pop_n() == self.pop_n(),
            r.uniform_shape(),
            forall|i: int|
                0 <= i < self.individuals().len() ==> same_solution(
                    #[trigger] r.individuals()[i],
                    self.individuals()[i],
                ) || (r.individuals()[i].spec_valid() && r.individuals()[i].cached_key() is None),
    {
        let len = self.individuals.len();
        let gene_count = self.individuals[0].get_num_points();
        let mut new_individuals = clone_individuals(&self.individuals);
        let mut index: usize = 0;
        while index < len
            invariant
                index <= len,
                len == self.individuals().len(),
                len > 0,
                self.uniform_shape(),
                self.pop_n() > self.pop_k(),
                self.pop_k() >= 2,
                0 < probability_denominator,
                probability_numerator <= probability_denominator,
                new_individuals@.len() == len,
                forall|i: int|
                    0 <= i < len ==> {
                        let s = #[trigger] new_individuals@[i];
                        &&& s.spec_k() == self.pop_k()
                        &&& s.spec_n() == self.pop_n()
                        &&& s.assignment().len() == s.spec_n()
                        &&& genes_below(s.assignment(), s.spec_k())
                    },
                forall|i: int|
                    0 <= i < len ==> same_solution(
                        #[trigger] new_individuals@[i],
                        self.individuals()[i],
                    ) || (new_individuals@[i].spec_valid() && new_individuals@[i].cached_key()
                        is None),
            decreases len - index,
        {
            let mut gene: usize = 0;
            while gene < gene_count
                invariant
                    gene <= gene_count,
                    index < len,
                    len == self.individuals().len(),
                    len > 0,
                    self.uniform_shape(),
                    self.pop_n() > self.pop_k(),
                    self.pop_k() >= 2,
                    0 < probability_denominator,
                    probability_numerator <= probability_denominator,
                    new_individuals@.len() == len,
                    forall|i: int|
                        0 <= i < len ==> {
                            let s = #[trigger] new_individuals@[i];
                            &&& s.spec_k() == self.pop_k()
                            &&& s.spec_n() == self.pop_n()
                            &&& s.assignment().len() == s.spec_n()
                            &&& genes_below(s.assignment(), s.spec_k())
                        },
                    forall|i: int|
                        0 <= i < len ==> same_solution(
                            #[trigger] new_individuals@[i],
                            self.individuals()[i],
                        ) || (new_individuals@[i].spec_valid() && new_individuals@[i].cached_key()
                            is None),
                decreases gene_count - gene,
            {
                let do_mutation = rng.gen_ratio(probability_numerator, probability_denominator);
                if do_mutation {
                    let mutated = new_individuals[index].mutated(rng);
                    new_individuals.set(index, mutated);
                }
                gene = gene + 1;
            }
            index = index + 1;
        }
        return Population { individuals: new_individuals };
    }

    /// The position of the first individual whose assignment equals the
    /// given one, if any.
    fn search_individual_with_same_cluster_indixes(&self, cluster_indixes: &Vec<u32>) -> (r:
        Option<u32>)
        requires
            self.individuals().len() <= u32::MAX,
        ensures
            r matches Some(idx) ==> 0 <= idx < self.individuals().len()
                && self.individuals()[idx as int].assignment() == cluster_indixes@,
            r is None ==> forall|j: int|
                0 <= j < self.individuals().len() ==> (#[trigger] self.individuals()[j]).assignment()
                    != cluster_indixes@,
    {
        let n = self.individuals.len();
        let mut index: usize = 0;
        while index < n
            invariant
                n == self.individuals().len(),
                n <= u32::MAX,
                index <= n,
                forall|j: int|
                    0 <= j < index ==> (#[trigger] self.individuals()[j]).assignment()
                        != cluster_indixes@,
            decreases n - index,
        {
            let individual_indexes = self.individuals[index].get_cluster_indexes();
            if assignments_equal(&individual_indexes, cluster_indixes) {
                return Some(index as u32);
            }
            index = index + 1;
        }
        return None;
    }

    /// Elitism: if the best individual of the previous generation (matched
    /// by exact equality of the assignment vector) is absent from this
    /// population, it is reinserted at the index it held there; otherwise
    /// the population comes back unchanged. The previous generation being
    /// evaluated, nothing is consumed.
    pub fn preserve_best_past_parent(&self, original_population: &Population) -> (r:
        FitnessEvaluationResult<Population>)
        requires
            original_population.individuals().len() > 0,
            original_population.all_cached(),
            self.individuals().len() == original_population.individuals().len(),
            self.individuals().len() <= u32::MAX,
        ensures
            r.spec_consumed() == 0,
            r.spec_result().individuals().len() == self.individuals().len(),
            ({
                let b = best_index_upto(
                    original_population.individuals(),
                    original_population.individuals().len() as int,
                );
                let best = original_population.individuals()[b];
                if exists|i: int|
                    0 <= i < self.individuals().len() && (#[trigger] self.individuals()[i]).assignment()
                        == best.assignment() {
                    forall|i: int|
                        0 <= i < self.individuals().len() ==> same_solution(
                            #[trigger] r.spec_result().individuals()[i],
                            self.individuals()[i],
                        )
                } else {
                    same_solution(r.spec_result().individuals()[b], best) && forall|i: int|
                        0 <= i < self.individuals().len() && i != b ==> same_solution(
                            #[trigger] r.spec_result().individuals()[i],
                            self.individuals()[i],
                        )
                }
            }),
    {
        let best_result = original_population.get_best_individual();
        let best_index = *best_result.get_result();
        let best_individual = original_population.get_individual(best_index);
        let best_indexes = best_individual.get_cluster_indexes();

        let search_result = self.search_individual_with_same_cluster_indixes(&best_indexes);
        let new_individuals = clone_individuals(&self.individuals);
        let mut new_pop = Population { individuals: new_individuals };
        match search_result {
            Some(_) => {
                return FitnessEvaluationResult::new(new_pop, 0);
            },
            None => {
                new_pop.set_individual(best_index, best_individual.copy());
                return FitnessEvaluationResult::new(new_pop, 0);
            },
        }
    }

    /// Steady-state competition: each candidate replaces the current worst
    /// individual if and only if its fitness key is strictly lower. Every
    /// individual of the result comes from this population or from the
    /// candidates; both being evaluated, nothing is consumed.
    pub fn compete_with_new_individuals(&self, candidate_population: &Population) -> (r:
        FitnessEvaluationResult<Population>)
        requires
            self.individuals().len() > 0,
            self.all_cached(),
            candidate_population.all_cached(),
        ensures
            r.spec_consumed() == 0,
            r.spec_result().individuals().len() == self.individuals().len(),
            r.spec_result().all_cached(),
            forall|i: int|
                0 <= i < self.individuals().len() ==> one_of(
                    #[trigger] r.spec_result().individuals()[i],
                    self.individuals() + candidate_population.individuals(),
                ),
            forall|i: int|
                0 <= i < self.individuals().len() ==> same_solution(
                    #[trigger] r.spec_result().individuals()[i],
                    compete_fold(
                        self.individuals(),
                        candidate_population.individuals(),
                        candidate_population.individuals().len() as int,
                    )[i],
                ),
    {
        let ghost pool = self.individuals() + candidate_population.individuals();
        let ghost cands = candidate_population.individuals();
        let len = self.individuals.len();
        let candidate_count = candidate_population.population_size();
        let mut new_pop = Population { individuals: clone_individuals(&self.individuals) };
        proof {
            assert forall|i: int| 0 <= i < len implies one_of(
                #[trigger] new_pop.individuals()[i],
                pool,
            ) by {
                assert(pool[i] == self.individuals()[i]);
                assert(same_solution(new_pop.individuals()[i], pool[i]));
            }
        }
        let mut c: usize = 0;
        while c < candidate_count
            invariant
                candidate_count == candidate_population.individuals().len(),
                len == self.individuals().len(),
                len > 0,
                c <= candidate_count,
                candidate_population.all_cached(),
                pool == self.individuals() + candidate_population.individuals(),
                new_pop.individuals().len() == len,
                new_pop.all_cached(),
                cands == candidate_population.individuals(),
                forall|i: int|
                    0 <= i < len ==> one_of(#[trigger] new_pop.individuals()[i], pool),
                compete_fold(self.individuals(), cands, c as int).len() == len,
                forall|i: int|
                    0 <= i < len ==> same_solution(
                        #[trigger] new_pop.individuals()[i],
                        compete_fold(self.individuals(), cands, c as int)[i],
                    ),
            decreases candidate_count - c,
        {
            let ghost fold_before = compete_fold(self.individuals(), cands, c as int);
            let worst_result = new_pop.get_index_worst_individual();
            let worst_index = *worst_result.get_result();
            let worst_fitness = new_pop.get_individual(worst_index).cached_fitness().unwrap();
            let candidate = candidate_population.get_individual(c);
            let candidate_fitness = candidate.cached_fitness().unwrap();
            proof {
                lemma_worst_index_congruent(new_pop.individuals(), fold_before, len as int);
                assert(worst_index as int == worst_index_upto(fold_before, len as int));
                assert(worst_fitness == sol_key(fold_before[worst_index as int]));
                assert(candidate_fitness == sol_key(cands[c as int]));
                assert(compete_fold(self.individuals(), cands, c + 1) == compete_step(
                    fold_before,
                    cands[c as int],
                ));
                lemma_compete_fold_len(self.individuals(), cands, c + 1);
            }
            if candidate_fitness < worst_fitness {
                let replacement = candidate.copy();
                proof {
                    assert(pool[len + c] == candidate_population.individuals()[c as int]);
                    assert(same_solution(replacement, pool[len + c]));
                    assert(one_of(replacement, pool));
                    assert(compete_step(fold_before, cands[c as int]) == fold_before.update(
                        worst_index as int,
                        cands[c as int],
                    ));
                }
                new_pop.set_individual(worst_index, replacement);
            } else {
                proof {
                    assert(compete_step(fold_before, cands[c as int]) == fold_before);
                }
            }
            c = c + 1;
        }
        return FitnessEvaluationResult::new(new_pop, 0);
    }
}

/// The pairs queued while ranking the first `i` individuals: each index
/// under the priority `u64::MAX - key`, so that the queue's best is the
/// population's lowest key.
pub open spec fn queued_upto(s: Seq<Solution>, i: int) -> Multiset<(usize, u64)>
    decreases i,
{
    if i <= 0 {
        Multiset::<(usize, u64)>::empty()
    } else {
        queued_upto(s, i - 1).insert(((i - 1) as usize, (u64::MAX - sol_key(s[i - 1])) as u64))
    }
}

/// The queued pairs are exactly one canonical pair per ranked index.
proof fn lemma_queued_upto(s: Seq<Solution>, i: int)
    requires
        0 <= i <= s.len(),
        s.len() <= usize::MAX,
    ensures
        queued_upto(s, i).len() == i,
        forall|p: (usize, u64)|
            #[trigger] queued_upto(s, i).count(p) > 0 ==> p.0 < i && p.1 == (u64::MAX - sol_key(
                s[p.0 as int],
            )) as u64,
        forall|j: int|
            0 <= j < i ==> queued_upto(s, i).count(
                ((j as usize, (u64::MAX - sol_key(s[j])) as u64)),
            ) == 1,
    decreases i,
{
    broadcast use vstd::multiset::group_multiset_axioms;

    if i > 0 {
        lemma_queued_upto(s, i - 1);
    }
}

impl Population {
    /// The indices of the `number_of_individuals` individuals with the
    /// lowest fitness keys, best first: the slice the memetic searches
    /// intensify. Ranked through a priority queue over the cached keys of
    /// an evaluated population, so nothing is consumed.
    pub fn select_best_indixes(&self, number_of_individuals: usize) -> (r:
        FitnessEvaluationResult<Vec<u32>>)
        requires
            self.all_cached(),
            number_of_individuals <= self.individuals().len(),
            self.individuals().len() <= u32::MAX,
        ensures
            r.spec_consumed() == 0,
            r.spec_result()@.len() == number_of_individuals,
            forall|a: int|
                0 <= a < number_of_individuals ==> (#[trigger] r.spec_result()@[a])
                    < self.individuals().len(),
            forall|a: int, b: int|
                0 <= a < b < number_of_individuals ==> r.spec_result()@[a]
                    != r.spec_result()@[b],
            forall|a: int, j: u32|
                #![trigger r.spec_result()@[a], self.individuals()[j as int]]
                0 <= a < number_of_individuals && j < self.individuals().len()
                    && !r.spec_result()@.contains(j) ==> sol_key(
                    self.individuals()[r.spec_result()@[a] as int],
                ) <= sol_key(self.individuals()[j as int]),
            forall|a: int, b: int|
                0 <= a < b < number_of_individuals ==> sol_key(
                    self.individuals()[#[trigger] r.spec_result()@[a] as int],
                ) <= sol_key(self.individuals()[#[trigger] r.spec_result()@[b] as int]),
    {
        broadcast use vstd::multiset::group_multiset_axioms;

        let ghost inds = self.individuals();
        let n = self.individuals.len();
        let mut priority_queue = pq_new();
        let mut i: usize = 0;
        while i < n
            invariant
                n == inds.len(),
                inds == self.individuals(),
                self.all_cached(),
                i <= n,
                pq_contents(priority_queue) == queued_upto(inds, i as int),
            decreases n - i,
        {
            let key = self.individuals[i].cached_fitness().unwrap();
            let priority = u64::MAX - key;
            proof {
                lemma_queued_upto(inds, i as int);
                assert forall|p: u64| !pq_contents(priority_queue).contains((i, p)) by {
                    if pq_contents(priority_queue).count((i, p)) > 0 {
                        assert((i, p).0 < i);
                    }
                }
            }
            pq_push(&mut priority_queue, i, priority);
            i = i + 1;
        }
        let sorted_pairs = pq_into_sorted_vec(priority_queue);
        let ghost queued = queued_upto(inds, n as int);
        proof {
            lemma_queued_upto(inds, n as int);
            sorted_pairs@.to_multiset_ensures();
            assert(sorted_pairs@.len() == sorted_pairs@.to_multiset().len());
            assert(sorted_pairs@.len() == n);
            // Each drained pair is the canonical pair of its index.
            assert forall|a: int|
                0 <= a < sorted_pairs@.len() implies (#[trigger] sorted_pairs@[a]).0 < n
                && sorted_pairs@[a].1 == (u64::MAX - sol_key(inds[sorted_pairs@[a].0 as int]))
                as u64 by {
                assert(sorted_pairs@.contains(sorted_pairs@[a]));
                assert(queued.count(sorted_pairs@[a]) > 0);
            }
            // No pair is drained twice, so the drained indices are distinct.
            assert forall|x: (usize, u64)|
                sorted_pairs@.to_multiset().contains(x) implies sorted_pairs@.to_multiset().count(
                x,
            ) == 1 by {
                assert(queued.count(x) > 0);
                assert(x.1 == (u64::MAX - sol_key(inds[x.0 as int])) as u64);
            }
            sorted_pairs@.lemma_multiset_has_no_duplicates_conv();
            // Every index is drained somewhere.
            assert forall|j: u32| #![trigger inds[j as int]] j < n implies exists|b: int|
                0 <= b < sorted_pairs@.len() && (#[trigger] sorted_pairs@[b]).0 == j as usize by {
                let canonical = ((j as usize, (u64::MAX - sol_key(inds[j as int])) as u64));
                assert(queued.count(canonical) == 1);
                assert(sorted_pairs@.to_multiset().count(canonical) > 0);
                assert(sorted_pairs@.contains(canonical));
                let b = choose|b: int|
                    0 <= b < sorted_pairs@.len() && sorted_pairs@[b] == canonical;
                assert(sorted_pairs@[b].0 == j as usize);
            }
        }
        let mut best_indixes: Vec<u32> = Vec::new();
        let mut a: usize = 0;
        while a < number_of_individuals
            invariant
                number_of_individuals <= n,
                n == inds.len(),
                n <= u32::MAX,
                n == sorted_pairs@.len(),
                forall|x: int|
                    0 <= x < sorted_pairs@.len() ==> (#[trigger] sorted_pairs@[x]).0 < n,
                a <= number_of_individuals,
                best_indixes@.len() == a,
                forall|x: int|
                    0 <= x < a ==> (#[trigger] best_indixes@[x]) as usize == sorted_pairs@[x].0,
            decreases number_of_individuals - a,
        {
            let pair = sorted_pairs[a];
            best_indixes.push(pair.0 as u32);
            a = a + 1;
        }
        proof {
            // Distinctness carries over from the drained pairs.
            assert forall|x: int, y: int|
                0 <= x < y < number_of_individuals implies best_indixes@[x]
                != best_indixes@[y] by {
                assert(sorted_pairs@[x] != sorted_pairs@[y]);
                assert(sorted_pairs@[x].1 == (u64::MAX - sol_key(
                    inds[sorted_pairs@[x].0 as int],
                )) as u64);
                assert(sorted_pairs@[y].1 == (u64::MAX - sol_key(
                    inds[sorted_pairs@[y].0 as int],
                )) as u64);
            }
            // A kept index always has a key at most an unkept one's: the
            // unkept index was drained later, under a lower priority.
            assert forall|x: int, j: u32|
                0 <= x < number_of_individuals && j < n && !best_indixes@.contains(j) implies
                sol_key(inds[best_indixes@[x] as int]) <= sol_key(inds[j as int]) by {
                let jj = inds[j as int];
                assert(exists|b: int|
                    0 <= b < sorted_pairs@.len() && (#[trigger] sorted_pairs@[b]).0 == j as usize);
                let b = choose|b: int|
                    0 <= b < sorted_pairs@.len() && (#[trigger] sorted_pairs@[b]).0 == j as usize;
                if b < number_of_individuals {
                    assert(best_indixes@[b] as usize == sorted_pairs@[b].0);
                    assert(best_indixes@[b] == j);
                    assert(best_indixes@.contains(j));
                }
                assert(b >= number_of_individuals);
                assert(sorted_pairs@[x].1 >= sorted_pairs@[b].1);
                assert(sorted_pairs@[x].1 == (u64::MAX - sol_key(
                    inds[sorted_pairs@[x].0 as int],
                )) as u64);
                assert(sorted_pairs@[b].1 == (u64::MAX - sol_key(inds[j as int])) as u64);
                assert(best_indixes@[x] as usize == sorted_pairs@[x].0);
            }
            // The kept indices come best first: the queue drained them in
            // non-increasing priority, so in non-decreasing key order.
            assert forall|x: int, y: int|
                0 <= x < y < number_of_individuals implies sol_key(
                inds[best_indixes@[x] as int],
            ) <= sol_key(inds[best_indixes@[y] as int]) by {
                assert(sorted_pairs@[x].1 >= sorted_pairs@[y].1);
                assert(sorted_pairs@[x].1 == (u64::MAX - sol_key(
                    inds[sorted_pairs@[x].0 as int],
                )) as u64);
                assert(sorted_pairs@[y].1 == (u64::MAX - sol_key(
                    inds[sorted_pairs@[y].0 as int],
                )) as u64);
                assert(best_indixes@[x] as usize == sorted_pairs@[x].0);
                assert(best_indixes@[y] as usize == sorted_pairs@[y].0);
            }
        }
        return FitnessEvaluationResult::new(best_indixes, 0);
    }
}

impl Population {
    /// One full breeding pass of the generational model: tournament
    /// selection over the whole evaluated population, pairwise crossover of
    /// the head of the selection, mutation draws, and elitist reinsertion
    /// of the previous best. Its ledger total sums the selection cost, the
    /// crossover cost (always zero) and the elitism-check cost: on an
    /// evaluated population all of them are zero, and only evaluating the
    /// bred generation costs anything.
    pub fn breed_generation(
        &self,
        individuals_to_cross: usize,
        individuals_to_mutate: usize,
        cross_uniform: bool,
        rng: &mut RandomGenerator,
    ) -> (r: FitnessEvaluationResult<Population>)
        requires
            self.individuals().len() > 0,
            self.individuals().len() <= u32::MAX,
            self.all_cached(),
            self.uniform_shape(),
            self.pop_n() > self.pop_k(),
            self.pop_k() >= 2,
            self.pop_n() < usize::MAX / 2,
            individuals_to_cross <= self.individuals().len(),
        ensures
            r.spec_consumed() == 0,
            r.spec_result().individuals().len() == self.individuals().len(),
            r.spec_result().pop_k() == self.pop_k(),
            r.spec_result().pop_n() == self.pop_n(),
            r.spec_result().uniform_shape(),
            forall|i: int|
                0 <= i < r.spec_result().individuals().len() ==> one_of(
                    #[trigger] r.spec_result().individuals()[i],
                    self.individuals(),
                ) || (r.spec_result().individuals()[i].spec_valid()
                    && r.spec_result().individuals()[i].cached_key() is None),
            exists|i: int|
                0 <= i < r.spec_result().individuals().len() && (
                #[trigger] r.spec_result().individuals()[i]).assignment() == self.individuals()[
                    best_index_upto(self.individuals(), self.individuals().len() as int)
                ].assignment(),
    {
        let population_size = self.individuals.len();
        let mut consumed: u32 = 0;

        let selection_result = self.select_population_binary_tournament(population_size, rng);
        consumed = consumed + selection_result.get_iterations_consumed();
        let (selection, _) = selection_result.into_parts();
        proof {
            assert forall|i: int| 0 <= i < selection.individuals().len() implies {
                let s = #[trigger] selection.individuals()[i];
                &&& s.spec_k() == self.pop_k()
                &&& s.spec_n() == self.pop_n()
                &&& s.assignment().len() == s.spec_n()
                &&& genes_below(s.assignment(), s.spec_k())
            } by {
                let j = choose|j: int|
                    0 <= j < self.individuals().len() && same_solution(
                        selection.individuals()[i],
                        #[trigger] self.individuals()[j],
                    );
                assert(selection.individuals()[i].assignment()
                    == self.individuals()[j].assignment());
            }
            assert(selection.pop_k() == self.pop_k());
            assert(selection.pop_n() == self.pop_n());
            assert(selection.uniform_shape());
        }

        let crossed_result = if cross_uniform {
            selection.cross_population_uniform(individuals_to_cross, rng)
        } else {
            selection.cross_population_segment(individuals_to_cross, rng)
        };
        consumed = consumed + crossed_result.get_iterations_consumed();
        let (crossed, _) = crossed_result.into_parts();

        let mutated = crossed.mutate_population(individuals_to_mutate, rng);

        let preserved_result = mutated.preserve_best_past_parent(self);
        consumed = consumed + preserved_result.get_iterations_consumed();
        let (preserved, _) = preserved_result.into_parts();
        proof {
            let b = best_index_upto(self.individuals(), self.individuals().len() as int);
            lemma_best_index_upto(self.individuals(), self.individuals().len() as int);
            assert forall|i: int| 0 <= i < preserved.individuals().len() implies {
                let s = #[trigger] preserved.individuals()[i];
                &&& s.spec_k() == self.pop_k()
                &&& s.spec_n() == self.pop_n()
                &&& s.assignment().len() == s.spec_n()
                &&& genes_below(s.assignment(), s.spec_k())
            } by {
                if same_solution(preserved.individuals()[i], mutated.individuals()[i]) {
                    assert(preserved.individuals()[i].assignment()
                        == mutated.individuals()[i].assignment());
                } else {
                    assert(same_solution(preserved.individuals()[i], self.individuals()[b]));
                    assert(preserved.individuals()[i].assignment()
                        == self.individuals()[b].assignment());
                }
            }
            assert(preserved.pop_k() == self.pop_k());
            assert(preserved.pop_n() == self.pop_n());
            assert(preserved.uniform_shape());
            // Every bred slot comes from the parent population or is a
            // fresh valid, unevaluated child.
            assert forall|i: int| 0 <= i < preserved.individuals().len() implies one_of(
                #[trigger] preserved.individuals()[i],
                self.individuals(),
            ) || (preserved.individuals()[i].spec_valid() && preserved.individuals()[i].cached_key()
                is None) by {
                let pi = preserved.individuals()[i];
                if same_solution(pi, mutated.individuals()[i]) {
                    let mi = mutated.individuals()[i];
                    if same_solution(mi, crossed.individuals()[i]) {
                        let ci = crossed.individuals()[i];
                        if same_solution(ci, selection.individuals()[i]) {
                            let j = choose|j: int|
                                0 <= j < self.individuals().len() && same_solution(
                                    selection.individuals()[i],
                                    #[trigger] self.individuals()[j],
                                );
                            assert(same_solution(pi, self.individuals()[j]));
                            assert(one_of(pi, self.individuals()));
                        } else {
                            assert(pi.spec_valid() && pi.cached_key() is None);
                        }
                    } else {
                        assert(pi.spec_valid() && pi.cached_key() is None);
                    }
                } else {
                    assert(same_solution(pi, self.individuals()[b]));
                    assert(one_of(pi, self.individuals()));
                }
            }
            // Elitism: the previous best's assignment is present, either
            // because it survived breeding or because it was reinserted.
            let best = self.individuals()[b];
            if exists|j: int|
                0 <= j < mutated.individuals().len() && (#[trigger] mutated.individuals()[j]).assignment()
                    == best.assignment() {
                let j = choose|j: int|
                    0 <= j < mutated.individuals().len() && (
                    #[trigger] mutated.individuals()[j]).assignment() == best.assignment();
                assert(same_solution(preserved.individuals()[j], mutated.individuals()[j]));
                assert(preserved.individuals()[j].assignment() == best.assignment());
            } else {
                assert(same_solution(preserved.individuals()[b], best));
                assert(preserved.individuals()[b].assignment() == best.assignment());
            }
        }
        return FitnessEvaluationResult::new(preserved, consumed);
    }
}

/// The decision rule of the soft local search, for one visited point: given
/// one fitness key per cluster reassignment (`None` where the reassignment
/// would leave a cluster empty), the chosen cluster is the first one whose
/// key is no larger than any other valid one's.
pub fn select_best_reassignment(candidate_keys: &Vec<Option<u64>>) -> (r: usize)
    requires
        exists|c: int|
            0 <= c < candidate_keys@.len() && (#[trigger] candidate_keys@[c]) is Some,
    ensures
        r < candidate_keys@.len(),
        candidate_keys@[r as int] is Some,
        forall|c: int|
            0 <= c < candidate_keys@.len() && (#[trigger] candidate_keys@[c]) is Some
                ==> candidate_keys@[r as int].unwrap() <= candidate_keys@[c].unwrap(),
        forall|c: int|
            0 <= c < r && (#[trigger] candidate_keys@[c]) is Some ==> candidate_keys@[c].unwrap()
                > candidate_keys@[r as int].unwrap(),
{
    let len = candidate_keys.len();
    let mut best: Option<usize> = None;
    let mut c: usize = 0;
    while c < len
        invariant
            len == candidate_keys@.len(),
            c <= len,
            best is None ==> forall|d: int|
                0 <= d < c ==> (#[trigger] candidate_keys@[d]) is None,
            best matches Some(b) ==> {
                &&& b < c
                &&& candidate_keys@[b as int] is Some
                &&& forall|d: int|
                    0 <= d < c && (#[trigger] candidate_keys@[d]) is Some
                        ==> candidate_keys@[b as int].unwrap() <= candidate_keys@[d].unwrap()
                &&& forall|d: int|
                    0 <= d < b && (#[trigger] candidate_keys@[d]) is Some
                        ==> candidate_keys@[d].unwrap() > candidate_keys@[b as int].unwrap()
            },
        decreases len - c,
    {
        match candidate_keys[c] {
            Some(key) => {
                let replace: bool = match best {
                    None => true,
                    Some(b) => {
                        let best_key = candidate_keys[b].unwrap();
                        key < best_key
                    },
                };
                if replace {
                    best = Some(c);
                }
            },
            None => {},
        }
        c = c + 1;
    }
    match best {
        Some(b) => {
            return b;
        },
        None => {
            proof {
                let w = choose|w: int|
                    0 <= w < candidate_keys@.len() && (#[trigger] candidate_keys@[w]) is Some;
                assert(false);
            }
            return 0;
        },
    }
}

/// Copies a vector of solutions, element for element.
fn clone_individuals(v: &Vec<Solution>) -> (r: Vec<Solution>)
    ensures
        r@.len() == v@.len(),
        forall|i: int| 0 <= i < v@.len() ==> same_solution(#[trigger] r@[i], v@[i]),
{
    let n = v.len();
    let mut result: Vec<Solution> = Vec::new();
    let mut i: usize = 0;
    while i < n
        invariant
            n == v@.len(),
            i <= n,
            result@.len() == i,
            forall|j: int| 0 <= j < i ==> same_solution(#[trigger] result@[j], v@[j]),
        decreases n - i,
    {
        result.push(v[i].copy());
        i = i + 1;
    }
    return result;
}

} // verus!
