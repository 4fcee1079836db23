//! One candidate solution: a cluster assignment over a fixed dataset.
//!
//! Position `i` of the assignment vector holds the cluster of point `i`.
//! A solution is valid when the vector length matches the dataset size and
//! every cluster id below the cluster count has at least one member.
//!
//! The numeric fitness value is computed outside the library; it enters as
//! an order-preserving unsigned key (smaller key, better fitness) and is
//! cached here. The cache is invalidated exactly when the assignment
//! changes, and the ledger rule of `fitness_and_consumed` — a hit costs
//! nothing, a miss costs one evaluation — is part of its contract.

use vstd::prelude::*;
use vstd::pervasive::VecAdditionalExecFns;
use crate::constraints::{Constraints, ConstraintType};
use crate::counting::{
    cluster_count, genes_below, valid_assignment, empty_cluster_count, lemma_count_take_step,
    lemma_count_pos_iff_member, lemma_count_update, lemma_donor_exists,
    lemma_crowded_cluster_exists, lemma_empty_count_drops,
};
use crate::neighbour::NeighbourGenerator;
use crate::rng::RandomGenerator;

verus! {

/// Whether the assignment `s` breaks the single constraint `p`: a must-link
/// pair split over two clusters, or a cannot-link pair sharing one.
pub open spec fn pair_violated(s: Seq<u32>, p: (i32, i32, ConstraintType)) -> bool {
    match p.2 {
        ConstraintType::MustLink => s[p.0 as int] != s[p.1 as int],
        ConstraintType::CannotLink => s[p.0 as int] == s[p.1 as int],
    }
}

/// Number of constraints of `pairs` violated by the assignment `s`.
pub open spec fn spec_violations(s: Seq<u32>, pairs: Seq<(i32, i32, ConstraintType)>) -> nat
    decreases pairs.len(),
{
    if pairs.len() == 0 {
        0
    } else {
        spec_violations(s, pairs.drop_last()) + if pair_violated(s, pairs.last()) {
            1nat
        } else {
            0nat
        }
    }
}

/// Every constraint of `pairs` relates two point indices below `n`.
pub open spec fn pairs_in_range(pairs: Seq<(i32, i32, ConstraintType)>, n: int) -> bool {
    forall|i: int|
        0 <= i < pairs.len() ==> 0 <= (#[trigger] pairs[i]).0 < n && 0 <= pairs[i].1 < n
}

/// An assignment that never violates a constraint set violates none of it.
///
/// Law: the infeasibility of a solution is zero whenever every must-link
/// pair is co-clustered and every cannot-link pair is split.
pub proof fn lemma_no_violation_means_zero_infeasibility(
    s: Seq<u32>,
    pairs: Seq<(i32, i32, ConstraintType)>,
)
    requires
        forall|i: int| 0 <= i < pairs.len() ==> !pair_violated(s, #[trigger] pairs[i]),
    ensures
        spec_violations(s, pairs) == 0,
    decreases pairs.len(),
{
    if pairs.len() > 0 {
        assert(pairs.last() == pairs[pairs.len() - 1]);
        assert(forall|i: int|
            0 <= i < pairs.drop_last().len() ==> pairs.drop_last()[i] == pairs[i]);
        lemma_no_violation_means_zero_infeasibility(s, pairs.drop_last());
    }
}

/// Two solutions that agree in everything: assignment, cluster count,
/// dataset size and cached fitness key.
pub open spec fn same_solution(a: Solution, b: Solution) -> bool {
    &&& a.assignment() == b.assignment()
    &&& a.spec_k() == b.spec_k()
    &&& a.spec_n() == b.spec_n()
    &&& a.cached_key() == b.cached_key()
}

/// `s` agrees with one of the solutions of `pool`.
pub open spec fn one_of(s: Solution, pool: Seq<Solution>) -> bool {
    exists|j: int| 0 <= j < pool.len() && same_solution(s, #[trigger] pool[j])
}

/// One cluster assignment over a dataset of `num_points` points, split into
/// `number_of_clusters` clusters, with its cached fitness key.
pub struct Solution {
    cluster_indexes: Vec<u32>,
    number_of_clusters: u32,
    num_points: usize,
    fitness: Option<u64>,
}

impl Solution {
    /// The assignment vector: position `i` holds the cluster of point `i`.
    pub closed spec fn assignment(&self) -> Seq<u32> {
        self.cluster_indexes@
    }

    /// The fixed number of clusters.
    pub closed spec fn spec_k(&self) -> u32 {
        self.number_of_clusters
    }

    /// The size of the dataset the solution belongs to.
    pub closed spec fn spec_n(&self) -> int {
        self.num_points as int
    }

    /// The cached fitness key, if the solution has been evaluated.
    pub closed spec fn cached_key(&self) -> Option<u64> {
        self.fitness
    }

    /// Valid: length matches the dataset and no cluster is empty.
    pub open spec fn spec_valid(&self) -> bool {
        self.assignment().len() == self.spec_n() && valid_assignment(
            self.assignment(),
            self.spec_k(),
        )
    }

    /// Same dataset size and cluster count.
    pub open spec fn same_shape(&self, other: &Solution) -> bool {
        self.spec_k() == other.spec_k() && self.spec_n() == other.spec_n()
    }

    /// A fresh, not yet evaluated solution from an explicit assignment.
    pub fn new(cluster_indexes: Vec<u32>, num_points: usize, number_of_clusters: u32) -> (r: Self)
        ensures
            r.assignment() == cluster_indexes@,
            r.spec_k() == number_of_clusters,
            r.spec_n() == num_points,
            r.cached_key() is None,
    {
        return Self { cluster_indexes, number_of_clusters, num_points, fitness: None };
    }

    /// An exact copy, cached fitness key included.
    pub fn copy(&self) -> (r: Self)
        ensures
            r.assignment() == self.assignment(),
            r.spec_k() == self.spec_k(),
            r.spec_n() == self.spec_n(),
            r.cached_key() == self.cached_key(),
    {
        let indexes = clone_assignment(&self.cluster_indexes);
        return Self {
            cluster_indexes: indexes,
            number_of_clusters: self.number_of_clusters,
            num_points: self.num_points,
            fitness: self.fitness,
        };
    }

    /// A copy of the assignment vector.
    pub fn get_cluster_indexes(&self) -> (r: Vec<u32>)
        ensures
            r@ == self.assignment(),
    {
        return clone_assignment(&self.cluster_indexes);
    }

    /// The number of clusters the solution was built for.
    pub fn get_number_of_clusters(&self) -> (r: u32)
        ensures
            r == self.spec_k(),
    {
        return self.number_of_clusters;
    }

    /// The dataset size the solution was built for.
    pub fn get_num_points(&self) -> (r: usize)
        ensures
            r == self.spec_n(),
    {
        return self.num_points;
    }

    /// Whether the fitness key is cached.
    pub fn is_fitness_cached(&self) -> (r: bool)
        ensures
            r == (self.cached_key() is Some),
    {
        return self.fitness.is_some();
    }

    /// Forgets the cached fitness key: the next evaluation costs one.
    pub fn invalid_fitness_cache(&mut self)
        ensures
            final(self).cached_key() is None,
            final(self).assignment() == old(self).assignment(),
            final(self).spec_k() == old(self).spec_k(),
            final(self).spec_n() == old(self).spec_n(),
    {
        self.fitness = None;
    }

    /// The ledger rule of fitness evaluation: on a cache hit the cached key
    /// comes back and nothing is consumed; on a miss the freshly computed
    /// key (supplied by the evaluator) is stored and one evaluation is
    /// consumed. A second call therefore always returns the same key as the
    /// first and reports zero consumed evaluations.
    pub fn fitness_and_consumed(&mut self, computed: u64) -> (r: (u64, u32))
        ensures
            final(self).assignment() == old(self).assignment(),
            final(self).spec_k() == old(self).spec_k(),
            final(self).spec_n() == old(self).spec_n(),
            old(self).cached_key() matches Some(v) ==> r == (v, 0u32) && final(self).cached_key()
                == old(self).cached_key(),
            old(self).cached_key() is None ==> r == (computed, 1u32) && final(self).cached_key()
                == Some(computed),
    {
        match self.fitness {
            Some(value) => {
                return (value, 0);
            },
            None => {
                self.fitness = Some(computed);
                return (computed, 1);
            },
        }
    }

    /// The fitness key, from the cache or freshly stored.
    pub fn fitness(&mut self, computed: u64) -> (r: u64)
        ensures
            final(self).assignment() == old(self).assignment(),
            final(self).spec_k() == old(self).spec_k(),
            final(self).spec_n() == old(self).spec_n(),
            old(self).cached_key() matches Some(v) ==> r == v && final(self).cached_key() == old(
                self,
            ).cached_key(),
            old(self).cached_key() is None ==> r == computed && final(self).cached_key() == Some(
                computed,
            ),
    {
        let (value, _consumed) = self.fitness_and_consumed(computed);
        return value;
    }

    /// Checks that the vector length matches the dataset size and that no
    /// cluster below the cluster count is left without a member.
    pub fn is_valid(&self) -> (r: bool)
        ensures
            r == self.spec_valid(),
    {
        if self.cluster_indexes.len() != self.num_points {
            return false;
        }
        let k = self.number_of_clusters;
        let mut cluster: u32 = 0;
        while cluster < k
            invariant
                cluster <= k,
                k == self.spec_k(),
                forall|c: u32| c < cluster ==> cluster_count(self.assignment(), c) > 0,
            decreases k - cluster,
        {
            let found = assignment_contains(&self.cluster_indexes, cluster);
            proof {
                lemma_count_pos_iff_member(self.assignment(), cluster);
            }
            if !found {
                return false;
            }
            cluster = cluster + 1;
        }
        return true;
    }

    /// Counts the violated constraints: a must-link pair in two clusters or
    /// a cannot-link pair in one.
    pub fn infeasibility(&self, constraints: &Constraints) -> (r: u32)
        requires
            pairs_in_range(constraints.pairs(), self.assignment().len() as int),
            constraints.pairs().len() <= u32::MAX,
        ensures
            r == spec_violations(self.assignment(), constraints.pairs()),
    {
        let data = constraints.get_data();
        let n = data.len();
        let mut infea: u32 = 0;
        let mut i: usize = 0;
        while i < n
            invariant
                n == constraints.pairs().len(),
                n <= u32::MAX,
                i <= n,
                pairs_in_range(constraints.pairs(), self.assignment().len() as int),
                data@ == constraints.pairs(),
                infea == spec_violations(self.assignment(), constraints.pairs().take(i as int)),
                infea <= i,
            decreases n - i,
        {
            let pair = data[i];
            let first_cluster = self.cluster_indexes[pair.0 as usize];
            let second_cluster = self.cluster_indexes[pair.1 as usize];
            let violated: bool = match pair.2 {
                ConstraintType::MustLink => first_cluster != second_cluster,
                ConstraintType::CannotLink => first_cluster == second_cluster,
            };
            proof {
                let pairs = constraints.pairs();
                assert(pairs.take(i + 1).drop_last() =~= pairs.take(i as int));
                assert(pairs.take(i + 1).last() == pairs[i as int]);
                assert(violated == pair_violated(self.assignment(), pairs[i as int]));
            }
            if violated {
                infea = infea + 1;
            }
            i = i + 1;
        }
        proof {
            assert(constraints.pairs().take(n as int) =~= constraints.pairs());
        }
        return infea;
    }

    /// The indices of the points assigned to `cluster`, in increasing
    /// order; there are exactly as many as the cluster's member count.
    pub fn get_index_points_in_cluster(&self, cluster: u32) -> (r: Vec<usize>)
        ensures
            r@.len() == cluster_count(self.assignment(), cluster),
            forall|a: int|
                0 <= a < r@.len() ==> (#[trigger] r@[a]) < self.assignment().len()
                    && self.assignment()[r@[a] as int] == cluster,
            forall|a: int, b: int| 0 <= a < b < r@.len() ==> r@[a] < r@[b],
    {
        let n = self.cluster_indexes.len();
        let mut result: Vec<usize> = Vec::new();
        let mut i: usize = 0;
        while i < n
            invariant
                n == self.assignment().len(),
                i <= n,
                result@.len() == cluster_count(self.assignment().take(i as int), cluster),
                forall|a: int|
                    0 <= a < result@.len() ==> (#[trigger] result@[a]) < i
                        && self.assignment()[result@[a] as int] == cluster,
                forall|a: int, b: int| 0 <= a < b < result@.len() ==> result@[a] < result@[b],
            decreases n - i,
        {
            proof {
                lemma_count_take_step(self.assignment(), i as int, cluster);
            }
            if self.cluster_indexes[i] == cluster {
                result.push(i);
            }
            i = i + 1;
        }
        proof {
            assert(self.assignment().take(n as int) =~= self.assignment());
        }
        return result;
    }

    /// The cluster ids below the cluster count with at least two members,
    /// in increasing order: the clusters that can spare a point.
    pub fn get_clusters_with_more_than_one_point(&self) -> (r: Vec<u32>)
        ensures
            forall|a: int|
                0 <= a < r@.len() ==> (#[trigger] r@[a]) < self.spec_k() && cluster_count(
                    self.assignment(),
                    r@[a],
                ) >= 2,
            forall|c: u32|
                c < self.spec_k() && cluster_count(self.assignment(), c) >= 2 ==> r@.contains(c),
            forall|a: int, b: int| 0 <= a < b < r@.len() ==> r@[a] < r@[b],
    {
        let k = self.number_of_clusters;
        let mut result: Vec<u32> = Vec::new();
        let mut cluster: u32 = 0;
        while cluster < k
            invariant
                cluster <= k,
                k == self.spec_k(),
                forall|a: int|
                    0 <= a < result@.len() ==> (#[trigger] result@[a]) < cluster && cluster_count(
                        self.assignment(),
                        result@[a],
                    ) >= 2,
                forall|c: u32|
                    c < cluster && cluster_count(self.assignment(), c) >= 2 ==> result@.contains(
                        c,
                    ),
                forall|a: int, b: int| 0 <= a < b < result@.len() ==> result@[a] < result@[b],
            decreases k - cluster,
        {
            let members = count_points_in(&self.cluster_indexes, cluster);
            let ghost pre = result@;
            if members >= 2 {
                result.push(cluster);
            }
            proof {
                assert forall|c: u32|
                    c < cluster + 1 && cluster_count(self.assignment(), c) >= 2 implies result@.contains(
                    c,
                ) by {
                    if c == cluster {
                        assert(result@ == pre.push(cluster));
                        assert(result@[result@.len() - 1] == cluster);
                    } else {
                        assert(pre.contains(c));
                        let idx = choose|idx: int| 0 <= idx < pre.len() && pre[idx] == c;
                        assert(result@[idx] == c);
                    }
                }
            }
            cluster = cluster + 1;
        }
        return result;
    }

    /// The cluster ids below the cluster count without any member, in
    /// increasing order: the clusters that repair has to fill.
    pub fn get_cluster_without_points(&self) -> (r: Vec<u32>)
        ensures
            forall|a: int|
                0 <= a < r@.len() ==> (#[trigger] r@[a]) < self.spec_k() && cluster_count(
                    self.assignment(),
                    r@[a],
                ) == 0,
            forall|c: u32|
                c < self.spec_k() && cluster_count(self.assignment(), c) == 0 ==> r@.contains(c),
            forall|a: int, b: int| 0 <= a < b < r@.len() ==> r@[a] < r@[b],
            r@.len() == 0 <==> valid_assignment(self.assignment(), self.spec_k()),
    {
        let k = self.number_of_clusters;
        let mut result: Vec<u32> = Vec::new();
        let mut cluster: u32 = 0;
        while cluster < k
            invariant
                cluster <= k,
                k == self.spec_k(),
                forall|a: int|
                    0 <= a < result@.len() ==> (#[trigger] result@[a]) < cluster && cluster_count(
                        self.assignment(),
                        result@[a],
                    ) == 0,
                forall|c: u32|
                    c < cluster && cluster_count(self.assignment(), c) == 0 ==> result@.contains(
                        c,
                    ),
                forall|a: int, b: int| 0 <= a < b < result@.len() ==> result@[a] < result@[b],
            decreases k - cluster,
        {
            let members = count_points_in(&self.cluster_indexes, cluster);
            let ghost pre = result@;
            if members == 0 {
                result.push(cluster);
            }
            proof {
                assert forall|c: u32|
                    c < cluster + 1 && cluster_count(self.assignment(), c) == 0 implies result@.contains(
                    c,
                ) by {
                    if c == cluster {
                        assert(result@ == pre.push(cluster));
                        assert(result@[result@.len() - 1] == cluster);
                    } else {
                        assert(pre.contains(c));
                        let idx = choose|idx: int| 0 <= idx < pre.len() && pre[idx] == c;
                        assert(result@[idx] == c);
                    }
                }
            }
            cluster = cluster + 1;
        }
        proof {
            if result@.len() == 0 {
                assert(forall|c: u32|
                    c < k ==> cluster_count(self.assignment(), c) != 0);
            } else {
                let c = result@[0];
                assert(cluster_count(self.assignment(), c) == 0);
            }
        }
        return result;
    }
}

impl Solution {
    /// The solution that the move `generator` produces: the same assignment
    /// with one point moved to the move's cluster, not yet evaluated.
    pub fn generate_solution_from(&self, generator: NeighbourGenerator) -> (r: Solution)
        requires
            0 <= generator.spec_element_index() < self.assignment().len(),
        ensures
            r.assignment() == self.assignment().update(
                generator.spec_element_index(),
                generator.spec_new_cluster(),
            ),
            r.spec_k() == self.spec_k(),
            r.spec_n() == self.spec_n(),
            r.cached_key() is None,
    {
        let mut new_solution = self.copy();
        let index = generator.get_element_index() as usize;
        new_solution.cluster_indexes.set(index, generator.get_new_cluster());
        new_solution.fitness = None;
        return new_solution;
    }

    /// A uniformly random assignment of every point to one of the clusters,
    /// as the starting point of the searches. It may leave clusters empty.
    pub fn generate_random_solution(
        num_points: usize,
        number_of_clusters: u32,
        rng: &mut RandomGenerator,
    ) -> (r: Solution)
        requires
            number_of_clusters >= 1,
        ensures
            r.assignment().len() == num_points,
            genes_below(r.assignment(), number_of_clusters),
            r.spec_k() == number_of_clusters,
            r.spec_n() == num_points,
            r.cached_key() is None,
    {
        let mut indexes: Vec<u32> = Vec::new();
        let mut i: usize = 0;
        while i < num_points
            invariant
                i <= num_points,
                number_of_clusters >= 1,
                indexes@.len() == i,
                genes_below(indexes@, number_of_clusters),
            decreases num_points - i,
        {
            let cluster = rng.gen_index(number_of_clusters as usize) as u32;
            indexes.push(cluster);
            i = i + 1;
        }
        return Solution::new(indexes, num_points, number_of_clusters);
    }

    /// One random move applied to the solution: a uniformly random point is
    /// assigned to a uniformly random cluster (possibly its own).
    pub fn one_random_neighbour(&self, rng: &mut RandomGenerator) -> (r: Solution)
        requires
            self.assignment().len() >= 1,
            self.spec_k() >= 1,
        ensures
            exists|i: int, c: u32|
                0 <= i < self.assignment().len() && c < self.spec_k() && r.assignment()
                    == #[trigger] self.assignment().update(i, c),
            r.spec_k() == self.spec_k(),
            r.spec_n() == self.spec_n(),
            r.cached_key() is None,
    {
        let position = rng.gen_index(self.cluster_indexes.len());
        let cluster = rng.gen_index(self.number_of_clusters as usize) as u32;
        let mut new_solution = self.copy();
        new_solution.cluster_indexes.set(position, cluster);
        new_solution.fitness = None;
        proof {
            assert(new_solution.assignment() == self.assignment().update(
                position as int,
                cluster,
            ));
        }
        return new_solution;
    }

    /// Eliminates empty clusters: while some cluster is empty, a uniformly
    /// random point of a uniformly random donor cluster (one with at least
    /// two members) is moved into the first empty cluster. On an already
    /// valid solution this is a no-op; otherwise every moved point lands in
    /// a cluster that was empty beforehand, each originally empty cluster
    /// ends with exactly one member, and the fitness cache is invalidated.
    pub fn repair_solution(&mut self, rng: &mut RandomGenerator)
        requires
            old(self).assignment().len() == old(self).spec_n(),
            genes_below(old(self).assignment(), old(self).spec_k()),
            old(self).spec_n() >= old(self).spec_k(),
        ensures
            final(self).spec_valid(),
            final(self).spec_k() == old(self).spec_k(),
            final(self).spec_n() == old(self).spec_n(),
            final(self).assignment().len() == old(self).assignment().len(),
            genes_below(final(self).assignment(), final(self).spec_k()),
            old(self).spec_valid() ==> *final(self) == *old(self),
            !old(self).spec_valid() ==> final(self).cached_key() is None,
            forall|i: int|
                0 <= i < final(self).assignment().len() && final(self).assignment()[i] != old(
                    self,
                ).assignment()[i] ==> cluster_count(
                    old(self).assignment(),
                    #[trigger] final(self).assignment()[i],
                ) == 0,
            forall|c: u32|
                c < old(self).spec_k() && cluster_count(old(self).assignment(), c) == 0
                    ==> cluster_count(final(self).assignment(), c) == 1,
    {
        let ghost orig = self.cluster_indexes@;
        let ghost k = self.number_of_clusters;
        let ghost n0 = self.spec_n();
        let mut empties = self.get_cluster_without_points();
        if empties.len() == 0 {
            return;
        }
        self.fitness = None;
        while empties.len() > 0
            invariant
                self.spec_k() == k,
                self.spec_n() == n0,
                self.assignment().len() == orig.len(),
                orig.len() == n0,
                n0 >= k,
                genes_below(self.assignment(), k),
                self.cached_key() is None,
                forall|a: int|
                    0 <= a < empties@.len() ==> (#[trigger] empties@[a]) < k && cluster_count(
                        self.assignment(),
                        empties@[a],
                    ) == 0,
                forall|c: u32|
                    c < k && cluster_count(self.assignment(), c) == 0 ==> empties@.contains(c),
                forall|c: u32|
                    c < k && cluster_count(self.assignment(), c) == 0 ==> cluster_count(orig, c)
                        == 0,
                forall|c: u32|
                    c < k && cluster_count(orig, c) == 0 && cluster_count(self.assignment(), c)
                        > 0 ==> cluster_count(self.assignment(), c) == 1,
                forall|c: u32|
                    c < k && cluster_count(orig, c) > 0 ==> cluster_count(self.assignment(), c)
                        > 0,
                forall|i: int|
                    0 <= i < orig.len() && self.assignment()[i] != orig[i] ==> cluster_count(
                        orig,
                        #[trigger] self.assignment()[i],
                    ) == 0,
            decreases empty_cluster_count(self.assignment(), k),
        {
            let cluster_without_points = empties[0];
            let clusters_with_more_than_one_point =
                self.get_clusters_with_more_than_one_point();
            proof {
                lemma_donor_exists(self.assignment(), k, cluster_without_points);
                let d0 = choose|c: u32| c < k && cluster_count(self.assignment(), c) >= 2;
                assert(clusters_with_more_than_one_point@.contains(d0));
            }
            let di = rng.gen_index(clusters_with_more_than_one_point.len());
            let selected_cluster = clusters_with_more_than_one_point[di];
            let point_indexes = self.get_index_points_in_cluster(selected_cluster);
            let pi = rng.gen_index(point_indexes.len());
            let selected_point = point_indexes[pi];
            let ghost before = self.cluster_indexes@;
            self.cluster_indexes.set(selected_point, cluster_without_points);
            proof {
                let after = self.cluster_indexes@;
                assert forall|c: u32|
                    cluster_count(after, c) + (if before[selected_point as int] == c {
                        1nat
                    } else {
                        0nat
                    }) == cluster_count(before, c) + (if cluster_without_points == c {
                        1nat
                    } else {
                        0nat
                    }) by {
                    lemma_count_update(before, selected_point as int, cluster_without_points, c);
                }
                assert(before[selected_point as int] == selected_cluster);
                assert(cluster_count(after, cluster_without_points) == 1);
                assert(cluster_count(after, selected_cluster) >= 1);
                lemma_empty_count_drops(before, after, k, cluster_without_points);
            }
            empties = self.get_cluster_without_points();
        }
        proof {
            assert forall|c: u32| c < k implies cluster_count(self.assignment(), c) > 0 by {
                if cluster_count(self.assignment(), c) == 0 {
                    assert(empties@.contains(c));
                }
            }
        }
    }
}

/// `m` mixes `a` and `b` gene by gene: every position holds one parent's
/// gene for that position.
pub open spec fn mix_of(m: Seq<u32>, a: Seq<u32>, b: Seq<u32>) -> bool {
    m.len() == a.len() && forall|i: int| 0 <= i < m.len() ==> m[i] == a[i] || m[i] == b[i]
}

/// `r` is what repairing the assignment `m` can produce: a valid `m` is
/// kept as it is, and any changed gene names a cluster that was empty in
/// `m`.
pub open spec fn repair_outcome(r: Seq<u32>, m: Seq<u32>, k: u32) -> bool {
    &&& r.len() == m.len()
    &&& (valid_assignment(m, k) ==> r == m)
    &&& forall|i: int| 0 <= i < r.len() && r[i] != m[i] ==> cluster_count(m, #[trigger] r[i]) == 0
}

/// Position `pos` lies in the wrap-around segment of length `seg` starting
/// at `start` in a vector of length `len` (with `seg <= len`).
pub open spec fn in_wrap_segment(start: int, seg: int, len: int, pos: int) -> bool {
    (start <= pos < len && pos - start < seg) || (0 <= pos < start && pos + len - start < seg)
}

/// `m` mixes `a` and `b` as the fixed-segment crossover does: inside the
/// wrap-around segment the genes are parent `a`'s verbatim, outside each
/// gene comes from one of the two parents.
pub open spec fn segment_mix_of(
    m: Seq<u32>,
    a: Seq<u32>,
    b: Seq<u32>,
    start: int,
    seg: int,
) -> bool {
    &&& mix_of(m, a, b)
    &&& forall|pos: int|
        0 <= pos < m.len() && in_wrap_segment(start, seg, m.len() as int, pos) ==> m[pos] == a[
            pos
        ]
}

/// `order` lists every position of a vector of length `n` exactly once.
pub open spec fn is_position_permutation(order: Seq<usize>, n: int) -> bool {
    order.len() == n && order.to_multiset() == Seq::new(n as nat, |i: int| i as usize).to_multiset()
}

/// `m` mixes `a` and `b` in two halves of equal size: under some
/// permutation of the positions, the first `n / 2` drawn positions keep
/// `a`'s genes and the remaining ones take `b`'s.
pub open spec fn half_mix_of(m: Seq<u32>, a: Seq<u32>, b: Seq<u32>, order: Seq<usize>) -> bool {
    &&& m.len() == a.len()
    &&& is_position_permutation(order, m.len() as int)
    &&& forall|idx: int|
        0 <= idx < m.len() as int / 2 ==> m[(#[trigger] order[idx]) as int] == a[order[idx] as int]
    &&& forall|idx: int|
        m.len() as int / 2 <= idx < m.len() ==> m[(#[trigger] order[idx]) as int] == b[order[idx] as int]
}

/// `child` is a possible outcome of the uniform crossover on the parents'
/// assignments `a` and `b`: a gene-wise mix drawing exactly half the
/// positions (rounded down) from `a` and the rest from `b`, repaired.
pub open spec fn crossed_from(child: Solution, a: Seq<u32>, b: Seq<u32>, k: u32) -> bool {
    exists|m: Seq<u32>, order: Seq<usize>|
        #![trigger half_mix_of(m, a, b, order)]
        mix_of(m, a, b) && half_mix_of(m, a, b, order) && repair_outcome(child.assignment(), m, k)
}

/// `child` is a possible outcome of the fixed-segment crossover on the
/// parents' assignments `a` and `b`: a mix keeping `a` verbatim on some
/// wrap-around segment, repaired.
pub open spec fn segment_crossed_from(child: Solution, a: Seq<u32>, b: Seq<u32>, k: u32) -> bool {
    exists|m: Seq<u32>, start: int, seg: int|
        #[trigger] segment_mix_of(m, a, b, start, seg) && 0 <= start < a.len() && 0 <= seg
            <= a.len() && repair_outcome(child.assignment(), m, k)
}

impl Solution {
    /// The cached fitness key, if any, without touching the cache.
    pub fn cached_fitness(&self) -> (r: Option<u64>)
        ensures
            r == self.cached_key(),
    {
        return self.fitness;
    }

    /// Of two evaluated solutions, the one with the strictly lower fitness
    /// key wins; the second wins ties. Both keys being cached, the
    /// tournament consumes no evaluation.
    pub fn binary_tournament<'a>(first: &'a Solution, second: &'a Solution) -> (r: (
        &'a Solution,
        u32,
    ))
        requires
            first.cached_key() is Some,
            second.cached_key() is Some,
        ensures
            r.1 == 0,
            r.0 == if first.cached_key().unwrap() < second.cached_key().unwrap() {
                first
            } else {
                second
            },
    {
        let first_fitness = first.cached_fitness().unwrap();
        let second_fitness = second.cached_fitness().unwrap();
        if first_fitness < second_fitness {
            return (first, 0);
        } else {
            return (second, 0);
        }
    }

    /// One mutation draw: a uniformly random position is reassigned to a
    /// uniformly random cluster different from its current one, and the
    /// result is repaired if the move left a cluster empty. The outcome is
    /// always valid, but may coincide with the input when repair moved the
    /// mutated point back.
    fn mutation_attempt(&self, rng: &mut RandomGenerator) -> (r: Solution)
        requires
            self.assignment().len() == self.spec_n(),
            genes_below(self.assignment(), self.spec_k()),
            self.spec_n() >= self.spec_k(),
            self.spec_k() >= 2,
            self.assignment().len() >= 1,
        ensures
            r.spec_valid(),
            genes_below(r.assignment(), r.spec_k()),
            r.spec_k() == self.spec_k(),
            r.spec_n() == self.spec_n(),
            r.cached_key() is None,
    {
        let position = rng.gen_index(self.cluster_indexes.len());
        let current_cluster = self.cluster_indexes[position];
        let draw = rng.gen_index((self.number_of_clusters - 1) as usize) as u32;
        let new_cluster = if draw >= current_cluster {
            draw + 1
        } else {
            draw
        };
        let mut candidate = self.copy();
        candidate.cluster_indexes.set(position, new_cluster);
        candidate.fitness = None;
        if candidate.is_valid() == false {
            candidate.repair_solution(rng);
        }
        return candidate;
    }

    /// A mutated copy: one random position moved to a random different
    /// cluster, repaired when needed; a draw that comes back identical to
    /// the input is discarded and retried, so the result never equals the
    /// input. After a bounded number of identical draws the fallback moves
    /// the first point whose cluster can spare one to the next cluster,
    /// which also yields a valid, different solution.
    ///
    /// The precondition asks for strictly more points than clusters, one
    /// step beyond what repair alone needs: with exactly as many points as
    /// clusters, every valid solution is a bijection, so no cluster can
    /// spare a point and every mutation draw bounces back — the retry
    /// could never be shown to end, and no different valid solution would
    /// exist to return.
    pub fn mutated(&self, rng: &mut RandomGenerator) -> (r: Solution)
        requires
            self.assignment().len() == self.spec_n(),
            genes_below(self.assignment(), self.spec_k()),
            self.spec_n() > self.spec_k(),
            self.spec_k() >= 2,
        ensures
            r.assignment() != self.assignment(),
            r.spec_valid(),
            genes_below(r.assignment(), r.spec_k()),
            r.spec_k() == self.spec_k(),
            r.spec_n() == self.spec_n(),
            r.cached_key() is None,
    {
        let max_attempts: usize = 32;
        let mut attempts: usize = max_attempts;
        while attempts > 0
            invariant
                self.assignment().len() == self.spec_n(),
                genes_below(self.assignment(), self.spec_k()),
                self.spec_n() > self.spec_k(),
                self.spec_k() >= 2,
                attempts <= max_attempts,
                attempts < max_attempts ==> valid_assignment(self.assignment(), self.spec_k()),
            decreases attempts,
        {
            let candidate = self.mutation_attempt(rng);
            if assignments_equal(&candidate.cluster_indexes, &self.cluster_indexes) == false {
                return candidate;
            }
            proof {
                assert(candidate.assignment() == self.assignment());
            }
            attempts = attempts - 1;
        }
        // Every draw came back identical, so the input assignment is valid;
        // move a point out of a cluster that holds at least two.
        let ghost s = self.assignment();
        let ghost k = self.spec_k();
        let n = self.cluster_indexes.len();
        proof {
            lemma_crowded_cluster_exists(s, k);
            let c = choose|c: u32| c < k && cluster_count(s, c) >= 2;
            lemma_count_pos_iff_member(s, c);
            let j = choose|j: int| 0 <= j < s.len() && s[j] == c;
            assert(cluster_count(s, s[j]) >= 2);
        }
        let mut position: usize = 0;
        while position < n
            invariant
                n == s.len(),
                s == self.assignment(),
                exists|j: int| position <= j < n && cluster_count(s, #[trigger] s[j]) >= 2,
            ensures
                position < n,
                cluster_count(s, s[position as int]) >= 2,
                n == s.len(),
                s == self.assignment(),
            decreases n - position,
        {
            let members = count_points_in(&self.cluster_indexes, self.cluster_indexes[position]);
            if members >= 2 {
                break;
            }
            proof {
                let j = choose|j: int| position <= j < n && cluster_count(s, #[trigger] s[j]) >= 2;
                assert(j != position);
            }
            position = position + 1;
        }
        let current_cluster = self.cluster_indexes[position];
        let new_cluster = if current_cluster + 1 < self.number_of_clusters {
            current_cluster + 1
        } else {
            0
        };
        let mut fallback = self.copy();
        fallback.cluster_indexes.set(position, new_cluster);
        fallback.fitness = None;
        proof {
            assert(new_cluster != current_cluster);
            assert(valid_assignment(s, k));
            assert(cluster_count(s, current_cluster) >= 2);
            assert forall|c: u32| c < k implies cluster_count(fallback.assignment(), c) > 0 by {
                lemma_count_update(s, position as int, new_cluster, c);
                assert(cluster_count(s, c) > 0);
            }
            assert(fallback.assignment()[position as int] != s[position as int]);
        }
        return fallback;
    }

    /// Uniform crossover: a random half of the positions keeps the first
    /// parent's genes, the other half takes the second parent's, and the
    /// child is repaired if the mix left a cluster empty. Every gene of the
    /// mix comes from one of the two parents; repair only touches genes
    /// that it moves into clusters the mix left empty.
    pub fn uniform_cross(first: &Solution, second: &Solution, rng: &mut RandomGenerator) -> (r:
        Solution)
        requires
            first.assignment().len() == second.assignment().len(),
            first.assignment().len() == first.spec_n(),
            first.spec_k() == second.spec_k(),
            first.spec_n() == second.spec_n(),
            genes_below(first.assignment(), first.spec_k()),
            genes_below(second.assignment(), second.spec_k()),
            first.spec_n() >= first.spec_k(),
        ensures
            r.spec_k() == first.spec_k(),
            r.spec_n() == first.spec_n(),
            r.spec_valid(),
            genes_below(r.assignment(), r.spec_k()),
            r.cached_key() is None,
            crossed_from(r, first.assignment(), second.assignment(), first.spec_k()),
    {
        let gen_size = first.cluster_indexes.len();
        let half_gen_size = gen_size / 2;

        // A random permutation of the gene positions: the first half keeps
        // the first parent's genes, the rest takes the second parent's.
        let mut positions_to_mutate: Vec<usize> = Vec::new();
        let mut i: usize = 0;
        while i < gen_size
            invariant
                i <= gen_size,
                positions_to_mutate@.len() == i,
                forall|a: int|
                    0 <= a < positions_to_mutate@.len() ==> (#[trigger] positions_to_mutate@[a])
                        == a,
            decreases gen_size - i,
        {
            positions_to_mutate.push(i);
            i = i + 1;
        }
        let ghost unshuffled = positions_to_mutate@;
        let ghost identity = Seq::new(gen_size as nat, |a: int| a as usize);
        rng.shuffle_usizes(&mut positions_to_mutate);
        let ghost order = positions_to_mutate@;
        proof {
            unshuffled.to_multiset_ensures();
            order.to_multiset_ensures();
            assert(unshuffled =~= identity);
            assert forall|a: int|
                0 <= a < order.len() implies (#[trigger] order[a]) < gen_size by {
                let x = order[a];
                assert(order.contains(x));
                assert(unshuffled.to_multiset().count(x) > 0);
                assert(unshuffled.contains(x));
                let j = choose|j: int| 0 <= j < unshuffled.len() && unshuffled[j] == x;
            }
            // The shuffled positions are a permutation: the identity has no
            // duplicate, so each position is drawn exactly once.
            assert(unshuffled.no_duplicates());
            unshuffled.lemma_multiset_has_no_duplicates();
            assert forall|x: usize| order.to_multiset().contains(x) implies order.to_multiset().count(
                x,
            ) == 1 by {
                assert(unshuffled.to_multiset().count(x) > 0);
            }
            order.lemma_multiset_has_no_duplicates_conv();
        }

        // The base copy already holds the first parent's genes, so writing
        // them back over the drawn first half leaves the vector equal to
        // the first parent throughout this pass.
        let mut crossed_indexes = clone_assignment(&first.cluster_indexes);
        let mut index: usize = 0;
        while index < half_gen_size
            invariant
                half_gen_size <= gen_size,
                order == positions_to_mutate@,
                order.len() == gen_size,
                index <= half_gen_size,
                gen_size == first.assignment().len(),
                forall|a: int| 0 <= a < gen_size ==> (#[trigger] order[a]) < gen_size,
                crossed_indexes@ == first.assignment(),
            decreases half_gen_size - index,
        {
            let curr_index = positions_to_mutate[index];
            let value = first.cluster_indexes[curr_index];
            crossed_indexes.set(curr_index, value);
            proof {
                assert(crossed_indexes@ =~= first.assignment());
            }
            index = index + 1;
        }
        let mut index2: usize = half_gen_size;
        while index2 < gen_size
            invariant
                half_gen_size == gen_size / 2,
                half_gen_size <= index2 <= gen_size,
                order == positions_to_mutate@,
                order.len() == gen_size,
                order.no_duplicates(),
                gen_size == first.assignment().len(),
                gen_size == second.assignment().len(),
                forall|a: int| 0 <= a < gen_size ==> (#[trigger] order[a]) < gen_size,
                crossed_indexes@.len() == gen_size,
                forall|i2: int|
                    0 <= i2 < gen_size ==> #[trigger] crossed_indexes@[i2] == first.assignment()[i2]
                        || crossed_indexes@[i2] == second.assignment()[i2],
                forall|idx: int|
                    0 <= idx < half_gen_size ==> crossed_indexes@[(#[trigger] order[idx]) as int]
                        == first.assignment()[order[idx] as int],
                forall|idx: int|
                    half_gen_size <= idx < index2 ==> crossed_indexes@[(
                    #[trigger] order[idx]) as int] == second.assignment()[order[idx] as int],
            decreases gen_size - index2,
        {
            let curr_index = positions_to_mutate[index2];
            let value = second.cluster_indexes[curr_index];
            let ghost before = crossed_indexes@;
            crossed_indexes.set(curr_index, value);
            proof {
                // The drawn positions are distinct, so this write touches
                // none of the positions handled earlier.
                assert forall|idx: int|
                    0 <= idx < half_gen_size implies crossed_indexes@[(
                    #[trigger] order[idx]) as int] == first.assignment()[order[idx] as int] by {
                    assert(order[idx] != order[index2 as int]);
                }
                assert forall|idx: int|
                    half_gen_size <= idx < index2 + 1 implies crossed_indexes@[(
                    #[trigger] order[idx]) as int] == second.assignment()[order[idx] as int] by {
                    if idx < index2 {
                        assert(order[idx] != order[index2 as int]);
                    }
                }
            }
            index2 = index2 + 1;
        }

        let ghost m = crossed_indexes@;
        let mut crossed_solution = Solution {
            cluster_indexes: crossed_indexes,
            number_of_clusters: first.number_of_clusters,
            num_points: first.num_points,
            fitness: None,
        };
        if crossed_solution.is_valid() == false {
            crossed_solution.repair_solution(rng);
        }
        proof {
            assert(mix_of(m, first.assignment(), second.assignment()));
            assert(Seq::new(m.len(), |a: int| a as usize) =~= identity);
            assert(order.to_multiset() == identity.to_multiset());
            assert(is_position_permutation(order, m.len() as int));
            assert(half_mix_of(m, first.assignment(), second.assignment(), order));
            assert(repair_outcome(crossed_solution.assignment(), m, first.spec_k()));
        }
        return crossed_solution;
    }

    /// Fixed-segment crossover: a random wrap-around segment keeps the
    /// first parent's genes verbatim; outside it every gene is drawn 50/50
    /// from one of the two parents; the child is repaired if the mix left a
    /// cluster empty.
    pub fn cross_segment(first: &Solution, second: &Solution, rng: &mut RandomGenerator) -> (r:
        Solution)
        requires
            first.assignment().len() == second.assignment().len(),
            first.assignment().len() == first.spec_n(),
            first.spec_k() == second.spec_k(),
            first.spec_n() == second.spec_n(),
            genes_below(first.assignment(), first.spec_k()),
            genes_below(second.assignment(), second.spec_k()),
            first.spec_n() >= first.spec_k(),
            first.assignment().len() >= 1,
            first.assignment().len() < usize::MAX / 2,
        ensures
            r.spec_k() == first.spec_k(),
            r.spec_n() == first.spec_n(),
            r.spec_valid(),
            genes_below(r.assignment(), r.spec_k()),
            r.cached_key() is None,
            segment_crossed_from(r, first.assignment(), second.assignment(), first.spec_k()),
    {
        let gen_size = first.cluster_indexes.len();
        let start = rng.gen_index(gen_size);
        let segment_length = rng.gen_index(gen_size + 1);

        let mut crossed_indexes = clone_assignment(&first.cluster_indexes);
        let mut offset: usize = 0;
        while offset < gen_size
            invariant
                offset <= gen_size,
                start < gen_size,
                segment_length <= gen_size,
                gen_size < usize::MAX / 2,
                gen_size == first.assignment().len(),
                gen_size == second.assignment().len(),
                crossed_indexes@.len() == gen_size,
                forall|i2: int|
                    0 <= i2 < gen_size ==> #[trigger] crossed_indexes@[i2] == first.assignment()[i2]
                        || crossed_indexes@[i2] == second.assignment()[i2],
                forall|pos: int|
                    0 <= pos < gen_size && in_wrap_segment(
                        start as int,
                        if offset < segment_length {
                            offset as int
                        } else {
                            segment_length as int
                        },
                        gen_size as int,
                        pos,
                    ) ==> #[trigger] crossed_indexes@[pos] == first.assignment()[pos],
            decreases gen_size - offset,
        {
            let pos = if start + offset < gen_size {
                start + offset
            } else {
                start + offset - gen_size
            };
            if offset < segment_length {
                let value = first.cluster_indexes[pos];
                crossed_indexes.set(pos, value);
            } else {
                let take_first = rng.gen_index(2) == 0;
                let value = if take_first {
                    first.cluster_indexes[pos]
                } else {
                    second.cluster_indexes[pos]
                };
                crossed_indexes.set(pos, value);
            }
            offset = offset + 1;
        }

        let ghost m = crossed_indexes@;
        let mut crossed_solution = Solution {
            cluster_indexes: crossed_indexes,
            number_of_clusters: first.number_of_clusters,
            num_points: first.num_points,
            fitness: None,
        };
        if crossed_solution.is_valid() == false {
            crossed_solution.repair_solution(rng);
        }
        proof {
            assert(segment_mix_of(
                m,
                first.assignment(),
                second.assignment(),
                start as int,
                segment_length as int,
            ));
            assert(repair_outcome(crossed_solution.assignment(), m, first.spec_k()));
        }
        return crossed_solution;
    }
}

/// Copies an assignment vector, element for element.
fn clone_assignment(v: &Vec<u32>) -> (r: Vec<u32>)
    ensures
        r@ == v@,
{
    let n = v.len();
    let mut result: Vec<u32> = Vec::new();
    let mut i: usize = 0;
    while i < n
        invariant
            n == v@.len(),
            i <= n,
            result@ =~= v@.take(i as int),
        decreases n - i,
    {
        result.push(v[i]);
        i = i + 1;
    }
    proof {
        assert(v@.take(n as int) =~= v@);
    }
    return result;
}

/// Whether two assignment vectors hold the same genes.
pub fn assignments_equal(a: &Vec<u32>, b: &Vec<u32>) -> (r: bool)
    ensures
        r == (a@ == b@),
{
    if a.len() != b.len() {
        proof {
            assert(a@.len() != b@.len());
        }
        return false;
    }
    let n = a.len();
    let mut i: usize = 0;
    while i < n
        invariant
            n == a@.len(),
            n == b@.len(),
            i <= n,
            forall|j: int| 0 <= j < i ==> a@[j] == b@[j],
        decreases n - i,
    {
        if a[i] != b[i] {
            return false;
        }
        i = i + 1;
    }
    proof {
        assert(a@ =~= b@);
    }
    return true;
}

/// Whether some position of `v` holds the gene `cluster`.
fn assignment_contains(v: &Vec<u32>, cluster: u32) -> (r: bool)
    ensures
        r == exists|i: int| 0 <= i < v@.len() && v@[i] == cluster,
{
    let n = v.len();
    let mut i: usize = 0;
    while i < n
        invariant
            n == v@.len(),
            i <= n,
            forall|j: int| 0 <= j < i ==> v@[j] != cluster,
        decreases n - i,
    {
        if v[i] == cluster {
            return true;
        }
        i = i + 1;
    }
    return false;
}

/// Counts the positions of `v` assigned to `cluster`.
pub(crate) fn count_points_in(v: &Vec<u32>, cluster: u32) -> (r: usize)
    ensures
        r == cluster_count(v@, cluster),
{
    let n = v.len();
    let mut count: usize = 0;
    let mut i: usize = 0;
    while i < n
        invariant
            n == v@.len(),
            i <= n,
            count == cluster_count(v@.take(i as int), cluster),
            count <= i,
        decreases n - i,
    {
        proof {
            lemma_count_take_step(v@, i as int, cluster);
        }
        if v[i] == cluster {
            count = count + 1;
        }
        i = i + 1;
    }
    proof {
        assert(v@.take(n as int) =~= v@);
    }
    return count;
}

} // verus!
