//! The assignment rules of the constrained greedy k-means variant.
//!
//! Points are visited in random order and each is assigned to the cluster
//! whose assignment violates the fewest constraints against the previous
//! pass's configuration; ties go to the cluster with the nearest centroid.
//! Centroid geometry is computed by the surrounding program, which hands
//! these functions one order-preserving distance key per cluster (a smaller
//! key, a nearer centroid).

use vstd::prelude::*;
use vstd::pervasive::VecAdditionalExecFns;
use crate::constraints::{Constraints, ConstraintType};
use crate::counting::{cluster_count, valid_assignment};
use crate::rng::RandomGenerator;
use crate::solution::count_points_in;

verus! {

/// Whether assigning the considered point to `candidate` violates the
/// relation `rel` it has with a point sitting in `point_cluster`.
pub open spec fn assignment_violates(
    point_cluster: u32,
    candidate: u32,
    rel: Option<ConstraintType>,
) -> bool {
    match rel {
        Some(ConstraintType::MustLink) => point_cluster != candidate,
        Some(ConstraintType::CannotLink) => point_cluster == candidate,
        None => false,
    }
}

/// Number of constraints violated, among those between point `p` and the
/// first `i` points of the configuration `s`, when `p` is assigned to
/// cluster `c`.
pub open spec fn violations_upto(
    s: Seq<u32>,
    cons: Constraints,
    p: int,
    c: u32,
    i: int,
) -> nat
    decreases i,
{
    if i <= 0 {
        0
    } else {
        violations_upto(s, cons, p, c, i - 1) + if assignment_violates(
            s[i - 1],
            c,
            cons.spec_constraint(i - 1, p),
        ) {
            1nat
        } else {
            0nat
        }
    }
}

/// Number of constraints violated when point `p` is assigned to cluster
/// `c`, against the whole configuration `s`.
pub open spec fn violations_of(s: Seq<u32>, cons: Constraints, p: int, c: u32) -> nat {
    violations_upto(s, cons, p, c, s.len() as int)
}

/// Cluster `c` is the choice of the greedy rule for point `p`: no cluster
/// violates fewer constraints; among the clusters violating as few, none
/// has a smaller distance key; and `c` is the first such cluster.
pub open spec fn is_best_cluster(
    s: Seq<u32>,
    cons: Constraints,
    p: int,
    keys: Seq<u64>,
    k: u32,
    c: u32,
) -> bool {
    &&& c < k
    &&& forall|d: u32| d < k ==> violations_of(s, cons, p, c) <= violations_of(s, cons, p, d)
    &&& forall|d: u32|
        d < k && violations_of(s, cons, p, d) == violations_of(s, cons, p, c) ==> keys[c as int]
            <= keys[d as int]
    &&& forall|d: u32|
        d < c && violations_of(s, cons, p, d) == violations_of(s, cons, p, c) ==> keys[d as int]
            > keys[c as int]
}

/// For each cluster candidate, the number of constraints that assigning
/// the point `current_point_index` to it would violate against the current
/// configuration.
pub fn get_violated_constraints_per_cluster_assignment(
    current_cluster_indixes: &Vec<u32>,
    number_of_clusters: u32,
    constraints: &Constraints,
    current_point_index: u32,
) -> (r: Vec<u32>)
    requires
        constraints.wf(),
        current_cluster_indixes@.len() <= u32::MAX,
        current_cluster_indixes@.len() <= i32::MAX,
        current_point_index <= i32::MAX,
    ensures
        r@.len() == number_of_clusters,
        forall|c: int|
            0 <= c < number_of_clusters ==> r@[c] == violations_of(
                current_cluster_indixes@,
                *constraints,
                current_point_index as int,
                c as u32,
            ),
{
    let ghost s = current_cluster_indixes@;
    let ghost p = current_point_index as int;
    let n = current_cluster_indixes.len();
    let mut violated_constraints: Vec<u32> = Vec::new();
    let mut cluster_candidate: u32 = 0;
    while cluster_candidate < number_of_clusters
        invariant
            constraints.wf(),
            s == current_cluster_indixes@,
            p == current_point_index as int,
            n == s.len(),
            n <= u32::MAX,
            n <= i32::MAX,
            current_point_index <= i32::MAX,
            cluster_candidate <= number_of_clusters,
            violated_constraints@.len() == cluster_candidate,
            forall|c: int|
                0 <= c < cluster_candidate ==> violated_constraints@[c] == violations_of(
                    s,
                    *constraints,
                    p,
                    c as u32,
                ),
        decreases number_of_clusters - cluster_candidate,
    {
        let mut current_violations: u32 = 0;
        let mut point_index: usize = 0;
        while point_index < n
            invariant
                constraints.wf(),
                s == current_cluster_indixes@,
                p == current_point_index as int,
                n == s.len(),
                n <= u32::MAX,
                n <= i32::MAX,
                current_point_index <= i32::MAX,
                point_index <= n,
                current_violations == violations_upto(
                    s,
                    *constraints,
                    p,
                    cluster_candidate,
                    point_index as int,
                ),
                current_violations <= point_index,
            decreases n - point_index,
        {
            let point_cluster = current_cluster_indixes[point_index];
            let rel = constraints.get_constraint(point_index as i32, current_point_index as i32);
            let violated: bool = match rel {
                Some(ConstraintType::MustLink) => point_cluster != cluster_candidate,
                Some(ConstraintType::CannotLink) => point_cluster == cluster_candidate,
                None => false,
            };
            if violated {
                current_violations = current_violations + 1;
            }
            point_index = point_index + 1;
        }
        violated_constraints.push(current_violations);
        cluster_candidate = cluster_candidate + 1;
    }
    return violated_constraints;
}

/// The cluster the greedy rule assigns the point to: fewest violated
/// constraints first, then the smallest distance key, then the lowest
/// cluster id.
pub fn select_best_cluster(
    current_cluster_indixes: &Vec<u32>,
    number_of_clusters: u32,
    constraints: &Constraints,
    current_point_index: u32,
    distance_keys: &Vec<u64>,
) -> (r: u32)
    requires
        constraints.wf(),
        number_of_clusters >= 1,
        distance_keys@.len() == number_of_clusters,
        current_cluster_indixes@.len() <= u32::MAX,
        current_cluster_indixes@.len() <= i32::MAX,
        current_point_index <= i32::MAX,
    ensures
        is_best_cluster(
            current_cluster_indixes@,
            *constraints,
            current_point_index as int,
            distance_keys@,
            number_of_clusters,
            r,
        ),
{
    let ghost s = current_cluster_indixes@;
    let ghost p = current_point_index as int;
    let violated_constraints = get_violated_constraints_per_cluster_assignment(
        current_cluster_indixes,
        number_of_clusters,
        constraints,
        current_point_index,
    );
    let mut best_cluster: u32 = 0;
    let mut best_violations = violated_constraints[0];
    let mut best_key = distance_keys[0];
    let mut cluster: u32 = 1;
    while cluster < number_of_clusters
        invariant
            s == current_cluster_indixes@,
            p == current_point_index as int,
            violated_constraints@.len() == number_of_clusters,
            distance_keys@.len() == number_of_clusters,
            forall|c: int|
                0 <= c < number_of_clusters ==> violated_constraints@[c] == violations_of(
                    s,
                    *constraints,
                    p,
                    c as u32,
                ),
            1 <= cluster <= number_of_clusters,
            best_cluster < cluster,
            best_violations == violations_of(s, *constraints, p, best_cluster),
            best_key == distance_keys@[best_cluster as int],
            forall|d: u32|
                d < cluster ==> (best_violations < violations_of(s, *constraints, p, d) || (
                best_violations == violations_of(s, *constraints, p, d) && best_key
                    <= distance_keys@[d as int])),
            forall|d: u32|
                d < best_cluster && violations_of(s, *constraints, p, d) == best_violations
                    ==> distance_keys@[d as int] > best_key,
        decreases number_of_clusters - cluster,
    {
        let candidate_violations = violated_constraints[cluster as usize];
        let candidate_key = distance_keys[cluster as usize];
        if candidate_violations < best_violations || (candidate_violations == best_violations
            && candidate_key < best_key) {
            best_cluster = cluster;
            best_violations = candidate_violations;
            best_key = candidate_key;
        }
        cluster = cluster + 1;
    }
    return best_cluster;
}

/// Assigns every point, visited in uniformly random order, to the cluster
/// the greedy rule selects against the previous configuration. The visit
/// order does not change the outcome, because every decision reads the
/// previous configuration only.
pub fn assign_points_to_clusters(
    constraints: &Constraints,
    current_cluster_indixes: &Vec<u32>,
    number_of_clusters: u32,
    distance_keys: &Vec<Vec<u64>>,
    rng: &mut RandomGenerator,
) -> (r: Vec<u32>)
    requires
        constraints.wf(),
        number_of_clusters >= 1,
        distance_keys@.len() == current_cluster_indixes@.len(),
        forall|i: int|
            0 <= i < distance_keys@.len() ==> (#[trigger] distance_keys@[i])@.len()
                == number_of_clusters,
        current_cluster_indixes@.len() <= u32::MAX,
        current_cluster_indixes@.len() <= i32::MAX,
    ensures
        r@.len() == current_cluster_indixes@.len(),
        forall|i: int|
            0 <= i < r@.len() ==> is_best_cluster(
                current_cluster_indixes@,
                *constraints,
                i,
                distance_keys@[i]@,
                number_of_clusters,
                #[trigger] r@[i],
            ),
{
    let ghost s = current_cluster_indixes@;
    let n = current_cluster_indixes.len();

    let mut point_indexes: Vec<usize> = Vec::new();
    let mut i: usize = 0;
    while i < n
        invariant
            i <= n,
            point_indexes@.len() == i,
            forall|a: int| 0 <= a < i ==> (#[trigger] point_indexes@[a]) < n,
        decreases n - i,
    {
        point_indexes.push(i);
        i = i + 1;
    }
    let ghost unshuffled = point_indexes@;
    rng.shuffle_usizes(&mut point_indexes);
    proof {
        unshuffled.to_multiset_ensures();
        point_indexes@.to_multiset_ensures();
        assert forall|a: int|
            0 <= a < point_indexes@.len() implies (#[trigger] point_indexes@[a]) < n by {
            let x = point_indexes@[a];
            assert(point_indexes@.contains(x));
            assert(unshuffled.to_multiset().count(x) > 0);
            assert(unshuffled.contains(x));
            let j = choose|j: int| 0 <= j < unshuffled.len() && unshuffled[j] == x;
            assert(unshuffled[j] < n);
        }
    }

    // Start from a copy of the previous configuration and overwrite every
    // slot in the drawn order; every slot is visited exactly once, because
    // the shuffled vector is a permutation of all indices.
    let mut new_cluster_indixes: Vec<u32> = Vec::new();
    let mut j: usize = 0;
    while j < n
        invariant
            j <= n,
            new_cluster_indixes@.len() == j,
            s == current_cluster_indixes@,
            n == s.len(),
            n <= u32::MAX,
            n <= i32::MAX,
            constraints.wf(),
            number_of_clusters >= 1,
            distance_keys@.len() == n,
            forall|i2: int|
                0 <= i2 < n ==> (#[trigger] distance_keys@[i2])@.len() == number_of_clusters,
            forall|i2: int|
                0 <= i2 < j ==> is_best_cluster(
                    s,
                    *constraints,
                    i2,
                    distance_keys@[i2]@,
                    number_of_clusters,
                    #[trigger] new_cluster_indixes@[i2],
                ),
        decreases n - j,
    {
        let chosen = select_best_cluster(
            current_cluster_indixes,
            number_of_clusters,
            constraints,
            j as u32,
            &distance_keys[j],
        );
        new_cluster_indixes.push(chosen);
        j = j + 1;
    }
    return new_cluster_indixes;
}

/// Whether the configuration leaves no cluster empty.
pub fn valid_cluster_configuration(cluster_indixes: &Vec<u32>, number_of_clusters: u32) -> (r:
    bool)
    ensures
        r == valid_assignment(cluster_indixes@, number_of_clusters),
{
    let empties = get_cluster_without_point_indixes(cluster_indixes, number_of_clusters);
    return empties.len() == 0;
}

/// The cluster ids below the cluster count without any assigned point, in
/// increasing order.
pub fn get_cluster_without_point_indixes(
    cluster_indixes: &Vec<u32>,
    number_of_clusters: u32,
) -> (r: Vec<u32>)
    ensures
        forall|a: int|
            0 <= a < r@.len() ==> (#[trigger] r@[a]) < number_of_clusters && cluster_count(
                cluster_indixes@,
                r@[a],
            ) == 0,
        forall|c: u32|
            c < number_of_clusters && cluster_count(cluster_indixes@, c) == 0 ==> r@.contains(c),
        forall|a: int, b: int| 0 <= a < b < r@.len() ==> r@[a] < r@[b],
        r@.len() == 0 <==> valid_assignment(cluster_indixes@, number_of_clusters),
{
    let mut result: Vec<u32> = Vec::new();
    let mut cluster: u32 = 0;
    while cluster < number_of_clusters
        invariant
            cluster <= number_of_clusters,
            forall|a: int|
                0 <= a < result@.len() ==> (#[trigger] result@[a]) < cluster && cluster_count(
                    cluster_indixes@,
                    result@[a],
                ) == 0,
            forall|c: u32|
                c < cluster && cluster_count(cluster_indixes@, c) == 0 ==> result@.contains(c),
            forall|a: int, b: int| 0 <= a < b < result@.len() ==> result@[a] < result@[b],
        decreases number_of_clusters - cluster,
    {
        let members = count_points_in(cluster_indixes, cluster);
        let ghost pre = result@;
        if members == 0 {
            result.push(cluster);
        }
        proof {
            assert forall|c: u32|
                c < cluster + 1 && cluster_count(cluster_indixes@, c) == 0 implies result@.contains(
                c,
            ) by {
                if c == cluster {
                    assert(result@ == pre.push(cluster));
                    assert(result@[result@.len() - 1] == cluster);
                } else {
                    assert(pre.contains(c));
                    let idx = choose|idx: int| 0 <= idx < pre.len() && pre[idx] == c;
                    assert(result@[idx] == c);
                }
            }
        }
        cluster = cluster + 1;
    }
    proof {
        if result@.len() == 0 {
            assert forall|c: u32|
                c < number_of_clusters implies cluster_count(cluster_indixes@, c) > 0 by {
                if cluster_count(cluster_indixes@, c) == 0 {
                    assert(result@.contains(c));
                }
            }
        } else {
            let c = result@[0];
            assert(cluster_count(cluster_indixes@, c) == 0);
        }
    }
    return result;
}

} // verus!
