use constrained_clustering::constraints::{ConstraintType, Constraints};
use constrained_clustering::copkmeans::{
    assign_points_to_clusters, get_cluster_without_point_indixes,
    get_violated_constraints_per_cluster_assignment, select_best_cluster,
    valid_cluster_configuration,
};
use constrained_clustering::rng::RandomGenerator;

#[test]
fn test_get_violated_constraints_per_cluster_assignment() {
    let current_cluster_indixes = vec![2, 0, 1, 2, 3];
    let number_of_clusters = 4;
    let mut constraints = Constraints::new();
    constraints.add_constraint(0, 1, ConstraintType::MustLink);
    constraints.add_constraint(3, 4, ConstraintType::CannotLink);

    let calc_violated_constraints_per_cluster = get_violated_constraints_per_cluster_assignment(
        &current_cluster_indixes,
        number_of_clusters,
        &constraints,
        1,
    );
    let exp_violated_constraints_per_cluster = vec![1, 1, 0, 1];
    assert_eq!(
        calc_violated_constraints_per_cluster,
        exp_violated_constraints_per_cluster
    );

    let calc_violated_constraints_per_cluster = get_violated_constraints_per_cluster_assignment(
        &current_cluster_indixes,
        number_of_clusters,
        &constraints,
        3,
    );
    let exp_violated_constraints_per_cluster = vec![0, 0, 0, 1];
    assert_eq!(
        calc_violated_constraints_per_cluster,
        exp_violated_constraints_per_cluster
    );
}

#[test]
fn test_select_best_cluster() {
    let current_cluster_indixes = vec![0, 1, 1, 2, 3];
    let number_of_clusters = 4;
    let mut constraints = Constraints::new();
    constraints.add_constraint(0, 1, ConstraintType::MustLink);
    let current_point_index = 0;
    // Every centroid sits at the same spot, so every distance key is equal
    // and the constraint count alone decides.
    let distance_keys = vec![0u64, 0, 0, 0];

    let calc_best_cluster = select_best_cluster(
        &current_cluster_indixes,
        number_of_clusters,
        &constraints,
        current_point_index,
        &distance_keys,
    );
    let exp_best_cluster = 1;
    assert_eq!(calc_best_cluster, exp_best_cluster);
}

#[test]
fn test_select_best_cluster_breaks_ties_by_distance() {
    // No constraints: every cluster violates zero, so the smallest distance
    // key must win; on key ties, the lowest cluster id.
    let current_cluster_indixes = vec![0, 1, 2, 0];
    let constraints = Constraints::new();
    let distance_keys = vec![40u64, 10, 25, 10];
    let best = select_best_cluster(&current_cluster_indixes, 4, &constraints, 2, &distance_keys);
    assert_eq!(best, 1);
}

#[test]
fn test_valid_cluster_configuration_and_empty_cluster_listing() {
    assert!(valid_cluster_configuration(&vec![0, 1, 2, 3], 4));
    assert!(!valid_cluster_configuration(&vec![0, 1, 1, 0], 4));

    let empties = get_cluster_without_point_indixes(&vec![0, 0, 3, 3], 4);
    assert_eq!(empties, vec![1, 2]);

    let empties = get_cluster_without_point_indixes(&vec![0, 1, 2, 3], 4);
    assert_eq!(empties, Vec::<u32>::new());
}

#[test]
fn test_assign_points_to_clusters_follows_the_greedy_rule() {
    // Two points must link, two cannot; the previous configuration pins the
    // linked partners, and every point has its own distance-key row.
    let current_cluster_indixes = vec![0, 1, 1, 0];
    let mut constraints = Constraints::new();
    constraints.add_constraint(0, 1, ConstraintType::MustLink);
    constraints.add_constraint(2, 3, ConstraintType::CannotLink);
    let distance_keys = vec![
        vec![5u64, 9],
        vec![5u64, 9],
        vec![5u64, 9],
        vec![5u64, 9],
    ];
    let mut rng = RandomGenerator::new_seeded(1);
    let assigned = assign_points_to_clusters(
        &constraints,
        &current_cluster_indixes,
        2,
        &distance_keys,
        &mut rng,
    );
    // Each point joins (for must-link) or avoids (for cannot-link) the
    // cluster its partner held in the previous configuration.
    assert_eq!(assigned.len(), 4);
    assert_eq!(assigned[0], 1);
    assert_eq!(assigned[1], 0);
    assert_eq!(assigned[2], 1);
    assert_eq!(assigned[3], 0);
}
