use constrained_clustering::constraints::{ConstraintType, Constraints};
use constrained_clustering::rng::RandomGenerator;
use constrained_clustering::solution::Solution;

const MAX_TEST_ITERATIONS: u32 = 10000;

/// The six-point one-hot dataset's constraint set used across the original
/// scenarios: three cannot-links and two must-links.
fn basic_constraints() -> Constraints {
    let mut constraints = Constraints::new();
    constraints.add_constraint(0, 1, ConstraintType::CannotLink);
    constraints.add_constraint(0, 2, ConstraintType::CannotLink);
    constraints.add_constraint(1, 3, ConstraintType::CannotLink);
    constraints.add_constraint(1, 4, ConstraintType::MustLink);
    constraints.add_constraint(2, 5, ConstraintType::MustLink);
    constraints
}

fn basic_solution() -> Solution {
    Solution::new(vec![0, 1, 2, 3, 0, 1], 6, 4)
}

#[test]
fn test_infeasibility_is_correct_over_basic_sol() {
    let constraints = basic_constraints();
    let solution = basic_solution();
    let calc_infea = solution.infeasibility(&constraints);
    let exp_infea = 2; // Only the two must-links are violated.
    assert_eq!(calc_infea, exp_infea);

    // Cluster 0 now has only point 4: one cannot-link joins the violations.
    let other_solution = Solution::new(vec![1, 1, 2, 3, 0, 1], 6, 4);
    let calc_infea = other_solution.infeasibility(&constraints);
    let exp_infea = 3;
    assert_eq!(calc_infea, exp_infea);
}

#[test]
fn test_infeasibility_is_zero_when_all_constraints_hold() {
    let constraints = basic_constraints();
    // 1 and 4 together, 2 and 5 together, all cannot-link pairs split.
    let solution = Solution::new(vec![0, 1, 2, 3, 1, 2], 6, 4);
    assert_eq!(solution.infeasibility(&constraints), 0);

    let no_constraints = Constraints::new();
    assert_eq!(basic_solution().infeasibility(&no_constraints), 0);
}

#[test]
fn test_solutions_are_not_valid() {
    // A cluster without points.
    let solution = Solution::new(vec![0, 0, 0, 0, 1, 1], 6, 4);
    let expected_is_valid = false;
    let calc_is_valid = solution.is_valid();
    assert_eq!(expected_is_valid, calc_is_valid);

    // Too short an assignment vector.
    let solution = Solution::new(vec![0, 1, 2, 3], 6, 4);
    let expected_is_valid = false;
    let calc_is_valid = solution.is_valid();
    assert_eq!(expected_is_valid, calc_is_valid);

    // Too long an assignment vector.
    let solution = Solution::new(vec![0, 1, 2, 3, 4, 5, 6, 7, 8, 9, 10], 6, 4);
    let expected_is_valid = false;
    let calc_is_valid = solution.is_valid();
    assert_eq!(expected_is_valid, calc_is_valid);
}

#[test]
fn test_repair_bad_solutions() {
    // Invalid but with the right length.
    let solution = Solution::new(vec![0, 0, 0, 0, 1, 1], 6, 4);
    let mut rng = RandomGenerator::new_seeded(123456789);
    for _ in 0..MAX_TEST_ITERATIONS {
        let mut curr_sol = solution.copy();
        curr_sol.repair_solution(&mut rng);

        let expected_is_valid = true;
        let calc_is_valid = curr_sol.is_valid();
        assert_eq!(expected_is_valid, calc_is_valid);
    }

    // Another invalid solution.
    let solution = Solution::new(vec![2, 1, 2, 0, 1, 1], 6, 4);
    let mut rng = RandomGenerator::new_seeded(123456789);
    for _ in 0..MAX_TEST_ITERATIONS {
        let mut curr_sol = solution.copy();
        curr_sol.repair_solution(&mut rng);

        let expected_is_valid = true;
        let calc_is_valid = curr_sol.is_valid();
        assert_eq!(expected_is_valid, calc_is_valid);
    }
}

#[test]
fn test_repair_is_a_no_op_on_valid_solutions() {
    let mut rng = RandomGenerator::new_seeded(42);
    for _ in 0..MAX_TEST_ITERATIONS {
        let mut solution = basic_solution();
        let before = solution.get_cluster_indexes();
        solution.repair_solution(&mut rng);
        assert_eq!(solution.get_cluster_indexes(), before);
    }
}

#[test]
fn test_repair_fills_each_empty_cluster_with_exactly_one_point() {
    // Clusters 2 and 3 are empty; whatever the seed, each must end with
    // exactly one point, moved out of the two donor clusters.
    for seed in 0..200u64 {
        let mut rng = RandomGenerator::new_seeded(seed);
        let mut solution = Solution::new(vec![0, 0, 0, 0, 1, 1], 6, 4);
        solution.repair_solution(&mut rng);
        assert!(solution.is_valid());

        let repaired = solution.get_cluster_indexes();
        let count = |c: u32| repaired.iter().filter(|&&x| x == c).count();
        assert_eq!(count(2), 1);
        assert_eq!(count(3), 1);
        // The moved points left the donors, which stay nonempty.
        assert!(count(0) >= 1);
        assert!(count(1) >= 1);
        assert_eq!(count(0) + count(1), 4);
    }
}

#[test]
fn test_mutation_generates_valid_population() {
    let solution = basic_solution();
    let mut rng = RandomGenerator::new_seeded(123456789);
    for _ in 0..MAX_TEST_ITERATIONS {
        let mut_sol = solution.mutated(&mut rng);

        let expected_is_valid = true;
        let calc_is_valid = mut_sol.is_valid();
        assert_eq!(expected_is_valid, calc_is_valid);
    }
}

#[test]
fn test_mutation_never_returns_its_input() {
    let solution = basic_solution();
    let mut rng = RandomGenerator::new_seeded(123456789);
    for _ in 0..MAX_TEST_ITERATIONS {
        let mut_sol = solution.mutated(&mut rng);
        assert_ne!(mut_sol.get_cluster_indexes(), solution.get_cluster_indexes());
    }
}

#[test]
fn test_fitness_cache_second_call_is_free_and_identical() {
    let mut solution = basic_solution();
    assert!(!solution.is_fitness_cached());

    let (first_value, first_consumed) = solution.fitness_and_consumed(77);
    assert_eq!(first_value, 77);
    assert_eq!(first_consumed, 1);
    assert!(solution.is_fitness_cached());

    // The evaluator's argument is ignored on a hit: the cached key returns
    // and nothing is consumed.
    let (second_value, second_consumed) = solution.fitness_and_consumed(99);
    assert_eq!(second_value, first_value);
    assert_eq!(second_consumed, 0);
}

#[test]
fn test_cache_is_invalidated_by_moves() {
    let mut solution = basic_solution();
    let _ = solution.fitness_and_consumed(5);
    assert!(solution.is_fitness_cached());

    solution.invalid_fitness_cache();
    assert!(!solution.is_fitness_cached());

    let _ = solution.fitness_and_consumed(5);
    let mut rng = RandomGenerator::new_seeded(7);
    let neighbour = solution.one_random_neighbour(&mut rng);
    assert!(!neighbour.is_fitness_cached());
    let mutated = solution.mutated(&mut rng);
    assert!(!mutated.is_fitness_cached());
}

#[test]
fn test_uniform_cross_mixes_parent_genes() {
    // For these two parents every mix is already valid, so no repair can
    // trigger and every child gene must come from one of the parents.
    let first = Solution::new(vec![0, 1, 2, 3, 0, 1], 6, 4);
    let second = Solution::new(vec![1, 0, 2, 3, 0, 1], 6, 4);
    let mut rng = RandomGenerator::new_seeded(2024);
    for _ in 0..1000 {
        let child = Solution::uniform_cross(&first, &second, &mut rng);
        let genes = child.get_cluster_indexes();
        assert_eq!(genes.len(), 6);
        assert!(child.is_valid());
        let a = first.get_cluster_indexes();
        let b = second.get_cluster_indexes();
        for i in 0..6 {
            assert!(genes[i] == a[i] || genes[i] == b[i]);
        }
    }
}

#[test]
fn test_cross_segment_mixes_parent_genes() {
    let first = Solution::new(vec![0, 1, 2, 3, 0, 1], 6, 4);
    let second = Solution::new(vec![1, 0, 2, 3, 0, 1], 6, 4);
    let mut rng = RandomGenerator::new_seeded(99);
    for _ in 0..1000 {
        let child = Solution::cross_segment(&first, &second, &mut rng);
        let genes = child.get_cluster_indexes();
        assert_eq!(genes.len(), 6);
        assert!(child.is_valid());
        let a = first.get_cluster_indexes();
        let b = second.get_cluster_indexes();
        for i in 0..6 {
            assert!(genes[i] == a[i] || genes[i] == b[i]);
        }
    }
}

#[test]
fn test_crossover_repairs_children_when_needed() {
    // Both parents lack cluster 3 entirely except at one position, so some
    // mixes are invalid; the children must still come back valid.
    let first = Solution::new(vec![0, 0, 1, 2, 3, 0], 6, 4);
    let second = Solution::new(vec![1, 1, 0, 3, 2, 1], 6, 4);
    let mut rng = RandomGenerator::new_seeded(31);
    for _ in 0..1000 {
        let child = Solution::uniform_cross(&first, &second, &mut rng);
        assert!(child.is_valid());
        let child = Solution::cross_segment(&first, &second, &mut rng);
        assert!(child.is_valid());
    }
}

#[test]
fn test_binary_tournament_keeps_the_lower_key() {
    let mut first = basic_solution();
    let mut second = Solution::new(vec![1, 1, 2, 3, 0, 1], 6, 4);
    let _ = first.fitness_and_consumed(10);
    let _ = second.fitness_and_consumed(20);

    let (winner, consumed) = Solution::binary_tournament(&first, &second);
    assert_eq!(consumed, 0);
    assert_eq!(winner.get_cluster_indexes(), first.get_cluster_indexes());

    // Ties go to the second argument, as the strict comparison does.
    let mut third = Solution::new(vec![2, 1, 2, 3, 0, 1], 6, 4);
    let _ = third.fitness_and_consumed(10);
    let (winner, _) = Solution::binary_tournament(&first, &third);
    assert_eq!(winner.get_cluster_indexes(), third.get_cluster_indexes());
}

#[test]
fn test_generate_random_solution_is_seed_reproducible() {
    let mut rng_a = RandomGenerator::new_seeded(555);
    let mut rng_b = RandomGenerator::new_seeded(555);
    let sol_a = Solution::generate_random_solution(20, 5, &mut rng_a);
    let sol_b = Solution::generate_random_solution(20, 5, &mut rng_b);
    assert_eq!(sol_a.get_cluster_indexes(), sol_b.get_cluster_indexes());
    assert_eq!(sol_a.get_cluster_indexes().len(), 20);
    assert!(sol_a.get_cluster_indexes().iter().all(|&g| g < 5));
    assert!(!sol_a.is_fitness_cached());
}
