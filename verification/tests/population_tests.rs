use constrained_clustering::population::{select_best_reassignment, Population};
use constrained_clustering::rng::RandomGenerator;
use constrained_clustering::solution::Solution;

/// A population over 6 points and 2 clusters whose individuals carry the
/// given fitness keys.
fn keyed_population(keys: &[u64]) -> Population {
    let mut population = Population::new_empty_population();
    for (i, &key) in keys.iter().enumerate() {
        let gene = (i % 2) as u32;
        let mut solution = Solution::new(vec![gene, 1 - gene, 0, 1, 0, 1], 6, 2);
        let _ = solution.fitness_and_consumed(key);
        population.push_individual(solution);
    }
    population
}

#[test]
fn test_best_and_worst_individual_scan() {
    let population = keyed_population(&[30, 10, 10, 40, 40]);

    let best = population.get_best_individual();
    assert_eq!(best.get_iterations_consumed(), 0);
    // The earliest minimum wins.
    assert_eq!(*best.get_result(), 1);

    let worst = population.get_index_worst_individual();
    assert_eq!(worst.get_iterations_consumed(), 0);
    // The earliest maximum wins.
    assert_eq!(*worst.get_result(), 3);
}

#[test]
fn test_select_population_binary_tournament_draws_from_population() {
    let population = keyed_population(&[30, 10, 20, 40]);
    let mut rng = RandomGenerator::new_seeded(7);
    let selection = population.select_population_binary_tournament(8, &mut rng);
    assert_eq!(selection.get_iterations_consumed(), 0);
    let selected = selection.get_result();
    assert_eq!(selected.population_size(), 8);
    for i in 0..8 {
        let assignment = selected.get_individual(i).get_cluster_indexes();
        let mut found = false;
        for j in 0..population.population_size() {
            if population.get_individual(j).get_cluster_indexes() == assignment {
                found = true;
            }
        }
        assert!(found);
    }
}

#[test]
fn test_evaluate_all_individuals_counts_only_misses() {
    let mut rng = RandomGenerator::new_seeded(3);
    let mut population = Population::new_random_population(6, 2, 5, &mut rng);
    assert!(population.all_population_is_not_cached());
    assert!(!population.all_population_is_cached());

    let keys = vec![11, 22, 33, 44, 55];
    let result = population.evaluate_all_individuals(&keys);
    assert_eq!(result.get_iterations_consumed(), 5);
    assert!(population.all_population_is_cached());

    // A second evaluation finds everything cached and costs nothing.
    let other_keys = vec![0, 0, 0, 0, 0];
    let result = population.evaluate_all_individuals(&other_keys);
    assert_eq!(result.get_iterations_consumed(), 0);
}

#[test]
fn test_preserve_best_past_parent_reinserts_the_lost_best() {
    let original = keyed_population(&[30, 10, 20, 40]);
    // The new population lost the original's best individual (index 1).
    let mut new_population = Population::new_empty_population();
    for i in 0..4 {
        let mut solution = Solution::new(vec![1, 1, 0, 1, 0, 1], 6, 2);
        let _ = solution.fitness_and_consumed((50 + i) as u64);
        new_population.push_individual(solution);
    }

    let preserved = new_population.preserve_best_past_parent(&original);
    assert_eq!(preserved.get_iterations_consumed(), 0);
    let preserved = preserved.get_result();
    assert_eq!(
        preserved.get_individual(1).get_cluster_indexes(),
        original.get_individual(1).get_cluster_indexes()
    );
    // The other slots are untouched.
    for i in [0usize, 2, 3] {
        assert_eq!(
            preserved.get_individual(i).get_cluster_indexes(),
            new_population.get_individual(i).get_cluster_indexes()
        );
    }

    // When the best survives, nothing changes.
    let unchanged = original.preserve_best_past_parent(&original);
    let unchanged = unchanged.get_result();
    for i in 0..4 {
        assert_eq!(
            unchanged.get_individual(i).get_cluster_indexes(),
            original.get_individual(i).get_cluster_indexes()
        );
    }
}

#[test]
fn test_compete_with_new_individuals_replaces_strictly_worse_only() {
    let population = keyed_population(&[30, 10, 20, 40]);

    // One candidate strictly better than the worst, one not better.
    let mut candidates = Population::new_empty_population();
    let mut good = Solution::new(vec![0, 0, 0, 1, 1, 1], 6, 2);
    let _ = good.fitness_and_consumed(5);
    candidates.push_individual(good);
    let mut bad = Solution::new(vec![1, 0, 0, 1, 1, 1], 6, 2);
    let _ = bad.fitness_and_consumed(100);
    candidates.push_individual(bad);

    let result = population.compete_with_new_individuals(&candidates);
    assert_eq!(result.get_iterations_consumed(), 0);
    let result = result.get_result();
    assert_eq!(result.population_size(), 4);
    // The good candidate sits where the worst (index 3, key 40) sat; the
    // bad one replaced nobody.
    assert_eq!(
        result.get_individual(3).get_cluster_indexes(),
        vec![0, 0, 0, 1, 1, 1]
    );
    for i in 0..3 {
        assert_eq!(
            result.get_individual(i).get_cluster_indexes(),
            population.get_individual(i).get_cluster_indexes()
        );
    }
}

#[test]
fn test_select_best_reassignment_picks_the_lowest_valid_key() {
    let keys = vec![Some(30u64), None, Some(10), Some(10), None];
    assert_eq!(select_best_reassignment(&keys), 2);
    let keys = vec![None, Some(4u64)];
    assert_eq!(select_best_reassignment(&keys), 1);
}

#[test]
fn test_select_best_indixes_ranks_by_key() {
    let population = keyed_population(&[30, 10, 20, 40, 15]);
    let best = population.select_best_indixes(3);
    assert_eq!(best.get_iterations_consumed(), 0);
    let best = best.get_result();
    assert_eq!(*best, vec![1, 4, 2]);
}

#[test]
fn test_cross_population_uniform_touches_only_the_crossed_slice() {
    let mut rng = RandomGenerator::new_seeded(11);
    let mut population = Population::new_random_population(8, 3, 6, &mut rng);
    let keys = vec![1, 2, 3, 4, 5, 6];
    let _ = population.evaluate_all_individuals(&keys);

    let crossed = population.cross_population_uniform(4, &mut rng);
    assert_eq!(crossed.get_iterations_consumed(), 0);
    let crossed = crossed.get_result();
    assert_eq!(crossed.population_size(), 6);
    // The slice beyond the crossover count is identical.
    for i in 4..6 {
        assert_eq!(
            crossed.get_individual(i).get_cluster_indexes(),
            population.get_individual(i).get_cluster_indexes()
        );
    }
    // Crossed children are valid and come back unevaluated.
    for i in 0..4 {
        assert!(crossed.get_individual(i).is_valid());
        assert!(!crossed.get_individual(i).is_fitness_cached());
    }
}

#[test]
fn test_mutate_population_given_prob_extremes() {
    let mut rng = RandomGenerator::new_seeded(17);
    let mut population = Population::new_random_population(8, 3, 4, &mut rng);
    // Make every individual valid first, so mutation applies cleanly.
    for i in 0..4 {
        let mut solution = population.get_individual(i).copy();
        solution.repair_solution(&mut rng);
        population.set_individual(i, solution);
    }

    // Probability zero never mutates.
    let untouched = population.mutate_population_given_prob(0, 1, &mut rng);
    for i in 0..4 {
        assert_eq!(
            untouched.get_individual(i).get_cluster_indexes(),
            population.get_individual(i).get_cluster_indexes()
        );
    }

    // Probability one mutates every individual away from its value.
    let mutated = population.mutate_population_given_prob(1, 1, &mut rng);
    for i in 0..4 {
        assert!(mutated.get_individual(i).is_valid());
        assert_ne!(
            mutated.get_individual(i).get_cluster_indexes(),
            population.get_individual(i).get_cluster_indexes()
        );
    }
}

#[test]
fn test_breed_generation_keeps_size_and_consumes_nothing() {
    let mut rng = RandomGenerator::new_seeded(29);
    let mut population = Population::new_random_population(9, 3, 6, &mut rng);
    let keys = vec![6, 5, 4, 3, 2, 1];
    let _ = population.evaluate_all_individuals(&keys);

    let bred = population.breed_generation(4, 2, true, &mut rng);
    // Selection, crossover and elitism consume nothing on an evaluated
    // population; only evaluating the offspring would.
    assert_eq!(bred.get_iterations_consumed(), 0);
    let bred = bred.get_result();
    assert_eq!(bred.population_size(), 6);
}

#[test]
fn test_mutate_population_keeps_size_and_validity() {
    let mut rng = RandomGenerator::new_seeded(23);
    let mut population = Population::new_random_population(8, 3, 5, &mut rng);
    for i in 0..5 {
        let mut solution = population.get_individual(i).copy();
        solution.repair_solution(&mut rng);
        population.set_individual(i, solution);
    }
    let mutated = population.mutate_population(3, &mut rng);
    assert_eq!(mutated.population_size(), 5);
    for i in 0..5 {
        assert!(mutated.get_individual(i).is_valid());
    }
}
