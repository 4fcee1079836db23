use constrained_clustering::eval::FitnessEvaluationResult;
use constrained_clustering::neighbour::NeighbourGenerator;
use constrained_clustering::rng::RandomGenerator;
use constrained_clustering::solution::Solution;

#[test]
fn test_generate_all_neighbours_is_the_full_cross_product() {
    let neighbours = NeighbourGenerator::generate_all_neighbours(3, 2);
    assert_eq!(neighbours.len(), 6);
    let pairs: Vec<(i32, u32)> = neighbours
        .iter()
        .map(|n| (n.get_element_index(), n.get_new_cluster()))
        .collect();
    assert_eq!(pairs, vec![(0, 0), (0, 1), (1, 0), (1, 1), (2, 0), (2, 1)]);

    let none = NeighbourGenerator::generate_all_neighbours(0, 5);
    assert_eq!(none.len(), 0);
}

#[test]
fn test_neighbour_accessors() {
    let neighbour = NeighbourGenerator::new(7, 3);
    assert_eq!(neighbour.get_element_index(), 7);
    assert_eq!(neighbour.get_new_cluster(), 3);
}

#[test]
fn test_generate_solution_from_applies_exactly_one_move() {
    let solution = Solution::new(vec![0, 1, 2, 3, 0, 1], 6, 4);
    let neighbour = NeighbourGenerator::new(4, 3);
    let moved = solution.generate_solution_from(neighbour);
    assert_eq!(moved.get_cluster_indexes(), vec![0, 1, 2, 3, 3, 1]);
    assert!(!moved.is_fitness_cached());
    // The source solution is untouched.
    assert_eq!(solution.get_cluster_indexes(), vec![0, 1, 2, 3, 0, 1]);
}

#[test]
fn test_gen_range_stays_in_range_and_varies() {
    let mut rng = RandomGenerator::new_seeded(8);
    let mut seen_low = false;
    let mut seen_high = false;
    for _ in 0..1000 {
        let value = rng.gen_range(-3, 3);
        assert!(value >= -3 && value < 3);
        if value == -3 {
            seen_low = true;
        }
        if value == 2 {
            seen_high = true;
        }
    }
    // A generator that echoed a bound back would never show both ends.
    assert!(seen_low && seen_high);
}

#[test]
fn test_set_seed_makes_runs_reproducible() {
    let mut rng = RandomGenerator::new_seeded(900);
    let first: Vec<i32> = (0..10).map(|_| rng.gen_range(0, 1000)).collect();
    rng.set_seed(900);
    let second: Vec<i32> = (0..10).map(|_| rng.gen_range(0, 1000)).collect();
    assert_eq!(first, second);
}

#[test]
fn test_shuffle_keeps_the_elements_and_moves_them() {
    let mut rng = RandomGenerator::new_seeded(77);
    let original: Vec<usize> = (0..50).collect();
    let mut shuffled = original.clone();
    rng.shuffle_usizes(&mut shuffled);

    let mut sorted_back = shuffled.clone();
    sorted_back.sort();
    assert_eq!(sorted_back, original);
    // A wrapper handing its argument back unchanged would fail here.
    assert_ne!(shuffled, original);
}

#[test]
fn test_fitness_evaluation_result_carries_value_and_cost() {
    let entry = FitnessEvaluationResult::new(vec![1u32, 2, 3], 7);
    assert_eq!(*entry.get_result(), vec![1, 2, 3]);
    assert_eq!(entry.get_iterations_consumed(), 7);

    let mut entry = entry;
    entry.get_mut_result().push(4);
    assert_eq!(*entry.get_result(), vec![1, 2, 3, 4]);
    assert_eq!(entry.get_mut_iterations_consumed(), 7);

    let (value, cost) = entry.into_parts();
    assert_eq!(value, vec![1, 2, 3, 4]);
    assert_eq!(cost, 7);
}
