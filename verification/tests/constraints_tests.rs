use constrained_clustering::constraints::{ConstraintType, Constraints};

#[test]
fn test_has_element() {
    let mut constraints = Constraints::new();
    constraints.add_constraint(0, 1, ConstraintType::MustLink);
    constraints.add_constraint(3, 4, ConstraintType::CannotLink);

    let calc_inside = constraints.has_element(0, 1);
    let exp_inside = true;
    assert_eq!(calc_inside, exp_inside);

    let calc_inside = constraints.has_element(1, 0);
    let exp_inside = true;
    assert_eq!(calc_inside, exp_inside);

    let calc_inside = constraints.has_element(3, 4);
    let exp_inside = true;
    assert_eq!(calc_inside, exp_inside);

    let calc_inside = constraints.has_element(4, 3);
    let exp_inside = true;
    assert_eq!(calc_inside, exp_inside);

    let calc_inside = constraints.has_element(1, 3);
    let exp_inside = false;
    assert_eq!(calc_inside, exp_inside);
}

#[test]
fn test_correct_returned_constraints() {
    let mut constraints = Constraints::new();
    constraints.add_constraint(0, 1, ConstraintType::MustLink);
    constraints.add_constraint(3, 4, ConstraintType::CannotLink);

    let calc_returned_constraint = constraints.get_constraint(0, 1);
    match calc_returned_constraint {
        Some(ConstraintType::MustLink) => (),
        Some(ConstraintType::CannotLink) => panic!("Should return MustLink, CannotLink returned"),
        None => panic!("Should return MustLink, None returned"),
    }

    let calc_returned_constraint = constraints.get_constraint(1, 0);
    match calc_returned_constraint {
        Some(ConstraintType::MustLink) => (),
        Some(ConstraintType::CannotLink) => panic!("Should return MustLink, CannotLink returned"),
        None => panic!("Should return MustLink, None returned"),
    }

    let calc_returned_constraint = constraints.get_constraint(3, 4);
    match calc_returned_constraint {
        Some(ConstraintType::MustLink) => panic!("Should return CannotLink, MustLink returned"),
        Some(ConstraintType::CannotLink) => (),
        None => panic!("Should return CannotLink, None returned"),
    }

    let calc_returned_constraint = constraints.get_constraint(4, 3);
    match calc_returned_constraint {
        Some(ConstraintType::MustLink) => panic!("Should return CannotLink, MustLink returned"),
        Some(ConstraintType::CannotLink) => (),
        None => panic!("Should return CannotLink, None returned"),
    }

    let calc_returned_constraint = constraints.get_constraint(1, 3);
    match calc_returned_constraint {
        Some(ConstraintType::MustLink) => panic!("Should return None, MustLink returned"),
        Some(ConstraintType::CannotLink) => panic!("Should return None, CannotLink returned"),
        None => (),
    }
}

#[test]
fn test_self_pairs_and_duplicates_are_not_stored() {
    let mut constraints = Constraints::new();
    constraints.add_constraint(2, 2, ConstraintType::MustLink);
    assert_eq!(constraints.len(), 0);
    assert!(!constraints.has_element(2, 2));

    constraints.add_constraint(0, 1, ConstraintType::MustLink);
    constraints.add_constraint(1, 0, ConstraintType::CannotLink);
    assert_eq!(constraints.len(), 1);
    match constraints.get_constraint(0, 1) {
        Some(ConstraintType::MustLink) => (),
        _ => panic!("the first stored relation must be kept"),
    }
}

#[test]
fn test_pairs_are_stored_normalised() {
    let mut constraints = Constraints::new();
    constraints.add_constraint(5, 2, ConstraintType::CannotLink);
    let data = constraints.get_data();
    assert_eq!(data.len(), 1);
    assert_eq!(data[0].0, 2);
    assert_eq!(data[0].1, 5);
}
