use constrained_clustering::params::{ParamError, ProgramParameters, SearchType, parse_u64};

#[test]
fn test_from_str_accepts_every_search_code() {
    let cases = [
        ("copkmeans", SearchType::Copkmeans),
        ("copkmeans_robust", SearchType::CopkmeansRobust),
        ("local_search", SearchType::LocalSearch),
        ("gguniform", SearchType::GenerationalGeneticUniform),
        ("ggsegment", SearchType::GenerationalGeneticSegment),
        ("gsuniform", SearchType::SteadyGeneticUniform),
        ("gssegment", SearchType::SteadyGeneticSegment),
        ("memeall", SearchType::MemeticAll),
        ("memerandom", SearchType::MemeticRandom),
        ("memeelitist", SearchType::MemeticElitist),
        ("multistartlocalsearch", SearchType::MultistartLocalSearch),
        ("iterative_local_search", SearchType::IterativeLocalSearch),
        (
            "iterative_local_search_annealing",
            SearchType::IterativeLocalSearchAnnealing,
        ),
        ("simulated_annealing", SearchType::SimulatedAnnealing),
    ];
    for (code, expected) in cases {
        assert_eq!(SearchType::from_str(code), Ok(expected));
    }
    assert_eq!(
        SearchType::from_str("hill_climbing"),
        Err(ParamError::BadSearchType)
    );
    assert_eq!(SearchType::from_str(""), Err(ParamError::BadSearchType));
}

#[test]
fn test_parse_u64_exact_values() {
    assert_eq!(parse_u64("0"), Some(0));
    assert_eq!(parse_u64("123456789"), Some(123456789));
    assert_eq!(parse_u64("18446744073709551615"), Some(u64::MAX));
    assert_eq!(parse_u64("18446744073709551616"), None);
    assert_eq!(parse_u64(""), None);
    assert_eq!(parse_u64("12a"), None);
    assert_eq!(parse_u64("-3"), None);
    assert_eq!(parse_u64("00042"), Some(42));
}

fn args_of(items: &[&str]) -> Vec<String> {
    items.iter().map(|s| s.to_string()).collect()
}

fn expect_err(r: Result<ProgramParameters, ParamError>) -> ParamError {
    match r {
        Ok(_) => panic!("expected the command line to be rejected"),
        Err(e) => e,
    }
}

#[test]
fn test_program_parameters_parses_a_full_command_line() {
    let args = args_of(&[
        "program",
        "data.csv",
        "constraints.csv",
        "123456789",
        "4",
        "local_search",
    ]);
    let params = ProgramParameters::new(&args).unwrap();
    assert_eq!(params.get_data_file(), "data.csv");
    assert_eq!(params.get_constraints_file(), "constraints.csv");
    assert_eq!(params.get_seed(), 123456789);
    assert_eq!(params.get_number_of_clusters(), 4);
    assert_eq!(params.get_search_type(), SearchType::LocalSearch);
}

#[test]
fn test_program_parameters_rejects_bad_command_lines() {
    assert_eq!(
        expect_err(ProgramParameters::new(&args_of(&["program", "data.csv"]))),
        ParamError::WrongArgumentCount
    );
    assert_eq!(
        expect_err(ProgramParameters::new(&args_of(&[
            "program",
            "data.csv",
            "constraints.csv",
            "notaseed",
            "4",
            "local_search",
        ]))),
        ParamError::BadSeed
    );
    assert_eq!(
        expect_err(ProgramParameters::new(&args_of(&[
            "program",
            "data.csv",
            "constraints.csv",
            "1",
            "5000000000",
            "local_search",
        ]))),
        ParamError::BadNumberOfClusters
    );
    assert_eq!(
        expect_err(ProgramParameters::new(&args_of(&[
            "program",
            "data.csv",
            "constraints.csv",
            "1",
            "4",
            "tabu_search",
        ]))),
        ParamError::BadSearchType
    );
}
