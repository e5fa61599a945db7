use orienteering::experiment_config::{
    Algorithm, ExperimentConfigError, Fix, FixAlgo, NoStatTwoSwapExperiment, RandomSearchExperiment,
    TwoSwapExperiment, UnseededRandomSearchExperiment,
};

#[test]
fn two_swap_settings_become_a_fresh_run() {
    let settings = NoStatTwoSwapExperiment { aggregation_rate: 17 };
    let fixed: TwoSwapExperiment = settings.as_fixed();

    assert!(!fixed.finished());
    assert_eq!(fixed.aggregation_rate, 17);
    let done = TwoSwapExperiment { finished: true, aggregation_rate: 3 };
    assert!(done.finished());
}

#[test]
fn random_search_seed_is_the_high_half() {
    let settings = UnseededRandomSearchExperiment { iterations: 1000 };
    let fixed: RandomSearchExperiment = settings.fixed_with_seed((7u128 << 64) | 99);

    assert_eq!(fixed.seed, 7);
    assert_eq!(fixed.iterations, 1000);
    let fixed = settings.fixed_with_seed(u128::MAX);
    assert_eq!(fixed.seed, u64::MAX);
}

#[test]
fn random_search_to_fixed_keeps_iterations() {
    let settings = UnseededRandomSearchExperiment { iterations: 42 };
    let fixed = settings.to_fixed();

    assert_eq!(fixed.iterations, 42);
}

#[test]
fn config_errors_have_messages() {
    assert_eq!(ExperimentConfigError::NotAco.message(), "Config is not a valid ACO config.");
    assert_eq!(ExperimentConfigError::NotMMAco.message(), "Config is not a valid MMAco config.");
    assert_eq!(ExperimentConfigError::NotAcs.message(), "Config is not a valid ACS config.");
    assert_eq!(ExperimentConfigError::NotTwoSwap.message(), "Config is not a valid TwoSwap config.");
    assert_eq!(ExperimentConfigError::NotRandom.message(), "Config is not a valid RandomSearch config.");
    assert_eq!(
        ExperimentConfigError::InvalidAlgorithmConfig("bad alpha".to_string()).message(),
        "bad alpha"
    );
    assert_eq!(
        ExperimentConfigError::NotFileBased.message(),
        "Config is not a valid file import config."
    );
    assert_eq!(ExperimentConfigError::NotGrid.message(), "Config is not a valid generation config.");
    assert_eq!(
        ExperimentConfigError::NotErdosRenyi.message(),
        "Config is not a valid ErdosRenyi generation config."
    );
    assert_eq!(
        ExperimentConfigError::InvalidGraphConfig("File not found: x".to_string()).message(),
        "File not found: x"
    );
}
