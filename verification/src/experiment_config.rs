//! The settings of experiments, and the errors that reading them gives.
use vstd::prelude::*;

use crate::rng::os_random_seed;

verus! {

/// The settings of an algorithm run that can be finished.
pub trait Algorithm {
    /// The run is finished.
    spec fn spec_finished(&self) -> bool;

    /// Returns true if the run is finished, or false otherwise.
    fn finished(&self) -> (finished: bool)
        ensures
            finished == self.spec_finished(),
    ;
}

/// Settings without run state that become the settings of a fresh run.
pub trait FixAlgo<CorrectType: Algorithm> {
    /// Returns the settings of a fresh run.
    fn as_fixed(&self) -> CorrectType;
}

/// Settings that leave something open, such as a seed, which fixing settles.
pub trait Fix<CorrectType> {
    /// Returns the settings with everything settled.
    fn to_fixed(&self) -> CorrectType;
}

/// The settings of a two-swap local search run.
#[derive(Copy, Clone, Debug)]
pub struct TwoSwapExperiment {
    pub finished: bool,
    pub aggregation_rate: usize,
}

impl Algorithm for TwoSwapExperiment {
    open spec fn spec_finished(&self) -> bool {
        self.finished
    }

    fn finished(&self) -> (finished: bool) {
        self.finished
    }
}

/// The settings of a two-swap local search, without run state.
#[derive(Debug)]
pub struct NoStatTwoSwapExperiment {
    pub aggregation_rate: usize,
}

impl FixAlgo<TwoSwapExperiment> for NoStatTwoSwapExperiment {
    /// The run is not finished and keeps the aggregation rate.
    fn as_fixed(&self) -> (fixed: TwoSwapExperiment)
        ensures
            fixed == (TwoSwapExperiment { finished: false, aggregation_rate: self.aggregation_rate }),
    {
        TwoSwapExperiment { finished: false, aggregation_rate: self.aggregation_rate }
    }
}

/// The settings of a random search run.
#[derive(Copy, Clone, Debug)]
pub struct RandomSearchExperiment {
    pub seed: u64,
    pub iterations: usize,
}

/// The settings of a random search run whose seed is drawn when the settings are fixed.
#[derive(Copy, Clone, Debug)]
pub struct UnseededRandomSearchExperiment {
    pub iterations: usize,
}

impl UnseededRandomSearchExperiment {
    /// The settings with the seed taken from the high 64 bits of `random`.
    pub fn fixed_with_seed(&self, random: u128) -> (fixed: RandomSearchExperiment)
        ensures
            fixed == (RandomSearchExperiment { seed: (random >> 64u128) as u64, iterations: self.iterations }),
    {
        RandomSearchExperiment { seed: (random >> 64u128) as u64, iterations: self.iterations }
    }
}

impl Fix<RandomSearchExperiment> for UnseededRandomSearchExperiment {
    /// Draws a seed from the operating system and keeps the number of iterations.
    fn to_fixed(&self) -> (fixed: RandomSearchExperiment)
        ensures
            fixed.iterations == self.iterations,
    {
        let random = os_random_seed();
        self.fixed_with_seed(random)
    }
}

/// The ways in which the settings of an experiment can be unfit for it.
#[derive(Debug)]
pub enum ExperimentConfigError {
    NotAco,
    NotMMAco,
    NotAcs,
    NotTwoSwap,
    NotRandom,
    InvalidAlgorithmConfig(String),
    NotFileBased,
    NotGrid,
    NotErdosRenyi,
    InvalidGraphConfig(String),
}

impl ExperimentConfigError {
    /// The message that describes the error.
    pub fn message(&self) -> (msg: String)
        ensures
            msg@ == match self {
                ExperimentConfigError::NotAco => "Config is not a valid ACO config."@,
                ExperimentConfigError::NotMMAco => "Config is not a valid MMAco config."@,
                ExperimentConfigError::NotAcs => "Config is not a valid ACS config."@,
                ExperimentConfigError::NotTwoSwap => "Config is not a valid TwoSwap config."@,
                ExperimentConfigError::NotRandom => "Config is not a valid RandomSearch config."@,
                ExperimentConfigError::InvalidAlgorithmConfig(m) => m@,
                ExperimentConfigError::NotFileBased => "Config is not a valid file import config."@,
                ExperimentConfigError::NotGrid => "Config is not a valid generation config."@,
                ExperimentConfigError::NotErdosRenyi => "Config is not a valid ErdosRenyi generation config."@,
                ExperimentConfigError::InvalidGraphConfig(m) => m@,
            },
    {
        match self {
            ExperimentConfigError::NotAco => "Config is not a valid ACO config.".to_owned(),
            ExperimentConfigError::NotMMAco => "Config is not a valid MMAco config.".to_owned(),
            ExperimentConfigError::NotAcs => "Config is not a valid ACS config.".to_owned(),
            ExperimentConfigError::NotTwoSwap => "Config is not a valid TwoSwap config.".to_owned(),
            ExperimentConfigError::NotRandom => "Config is not a valid RandomSearch config.".to_owned(),
            ExperimentConfigError::InvalidAlgorithmConfig(m) => m.clone(),
            ExperimentConfigError::NotFileBased => "Config is not a valid file import config.".to_owned(),
            ExperimentConfigError::NotGrid => "Config is not a valid generation config.".to_owned(),
            ExperimentConfigError::NotErdosRenyi => "Config is not a valid ErdosRenyi generation config.".to_owned(),
            ExperimentConfigError::InvalidGraphConfig(m) => m.clone(),
        }
    }
}

} // verus!
