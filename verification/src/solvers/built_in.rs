//! The built-in solvers, chosen by their settings: the settings of one solver stand for it,
//! and the common settings are read through whichever was chosen.

use vstd::prelude::*;

use crate::solvers::settings::{
    ClIpmSolverSettings, ClpSolverSettings, CbcSolverSettings, MicroLpSolverSettings, SimdIpmSolverSettings,
    SolverFeatures, SolverSettings,
};

verus! {

/// The settings of one of the built-in solvers that solve one scenario at a time.
pub enum BuiltInSolverConfig {
    Clp(ClpSolverSettings),
    Cbc(CbcSolverSettings),
    MicroLp(MicroLpSolverSettings),
}

impl SolverSettings for BuiltInSolverConfig {
    fn parallel(&self) -> (r: bool)
        ensures
            r == match self {
                BuiltInSolverConfig::Clp(s) => s@.parallel,
                BuiltInSolverConfig::Cbc(s) => s@.parallel,
                BuiltInSolverConfig::MicroLp(s) => s@.parallel,
            },
    {
        match self {
            BuiltInSolverConfig::Clp(settings) => settings.parallel(),
            BuiltInSolverConfig::Cbc(settings) => settings.parallel(),
            BuiltInSolverConfig::MicroLp(settings) => settings.parallel(),
        }
    }

    fn threads(&self) -> (r: usize)
        ensures
            r == match self {
                BuiltInSolverConfig::Clp(s) => s@.threads,
                BuiltInSolverConfig::Cbc(s) => s@.threads,
                BuiltInSolverConfig::MicroLp(s) => s@.threads,
            },
    {
        match self {
            BuiltInSolverConfig::Clp(settings) => settings.threads(),
            BuiltInSolverConfig::Cbc(settings) => settings.threads(),
            BuiltInSolverConfig::MicroLp(settings) => settings.threads(),
        }
    }

    fn ignore_feature_requirements(&self) -> (r: bool)
        ensures
            r == match self {
                BuiltInSolverConfig::Clp(s) => s@.ignore_feature_requirements,
                BuiltInSolverConfig::Cbc(s) => s@.ignore_feature_requirements,
                BuiltInSolverConfig::MicroLp(_) => false,
            },
    {
        match self {
            BuiltInSolverConfig::Clp(settings) => settings.ignore_feature_requirements(),
            BuiltInSolverConfig::Cbc(settings) => settings.ignore_feature_requirements(),
            BuiltInSolverConfig::MicroLp(settings) => settings.ignore_feature_requirements(),
        }
    }
}

impl BuiltInSolverConfig {
    /// The name of the chosen solver.
    pub fn name(&self) -> (r: &'static str)
        ensures
            r@ == match self {
                BuiltInSolverConfig::Clp(_) => "clp"@,
                BuiltInSolverConfig::Cbc(_) => "cbc"@,
                BuiltInSolverConfig::MicroLp(_) => "microlp"@,
            },
    {
        match self {
            BuiltInSolverConfig::Clp(_) => "clp",
            BuiltInSolverConfig::Cbc(_) => "cbc",
            BuiltInSolverConfig::MicroLp(_) => "microlp",
        }
    }

    /// The features that the chosen solver provides, in the order in which it lists them.
    pub fn features(&self) -> (r: Vec<SolverFeatures>)
        ensures
            r@ == match self {
                BuiltInSolverConfig::Clp(_) => seq![
                    SolverFeatures::AggregatedNode,
                    SolverFeatures::AggregatedNodeFactors,
                    SolverFeatures::AggregatedNodeDynamicFactors,
                    SolverFeatures::VirtualStorage,
                ],
                BuiltInSolverConfig::Cbc(_) => seq![
                    SolverFeatures::AggregatedNode,
                    SolverFeatures::VirtualStorage,
                    SolverFeatures::AggregatedNodeFactors,
                    SolverFeatures::MutualExclusivity,
                ],
                BuiltInSolverConfig::MicroLp(_) => seq![
                    SolverFeatures::VirtualStorage,
                    SolverFeatures::MutualExclusivity,
                    SolverFeatures::AggregatedNode,
                    SolverFeatures::AggregatedNodeFactors,
                    SolverFeatures::AggregatedNodeDynamicFactors,
                    SolverFeatures::VirtualStorage,
                ],
            },
    {
        match self {
            BuiltInSolverConfig::Clp(_) => vec![
                SolverFeatures::AggregatedNode,
                SolverFeatures::AggregatedNodeFactors,
                SolverFeatures::AggregatedNodeDynamicFactors,
                SolverFeatures::VirtualStorage,
            ],
            BuiltInSolverConfig::Cbc(_) => vec![
                SolverFeatures::AggregatedNode,
                SolverFeatures::VirtualStorage,
                SolverFeatures::AggregatedNodeFactors,
                SolverFeatures::MutualExclusivity,
            ],
            BuiltInSolverConfig::MicroLp(_) => vec![
                SolverFeatures::VirtualStorage,
                SolverFeatures::MutualExclusivity,
                SolverFeatures::AggregatedNode,
                SolverFeatures::AggregatedNodeFactors,
                SolverFeatures::AggregatedNodeDynamicFactors,
                SolverFeatures::VirtualStorage,
            ],
        }
    }
}

/// The settings of one of the built-in solvers that solve many scenarios at once: the SIMD
/// interior point solver, or the OpenCL one in double or in single precision.
pub enum BuiltInMultiStateSolverConfig {
    SimdIpm(SimdIpmSolverSettings),
    ClIpmF64(ClIpmSolverSettings),
    ClIpmF32(ClIpmSolverSettings),
}

impl SolverSettings for BuiltInMultiStateSolverConfig {
    fn parallel(&self) -> (r: bool)
        ensures
            r == match self {
                BuiltInMultiStateSolverConfig::SimdIpm(s) => s@.parallel,
                BuiltInMultiStateSolverConfig::ClIpmF64(s) => s@.parallel,
                BuiltInMultiStateSolverConfig::ClIpmF32(s) => s@.parallel,
            },
    {
        match self {
            BuiltInMultiStateSolverConfig::SimdIpm(settings) => settings.parallel(),
            BuiltInMultiStateSolverConfig::ClIpmF64(settings) => settings.parallel(),
            BuiltInMultiStateSolverConfig::ClIpmF32(settings) => settings.parallel(),
        }
    }

    fn threads(&self) -> (r: usize)
        ensures
            r == match self {
                BuiltInMultiStateSolverConfig::SimdIpm(s) => s@.threads,
                BuiltInMultiStateSolverConfig::ClIpmF64(s) => s@.threads,
                BuiltInMultiStateSolverConfig::ClIpmF32(s) => s@.threads,
            },
    {
        match self {
            BuiltInMultiStateSolverConfig::SimdIpm(settings) => settings.threads(),
            BuiltInMultiStateSolverConfig::ClIpmF64(settings) => settings.threads(),
            BuiltInMultiStateSolverConfig::ClIpmF32(settings) => settings.threads(),
        }
    }

    fn ignore_feature_requirements(&self) -> (r: bool)
        ensures
            r == match self {
                BuiltInMultiStateSolverConfig::SimdIpm(s) => s@.ignore_feature_requirements,
                BuiltInMultiStateSolverConfig::ClIpmF64(_) => false,
                BuiltInMultiStateSolverConfig::ClIpmF32(_) => false,
            },
    {
        match self {
            BuiltInMultiStateSolverConfig::SimdIpm(settings) => settings.ignore_feature_requirements(),
            BuiltInMultiStateSolverConfig::ClIpmF64(settings) => settings.ignore_feature_requirements(),
            BuiltInMultiStateSolverConfig::ClIpmF32(settings) => settings.ignore_feature_requirements(),
        }
    }
}

} // verus!
