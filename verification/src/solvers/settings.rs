//! Settings of the linear programme solvers and their builders.

use vstd::prelude::*;

verus! {

/// Features that a solver provides or a model may required.
///
/// This enum is used to ensure that a given solver implements the appropriate features
/// to solve a given model.
#[derive(Debug, PartialEq, Eq, Structural, Hash)]
pub enum SolverFeatures {
    AggregatedNode,
    AggregatedNodeFactors,
    AggregatedNodeDynamicFactors,
    VirtualStorage,
    MutualExclusivity,
}

/// Solver settings that are common to all solvers.
pub trait SolverSettings {
    fn parallel(&self) -> bool;

    fn threads(&self) -> usize;

    fn ignore_feature_requirements(&self) -> bool;
}

/// The mathematical form of a solver's settings: whether it runs in parallel, on how many
/// threads, whether it ignores the features a model requires, and, for interior point
/// solvers, the iteration limit and the number of chunks.
pub struct SettingsView {
    pub parallel: bool,
    pub threads: usize,
    pub ignore_feature_requirements: bool,
    pub max_iterations: usize,
    pub num_chunks: usize,
}

/// The settings that every builder starts from: serial, no thread count, requirements honoured.
pub open spec fn default_settings_view() -> SettingsView {
    SettingsView {
        parallel: false,
        threads: 0,
        ignore_feature_requirements: false,
        max_iterations: 0,
        num_chunks: 0,
    }
}

/// Settings for the CBC solver.
#[derive(PartialEq, Eq, Structural, Debug, Copy, Clone)]
pub struct CbcSolverSettings {
    parallel: bool,
    threads: usize,
}

impl View for CbcSolverSettings {
    type V = SettingsView;

    closed spec fn view(&self) -> SettingsView {
        SettingsView {
            parallel: self.parallel,
            threads: self.threads,
            ignore_feature_requirements: false,
            max_iterations: 0,
            num_chunks: 0,
        }
    }
}

impl Default for CbcSolverSettings {
    fn default() -> (r: Self)
        ensures
            r@ == default_settings_view(),
    {
        CbcSolverSettingsBuilder::default().build()
    }
}

impl SolverSettings for CbcSolverSettings {
    fn parallel(&self) -> (r: bool)
        ensures
            r == self@.parallel,
    {
        self.parallel
    }

    fn threads(&self) -> (r: usize)
        ensures
            r == self@.threads,
    {
        self.threads
    }

    fn ignore_feature_requirements(&self) -> (r: bool)
        ensures
            r == self@.ignore_feature_requirements,
    {
        false
    }
}

/// Builder for [`CbcSolverSettings`].
#[derive(Debug)]
pub struct CbcSolverSettingsBuilder {
    parallel: bool,
    threads: usize,
}

impl View for CbcSolverSettingsBuilder {
    type V = SettingsView;

    closed spec fn view(&self) -> SettingsView {
        SettingsView {
            parallel: self.parallel,
            threads: self.threads,
            ignore_feature_requirements: false,
            max_iterations: 0,
            num_chunks: 0,
        }
    }
}

impl Default for CbcSolverSettingsBuilder {
    fn default() -> (r: Self)
        ensures
            r@ == default_settings_view(),
    {
        CbcSolverSettingsBuilder { parallel: false, threads: 0 }
    }
}

impl CbcSolverSettingsBuilder {
    pub fn parallel(&mut self) -> (r: &mut Self)
        ensures
            r@ == (SettingsView { parallel: true, ..old(self)@ }),
            *final(self) == *final(r),
    {
        self.parallel = true;
        self
    }

    pub fn threads(&mut self, threads: usize) -> (r: &mut Self)
        ensures
            r@ == (SettingsView { threads, ..old(self)@ }),
            *final(self) == *final(r),
    {
        self.threads = threads;
        self
    }

    /// Construct a [`CbcSolverSettings`] from the builder.
    pub fn build(&self) -> (r: CbcSolverSettings)
        ensures
            r@ == self@,
    {
        CbcSolverSettings { parallel: self.parallel, threads: self.threads }
    }
}

impl CbcSolverSettings {
    /// Create a new builder for the settings
    pub fn builder() -> (r: CbcSolverSettingsBuilder)
        ensures
            r@ == default_settings_view(),
    {
        CbcSolverSettingsBuilder::default()
    }
}
/// Settings for the CLP solver.
#[derive(PartialEq, Eq, Structural, Debug, Copy, Clone)]
pub struct ClpSolverSettings {
    parallel: bool,
    threads: usize,
    ignore_feature_requirements: bool,
}

impl View for ClpSolverSettings {
    type V = SettingsView;

    closed spec fn view(&self) -> SettingsView {
        SettingsView {
            parallel: self.parallel,
            threads: self.threads,
            ignore_feature_requirements: self.ignore_feature_requirements,
            max_iterations: 0,
            num_chunks: 0,
        }
    }
}

impl Default for ClpSolverSettings {
    fn default() -> (r: Self)
        ensures
            r@ == default_settings_view(),
    {
        ClpSolverSettingsBuilder::default().build()
    }
}

impl SolverSettings for ClpSolverSettings {
    fn parallel(&self) -> (r: bool)
        ensures
            r == self@.parallel,
    {
        self.parallel
    }

    fn threads(&self) -> (r: usize)
        ensures
            r == self@.threads,
    {
        self.threads
    }

    fn ignore_feature_requirements(&self) -> (r: bool)
        ensures
            r == self@.ignore_feature_requirements,
    {
        self.ignore_feature_requirements
    }
}

/// Builder for [`ClpSolverSettings`].
#[derive(Debug)]
pub struct ClpSolverSettingsBuilder {
    parallel: bool,
    threads: usize,
    ignore_feature_requirements: bool,
}

impl View for ClpSolverSettingsBuilder {
    type V = SettingsView;

    closed spec fn view(&self) -> SettingsView {
        SettingsView {
            parallel: self.parallel,
            threads: self.threads,
            ignore_feature_requirements: self.ignore_feature_requirements,
            max_iterations: 0,
            num_chunks: 0,
        }
    }
}

impl Default for ClpSolverSettingsBuilder {
    fn default() -> (r: Self)
        ensures
            r@ == default_settings_view(),
    {
        ClpSolverSettingsBuilder { parallel: false, threads: 0, ignore_feature_requirements: false }
    }
}

impl ClpSolverSettingsBuilder {
    pub fn parallel(self) -> (r: Self)
        ensures
            r@ == (SettingsView { parallel: true, ..self@ }),
    {
        let mut b = self;
        b.parallel = true;
        b
    }

    pub fn threads(self, threads: usize) -> (r: Self)
        ensures
            r@ == (SettingsView { threads, ..self@ }),
    {
        let mut b = self;
        b.threads = threads;
        b
    }

    pub fn ignore_feature_requirements(self) -> (r: Self)
        ensures
            r@ == (SettingsView { ignore_feature_requirements: true, ..self@ }),
    {
        let mut b = self;
        b.ignore_feature_requirements = true;
        b
    }

    /// Construct a [`ClpSolverSettings`] from the builder.
    pub fn build(self) -> (r: ClpSolverSettings)
        ensures
            r@ == self@,
    {
        ClpSolverSettings { parallel: self.parallel, threads: self.threads, ignore_feature_requirements: self.ignore_feature_requirements }
    }
}

impl ClpSolverSettings {
    /// Create a new builder for the settings
    pub fn builder() -> (r: ClpSolverSettingsBuilder)
        ensures
            r@ == default_settings_view(),
    {
        ClpSolverSettingsBuilder::default()
    }
}
/// Settings for the microlp solver.
#[derive(PartialEq, Eq, Structural, Debug, Copy, Clone)]
pub struct MicroLpSolverSettings {
    parallel: bool,
    threads: usize,
    ignore_feature_requirements: bool,
}

impl View for MicroLpSolverSettings {
    type V = SettingsView;

    closed spec fn view(&self) -> SettingsView {
        SettingsView {
            parallel: self.parallel,
            threads: self.threads,
            ignore_feature_requirements: self.ignore_feature_requirements,
            max_iterations: 0,
            num_chunks: 0,
        }
    }
}

impl Default for MicroLpSolverSettings {
    fn default() -> (r: Self)
        ensures
            r@ == default_settings_view(),
    {
        MicroLpSolverSettingsBuilder::default().build()
    }
}

impl SolverSettings for MicroLpSolverSettings {
    fn parallel(&self) -> (r: bool)
        ensures
            r == self@.parallel,
    {
        self.parallel
    }

    fn threads(&self) -> (r: usize)
        ensures
            r == self@.threads,
    {
        self.threads
    }

    fn ignore_feature_requirements(&self) -> (r: bool)
        ensures
            r == false,
    {
        false
    }
}

/// Builder for [`MicroLpSolverSettings`].
#[derive(Debug)]
pub struct MicroLpSolverSettingsBuilder {
    parallel: bool,
    threads: usize,
    ignore_feature_requirements: bool,
}

impl View for MicroLpSolverSettingsBuilder {
    type V = SettingsView;

    closed spec fn view(&self) -> SettingsView {
        SettingsView {
            parallel: self.parallel,
            threads: self.threads,
            ignore_feature_requirements: self.ignore_feature_requirements,
            max_iterations: 0,
            num_chunks: 0,
        }
    }
}

impl Default for MicroLpSolverSettingsBuilder {
    fn default() -> (r: Self)
        ensures
            r@ == default_settings_view(),
    {
        MicroLpSolverSettingsBuilder { parallel: false, threads: 0, ignore_feature_requirements: false }
    }
}

impl MicroLpSolverSettingsBuilder {
    pub fn parallel(self) -> (r: Self)
        ensures
            r@ == (SettingsView { parallel: true, ..self@ }),
    {
        let mut b = self;
        b.parallel = true;
        b
    }

    pub fn threads(self, threads: usize) -> (r: Self)
        ensures
            r@ == (SettingsView { threads, ..self@ }),
    {
        let mut b = self;
        b.threads = threads;
        b
    }

    pub fn ignore_feature_requirements(self) -> (r: Self)
        ensures
            r@ == (SettingsView { ignore_feature_requirements: true, ..self@ }),
    {
        let mut b = self;
        b.ignore_feature_requirements = true;
        b
    }

    /// Construct a [`MicroLpSolverSettings`] from the builder.
    pub fn build(self) -> (r: MicroLpSolverSettings)
        ensures
            r@ == self@,
    {
        MicroLpSolverSettings { parallel: self.parallel, threads: self.threads, ignore_feature_requirements: self.ignore_feature_requirements }
    }
}


/// Settings for the OpenCL interior point solvers.
#[derive(PartialEq, Eq, Structural, Debug)]
pub struct ClIpmSolverSettings {
    parallel: bool,
    threads: usize,
    num_chunks: usize,
    max_iterations: usize,
}

impl View for ClIpmSolverSettings {
    type V = SettingsView;

    closed spec fn view(&self) -> SettingsView {
        SettingsView {
            parallel: self.parallel,
            threads: self.threads,
            ignore_feature_requirements: false,
            max_iterations: self.max_iterations,
            num_chunks: self.num_chunks,
        }
    }
}

/// The settings that the interior point builders start from: serial, no thread count, 200
/// iterations and, for the OpenCL solver, 4 chunks.
pub open spec fn default_ipm_settings_view(num_chunks: usize) -> SettingsView {
    SettingsView {
        parallel: false,
        threads: 0,
        ignore_feature_requirements: false,
        max_iterations: 200,
        num_chunks,
    }
}

impl ClIpmSolverSettings {
    #[verifier::type_invariant]
    spec fn inv(self) -> bool {
        self.num_chunks > 0 && self.max_iterations > 0
    }

    /// Create a new builder for the settings
    pub fn builder() -> (r: ClIpmSolverSettingsBuilder)
        ensures
            r@ == default_ipm_settings_view(4),
    {
        ClIpmSolverSettingsBuilder::default()
    }

    pub fn num_chunks(&self) -> (r: usize)
        ensures
            r == self@.num_chunks,
            r > 0,
    {
        proof {
            use_type_invariant(self);
        }
        self.num_chunks
    }

    pub fn max_iterations(&self) -> (r: usize)
        ensures
            r == self@.max_iterations,
            r > 0,
    {
        proof {
            use_type_invariant(self);
        }
        self.max_iterations
    }
}

impl Default for ClIpmSolverSettings {
    fn default() -> (r: Self)
        ensures
            r@ == default_ipm_settings_view(4),
    {
        ClIpmSolverSettingsBuilder::default().build()
    }
}

impl SolverSettings for ClIpmSolverSettings {
    fn parallel(&self) -> (r: bool)
        ensures
            r == self@.parallel,
    {
        self.parallel
    }

    fn threads(&self) -> (r: usize)
        ensures
            r == self@.threads,
    {
        self.threads
    }

    /// The OpenCL solvers honour the feature requirements of every model.
    fn ignore_feature_requirements(&self) -> (r: bool)
        ensures
            r == false,
    {
        false
    }
}

/// Builder for [`ClIpmSolverSettings`].
#[derive(Debug)]
pub struct ClIpmSolverSettingsBuilder {
    parallel: bool,
    threads: usize,
    num_chunks: usize,
    max_iterations: usize,
}

impl View for ClIpmSolverSettingsBuilder {
    type V = SettingsView;

    closed spec fn view(&self) -> SettingsView {
        SettingsView {
            parallel: self.parallel,
            threads: self.threads,
            ignore_feature_requirements: false,
            max_iterations: self.max_iterations,
            num_chunks: self.num_chunks,
        }
    }
}

impl Default for ClIpmSolverSettingsBuilder {
    fn default() -> (r: Self)
        ensures
            r@ == default_ipm_settings_view(4),
    {
        ClIpmSolverSettingsBuilder { parallel: false, threads: 0, num_chunks: 4, max_iterations: 200 }
    }
}

impl ClIpmSolverSettingsBuilder {
    #[verifier::type_invariant]
    spec fn inv(self) -> bool {
        self.num_chunks > 0 && self.max_iterations > 0
    }

    pub fn num_chunks(&mut self, num_chunks: usize) -> (r: &mut Self)
        requires
            num_chunks > 0,
        ensures
            r@ == (SettingsView { num_chunks, ..old(self)@ }),
            *final(self) == *final(r),
    {
        proof {
            use_type_invariant(&*self);
        }
        self.num_chunks = num_chunks;
        self
    }

    pub fn parallel(&mut self) -> (r: &mut Self)
        ensures
            r@ == (SettingsView { parallel: true, ..old(self)@ }),
            *final(self) == *final(r),
    {
        proof {
            use_type_invariant(&*self);
        }
        self.parallel = true;
        self
    }

    pub fn threads(&mut self, threads: usize) -> (r: &mut Self)
        ensures
            r@ == (SettingsView { threads, ..old(self)@ }),
            *final(self) == *final(r),
    {
        proof {
            use_type_invariant(&*self);
        }
        self.threads = threads;
        self
    }

    pub fn max_iterations(&mut self, max_iterations: usize) -> (r: &mut Self)
        requires
            max_iterations > 0,
        ensures
            r@ == (SettingsView { max_iterations, ..old(self)@ }),
            *final(self) == *final(r),
    {
        proof {
            use_type_invariant(&*self);
        }
        self.max_iterations = max_iterations;
        self
    }

    /// Construct a [`ClIpmSolverSettings`] from the builder.
    pub fn build(&self) -> (r: ClIpmSolverSettings)
        ensures
            r@ == self@,
    {
        proof {
            use_type_invariant(self);
        }
        ClIpmSolverSettings {
            parallel: self.parallel,
            threads: self.threads,
            num_chunks: self.num_chunks,
            max_iterations: self.max_iterations,
        }
    }
}

/// Settings for the SIMD interior point solver.
#[derive(PartialEq, Eq, Structural, Debug)]
pub struct SimdIpmSolverSettings {
    parallel: bool,
    threads: usize,
    max_iterations: usize,
    ignore_feature_requirements: bool,
}

impl View for SimdIpmSolverSettings {
    type V = SettingsView;

    closed spec fn view(&self) -> SettingsView {
        SettingsView {
            parallel: self.parallel,
            threads: self.threads,
            ignore_feature_requirements: self.ignore_feature_requirements,
            max_iterations: self.max_iterations,
            num_chunks: 0,
        }
    }
}

impl SimdIpmSolverSettings {
    #[verifier::type_invariant]
    spec fn inv(self) -> bool {
        self.max_iterations > 0
    }

    /// Create a new builder for the settings
    pub fn builder() -> (r: SimdIpmSolverSettingsBuilder)
        ensures
            r@ == default_ipm_settings_view(0),
    {
        SimdIpmSolverSettingsBuilder::default()
    }

    pub fn max_iterations(&self) -> (r: usize)
        ensures
            r == self@.max_iterations,
            r > 0,
    {
        proof {
            use_type_invariant(self);
        }
        self.max_iterations
    }
}

impl Default for SimdIpmSolverSettings {
    fn default() -> (r: Self)
        ensures
            r@ == default_ipm_settings_view(0),
    {
        SimdIpmSolverSettingsBuilder::default().build()
    }
}

impl SolverSettings for SimdIpmSolverSettings {
    fn parallel(&self) -> (r: bool)
        ensures
            r == self@.parallel,
    {
        self.parallel
    }

    fn threads(&self) -> (r: usize)
        ensures
            r == self@.threads,
    {
        self.threads
    }

    fn ignore_feature_requirements(&self) -> (r: bool)
        ensures
            r == self@.ignore_feature_requirements,
    {
        self.ignore_feature_requirements
    }
}

/// Builder for [`SimdIpmSolverSettings`].
#[derive(Debug)]
pub struct SimdIpmSolverSettingsBuilder {
    parallel: bool,
    threads: usize,
    max_iterations: usize,
    ignore_feature_requirements: bool,
}

impl View for SimdIpmSolverSettingsBuilder {
    type V = SettingsView;

    closed spec fn view(&self) -> SettingsView {
        SettingsView {
            parallel: self.parallel,
            threads: self.threads,
            ignore_feature_requirements: self.ignore_feature_requirements,
            max_iterations: self.max_iterations,
            num_chunks: 0,
        }
    }
}

impl Default for SimdIpmSolverSettingsBuilder {
    fn default() -> (r: Self)
        ensures
            r@ == default_ipm_settings_view(0),
    {
        SimdIpmSolverSettingsBuilder {
            parallel: false,
            threads: 0,
            max_iterations: 200,
            ignore_feature_requirements: false,
        }
    }
}

impl SimdIpmSolverSettingsBuilder {
    #[verifier::type_invariant]
    spec fn inv(self) -> bool {
        self.max_iterations > 0
    }

    pub fn parallel(self) -> (r: Self)
        ensures
            r@ == (SettingsView { parallel: true, ..self@ }),
    {
        proof {
            use_type_invariant(&self);
        }
        let SimdIpmSolverSettingsBuilder { parallel: _, threads, max_iterations, ignore_feature_requirements } = self;
        SimdIpmSolverSettingsBuilder { parallel: true, threads, max_iterations, ignore_feature_requirements }
    }

    pub fn threads(self, threads: usize) -> (r: Self)
        ensures
            r@ == (SettingsView { threads, ..self@ }),
    {
        proof {
            use_type_invariant(&self);
        }
        let SimdIpmSolverSettingsBuilder { parallel, threads: _, max_iterations, ignore_feature_requirements } = self;
        SimdIpmSolverSettingsBuilder { parallel, threads, max_iterations, ignore_feature_requirements }
    }

    pub fn max_iterations(self, max_iterations: usize) -> (r: Self)
        requires
            max_iterations > 0,
        ensures
            r@ == (SettingsView { max_iterations, ..self@ }),
    {
        proof {
            use_type_invariant(&self);
        }
        let SimdIpmSolverSettingsBuilder { parallel, threads, max_iterations: _, ignore_feature_requirements } = self;
        SimdIpmSolverSettingsBuilder { parallel, threads, max_iterations, ignore_feature_requirements }
    }

    pub fn ignore_feature_requirements(self) -> (r: Self)
        ensures
            r@ == (SettingsView { ignore_feature_requirements: true, ..self@ }),
    {
        proof {
            use_type_invariant(&self);
        }
        let SimdIpmSolverSettingsBuilder { parallel, threads, max_iterations, ignore_feature_requirements: _ } = self;
        SimdIpmSolverSettingsBuilder { parallel, threads, max_iterations, ignore_feature_requirements: true }
    }

    /// Construct a [`SimdIpmSolverSettings`] from the builder.
    pub fn build(self) -> (r: SimdIpmSolverSettings)
        ensures
            r@ == self@,
    {
        proof {
            use_type_invariant(&self);
        }
        SimdIpmSolverSettings {
            parallel: self.parallel,
            threads: self.threads,
            max_iterations: self.max_iterations,
            ignore_feature_requirements: self.ignore_feature_requirements,
        }
    }
}

} // verus!
