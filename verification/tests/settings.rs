use pywr_core::solvers::built_in::{BuiltInMultiStateSolverConfig, BuiltInSolverConfig};
use pywr_core::solvers::settings::SolverFeatures;
use pywr_core::solvers::settings::{
    CbcSolverSettingsBuilder, ClIpmSolverSettings, ClIpmSolverSettingsBuilder, ClpSolverSettingsBuilder,
    MicroLpSolverSettingsBuilder, SimdIpmSolverSettings, SimdIpmSolverSettingsBuilder, SolverSettings,
};

/// The builder tests of the CBC, CLP, OpenCL IPM, SIMD IPM and microlp settings.
#[test]
fn settings_builder_test() {
    // CBC
    let settings_from_builder = CbcSolverSettingsBuilder::default().parallel().build();
    assert_eq!(settings_from_builder, settings_from_builder);
    assert!(settings_from_builder.parallel());
    assert_eq!(settings_from_builder.threads(), 0);

    // CLP
    let settings_from_builder = ClpSolverSettingsBuilder::default().parallel().build();
    assert_eq!(settings_from_builder, settings_from_builder);
    assert!(settings_from_builder.parallel());
    assert_eq!(settings_from_builder.threads(), 0);
    assert!(!settings_from_builder.ignore_feature_requirements());

    // OpenCL IPM: parallel, no threads, 4 chunks and 200 iterations.
    let settings_from_builder = ClIpmSolverSettingsBuilder::default().parallel().build();
    assert!(settings_from_builder.parallel());
    assert_eq!(settings_from_builder.threads(), 0);
    assert_eq!(settings_from_builder.num_chunks(), 4);
    assert_eq!(settings_from_builder.max_iterations(), 200);
    let mut expected = ClIpmSolverSettings::builder();
    expected.parallel();
    assert_eq!(expected.build(), settings_from_builder);

    // SIMD IPM: parallel, no threads, 200 iterations, feature requirements honoured.
    let settings_from_builder = SimdIpmSolverSettingsBuilder::default().parallel().build();
    assert!(settings_from_builder.parallel());
    assert_eq!(settings_from_builder.threads(), 0);
    assert_eq!(settings_from_builder.max_iterations(), 200);
    assert!(!settings_from_builder.ignore_feature_requirements());
    assert_eq!(SimdIpmSolverSettings::builder().parallel().build(), settings_from_builder);

    // microlp
    let settings_from_builder = MicroLpSolverSettingsBuilder::default().parallel().build();
    assert_eq!(settings_from_builder, settings_from_builder);
    assert!(settings_from_builder.parallel());
    assert_eq!(settings_from_builder.threads(), 0);
}

#[test]
fn microlp_settings_keep_parallel_and_threads() {
    // Settings with parallel enabled and 4 threads.
    let settings = MicroLpSolverSettingsBuilder::default().parallel().threads(4).build();
    assert!(settings.parallel());
    assert_eq!(settings.threads(), 4);
    assert!(!settings.ignore_feature_requirements());
}

#[test]
fn builder_chains_set_threads_and_flags() {
    let mut builder = CbcSolverSettingsBuilder::default();
    builder.parallel().threads(4);
    let settings = builder.build();
    assert!(settings.parallel());
    assert_eq!(settings.threads(), 4);

    let settings = ClpSolverSettingsBuilder::default().threads(3).ignore_feature_requirements().build();
    assert!(!settings.parallel());
    assert_eq!(settings.threads(), 3);
    assert!(settings.ignore_feature_requirements());

    let mut builder = ClIpmSolverSettingsBuilder::default();
    builder.num_chunks(8).max_iterations(50).threads(2);
    let settings = builder.build();
    assert_eq!(settings.num_chunks(), 8);
    assert_eq!(settings.max_iterations(), 50);
    assert_eq!(settings.threads(), 2);

    let settings = SimdIpmSolverSettingsBuilder::default().max_iterations(50).ignore_feature_requirements().build();
    assert_eq!(settings.max_iterations(), 50);
    assert!(settings.ignore_feature_requirements());
}

#[test]
fn built_in_configs_read_their_solvers_settings() {
    let clp = BuiltInSolverConfig::Clp(ClpSolverSettingsBuilder::default().parallel().threads(3).build());
    assert!(clp.parallel());
    assert_eq!(clp.threads(), 3);
    assert!(!clp.ignore_feature_requirements());
    assert_eq!(clp.name(), "clp");
    assert_eq!(clp.features().len(), 4);
    assert!(clp.features().contains(&SolverFeatures::AggregatedNodeDynamicFactors));
    assert!(!clp.features().contains(&SolverFeatures::MutualExclusivity));

    let mut cbc = CbcSolverSettingsBuilder::default();
    cbc.threads(2);
    let cbc = BuiltInSolverConfig::Cbc(cbc.build());
    assert!(!cbc.parallel());
    assert_eq!(cbc.threads(), 2);
    assert_eq!(cbc.name(), "cbc");
    assert!(cbc.features().contains(&SolverFeatures::MutualExclusivity));

    let micro = BuiltInSolverConfig::MicroLp(MicroLpSolverSettingsBuilder::default().parallel().threads(8).build());
    assert!(micro.parallel());
    assert_eq!(micro.threads(), 8);
    assert_eq!(micro.name(), "microlp");
    assert_eq!(micro.features()[0], SolverFeatures::VirtualStorage);

    let simd = BuiltInMultiStateSolverConfig::SimdIpm(
        SimdIpmSolverSettingsBuilder::default().parallel().threads(5).ignore_feature_requirements().build(),
    );
    assert!(simd.parallel());
    assert_eq!(simd.threads(), 5);
    assert!(simd.ignore_feature_requirements());

    let mut cl = ClIpmSolverSettingsBuilder::default();
    cl.threads(6);
    let cl = BuiltInMultiStateSolverConfig::ClIpmF32(cl.build());
    assert!(!cl.parallel());
    assert_eq!(cl.threads(), 6);
    assert!(!cl.ignore_feature_requirements());
}
