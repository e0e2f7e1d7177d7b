use pywr_core::scenario::{ScenarioDomain, ScenarioDomainBuilder, ScenarioError, ScenarioGroupBuilder};

#[test]
fn test_group_builder() {
    let group = ScenarioGroupBuilder::new("A", 3)
        .with_subset_slice(0, 2)
        .with_labels(&["1", "2", "3"])
        .build()
        .unwrap();

    assert_eq!(group.name(), "A");
    assert_eq!(group.size(), 3);
}

#[test]
fn test_group_builder_wrong_num_labels() {
    let group = ScenarioGroupBuilder::new("A", 3)
        .with_labels(&["1", "2", "3", "4"])
        .build();

    assert!(group.is_err());
    assert!(matches!(
        group.err().unwrap(),
        ScenarioError::IncorrectNumberOfLabels {
            group: _,
            found: 4,
            expected: 3
        }
    ));
}

#[test]
fn test_group_builder_subset_labels_no_labels() {
    let group = ScenarioGroupBuilder::new("A", 3)
        .with_subset_labels(&["1", "2", "3"])
        .build();

    assert!(group.is_err());
    assert!(matches!(group.err().unwrap(), ScenarioError::NoLabels { group: _ }));
}

#[test]
fn test_group_builder_invalid_slice() {
    let group = ScenarioGroupBuilder::new("A", 3).with_subset_slice(0, 4).build();

    assert!(group.is_err());
    assert!(matches!(
        group.err().unwrap(),
        ScenarioError::InvalidSlice {
            group: _,
            size: 3,
            start: 0,
            end: 4
        }
    ));
}

#[test]
/// Test duplicate scenario group names
fn test_duplicate_scenario_group_names() {
    let group_a = ScenarioGroupBuilder::new("A", 1).build().unwrap();
    let group_b = ScenarioGroupBuilder::new("A", 1).build().unwrap();

    let result = ScenarioDomainBuilder::default()
        .with_group(group_a)
        .unwrap()
        .with_group(group_b);

    assert!(result.is_err());
    assert!(matches!(result.err().unwrap(), ScenarioError::DuplicateGroupName(_)));
}

#[test]
/// Test slices and combinations is invalid
fn test_slices_and_combinations() {
    let group_a = ScenarioGroupBuilder::new("A", 1)
        .with_subset_slice(0, 1)
        .build()
        .unwrap();
    let group_b = ScenarioGroupBuilder::new("B", 1).build().unwrap();
    let group_c = ScenarioGroupBuilder::new("C", 1).build().unwrap();

    let result = ScenarioDomainBuilder::default()
        .with_group(group_a)
        .unwrap()
        .with_group(group_b)
        .unwrap()
        .with_group(group_c)
        .unwrap()
        .with_combinations(vec![vec![0, 0, 0]])
        .build();

    assert!(result.is_err());
    assert!(matches!(result.err().unwrap(), ScenarioError::CombinationsAndSlices));
}

#[test]
/// Test [`ScenarioDomain`] iteration
fn test_scenario_iteration() {
    let group_a = ScenarioGroupBuilder::new("A", 10).build().unwrap();
    let group_b = ScenarioGroupBuilder::new("B", 2).build().unwrap();
    let group_c = ScenarioGroupBuilder::new("C", 5).build().unwrap();

    let builder = ScenarioDomainBuilder::default()
        .with_group(group_a)
        .unwrap()
        .with_group(group_b)
        .unwrap()
        .with_group(group_c)
        .unwrap();

    let domain: ScenarioDomain = builder.build().unwrap();
    let mut iter = domain.indices().iter();

    // Test generation of scenario indices
    let si = iter.next().unwrap();
    assert_eq!(si.simulation_id(), 0);
    assert_eq!(si.simulation_indices(), &[0, 0, 0]);

    let si = iter.next().unwrap();
    assert_eq!(si.simulation_id(), 1);
    assert_eq!(si.simulation_indices(), &[0, 0, 1]);

    let si = iter.next().unwrap();
    assert_eq!(si.simulation_id(), 2);
    assert_eq!(si.simulation_indices(), &[0, 0, 2]);

    let si = iter.next().unwrap();
    assert_eq!(si.simulation_id(), 3);
    assert_eq!(si.simulation_indices(), &[0, 0, 3]);

    let si = iter.next().unwrap();
    assert_eq!(si.simulation_id(), 4);
    assert_eq!(si.simulation_indices(), &[0, 0, 4]);

    let si = iter.next().unwrap();
    assert_eq!(si.simulation_id(), 5);
    assert_eq!(si.simulation_indices(), &[0, 1, 0]);

    let si = iter.next().unwrap();
    assert_eq!(si.simulation_id(), 6);
    assert_eq!(si.simulation_indices(), &[0, 1, 1]);

    let si = iter.next().unwrap();
    assert_eq!(si.simulation_id(), 7);
    assert_eq!(si.simulation_indices(), &[0, 1, 2]);

    let si = iter.next().unwrap();
    assert_eq!(si.simulation_id(), 8);
    assert_eq!(si.simulation_indices(), &[0, 1, 3]);

    let si = iter.next().unwrap();
    assert_eq!(si.simulation_id(), 9);
    assert_eq!(si.simulation_indices(), &[0, 1, 4]);

    let si = iter.next().unwrap();
    assert_eq!(si.simulation_id(), 10);
    assert_eq!(si.simulation_indices(), &[1, 0, 0]);

    // Test final index
    let si = iter.last().unwrap();
    assert_eq!(si.simulation_id(), 99);
    assert_eq!(si.simulation_indices(), &[9, 1, 4]);
}

#[test]
/// Test [`ScenarioDomain`] iteration with slices
fn test_scenario_iteration_with_slices() {
    let group = ScenarioGroupBuilder::new("A", 10)
        .with_subset_slice(2, 8)
        .build()
        .unwrap();
    let builder = ScenarioDomainBuilder::default().with_group(group).unwrap();

    let domain: ScenarioDomain = builder.build().unwrap();
    let mut iter = domain.indices().iter();

    // Test generation of scenario indices
    let si = iter.next().unwrap();
    assert_eq!(si.simulation_id(), 0);
    assert_eq!(si.simulation_indices(), &[0]);
    assert_eq!(si.labels(), &["2"]);

    let si = iter.next().unwrap();
    assert_eq!(si.simulation_id(), 1);
    assert_eq!(si.simulation_indices(), &[1]);
    assert_eq!(si.labels(), &["3"]);

    // Test final index
    let si = iter.last().unwrap();
    assert_eq!(si.simulation_id(), 5);
    assert_eq!(si.simulation_indices(), &[5]);
    assert_eq!(si.labels(), &["7"]);
}

#[test]
/// Test [`ScenarioDomain`] iteration with combinations
fn test_scenario_iteration_with_combinations() {
    let group_a = ScenarioGroupBuilder::new("A", 10).build().unwrap();
    let group_b = ScenarioGroupBuilder::new("B", 2).build().unwrap();
    let group_c = ScenarioGroupBuilder::new("C", 5).build().unwrap();

    let domain = ScenarioDomainBuilder::default()
        .with_group(group_a)
        .unwrap()
        .with_group(group_b)
        .unwrap()
        .with_group(group_c)
        .unwrap()
        .with_combinations(vec![vec![0, 0, 0], vec![0, 1, 0], vec![0, 1, 1], vec![2, 1, 3]])
        .build()
        .unwrap();

    let mut iter = domain.indices().iter();

    // Test generation of scenario indices
    let si = iter.next().unwrap();
    assert_eq!(si.simulation_id(), 0);
    assert_eq!(si.simulation_indices(), &[0, 0, 0]);

    let si = iter.next().unwrap();
    assert_eq!(si.simulation_id(), 1);
    assert_eq!(si.simulation_indices(), &[0, 1, 0]);

    let si = iter.next().unwrap();
    assert_eq!(si.simulation_id(), 2);
    assert_eq!(si.simulation_indices(), &[0, 1, 1]);

    // Test final index
    let si = iter.last().unwrap();
    assert_eq!(si.simulation_id(), 3);
    assert_eq!(si.simulation_indices(), &[1, 1, 2]);
}
