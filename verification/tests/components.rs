use pywr_core::edge::EdgeIndex;
use pywr_core::recorders::hdf::DateTime;
use pywr_core::recorders::metric_set::{MetricSetIndex, OutputMetric};
use pywr_core::scenario::{
    ScenarioDomainBuilder, ScenarioError, ScenarioGroupBuilder, ScenarioIndexBuilder, ScenarioIndices,
};
use pywr_core::solvers::col_edge_map::ColumnEdgeMapBuilder;
use pywr_core::text::{i32_to_decimal, join_strings, str_le, u64_to_decimal, usize_to_decimal};
use pywr_core::timestep::{CivilDateTime, PywrDuration, Timestep};

#[test]
fn numbers_are_written_in_decimal() {
    assert_eq!(usize_to_decimal(0), "0");
    assert_eq!(usize_to_decimal(1207), "1207");
    assert_eq!(u64_to_decimal(u64::MAX), "18446744073709551615");
    assert_eq!(i32_to_decimal(-45), "-45");
    assert_eq!(i32_to_decimal(i32::MIN), "-2147483648");
    assert_eq!(i32_to_decimal(7), "7");
}

#[test]
fn strings_join_and_compare() {
    let parts = vec!["a".to_string(), "bc".to_string(), "".to_string()];
    assert_eq!(join_strings(&parts, "-"), "a-bc-");
    assert_eq!(join_strings(&Vec::<String>::new(), "-"), "");
    assert!(str_le("abc", "abd"));
    assert!(str_le("ab", "abc"));
    assert!(str_le("abc", "abc"));
    assert!(!str_le("b", "abc"));
}

#[test]
fn equal_edges_share_a_column() {
    let mut builder = ColumnEdgeMapBuilder::default();
    builder.add_simple_edge(EdgeIndex::new(0));
    builder.add_equal_edges(EdgeIndex::new(1), EdgeIndex::new(2));
    builder.add_equal_edges(EdgeIndex::new(3), EdgeIndex::new(0));
    builder.add_simple_edge(EdgeIndex::new(0));
    builder.add_equal_edges(EdgeIndex::new(1), EdgeIndex::new(4));
    assert_eq!(builder.ncols(), 2);
    assert_eq!(builder.col_for_edge(&EdgeIndex::new(3)), 0);
    assert_eq!(builder.col_for_edge(&EdgeIndex::new(4)), 1);

    let map = builder.build();
    let cols: Vec<usize> = (0..5).map(|e| map.col_for_edge(&EdgeIndex::new(e))).collect();
    assert_eq!(cols, vec![0, 1, 1, 0, 1]);
}

#[test]
fn output_metrics_keep_their_fields() {
    let metric = OutputMetric::new("reservoir", "volume", "node", Some("storage"));
    assert_eq!(metric.name(), "reservoir");
    assert_eq!(metric.attribute(), "volume");
    assert_eq!(metric.ty(), "node");
    assert_eq!(metric.sub_type(), Some("storage"));
    let plain = OutputMetric::new("link", "flow", "node", None);
    assert_eq!(plain.sub_type(), None);
    assert_eq!(*MetricSetIndex::new(3), 3);
    assert_eq!(EdgeIndex::new(9).index(), 9);
}

#[test]
fn hdf_records_carry_the_timestep() {
    let date = CivilDateTime::new(2021, 3, 4, 5, 6, 7, 0).unwrap();
    let ts = Timestep::new(date, 12, PywrDuration::from_days(1));
    let record = format!("{:?}", DateTime::from_timestamp(&ts));
    for field in ["index: 12", "year: 2021", "month: 3", "day: 4", "hour: 5", "minute: 6", "second: 7"] {
        assert!(record.contains(field), "{record} lacks {field}");
    }
}

#[test]
fn scenario_indices_report_labels_and_schema() {
    let index = ScenarioIndexBuilder::new(4, vec![1, 0], vec!["wet".to_string(), "high".to_string()])
        .with_schema(9, vec![3, 0])
        .build();
    assert_eq!(index.simulation_id(), 4);
    assert_eq!(index.get_simulation_id(), 4);
    assert_eq!(index.simulation_indices(), &[1, 0]);
    assert_eq!(index.simulation_index_for_group(0), 1);
    assert_eq!(index.schema_index_for_group(0), 3);
    assert_eq!(index.label(), "wet-high");
    assert_eq!(index.labels().len(), 2);

    let plain = ScenarioIndexBuilder::new(2, vec![2], vec!["x".to_string()]).build();
    assert_eq!(plain.schema_index_for_group(0), 2);
    assert_eq!(ScenarioIndices::new(5, vec![1, 2]).indices, vec![1, 2]);
}

#[test]
fn domains_look_up_groups_by_name() {
    let a = ScenarioGroupBuilder::new("A", 3).with_labels(&["x", "y", "z"]).build().unwrap();
    let b = ScenarioGroupBuilder::new("B", 4).with_subset_slice(1, 3).build().unwrap();
    assert_eq!(a.label_position("y").unwrap(), 1);
    assert!(matches!(a.label_position("w"), Err(ScenarioError::LabelNotFound { .. })));
    assert!(matches!(b.label_position("w"), Err(ScenarioError::NoLabels { .. })));

    let domain = ScenarioDomainBuilder::default()
        .with_group(a)
        .unwrap()
        .with_group(b)
        .unwrap()
        .build()
        .unwrap();
    assert_eq!(domain.len(), 6);
    assert!(!domain.is_empty());
    assert_eq!(domain.group_index("B").unwrap(), 1);
    assert_eq!(domain.group_size("B").unwrap(), 4);
    assert_eq!(domain.group_scenario_subset("B").unwrap(), Some(&[1usize, 2][..]));
    assert_eq!(domain.group_scenario_subset("A").unwrap(), None);
    assert!(matches!(domain.group_index("C"), Err(ScenarioError::GroupNameNotFound(_))));
    assert_eq!(domain.indices()[1].label(), "x-2");
    assert_eq!(domain.indices()[1].simulation_indices(), &[0, 1]);
    assert_eq!(domain.indices()[1].schema_index_for_group(1), 2);
    assert_eq!(domain.groups().len(), 2);
}

#[test]
fn combinations_name_their_scenarios_by_label() {
    let a = ScenarioGroupBuilder::new("A", 3).with_labels(&["x", "y", "z"]).build().unwrap();
    let b = ScenarioGroupBuilder::new("B", 2).build().unwrap();
    let domain = ScenarioDomainBuilder::default()
        .with_group(a)
        .unwrap()
        .with_group(b)
        .unwrap()
        .with_combinations(vec![vec!["z".to_string(), "1".to_string()], vec!["x".to_string(), "0".to_string()]])
        .build();
    // A label of a group without labels cannot name its scenario.
    assert!(domain.is_err());

    let a = ScenarioGroupBuilder::new("A", 3).with_labels(&["x", "y", "z"]).build().unwrap();
    let b = ScenarioGroupBuilder::new("B", 2).build().unwrap();
    let domain = ScenarioDomainBuilder::default()
        .with_group(a)
        .unwrap()
        .with_group(b)
        .unwrap()
        .with_combinations(vec![vec![2usize, 1], vec![0, 0]])
        .build()
        .unwrap();
    assert_eq!(domain.len(), 2);
    // Each group's simulation indices count the distinct schema indices that the
    // combinations use, in ascending order.
    assert_eq!(domain.indices()[0].simulation_indices(), &[1, 1]);
    assert_eq!(domain.indices()[0].schema_index_for_group(0), 2);
    assert_eq!(domain.indices()[0].label(), "z-1");
    assert_eq!(domain.indices()[1].simulation_indices(), &[0, 0]);
    assert_eq!(domain.group_scenario_subset("A").unwrap(), Some(&[0usize, 2][..]));
}
