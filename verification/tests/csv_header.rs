use pywr_core::recorders::csv::wide_header_rows;
use pywr_core::recorders::metric_set::OutputMetric;
use pywr_core::scenario::{ScenarioDomainBuilder, ScenarioGroupBuilder};

#[test]
fn wide_headers_repeat_the_metrics_for_each_scenario() {
    let metrics = vec![
        OutputMetric::new("reservoir", "volume", "node", Some("storage")),
        OutputMetric::new("link", "flow", "node", None),
    ];
    let group = ScenarioGroupBuilder::new("A", 2).with_labels(&["dry", "wet"]).build().unwrap();
    let domain = ScenarioDomainBuilder::default().with_group(group).unwrap().build().unwrap();
    let rows = wide_header_rows(&metrics, domain.indices());
    assert_eq!(rows.len(), 4);
    assert_eq!(rows[0], vec!["node", "reservoir", "link", "reservoir", "link"]);
    assert_eq!(rows[1], vec!["attribute", "volume", "flow", "volume", "flow"]);
    assert_eq!(rows[2], vec!["simulation_id", "0", "0", "1", "1"]);
    assert_eq!(rows[3], vec!["label", "dry", "dry", "wet", "wet"]);
}

#[test]
fn wide_headers_without_metrics_hold_only_titles() {
    let domain = ScenarioDomainBuilder::default().build().unwrap();
    let rows = wide_header_rows(&[], domain.indices());
    assert_eq!(rows, vec![vec!["node"], vec!["attribute"], vec!["simulation_id"], vec!["label"]]);
}
