use liquid_cache_admin::metrics::{format_metric, metric_kind, metric_rows, MetricKind};
use liquid_cache_admin::models::execution_plan::{
    ColumnStatistics, ExecutionPlanWithStats, MetricValues, SchemaField, Statistics,
};
use liquid_cache_admin::rendering::{render, RenderedNode};

fn metric(name: &str, value: &str) -> MetricValues {
    MetricValues { name: name.to_string(), value: value.to_string() }
}

fn operator(
    name: &str,
    metrics: Vec<MetricValues>,
    children: Vec<ExecutionPlanWithStats>,
) -> ExecutionPlanWithStats {
    ExecutionPlanWithStats {
        name: name.to_string(),
        schema: vec![SchemaField { name: "id".to_string(), data_type: "Int64".to_string() }],
        statistics: None,
        metrics,
        children,
    }
}

fn tower(depth: usize) -> ExecutionPlanWithStats {
    let mut node = operator(&format!("level{depth}"), vec![], vec![]);
    let mut level = depth;
    while level > 1 {
        level -= 1;
        node = operator(&format!("level{level}"), vec![], vec![node]);
    }
    node
}

fn count(node: &ExecutionPlanWithStats) -> usize {
    1 + node.children.iter().map(count).sum::<usize>()
}

fn cards(node: &RenderedNode) -> usize {
    1 + node.children.iter().map(cards).sum::<usize>()
}

#[test]
fn a_name_says_what_its_value_is() {
    assert_eq!(metric_kind("elapsed_compute"), MetricKind::Duration);
    assert_eq!(metric_kind("time_elapsed_opening"), MetricKind::Duration);
    assert_eq!(metric_kind("runtime"), MetricKind::Duration);
    assert_eq!(metric_kind("bytes_scanned"), MetricKind::Bytes);
    assert_eq!(metric_kind("spilled_bytes"), MetricKind::Bytes);
    assert_eq!(metric_kind("output_rows"), MetricKind::Rows);
    assert_eq!(metric_kind("rows"), MetricKind::Rows);
    assert_eq!(metric_kind("spill_count"), MetricKind::Plain);
    assert_eq!(metric_kind(""), MetricKind::Plain);
    assert_eq!(metric_kind("Time"), MetricKind::Plain);
    assert_eq!(metric_kind("tim"), MetricKind::Plain);
    assert_eq!(metric_kind("row"), MetricKind::Plain);
    assert_eq!(metric_kind("ti me"), MetricKind::Plain);
}

#[test]
fn a_duration_goes_before_bytes_and_bytes_before_rows() {
    assert_eq!(metric_kind("time_bytes_rows"), MetricKind::Duration);
    assert_eq!(metric_kind("rows_bytes_elapsed"), MetricKind::Duration);
    assert_eq!(metric_kind("rows_bytes"), MetricKind::Bytes);
    assert_eq!(metric_kind("bytes_rows"), MetricKind::Bytes);
}

#[test]
fn a_metric_takes_the_form_of_its_kind() {
    assert_eq!(format_metric("elapsed_compute", "1500000000ns"), "1.50s");
    assert_eq!(format_metric("time_elapsed_scanning", "1.5ms"), "1.5ms");
    assert_eq!(format_metric("elapsed_compute", "soon"), "soon");
    assert_eq!(format_metric("elapsed_compute", "1500.5ns"), "1.50\u{3bc}s");
    assert_eq!(format_metric("bytes_scanned", "1536"), "1.50 KB");
    assert_eq!(format_metric("bytes_scanned", "12"), "12 B");
    assert_eq!(format_metric("bytes_scanned", "0"), "0 B");
    assert_eq!(format_metric("bytes_scanned", "n/a"), "n/a");
    assert_eq!(format_metric("bytes_scanned", "a lot"), "a lot");
    assert_eq!(format_metric("bytes_scanned", ""), "");
    assert_eq!(format_metric("bytes_scanned", "-1"), "-1");
    assert_eq!(format_metric("bytes_scanned", "1.5"), "1.5");
    assert_eq!(format_metric("output_rows", "1500"), "1.50K");
    assert_eq!(format_metric("output_rows", "many"), "many");
    assert_eq!(format_metric("spill_count", "1500"), "1500");
    assert_eq!(format_metric("spill_count", "1500000000ns"), "1500000000ns");
}

#[test]
fn metrics_are_shown_in_the_order_of_their_names() {
    let rows = metric_rows(&vec![
        metric("output_rows", "1500"),
        metric("elapsed_compute", "2500000ns"),
        metric("bytes_scanned", "2048"),
        metric("Zone", "z"),
        metric("spill_count", "3"),
    ]);
    let expected: Vec<(String, String)> = vec![
        ("Zone".to_string(), "z".to_string()),
        ("bytes_scanned".to_string(), "2.00 KB".to_string()),
        ("elapsed_compute".to_string(), "2.50ms".to_string()),
        ("output_rows".to_string(), "1.50K".to_string()),
        ("spill_count".to_string(), "3".to_string()),
    ];
    assert_eq!(rows, expected);
    assert!(metric_rows(&Vec::new()).is_empty());
}

#[test]
fn metrics_of_one_name_keep_their_order() {
    let rows = metric_rows(&vec![
        metric("b", "first"),
        metric("a", "1"),
        metric("b", "second"),
        metric("a", "2"),
        metric("b", "third"),
    ]);
    let values: Vec<&str> = rows.iter().map(|r| r.1.as_str()).collect();
    assert_eq!(values, vec!["1", "2", "first", "second", "third"]);
}

#[test]
fn metrics_are_ordered_as_strings_are() {
    let names = [
        "", "a", "A", "aa", "ab", "b", "B", "a b", "a_b", "a-b", "é", "e", "z", "zz", "ä",
        "\u{10348}", "\u{ffff}", "~", "0", "10", "9", "a\u{0}", "time", "Time",
    ];
    let mut metrics: Vec<MetricValues> = Vec::new();
    let mut state: u64 = 7;
    for round in 0..300usize {
        state = state.wrapping_mul(6364136223846793005).wrapping_add(1442695040888963407);
        let name = names[(state >> 33) as usize % names.len()];
        metrics.push(metric(name, &format!("v{round}")));
    }
    let mut expected: Vec<(String, String)> = metrics
        .iter()
        .map(|m| (m.name.clone(), format_metric(&m.name, &m.value)))
        .collect();
    expected.sort_by(|a, b| a.0.cmp(&b.0));
    assert_eq!(metric_rows(&metrics), expected);
}

#[test]
fn a_leaf_is_drawn_without_connector() {
    let leaf = operator("Scan", vec![metric("output_rows", "10")], vec![]);
    let drawn = render(&leaf);
    assert_eq!(drawn.name, "Scan");
    assert!(!drawn.connector);
    assert!(drawn.children.is_empty());
    assert_eq!(drawn.metrics, vec![("output_rows".to_string(), "10".to_string())]);
    assert_eq!(drawn.schema.len(), 1);
    assert_eq!(drawn.schema[0].name, "id");
    assert_eq!(drawn.schema[0].data_type, "Int64");
    assert!(drawn.statistics.is_none());
}

#[test]
fn children_are_drawn_below_their_parent() {
    let plan = operator(
        "Join",
        vec![metric("output_rows", "2000000"), metric("elapsed_compute", "999ns")],
        vec![
            operator("Left", vec![], vec![operator("Scan", vec![], vec![])]),
            operator("Right", vec![], vec![]),
        ],
    );
    let drawn = render(&plan);
    assert!(drawn.connector);
    assert_eq!(
        drawn.metrics,
        vec![
            ("elapsed_compute".to_string(), "999ns".to_string()),
            ("output_rows".to_string(), "2.00M".to_string()),
        ]
    );
    assert_eq!(drawn.children.len(), 2);
    assert_eq!(drawn.children[0].name, "Left");
    assert!(drawn.children[0].connector);
    assert_eq!(drawn.children[0].children.len(), 1);
    assert_eq!(drawn.children[0].children[0].name, "Scan");
    assert!(!drawn.children[0].children[0].connector);
    assert_eq!(drawn.children[1].name, "Right");
    assert!(!drawn.children[1].connector);
}

#[test]
fn a_plan_is_drawn_at_any_depth() {
    for depth in [1usize, 5, 6, 64, 300] {
        let plan = tower(depth);
        let drawn = render(&plan);
        assert_eq!(cards(&drawn), depth);
        assert_eq!(count(&plan), depth);
        let mut at = &drawn;
        for level in 1..=depth {
            assert_eq!(at.name, format!("level{level}"));
            assert_eq!(at.connector, level < depth);
            if level < depth {
                assert_eq!(at.children.len(), 1);
                at = &at.children[0];
            }
        }
    }
}

#[test]
fn a_drawing_carries_the_statistics() {
    let mut node = operator("Scan", vec![], vec![]);
    node.statistics = Some(Statistics {
        num_rows: Some("Exact(3)".to_string()),
        total_byte_size: None,
        column_statistics: vec![ColumnStatistics {
            name: "id".to_string(),
            null: Some("0".to_string()),
            max: Some("9".to_string()),
            min: None,
            sum: None,
            distinct_count: Some("3".to_string()),
        }],
    });
    let drawn = render(&node);
    let statistics = drawn.statistics.unwrap();
    assert_eq!(statistics.num_rows.as_deref(), Some("Exact(3)"));
    assert_eq!(statistics.total_byte_size, None);
    assert_eq!(statistics.column_statistics.len(), 1);
    assert_eq!(statistics.column_statistics[0].name, "id");
    assert_eq!(statistics.column_statistics[0].max.as_deref(), Some("9"));
    assert_eq!(statistics.column_statistics[0].min, None);
    assert_eq!(statistics.column_statistics[0].distinct_count.as_deref(), Some("3"));
}

#[test]
fn a_copy_of_a_plan_is_the_plan() {
    let plan = operator(
        "Join",
        vec![metric("rows", "1")],
        vec![operator("Left", vec![], vec![]), tower(4)],
    );
    let copy = plan.clone();
    assert_eq!(format!("{copy:?}"), format!("{plan:?}"));
}

#[test]
fn the_figures_of_statistics_keep_their_places() {
    let column = ColumnStatistics {
        name: "id".to_string(),
        null: Some("0".to_string()),
        max: Some("9".to_string()),
        min: None,
        sum: None,
        distinct_count: Some("3".to_string()),
    };
    let some = |label: &str, value: &str| (label.to_string(), Some(value.to_string()));
    let none = |label: &str| (label.to_string(), None::<String>);
    assert_eq!(
        column.figures(),
        vec![
            none("Min: "),
            some("Max: ", "9"),
            none("Sum: "),
            some("Null: ", "0"),
            some("Distinct: ", "3"),
        ]
    );
    let statistics = Statistics {
        num_rows: Some("Exact(3)".to_string()),
        total_byte_size: None,
        column_statistics: vec![column],
    };
    assert_eq!(
        statistics.figures(),
        vec![some("Num rows: ", "Exact(3)"), none("Total byte size: ")]
    );
}
