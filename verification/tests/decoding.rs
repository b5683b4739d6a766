use liquid_cache_admin::decode::{
    decode_batch, decode_child, decode_node, decode_plan, decode_record, decode_stats,
    RecordError,
};
use liquid_cache_admin::models::execution_plan::{short_id_of, ExecutionPlanWithStats};
use serde_json::{Number, Value};

fn text(s: &str) -> Value {
    Value::String(s.to_string())
}

fn object(members: Vec<(&str, Value)>) -> Value {
    let mut map = serde_json::Map::new();
    for (key, value) in members {
        map.insert(key.to_string(), value);
    }
    Value::Object(map)
}

fn node(name: &str, children: Vec<Value>) -> Value {
    object(vec![
        ("name", text(name)),
        ("schema", Value::Array(vec![])),
        ("metrics", Value::Array(vec![])),
        ("children", Value::Array(children)),
    ])
}

fn wrapped(value: &Value) -> Value {
    Value::String(serde_json::to_string(value).unwrap())
}

fn record(id: &str, created_at: u64, plan: &Value) -> String {
    let value = object(vec![
        ("id", text(id)),
        ("created_at", Value::Number(Number::from(created_at))),
        ("plan", wrapped(plan)),
    ]);
    serde_json::to_string(&value).unwrap()
}

fn batch(records: Vec<(&str, String)>) -> Vec<(String, String)> {
    records
        .into_iter()
        .map(|(key, text)| (key.to_string(), text))
        .collect()
}

fn chain(depth: usize, wrap: bool) -> Value {
    let mut current = node(&format!("level{depth}"), vec![]);
    let mut level = depth;
    while level > 1 {
        level -= 1;
        let child = if wrap { wrapped(&current) } else { current };
        current = node(&format!("level{level}"), vec![child]);
    }
    current
}

fn depth_of(node: &ExecutionPlanWithStats) -> usize {
    1 + node.children.iter().map(depth_of).max().unwrap_or(0)
}

#[test]
fn one_malformed_record_of_three_is_left_out() {
    let records = batch(vec![
        ("k1", record("a", 10, &node("Scan", vec![]))),
        ("k2", "{ this is not json".to_string()),
        ("k3", record("c", 30, &node("Filter", vec![]))),
    ]);
    let decoded = decode_batch(&records).unwrap();
    assert_eq!(decoded.plans.len(), 2);
    assert_eq!(decoded.plans[0].id, "c");
    assert_eq!(decoded.plans[0].created_at, 30);
    assert_eq!(decoded.plans[1].id, "a");
    assert_eq!(decoded.plans[1].created_at, 10);
    assert_eq!(decoded.errors.len(), 1);
    assert_eq!(decoded.errors[0].key, "k2");
    assert_eq!(decoded.errors[0].error, RecordError::NotJson);
}

#[test]
fn plans_stand_newest_first() {
    let records = batch(vec![
        ("a", record("a", 10, &node("Scan", vec![]))),
        ("b", record("b", 20, &node("Scan", vec![]))),
    ]);
    let decoded = decode_batch(&records).unwrap();
    let ids: Vec<&str> = decoded.plans.iter().map(|p| p.id.as_str()).collect();
    assert_eq!(ids, vec!["b", "a"]);
    assert!(decoded.errors.is_empty());
}

#[test]
fn plans_of_one_time_keep_the_order_of_the_batch() {
    let records = batch(vec![
        ("1", record("first", 5, &node("Scan", vec![]))),
        ("2", record("late", 9, &node("Scan", vec![]))),
        ("3", record("second", 5, &node("Scan", vec![]))),
        ("4", record("early", 1, &node("Scan", vec![]))),
        ("5", record("third", 5, &node("Scan", vec![]))),
        ("6", record("late too", 9, &node("Scan", vec![]))),
    ]);
    let decoded = decode_batch(&records).unwrap();
    let ids: Vec<&str> = decoded.plans.iter().map(|p| p.id.as_str()).collect();
    assert_eq!(ids, vec!["late", "late too", "first", "second", "third", "early"]);
}

#[test]
fn batch_agrees_with_a_stable_sort() {
    let mut records: Vec<(String, String)> = Vec::new();
    let mut expected: Vec<(u64, String)> = Vec::new();
    let mut state: u64 = 12345;
    for i in 0..200u64 {
        state = state.wrapping_mul(6364136223846793005).wrapping_add(1442695040888963407);
        let created_at = (state >> 60) % 7;
        let id = format!("plan{i}");
        records.push((format!("key{i}"), record(&id, created_at, &node("Scan", vec![]))));
        expected.push((created_at, id));
    }
    expected.sort_by(|a, b| b.0.cmp(&a.0));
    let decoded = decode_batch(&records).unwrap();
    let got: Vec<(u64, String)> = decoded
        .plans
        .iter()
        .map(|p| (p.created_at, p.id.clone()))
        .collect();
    assert_eq!(got, expected);
}

#[test]
fn an_empty_batch_decodes_to_nothing() {
    let decoded = decode_batch(&Vec::new()).unwrap();
    assert!(decoded.plans.is_empty());
    assert!(decoded.errors.is_empty());
}

#[test]
fn a_batch_without_a_good_record_is_a_failure() {
    let records = batch(vec![
        ("k1", "nonsense".to_string()),
        ("k2", "{}".to_string()),
    ]);
    let nothing = decode_batch(&records).unwrap_err();
    assert_eq!(nothing.errors.len(), 2);
    assert_eq!(nothing.errors[0].key, "k1");
    assert_eq!(nothing.errors[0].error, RecordError::NotJson);
    assert_eq!(nothing.errors[1].key, "k2");
    assert_eq!(nothing.errors[1].error, RecordError::NoPlan);
}

#[test]
fn each_failure_of_a_record_has_its_error() {
    let plan = wrapped(&node("Scan", vec![]));
    let id = text("p");
    let at = Value::Number(Number::from(7u64));
    let encode = |members: Vec<(&str, Value)>| serde_json::to_string(&object(members)).unwrap();

    assert_eq!(decode_record("[1, 2").unwrap_err(), RecordError::NotJson);
    assert_eq!(decode_record("").unwrap_err(), RecordError::NotJson);
    assert_eq!(
        decode_record(&encode(vec![("id", id.clone()), ("created_at", at.clone())])).unwrap_err(),
        RecordError::NoPlan
    );
    assert_eq!(
        decode_record(&encode(vec![
            ("plan", node("Scan", vec![])),
            ("id", id.clone()),
            ("created_at", at.clone()),
        ]))
        .unwrap_err(),
        RecordError::NoPlan
    );
    assert_eq!(
        decode_record(&encode(vec![("plan", plan.clone()), ("created_at", at.clone())]))
            .unwrap_err(),
        RecordError::NoId
    );
    assert_eq!(
        decode_record(&encode(vec![("plan", plan.clone()), ("id", id.clone())])).unwrap_err(),
        RecordError::NoCreatedAt
    );
    assert_eq!(
        decode_record(&encode(vec![
            ("plan", plan.clone()),
            ("id", id.clone()),
            ("created_at", text("7")),
        ]))
        .unwrap_err(),
        RecordError::NoCreatedAt
    );
    assert_eq!(
        decode_record(&encode(vec![
            ("plan", plan.clone()),
            ("id", id.clone()),
            ("created_at", Value::Number(Number::from(-7i64))),
        ]))
        .unwrap_err(),
        RecordError::NoCreatedAt
    );
    assert_eq!(
        decode_record(&encode(vec![
            ("plan", text("{\"name\": 1}")),
            ("id", id.clone()),
            ("created_at", at.clone()),
        ]))
        .unwrap_err(),
        RecordError::BadPlan
    );
    assert_eq!(
        decode_record(&encode(vec![
            ("plan", text("not json")),
            ("id", id.clone()),
            ("created_at", at.clone()),
        ]))
        .unwrap_err(),
        RecordError::BadPlan
    );
    assert_eq!(decode_record("[]").unwrap_err(), RecordError::NoPlan);
    let ok = decode_record(&encode(vec![("plan", plan), ("id", id), ("created_at", at)])).unwrap();
    assert_eq!(ok.id, "p");
    assert_eq!(ok.created_at, 7);
    assert_eq!(ok.plan.name, "Scan");
    assert!(ok.stats.is_none());
}

#[test]
fn a_plan_carries_what_the_operator_reported() {
    let statistics = object(vec![
        ("num_rows", text("Exact(10)")),
        ("total_byte_size", Value::Null),
        (
            "column_statistics",
            Value::Array(vec![
                object(vec![
                    ("name", text("id")),
                    ("min", text("1")),
                    ("max", text("10")),
                    ("null", text("0")),
                ]),
                object(vec![("name", text("v")), ("distinct_count", text("3")), ("sum", Value::Null)]),
            ]),
        ),
    ]);
    let plan = object(vec![
        ("name", text("ParquetExec")),
        (
            "schema",
            Value::Array(vec![
                object(vec![("name", text("id")), ("data_type", text("Int64"))]),
                object(vec![("name", text("v")), ("data_type", text("Utf8"))]),
            ]),
        ),
        ("statistics", statistics),
        (
            "metrics",
            Value::Array(vec![
                object(vec![("name", text("output_rows")), ("value", text("1500"))]),
                object(vec![("name", text("elapsed_compute")), ("value", text("1500000ns"))]),
            ]),
        ),
        ("children", Value::Array(vec![])),
    ]);
    let decoded = decode_plan(&serde_json::to_string(&plan).unwrap()).unwrap();
    assert_eq!(decoded.name, "ParquetExec");
    assert_eq!(decoded.schema.len(), 2);
    assert_eq!(decoded.schema[0].name, "id");
    assert_eq!(decoded.schema[0].data_type, "Int64");
    assert_eq!(decoded.schema[1].name, "v");
    assert_eq!(decoded.schema[1].data_type, "Utf8");
    assert_eq!(decoded.metrics.len(), 2);
    assert_eq!(decoded.metrics[0].name, "output_rows");
    assert_eq!(decoded.metrics[0].value, "1500");
    assert_eq!(decoded.metrics[1].name, "elapsed_compute");
    assert_eq!(decoded.metrics[1].value, "1500000ns");
    let statistics = decoded.statistics.unwrap();
    assert_eq!(statistics.num_rows.as_deref(), Some("Exact(10)"));
    assert_eq!(statistics.total_byte_size, None);
    assert_eq!(statistics.column_statistics.len(), 2);
    let first = &statistics.column_statistics[0];
    assert_eq!(first.name, "id");
    assert_eq!(first.min.as_deref(), Some("1"));
    assert_eq!(first.max.as_deref(), Some("10"));
    assert_eq!(first.null.as_deref(), Some("0"));
    assert_eq!(first.sum, None);
    assert_eq!(first.distinct_count, None);
    let second = &statistics.column_statistics[1];
    assert_eq!(second.name, "v");
    assert_eq!(second.distinct_count.as_deref(), Some("3"));
    assert_eq!(second.sum, None);
    assert!(decoded.children.is_empty());
}

#[test]
fn statistics_go_by_either_of_their_names() {
    let plan = |statistics: Value| {
        let value = object(vec![
            ("name", text("Scan")),
            ("schema", Value::Array(vec![])),
            ("metrics", Value::Array(vec![])),
            ("children", Value::Array(vec![])),
            ("statistics", statistics),
        ]);
        decode_plan(&serde_json::to_string(&value).unwrap())
    };
    let column = |key: &str| object(vec![("name", text("id")), (key, text("3"))]);
    let long = plan(object(vec![("column_statistics", Value::Array(vec![column("distinct_count")]))]))
        .unwrap()
        .statistics
        .unwrap();
    assert_eq!(long.column_statistics[0].distinct_count.as_deref(), Some("3"));
    let short = plan(object(vec![("columns", Value::Array(vec![column("distinct")]))]))
        .unwrap()
        .statistics
        .unwrap();
    assert_eq!(short.column_statistics.len(), 1);
    assert_eq!(short.column_statistics[0].distinct_count.as_deref(), Some("3"));

    // Where both names are there, the longer one counts.
    let both = plan(object(vec![
        ("columns", Value::Array(vec![])),
        (
            "column_statistics",
            Value::Array(vec![object(vec![
                ("name", text("id")),
                ("distinct", text("short")),
                ("distinct_count", text("long")),
            ])]),
        ),
    ]))
    .unwrap()
    .statistics
    .unwrap();
    assert_eq!(both.column_statistics.len(), 1);
    assert_eq!(both.column_statistics[0].distinct_count.as_deref(), Some("long"));
    assert!(plan(object(vec![("column_statistics", text("[]")), ("columns", Value::Array(vec![]))]))
        .is_none());
    let null_first = plan(object(vec![(
        "columns",
        Value::Array(vec![object(vec![
            ("name", text("id")),
            ("distinct_count", Value::Null),
            ("distinct", text("short")),
        ])]),
    )]))
    .unwrap()
    .statistics
    .unwrap();
    assert_eq!(null_first.column_statistics[0].distinct_count, None);
}

#[test]
fn an_operator_needs_its_members() {
    let full = |without: &str, replace: Option<(&str, Value)>| {
        let mut members = vec![
            ("name", text("Scan")),
            ("schema", Value::Array(vec![])),
            ("metrics", Value::Array(vec![])),
            ("children", Value::Array(vec![])),
        ];
        members.retain(|(key, _)| *key != without);
        if let Some(pair) = replace {
            members.push(pair);
        }
        decode_plan(&serde_json::to_string(&object(members)).unwrap())
    };
    assert!(full("", None).is_some());
    assert!(full("name", None).is_none());
    assert!(full("schema", None).is_none());
    assert!(full("metrics", None).is_none());
    assert!(full("children", None).is_none());
    assert!(full("name", Some(("name", Value::Bool(true)))).is_none());
    assert!(full("schema", Some(("schema", text("[]")))).is_none());
    assert!(full("children", Some(("children", text("[]")))).is_none());
    assert!(full("", Some(("statistics", Value::Null))).is_some());
    assert!(full("", Some(("statistics", text("none")))).is_none());
    assert!(full("", Some(("statistics", object(vec![])))).is_none());
    assert!(full(
        "",
        Some(("statistics", object(vec![("column_statistics", Value::Array(vec![]))])))
    )
    .is_some());
    assert!(full(
        "schema",
        Some(("schema", Value::Array(vec![object(vec![("name", text("a"))])])))
    )
    .is_none());
    assert!(full(
        "metrics",
        Some((
            "metrics",
            Value::Array(vec![object(vec![
                ("name", text("rows")),
                ("value", Value::Number(Number::from(3u64)))
            ])])
        ))
    )
    .is_none());
    assert!(decode_plan("[]").is_none());
    assert!(decode_plan("\"Scan\"").is_none());
    assert!(decode_plan("").is_none());
}

#[test]
fn children_come_as_objects_or_as_texts() {
    let plan = node(
        "Join",
        vec![
            node("Left", vec![]),
            wrapped(&node("Right", vec![wrapped(&node("Deep", vec![]))])),
        ],
    );
    let decoded = decode_plan(&serde_json::to_string(&plan).unwrap()).unwrap();
    assert_eq!(decoded.name, "Join");
    assert_eq!(decoded.children.len(), 2);
    assert_eq!(decoded.children[0].name, "Left");
    assert_eq!(decoded.children[1].name, "Right");
    assert_eq!(decoded.children[1].children.len(), 1);
    assert_eq!(decoded.children[1].children[0].name, "Deep");
}

#[test]
fn a_wrapped_child_decodes_as_the_child_itself() {
    let leaf = node("Scan", vec![]);
    let inner = node("Filter", vec![leaf.clone(), node("Other", vec![])]);
    let inner_wrapped = node("Filter", vec![wrapped(&leaf), node("Other", vec![])]);
    let native = node("Join", vec![inner.clone(), leaf.clone()]);
    let mixed = node("Join", vec![wrapped(&inner), leaf.clone()]);
    let all_wrapped = node("Join", vec![wrapped(&inner_wrapped), wrapped(&leaf)]);
    let expected = decode_plan(&serde_json::to_string(&native).unwrap()).unwrap();
    for plan in [mixed, all_wrapped] {
        let decoded = decode_plan(&serde_json::to_string(&plan).unwrap()).unwrap();
        assert_eq!(format!("{decoded:?}"), format!("{expected:?}"));
    }
    // Under every bound above the texts the tree is the same.
    let text = serde_json::to_string(&native).unwrap();
    for limit in [text.len(), text.len() + 1, 10 * text.len(), usize::MAX] {
        let decoded = decode_node(&native, limit).unwrap();
        assert_eq!(format!("{decoded:?}"), format!("{expected:?}"));
    }
}

#[test]
fn a_child_that_is_no_operator_is_dropped() {
    let plan = node(
        "Union",
        vec![
            node("A", vec![]),
            text("{ broken"),
            Value::Number(Number::from(1u64)),
            object(vec![("name", text("no members"))]),
            wrapped(&node("B", vec![])),
            Value::Null,
            wrapped(&wrapped(&node("twice wrapped", vec![]))),
            node("C", vec![text("nope"), node("D", vec![])]),
        ],
    );
    let decoded = decode_plan(&serde_json::to_string(&plan).unwrap()).unwrap();
    let names: Vec<&str> = decoded.children.iter().map(|c| c.name.as_str()).collect();
    assert_eq!(names, vec!["A", "B", "C"]);
    let below: Vec<&str> = decoded.children[2].children.iter().map(|c| c.name.as_str()).collect();
    assert_eq!(below, vec!["D"]);
}

#[test]
fn a_plan_decodes_at_any_depth() {
    for depth in [1usize, 2, 5, 6, 40] {
        let native = decode_plan(&serde_json::to_string(&chain(depth, false)).unwrap()).unwrap();
        assert_eq!(depth_of(&native), depth);
        assert_eq!(native.name, "level1");
    }
    for depth in [1usize, 2, 5, 6, 9] {
        let wrapped_plan =
            decode_plan(&serde_json::to_string(&chain(depth, true)).unwrap()).unwrap();
        assert_eq!(depth_of(&wrapped_plan), depth);
        let mut at = &wrapped_plan;
        for level in 1..=depth {
            assert_eq!(at.name, format!("level{level}"));
            if level < depth {
                assert_eq!(at.children.len(), 1);
                at = &at.children[0];
            } else {
                assert!(at.children.is_empty());
            }
        }
    }
}

#[test]
fn a_text_is_unwrapped_only_below_the_limit() {
    let inner = node("Inner", vec![]);
    let child = wrapped(&inner);
    let length = serde_json::to_string(&inner).unwrap().chars().count();
    assert_eq!(decode_child(&child, length + 1).unwrap().name, "Inner");
    assert!(decode_child(&child, length).is_none());
    assert!(decode_child(&child, 0).is_none());
    assert_eq!(decode_child(&inner, 0).unwrap().name, "Inner");
    let parent = node("Outer", vec![child]);
    assert_eq!(decode_node(&parent, length + 1).unwrap().children.len(), 1);
    assert_eq!(decode_node(&parent, length).unwrap().children.len(), 0);
}

#[test]
fn statistics_of_a_run_are_optional() {
    let stats = object(vec![
        ("display_name", text("nightly")),
        ("flamegraph_svg", text("<svg/>")),
        ("network_traffic_bytes", Value::Number(Number::from(2048u64))),
        ("execution_time_ms", Value::Number(Number::from(15u64))),
    ]);
    let with = |stats: Value| {
        let value = object(vec![
            ("id", text("0123456789abcdef")),
            ("created_at", Value::Number(Number::from(3u64))),
            ("plan", wrapped(&node("Scan", vec![]))),
            ("stats", stats),
        ]);
        decode_record(&serde_json::to_string(&value).unwrap()).unwrap()
    };
    let full = with(wrapped(&stats)).stats.unwrap();
    assert_eq!(full.display_name, "nightly");
    assert_eq!(full.flamegraph_svg.as_deref(), Some("<svg/>"));
    assert_eq!(full.network_traffic_bytes, 2048);
    assert_eq!(full.execution_time_ms, 15);

    assert!(with(text("{ broken")).stats.is_none());
    assert!(with(stats.clone()).stats.is_none());
    assert!(with(Value::Null).stats.is_none());
    assert!(with(wrapped(&object(vec![("display_name", text("x"))]))).stats.is_none());

    let bare = with(wrapped(&object(vec![
        ("network_traffic_bytes", Value::Number(Number::from(1u64))),
        ("execution_time_ms", Value::Number(Number::from(2u64))),
    ])))
    .stats
    .unwrap();
    assert_eq!(bare.display_name, "01234567");
    assert_eq!(bare.flamegraph_svg, None);
    assert_eq!(bare.network_traffic_bytes, 1);
    assert_eq!(bare.execution_time_ms, 2);
}

#[test]
fn statistics_of_a_run_decode_from_a_document() {
    let stats = object(vec![
        ("display_name", Value::Null),
        ("network_traffic_bytes", Value::Number(Number::from(u64::MAX))),
        ("execution_time_ms", Value::Number(Number::from(0u64))),
    ]);
    let decoded = decode_stats(&stats, "abc").unwrap();
    assert_eq!(decoded.display_name, "abc");
    assert_eq!(decoded.network_traffic_bytes, u64::MAX);
    assert!(decode_stats(&Value::Array(vec![]), "abc").is_none());
    let wrong = object(vec![
        ("display_name", Value::Bool(false)),
        ("network_traffic_bytes", Value::Number(Number::from(1u64))),
        ("execution_time_ms", Value::Number(Number::from(0u64))),
    ]);
    assert!(decode_stats(&wrong, "abc").is_none());
}

#[test]
fn a_short_id_is_the_first_eight_characters() {
    assert_eq!(short_id_of(""), "");
    assert_eq!(short_id_of("abc"), "abc");
    assert_eq!(short_id_of("12345678"), "12345678");
    assert_eq!(short_id_of("123456789"), "12345678");
    assert_eq!(short_id_of("äöüäöüäöüäöü"), "äöüäöüäö");
}
