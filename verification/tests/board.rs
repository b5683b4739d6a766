use liquid_cache_admin::board::{notices, Panel, PanelBook, PlanBoard};
use liquid_cache_admin::decode::{RecordError, RecordFailure};
use liquid_cache_admin::selection::{PanelToggles, Phase};

fn record(id: &str, created_at: u64) -> String {
    let plan = "{\"name\":\"Scan\",\"schema\":[],\"metrics\":[],\"children\":[]}";
    let plan_text = serde_json::to_string(plan).unwrap();
    format!("{{\"id\":\"{id}\",\"created_at\":{created_at},\"plan\":{plan_text}}}")
}

fn batch(records: Vec<(&str, String)>) -> Vec<(String, String)> {
    records.into_iter().map(|(key, text)| (key.to_string(), text)).collect()
}

fn listed(board: &PlanBoard) -> Vec<String> {
    board.plans().iter().map(|p| p.id.clone()).collect()
}

fn selected(board: &PlanBoard) -> Option<String> {
    board.selected_plan().map(|p| p.id.clone())
}

#[test]
fn a_board_starts_without_data() {
    let board = PlanBoard::new();
    assert_eq!(board.phase(), Phase::NoData);
    assert!(board.plans().is_empty());
    assert!(board.selected_plan().is_none());
    assert_eq!(board.panels("p", &vec![0, 1]), PanelToggles::new());
}

#[test]
fn a_batch_replaces_the_plans_and_selects_the_newest() {
    let mut board = PlanBoard::new();
    let told = board.receive(&batch(vec![
        ("k1", record("a", 10)),
        ("k2", "oops".to_string()),
        ("k3", record("b", 20)),
    ]));
    assert_eq!(
        told,
        vec!["Failed to decode execution plan: k2: the record is not valid JSON".to_string()]
    );
    assert_eq!(board.phase(), Phase::PlanSelected);
    assert_eq!(listed(&board), vec!["b", "a"]);
    assert_eq!(selected(&board).as_deref(), Some("b"));

    let told = board.receive(&batch(vec![("k", record("c", 5))]));
    assert!(told.is_empty());
    assert_eq!(listed(&board), vec!["c"]);
    assert_eq!(selected(&board).as_deref(), Some("c"));
}

#[test]
fn a_refresh_keeps_a_selection_that_is_still_there() {
    let mut board = PlanBoard::new();
    board.receive(&batch(vec![("1", record("a", 10)), ("2", record("b", 20))]));
    assert!(board.select("a"));
    assert_eq!(selected(&board).as_deref(), Some("a"));
    board.receive(&batch(vec![
        ("1", record("a", 10)),
        ("2", record("b", 20)),
        ("3", record("c", 30)),
    ]));
    assert_eq!(listed(&board), vec!["c", "b", "a"]);
    assert_eq!(selected(&board).as_deref(), Some("a"));
    board.receive(&batch(vec![("2", record("b", 20)), ("3", record("c", 30))]));
    assert_eq!(selected(&board).as_deref(), Some("c"));
    assert!(!board.select("a"));
    assert_eq!(selected(&board).as_deref(), Some("c"));
}

#[test]
fn a_batch_that_does_not_decode_leaves_the_board_alone() {
    let mut board = PlanBoard::new();
    let told = board.receive(&batch(vec![("k", "{}".to_string())]));
    assert_eq!(
        told,
        vec![
            "Failed to fetch execution plans: no execution plan of the batch could be decoded"
                .to_string()
        ]
    );
    assert_eq!(board.phase(), Phase::NoData);

    board.receive(&batch(vec![("1", record("a", 10)), ("2", record("b", 20))]));
    board.select("a");
    let told = board.receive(&batch(vec![("x", "[".to_string()), ("y", "1".to_string())]));
    assert_eq!(told.len(), 1);
    assert!(told[0].starts_with("Failed to fetch execution plans: "));
    assert_eq!(listed(&board), vec!["b", "a"]);
    assert_eq!(selected(&board).as_deref(), Some("a"));
    assert_eq!(board.phase(), Phase::PlanSelected);
}

#[test]
fn an_empty_batch_empties_the_board() {
    let mut board = PlanBoard::new();
    board.receive(&batch(vec![("1", record("a", 10))]));
    let told = board.receive(&Vec::new());
    assert!(told.is_empty());
    assert!(board.plans().is_empty());
    assert_eq!(board.phase(), Phase::PlanListLoaded);
    assert!(board.selected_plan().is_none());
}

#[test]
fn the_first_of_two_plans_with_one_id_is_shown() {
    let mut board = PlanBoard::new();
    board.receive(&batch(vec![
        ("1", record("same", 10)),
        ("2", record("same", 20)),
        ("3", record("other", 30)),
    ]));
    assert!(board.select("same"));
    assert_eq!(board.selected_plan().map(|p| p.created_at), Some(20));
}

fn record_of_run(id: &str, created_at: u64, run: &str) -> String {
    let plan = "{\"name\":\"Scan\",\"schema\":[],\"metrics\":[],\"children\":[]}";
    let stats = format!(
        "{{\"display_name\":\"{run}\",\"network_traffic_bytes\":1,\"execution_time_ms\":2}}"
    );
    format!(
        "{{\"id\":\"{id}\",\"created_at\":{created_at},\"plan\":{},\"stats\":{}}}",
        serde_json::to_string(plan).unwrap(),
        serde_json::to_string(&stats).unwrap()
    )
}

#[test]
fn the_plans_of_one_run_stand_under_tabs() {
    let mut board = PlanBoard::new();
    assert!(board.selected_run().is_none());
    board.receive(&batch(vec![
        ("1", record_of_run("a", 50, "nightly")),
        ("2", record_of_run("b", 40, "weekly")),
        ("3", record_of_run("c", 30, "nightly")),
        ("4", record("d", 20)),
        ("5", record_of_run("e", 10, "nightly")),
    ]));
    let (run, tab) = board.selected_run().unwrap();
    assert_eq!(run.execution_stats.display_name, "nightly");
    let ids: Vec<&str> = run.plans.iter().map(|p| p.id.as_str()).collect();
    assert_eq!(ids, vec!["a", "c", "e"]);
    assert_eq!(tab, 0);
    assert!(run.has_tabs());
    assert_eq!(run.tab_label(2).as_deref(), Some("Plan 3 (ID: e)"));

    board.select("e");
    let (run, tab) = board.selected_run().unwrap();
    assert_eq!(run.plans.len(), 3);
    assert_eq!(tab, 2);
    assert_eq!(run.plan_at(tab).map(|p| p.id.as_str()), Some("e"));

    board.select("b");
    let (run, tab) = board.selected_run().unwrap();
    assert_eq!(run.execution_stats.display_name, "weekly");
    assert_eq!(run.plans.len(), 1);
    assert_eq!(tab, 0);
    assert!(!run.has_tabs());

    board.select("d");
    assert!(board.selected_run().is_none());
    assert_eq!(selected(&board).as_deref(), Some("d"));
}

#[test]
fn panels_open_and_close_one_by_one() {
    let mut book = PanelBook::new();
    let root: Vec<usize> = vec![];
    let child: Vec<usize> = vec![0];
    let other: Vec<usize> = vec![1, 0];
    assert_eq!(book.panels("p", &root), PanelToggles { schema: true, statistics: false });
    book.toggle("p", &root, Panel::Statistics);
    assert_eq!(book.panels("p", &root), PanelToggles { schema: true, statistics: true });
    assert_eq!(book.panels("p", &child), PanelToggles { schema: true, statistics: false });
    assert_eq!(book.panels("q", &root), PanelToggles { schema: true, statistics: false });
    book.toggle("p", &child, Panel::Schema);
    book.toggle("q", &root, Panel::Schema);
    book.toggle("q", &root, Panel::Statistics);
    assert_eq!(book.panels("p", &root), PanelToggles { schema: true, statistics: true });
    assert_eq!(book.panels("p", &child), PanelToggles { schema: false, statistics: false });
    assert_eq!(book.panels("q", &root), PanelToggles { schema: false, statistics: true });
    assert_eq!(book.panels("p", &other), PanelToggles { schema: true, statistics: false });
    book.toggle("p", &child, Panel::Schema);
    book.toggle("p", &root, Panel::Statistics);
    assert_eq!(book.panels("p", &child), PanelToggles::new());
    assert_eq!(book.panels("p", &root), PanelToggles::new());
    assert_eq!(book.panels("q", &root), PanelToggles { schema: false, statistics: true });
}

#[test]
fn panels_stay_as_they_are_through_a_refresh() {
    let mut board = PlanBoard::new();
    board.receive(&batch(vec![("1", record("a", 10))]));
    board.toggle("a", &vec![], Panel::Schema);
    board.toggle("a", &vec![2], Panel::Statistics);
    assert_eq!(selected(&board).as_deref(), Some("a"));
    board.receive(&batch(vec![("1", record("a", 10)), ("2", record("b", 20))]));
    board.select("b");
    board.receive(&batch(vec![("x", "bad".to_string())]));
    assert_eq!(board.panels("a", &vec![]), PanelToggles { schema: false, statistics: false });
    assert_eq!(board.panels("a", &vec![2]), PanelToggles { schema: true, statistics: true });
    assert_eq!(board.panels("b", &vec![]), PanelToggles::new());
    assert_eq!(listed(&board), vec!["b", "a"]);
    assert_eq!(selected(&board).as_deref(), Some("b"));
}

#[test]
fn each_failure_is_told_with_its_key() {
    let failure = |key: &str, error: RecordError| RecordFailure { key: key.to_string(), error };
    let told = notices(&vec![
        failure("a", RecordError::NotJson),
        failure("b", RecordError::NoPlan),
        failure("c", RecordError::NoId),
        failure("d", RecordError::NoCreatedAt),
        failure("", RecordError::BadPlan),
    ]);
    assert_eq!(
        told,
        vec![
            "Failed to decode execution plan: a: the record is not valid JSON",
            "Failed to decode execution plan: b: the record has no plan",
            "Failed to decode execution plan: c: the record has no id",
            "Failed to decode execution plan: d: the record has no creation time",
            "Failed to decode execution plan: : the plan of the record cannot be read",
        ]
    );
    assert_eq!(RecordError::NoId.message(), "the record has no id");
}
