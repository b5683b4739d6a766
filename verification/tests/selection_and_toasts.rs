use liquid_cache_admin::models::execution_plan::{
    ExecutionPlanWithStats, ExecutionStats, ExecutionStatsWithPlan, PlanInfo,
};
use liquid_cache_admin::selection::{
    display_names, find, plan_ids, same_text, PanelToggles, Phase, Selection,
};
use liquid_cache_admin::toast::{Removal, Toast, ToastBoard, ToastType};

fn ids(list: &[&str]) -> Vec<String> {
    list.iter().map(|s| s.to_string()).collect()
}

fn plan(id: &str, created_at: u64, stats: Option<ExecutionStats>) -> PlanInfo {
    PlanInfo {
        created_at,
        plan: ExecutionPlanWithStats {
            name: "Scan".to_string(),
            schema: vec![],
            statistics: None,
            metrics: vec![],
            children: vec![],
        },
        id: id.to_string(),
        stats,
    }
}

fn stats(name: &str) -> ExecutionStats {
    ExecutionStats {
        display_name: name.to_string(),
        flamegraph_svg: None,
        network_traffic_bytes: 1536,
        execution_time_ms: 42,
    }
}

#[test]
fn nothing_is_selected_before_the_first_list() {
    let selection = Selection::new();
    assert_eq!(selection.phase(), Phase::NoData);
    assert_eq!(selection.selected_id(), None);
    assert_eq!(selection.selected_index(), None);
}

#[test]
fn the_first_list_selects_its_newest_plan() {
    let mut selection = Selection::new();
    selection.refresh(ids(&["c", "b", "a"]));
    assert_eq!(selection.phase(), Phase::PlanSelected);
    assert_eq!(selection.selected_id().map(|s| s.as_str()), Some("c"));
    assert_eq!(selection.selected_index(), Some(0));
}

#[test]
fn a_selection_that_is_still_listed_stays() {
    let mut selection = Selection::new();
    selection.refresh(ids(&["c", "b", "a"]));
    assert!(selection.select("b"));
    selection.refresh(ids(&["d", "c", "b"]));
    assert_eq!(selection.selected_id().map(|s| s.as_str()), Some("b"));
    assert_eq!(selection.selected_index(), Some(2));
}

#[test]
fn a_selection_that_is_gone_falls_back_to_the_newest() {
    let mut selection = Selection::new();
    selection.refresh(ids(&["c", "b", "a"]));
    assert!(selection.select("a"));
    selection.refresh(ids(&["e", "d", "c"]));
    assert_eq!(selection.selected_id().map(|s| s.as_str()), Some("e"));
    assert_eq!(selection.selected_index(), Some(0));
    assert_eq!(selection.phase(), Phase::PlanSelected);
}

#[test]
fn an_empty_list_selects_nothing() {
    let mut selection = Selection::new();
    selection.refresh(ids(&[]));
    assert_eq!(selection.phase(), Phase::PlanListLoaded);
    assert_eq!(selection.selected_id(), None);
    selection.refresh(ids(&["a"]));
    assert_eq!(selection.phase(), Phase::PlanSelected);
    selection.refresh(ids(&[]));
    assert_eq!(selection.phase(), Phase::PlanListLoaded);
    assert_eq!(selection.selected_id(), None);
    assert!(!selection.select("a"));
    assert_eq!(selection.selected_id(), None);
}

#[test]
fn a_pick_outside_the_list_changes_nothing() {
    let mut selection = Selection::new();
    assert!(!selection.select("a"));
    assert_eq!(selection.phase(), Phase::NoData);
    selection.refresh(ids(&["b", "a"]));
    assert!(!selection.select("z"));
    assert_eq!(selection.selected_id().map(|s| s.as_str()), Some("b"));
    assert!(selection.select("a"));
    assert_eq!(selection.selected_id().map(|s| s.as_str()), Some("a"));
    assert_eq!(selection.selected_index(), Some(1));
}

#[test]
fn the_first_of_equal_ids_is_found() {
    let list = ids(&["x", "y", "x", "", "y"]);
    assert_eq!(find(&list, "x"), 0);
    assert_eq!(find(&list, "y"), 1);
    assert_eq!(find(&list, ""), 3);
    assert_eq!(find(&list, "z"), 5);
    assert_eq!(find(&Vec::new(), "x"), 0);
    assert!(same_text("", ""));
    assert!(same_text("plan", "plan"));
    assert!(!same_text("plan", "plan "));
    assert!(!same_text("plan", "plaN"));
    assert!(!same_text("é", "e"));
}

#[test]
fn lists_are_offered_by_id_and_by_name() {
    let plans = vec![plan("b", 2, None), plan("a", 1, Some(stats("nightly")))];
    assert_eq!(plan_ids(&plans), ids(&["b", "a"]));
    let runs = vec![
        ExecutionStatsWithPlan { execution_stats: stats("one"), plans: vec![] },
        ExecutionStatsWithPlan { execution_stats: stats("two"), plans },
    ];
    assert_eq!(display_names(&runs), ids(&["one", "two"]));
}

#[test]
fn a_plan_goes_by_the_name_of_its_run_or_by_its_id() {
    assert_eq!(plan("0123456789", 1, Some(stats("nightly"))).display_name(), "nightly");
    assert_eq!(plan("0123456789", 1, None).display_name(), "01234567");
    assert_eq!(plan("0123", 1, None).display_name(), "0123");
    assert_eq!(plan("", 1, None).display_name(), "");
}

#[test]
fn a_run_offers_its_plans_under_tabs() {
    let run = ExecutionStatsWithPlan {
        execution_stats: stats("nightly"),
        plans: vec![plan("left", 30, None), plan("right", 20, None)],
    };
    assert_eq!(run.plan_count(), 2);
    assert!(run.has_tabs());
    assert_eq!(run.created_at(), Some(30));
    assert_eq!(run.tab_label(0).as_deref(), Some("Plan 1 (ID: left)"));
    assert_eq!(run.tab_label(1).as_deref(), Some("Plan 2 (ID: right)"));
    assert_eq!(run.tab_label(2), None);
    assert_eq!(run.plan_at(1).map(|p| p.id.as_str()), Some("right"));
    assert!(run.plan_at(2).is_none());
    assert_eq!(
        run.head("09:05:07"),
        vec![
            ("Execution Time".to_string(), "42ms".to_string()),
            ("Network Traffic".to_string(), "1.50 KB".to_string()),
            ("Plan Count".to_string(), "2".to_string()),
            ("Created at".to_string(), "09:05:07".to_string()),
        ]
    );
    assert_eq!(run.execution_stats.execution_time_text(), "42ms");
    assert_eq!(run.execution_stats.network_traffic_text(), "1.50 KB");

    let single = ExecutionStatsWithPlan {
        execution_stats: stats("x"),
        plans: vec![plan("only", 5, None)],
    };
    assert!(!single.has_tabs());
    let none = ExecutionStatsWithPlan { execution_stats: stats("x"), plans: vec![] };
    assert!(!none.has_tabs());
    assert_eq!(none.created_at(), None);
    assert_eq!(none.plan_count(), 0);
    assert!(none.plan_at(0).is_none());
}

#[test]
fn panels_start_with_the_schema_open() {
    let mut panels = PanelToggles::new();
    assert!(panels.schema);
    assert!(!panels.statistics);
    panels.toggle_statistics();
    assert!(panels.schema);
    assert!(panels.statistics);
    panels.toggle_schema();
    assert!(!panels.schema);
    assert!(panels.statistics);
    panels.toggle_schema();
    panels.toggle_statistics();
    assert_eq!(panels, PanelToggles::new());
}

#[test]
fn a_toast_knows_how_long_it_stays() {
    let ok = Toast::success("saved".to_string());
    assert_eq!(ok.message, "saved");
    assert_eq!(ok.toast_type, ToastType::Success);
    assert_eq!(ok.duration, Some(4000));
    let bad = Toast::error("failed".to_string());
    assert_eq!(bad.toast_type, ToastType::Error);
    assert_eq!(bad.duration, Some(6000));
    let note = Toast::info("fyi".to_string());
    assert_eq!(note.toast_type, ToastType::Info);
    assert_eq!(note.duration, Some(4000));
    let sticky = Toast::new("stay".to_string(), ToastType::Info, None);
    assert_eq!(sticky.duration, None);
    assert_eq!(sticky.message, "stay");
}

#[test]
fn a_random_id_is_a_version_4_uuid() {
    let mut seen: Vec<u128> = Vec::new();
    for _ in 0..64 {
        let toast = Toast::info(String::new());
        let id = uuid::Uuid::from_u128(toast.id);
        assert_eq!(id.get_version_num(), 4);
        assert_eq!((toast.id >> 76) & 0xF, 4);
        assert_eq!((toast.id >> 62) & 0x3, 2);
        assert!(!seen.contains(&toast.id));
        seen.push(toast.id);
    }
}

#[test]
fn a_toast_looks_like_its_kind() {
    let ok = ToastType::Success.style();
    assert_eq!(
        (ok.background, ok.border, ok.text, ok.icon),
        ("bg-green-50", "border-green-100", "text-green-700", "\u{2713}")
    );
    let bad = ToastType::Error.style();
    assert_eq!(
        (bad.background, bad.border, bad.text, bad.icon),
        ("bg-red-50", "border-red-100", "text-red-700", "\u{2715}")
    );
    let note = ToastType::Info.style();
    assert_eq!(
        (note.background, note.border, note.text, note.icon),
        ("bg-blue-50", "border-blue-100", "text-blue-700", "\u{2139}")
    );
}

fn ids_on(board: &ToastBoard) -> Vec<u128> {
    let mut ids: Vec<u128> = board.toasts().keys().copied().collect();
    ids.sort();
    ids
}

#[test]
fn the_board_puts_toasts_up_and_takes_them_down() {
    let mut board = ToastBoard::new();
    assert!(board.toasts().is_empty());
    let first = board.add(Toast::with_id(1, "one".to_string(), ToastType::Info, Some(4000)));
    assert_eq!(first, Some(Removal { id: 1, delay_ms: 4000 }));
    let second = board.add(Toast::with_id(2, "two".to_string(), ToastType::Error, None));
    assert_eq!(second, None);
    board.add(Toast::with_id(3, "three".to_string(), ToastType::Success, Some(0)));
    assert_eq!(ids_on(&board), vec![1, 2, 3]);
    for (id, toast) in board.toasts().iter() {
        assert_eq!(*id, toast.id);
    }

    // A toast with an id that is up takes the place of the one that is up.
    let again = board.add(Toast::with_id(2, "two again".to_string(), ToastType::Info, Some(10)));
    assert_eq!(again, Some(Removal { id: 2, delay_ms: 10 }));
    assert_eq!(ids_on(&board), vec![1, 2, 3]);
    assert_eq!(board.toasts()[&2].message, "two again");
    assert_eq!(board.toasts()[&2].toast_type, ToastType::Info);
    assert_eq!(board.toasts()[&1].message, "one");

    assert!(board.remove(1));
    assert!(!board.remove(1));
    assert!(!board.remove(99));
    assert_eq!(ids_on(&board), vec![2, 3]);
    assert!(board.remove(3));
    assert!(board.remove(2));
    assert!(board.toasts().is_empty());
}

#[test]
fn a_timer_keeps_the_lower_32_bits_of_a_duration() {
    let mut board = ToastBoard::new();
    let long = board.add(Toast::with_id(7, "long".to_string(), ToastType::Info, Some(4294967296 + 5)));
    assert_eq!(long, Some(Removal { id: 7, delay_ms: 5 }));
    let edge = board.add(Toast::with_id(8, "edge".to_string(), ToastType::Info, Some(4294967295)));
    assert_eq!(edge, Some(Removal { id: 8, delay_ms: u32::MAX }));
    let max = board.add(Toast::with_id(9, "max".to_string(), ToastType::Info, Some(u64::MAX)));
    assert_eq!(max, Some(Removal { id: 9, delay_ms: u64::MAX as u32 }));
}
