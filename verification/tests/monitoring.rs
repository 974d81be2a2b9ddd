use agentforge_ui::monitoring::{
    activity_kind, activity_message, compact_chart_label, dashboard_figures, format_tokens,
    runs_per_day, single_line_display, ActivityKind,
};

fn strings(v: &[&str]) -> Vec<String> {
    v.iter().map(|s| s.to_string()).collect()
}

#[test]
fn token_counts_are_shown_in_thousands() {
    assert_eq!(format_tokens(0), "0");
    assert_eq!(format_tokens(999), "999");
    assert_eq!(format_tokens(1000), "1K");
    assert_eq!(format_tokens(12345), "12K");
    assert_eq!(format_tokens(1_999_999), "1999K");
}

#[test]
fn dates_become_month_and_day() {
    assert_eq!(compact_chart_label(" 2024-03-15 ", 8), "03-15");
    assert_eq!(compact_chart_label("2024-03-15T10:00:00Z", 8), "03-15");
    assert_eq!(compact_chart_label("agent-orchestrator", 8), "agent-or");
    assert_eq!(compact_chart_label("short", 8), "short");
    assert_eq!(compact_chart_label("2024/03/15", 4), "2024");
}

#[test]
fn date_dashes_are_found_by_byte() {
    // "é" takes two bytes: the dashes of "éé-é-xxxx" stand at bytes 4 and 7, those of
    // "éé-éé-xxxx" at bytes 4 and 9.
    assert_eq!(compact_chart_label("éé-é-xxxx", 3), "xxxx");
    assert_eq!(compact_chart_label("éé-éé-xxxx", 3), "éé-");
}

#[test]
fn text_is_collapsed_onto_one_line() {
    assert_eq!(single_line_display("  hello \n  world\t! ", "none"), "hello world !");
    assert_eq!(single_line_display(" \n\t ", "Unnamed agent"), "Unnamed agent");
    assert_eq!(single_line_display("one", "x"), "one");
}

#[test]
fn dashboard_figures_count_runs_and_tokens() {
    let f = dashboard_figures(
        &strings(&["running", "waiting_approval", "completed", "pending", "completed"]),
        &vec![("a".to_string(), 100), ("b".to_string(), 23)],
    );
    assert_eq!(f.persisted, 5);
    assert_eq!(f.live, 2);
    assert_eq!(f.completed, 2);
    assert_eq!(f.tokens, 123);
}

#[test]
fn runs_are_counted_for_the_latest_twelve_days() {
    let mut created = Vec::new();
    for day in 1..=14 {
        created.push(format!("2024-01-{:02}T00:00:00Z", day));
    }
    created.push("2024-01-14T09:00:00Z".to_string());
    let per_day = runs_per_day(&created);
    assert_eq!(per_day.len(), 12);
    assert_eq!(per_day[0], ("2024-01-03".to_string(), 1));
    assert_eq!(per_day[11], ("2024-01-14".to_string(), 2));
}

#[test]
fn activities_are_marked_by_their_type() {
    assert_eq!(activity_kind("tool_denied"), ActivityKind::Error);
    assert_eq!(activity_kind("waiting_approval"), ActivityKind::Warning);
    assert_eq!(activity_kind("task_succeeded"), ActivityKind::Success);
    assert_eq!(activity_kind("started"), ActivityKind::Info);
    assert_eq!(activity_message("run_started", Some("{}")), "run_started - {}");
    assert_eq!(activity_message("run_started", None), "run_started - ");
}
