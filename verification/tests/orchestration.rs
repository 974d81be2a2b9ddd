use agentforge_ui::orchestration::{pending_consensus, readback_acceptable, readback_label};
use agentforge_ui::orchestration::{
    candidate_actions, count_labels, count_status, event_category, label_key, normalize_label,
    run_summary, task_assignee_display, task_display_name, task_row_label, Agent, OperatingMode,
    Task,
};

fn strings(v: &[&str]) -> Vec<String> {
    v.iter().map(|s| s.to_string()).collect()
}

fn task(payload: Option<&str>) -> Task {
    Task {
        id: "task-1".to_string(),
        status: "running".to_string(),
        payload: payload.map(|p| p.to_string()),
        run_id: None,
        assignee_id: None,
    }
}

fn agent(id: &str, name: &str, role: &str) -> Agent {
    Agent { id: id.to_string(), name: name.to_string(), routing_role: role.to_string() }
}

#[test]
fn labels_are_counted_in_string_order() {
    let counts = count_labels(&strings(&["running", "failed", "running", "completed", "Running"]));
    assert_eq!(
        counts,
        vec![
            ("Running".to_string(), 1),
            ("completed".to_string(), 1),
            ("failed".to_string(), 1),
            ("running".to_string(), 2)
        ]
    );
    let total: usize = counts.iter().map(|(_, n)| *n).sum();
    assert_eq!(total, 5);
    assert!(count_labels(&vec![]).is_empty());
}

#[test]
fn labels_are_ordered_as_strings_are() {
    let counts = count_labels(&strings(&["b", "ab", "a", "é", "z"]));
    let keys: Vec<&str> = counts.iter().map(|(k, _)| k.as_str()).collect();
    assert_eq!(keys, vec!["a", "ab", "b", "z", "é"]);
}

#[test]
fn run_summary_counts_and_rates() {
    let s = run_summary(&strings(&["running", "pending", "completed", "failed", "cancelled", "completed", "other"]));
    assert_eq!(s.active, 2);
    assert_eq!(s.terminal, 4);
    assert_eq!(s.successful, 2);
    assert_eq!(s.success_rate, 50);
    let none = run_summary(&strings(&["running"]));
    assert_eq!(none.success_rate, 0);
    let third = run_summary(&strings(&["completed", "failed", "failed"]));
    assert_eq!(third.success_rate, 33);
}

#[test]
fn events_fall_into_categories() {
    assert_eq!(event_category("step_failed"), "failed");
    assert_eq!(event_category("approval_requested"), "approval");
    assert_eq!(event_category("waiting_for_input"), "approval");
    assert_eq!(event_category("run_completed"), "completed");
    assert_eq!(event_category("started"), "other");
    assert_eq!(count_status(&strings(&["a", "b", "a"]), "a"), 2);
}

#[test]
fn candidate_actions_follow_the_status() {
    let a = candidate_actions("draft", false);
    assert!(a.benchmark && !a.start_canary && !a.rollback);
    let b = candidate_actions("canary_running", true);
    assert!(b.record_canary && b.rollback && !b.promote);
    let c = candidate_actions("canary_running", false);
    assert!(!c.record_canary);
    let d = candidate_actions("canary_passed", false);
    assert!(d.promote && d.rollback);
    assert_eq!(OperatingMode::Supervision.mutation_policy(), "Approval for sensitive operations");
}

#[test]
fn task_names_come_from_the_payload() {
    assert_eq!(task_display_name(&task(None)), "task-1");
    assert_eq!(task_display_name(&task(Some("not json"))), "task-1");
    assert_eq!(task_display_name(&task(Some(r#"{"title":"  Ship it  ","name":"x"}"#))), "Ship it");
    assert_eq!(task_display_name(&task(Some(r#"{"name":"Write docs"}"#))), "Write docs");
    assert_eq!(task_display_name(&task(Some(r#"{"name":"Developer","description":"\n\n 1. Fix the bug\nthen more"}"#))), "Fix the bug");
    assert_eq!(task_display_name(&task(Some(r#"{"name":"pm"}"#))), "task-1");
}

#[test]
fn long_descriptions_are_cut_to_96_characters() {
    let long = "a".repeat(120);
    let payload = format!(r#"{{"description":"{}"}}"#, long);
    assert_eq!(task_display_name(&task(Some(&payload))).chars().count(), 96);
}

#[test]
fn task_rows_show_the_run() {
    let mut t = task(Some(r#"{"title":"Plan"}"#));
    t.run_id = Some("0123456789abcdef".to_string());
    assert_eq!(task_row_label(&t), "Plan [run 01234567]");
}

#[test]
fn assignees_are_found_or_inferred() {
    let agents = vec![agent("a1", "Ada", "Backend Dev"), agent("a2", "Bob", "QA")];
    let mut t = task(Some(r#"{"role":"backend-dev"}"#));
    assert_eq!(task_assignee_display(&t, &agents), "Ada (inferred)");
    t.assignee_id = Some("a2".to_string());
    assert_eq!(task_assignee_display(&t, &agents), "Bob");
    t.assignee_id = Some("zz".to_string());
    assert_eq!(task_assignee_display(&t, &agents), "zz");
    let lost = task(Some(r#"{"role":"designer"}"#));
    assert_eq!(task_assignee_display(&lost, &agents), "Unassigned");
}

#[test]
fn labels_are_normalized() {
    assert_eq!(normalize_label("  Backend-Dev 2 "), "backenddev2");
    assert_eq!(label_key("a-b_c"), "abc");
}

#[test]
fn collaboration_cases_show_their_latest_records() {
    assert_eq!(readback_label(&vec![]), "missing");
    assert_eq!(readback_label(&strings(&["draft", "submitted"])), "submitted");
    assert!(readback_acceptable(Some("submitted")));
    assert!(!readback_acceptable(Some("accepted")));
    assert!(!readback_acceptable(None));
    assert_eq!(pending_consensus(&strings(&["proposed", "approved", "proposed", "rejected"])), Some(2));
    assert_eq!(pending_consensus(&strings(&["approved"])), None);
}
