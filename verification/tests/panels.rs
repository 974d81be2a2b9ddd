use agentforge_ui::session::enabled_capability_ids;
use agentforge_ui::agents::{agent_figures, agent_is_online, switched_status};
use agentforge_ui::assets::{AssetSource, CombinedAssets};
use agentforge_ui::history::EditHistory;
use agentforge_ui::research::{note_title, notebook_source, research_file_name};
use agentforge_ui::session::{
    enabled_skill_ids, is_learned_workflow, toggle_skill, CapabilitySelection, LearnedSkill,
    SkillStatus,
};
use agentforge_ui::settings::{setting_value, theme_label, workspace_label};
use std::collections::HashSet;

fn strings(v: &[&str]) -> Vec<String> {
    v.iter().map(|s| s.to_string()).collect()
}

#[test]
fn undo_goes_back_and_redo_forward() {
    let mut h = EditHistory::new(1);
    assert!(!h.can_undo());
    h.change(2);
    h.change(3);
    assert!(h.undo());
    assert_eq!(*h.current(), 2);
    assert!(h.can_redo());
    assert!(h.redo());
    assert_eq!(*h.current(), 3);
    assert!(h.undo());
    assert!(h.undo());
    assert_eq!(*h.current(), 1);
    assert!(!h.undo());
    assert_eq!(*h.current(), 1);
}

#[test]
fn a_change_drops_what_could_be_redone() {
    let mut h = EditHistory::new("a".to_string());
    h.change("b".to_string());
    h.undo();
    h.change("c".to_string());
    assert!(!h.can_redo());
    assert!(!h.redo());
    assert_eq!(h.current(), "c");
    h.undo();
    assert_eq!(h.current(), "a");
}

#[test]
fn skills_are_toggled_on_and_off() {
    let mut enabled = strings(&["a", "b", "a"]);
    assert!(!toggle_skill(&mut enabled, "a"));
    assert_eq!(enabled, strings(&["b"]));
    assert!(toggle_skill(&mut enabled, "a"));
    let set: HashSet<String> = enabled.iter().cloned().collect();
    assert_eq!(set, ["a".to_string(), "b".to_string()].into_iter().collect());
}

#[test]
fn enabled_skills_come_from_skill_selections() {
    let sel = vec![
        CapabilitySelection { capability_kind: "skill".to_string(), capability_id: "s1".to_string(), enabled: true },
        CapabilitySelection { capability_kind: "tool".to_string(), capability_id: "t1".to_string(), enabled: true },
        CapabilitySelection { capability_kind: "skill".to_string(), capability_id: "s2".to_string(), enabled: false },
    ];
    assert_eq!(enabled_skill_ids(&sel), strings(&["s1"]));
}

#[test]
fn learned_skills_take_their_status_from_activation() {
    assert_eq!(SkillStatus::from_activation("active"), SkillStatus::Active);
    assert_eq!(SkillStatus::from_activation("paused"), SkillStatus::Paused);
    assert_eq!(SkillStatus::from_activation("draft"), SkillStatus::Learning);
    assert_eq!(SkillStatus::Learning.detail(), "Review required");
    assert_eq!(SkillStatus::Active.badge(), "Active");
    assert!(is_learned_workflow("learned"));
    assert!(!is_learned_workflow("manual"));
    let s = LearnedSkill::from_workflow("w1".to_string(), "Flow".to_string(), "paused", None);
    assert_eq!(s.status, SkillStatus::Paused);
    assert_eq!(s.steps, strings(&["Failed to parse workflow definition"]));
    assert_eq!(s.execution_count, 0);
}

#[test]
fn agent_figures_count_online_and_providers() {
    let f = agent_figures(&strings(&["online", "OFFLINE", "busy"]), &strings(&["openai", "local", "openai"]));
    assert_eq!(f.total, 3);
    assert_eq!(f.online, 2);
    assert_eq!(f.providers, 2);
    assert!(!agent_is_online("Offline"));
    assert_eq!(switched_status(true), "online");
    assert_eq!(switched_status(false), "offline");
}

#[test]
fn settings_fall_back_from_store_to_environment_to_default() {
    assert_eq!(setting_value(Some(" key "), Some("env"), "d"), " key ");
    assert_eq!(setting_value(Some("  "), Some("env"), "d"), "env");
    assert_eq!(setting_value(None, Some(" "), "d"), "d");
    assert_eq!(workspace_label(&strings(&["/w1", "/w2"]), Some("/s")), "/w1");
    assert_eq!(workspace_label(&vec![], Some("/s")), "/s");
    assert_eq!(workspace_label(&vec![], None), "No workspace configured");
    assert_eq!(theme_label(None), "Default");
}

#[test]
fn research_notes_are_named_from_the_query() {
    assert_eq!(research_file_name("  ", "20240101_120000"), "research_20240101_120000.md");
    assert_eq!(research_file_name(" Rust: async & traits! ", "T"), "research_T_Rust_async_traits.md");
    assert_eq!(research_file_name("!!!", "T"), "research_T_.md");
    assert_eq!(note_title("  "), "Research Notes");
    assert_eq!(note_title(" q "), "q");
    assert_eq!(notebook_source(None, Some("/v".to_string()), "web".to_string()), "/v");
    assert_eq!(notebook_source(None, None, "web".to_string()), "web");
}

#[test]
fn assets_come_from_the_application_first() {
    assert_eq!(CombinedAssets::source_for("", true), AssetSource::Nothing);
    assert_eq!(CombinedAssets::source_for("icons/a.svg", true), AssetSource::Local);
    assert_eq!(CombinedAssets::source_for("icons/a.svg", false), AssetSource::Library);
    let list = CombinedAssets::combined_list("icons/", &strings(&["icons/a.svg", "img/b.png", "icons/c.svg"]), Some(strings(&["icons/z.svg"])));
    assert_eq!(list, strings(&["icons/a.svg", "icons/c.svg", "icons/z.svg"]));
    assert_eq!(CombinedAssets::combined_list("x", &strings(&["y"]), None), Vec::<String>::new());
}

#[test]
fn enabled_capabilities_of_a_kind() {
    let sel = vec![
        CapabilitySelection { capability_kind: "mcp_tool".to_string(), capability_id: "t1".to_string(), enabled: true },
        CapabilitySelection { capability_kind: "skill".to_string(), capability_id: "s1".to_string(), enabled: true },
    ];
    assert_eq!(enabled_capability_ids(&sel, "mcp_tool"), strings(&["t1"]));
}

#[test]
fn search_outcomes_are_reported() {
    let (notebook, status) = agentforge_ui::research::search_failure("rust", "offline", false);
    assert_eq!(notebook, "## Research Notes\n\nAuto-search failed for `rust`.\n\nError: offline");
    assert_eq!(status, "Auto-search failed: offline");
    let (_, status) = agentforge_ui::research::search_failure("rust", "panic", true);
    assert_eq!(status, "Auto-search worker failed: panic");
    assert_eq!(agentforge_ui::research::search_status(Some("Research/rust.md")), "Saved to Research Notebook: Research/rust.md");
    assert_eq!(agentforge_ui::research::search_status(None), "Research draft ready; save failed.");
    assert_eq!(agentforge_ui::research::found_results_message(6), "Found 6 results");
    assert_eq!(agentforge_ui::research::save_note_status(false), "Save failed.");
}
