use agentforge_ui::teams::{
    agent_config_fields, draft_agent, draft_instance, draft_team, membership_changes,
    new_instance_id, provider_option_label, FormError, TeamChoice,
};
use std::collections::HashSet;

fn strings(v: &[&str]) -> Vec<String> {
    v.iter().map(|s| s.to_string()).collect()
}

#[test]
fn membership_changes_reach_the_selection() {
    let current = strings(&["a", "b", "c"]);
    let selected = strings(&["b", "d", "d", "e"]);
    let changes = membership_changes(&current, &selected);
    assert_eq!(changes.to_add, strings(&["d", "e"]));
    assert_eq!(changes.to_remove, strings(&["a", "c"]));
    let mut members: HashSet<String> = current.into_iter().collect();
    for a in &changes.to_add {
        members.insert(a.clone());
    }
    for r in &changes.to_remove {
        members.remove(r);
    }
    let wanted: HashSet<String> = selected.into_iter().collect();
    assert_eq!(members, wanted);
}

#[test]
fn teams_need_a_name_and_an_agent() {
    assert_eq!(draft_team("  ", "", "", 2).unwrap_err(), FormError::MissingTeamName);
    assert_eq!(draft_team("Core", "", "", 0).unwrap_err(), FormError::NoAgentSelected);
    assert_eq!(FormError::NoAgentSelected.message(), "Please select at least one agent.");
    let t = draft_team(" Core ", "  ", " Ship v2 ", 1).unwrap();
    assert_eq!(t.name, "Core");
    assert_eq!(t.description, None);
    assert_eq!(t.objectives.as_deref(), Some("Ship v2"));
}

#[test]
fn agents_need_a_name() {
    assert_eq!(draft_agent(" ", None, "").unwrap_err(), FormError::MissingAgentName);
    let a = draft_agent(" Ada ", None, "  be brief ").unwrap();
    assert_eq!(a.name, "Ada");
    assert_eq!(a.provider, "unconfigured");
    assert_eq!(a.system_prompt.as_deref(), Some("be brief"));
    let b = draft_agent("Bob", Some("OpenAI / gpt-4o"), "").unwrap();
    assert_eq!(b.provider, "OpenAI / gpt-4o");
    assert_eq!(b.system_prompt, None);
    assert_eq!(provider_option_label("OpenAI", "gpt-4o"), "OpenAI / gpt-4o");
}

#[test]
fn agent_config_fields_are_read_from_json() {
    let (role, details) = agent_config_fields(Some(r#"{"details":"Writes code","role":"Dev"}"#));
    assert_eq!(role, "Dev");
    assert_eq!(details, "Writes code");
    let (role, details) = agent_config_fields(Some("not json"));
    assert_eq!((role.as_str(), details.as_str()), ("", ""));
    let (role, _) = agent_config_fields(Some(r#"{"role":3}"#));
    assert_eq!(role, "");
}

#[test]
fn instances_need_a_template_then_a_name() {
    let teams = vec![TeamChoice { id: "t1".to_string(), name: "Core".to_string() }];
    assert_eq!(draft_instance(None, &teams, "x", "").unwrap_err(), FormError::NoTemplateSelected);
    assert_eq!(draft_instance(Some("Other"), &teams, "x", "").unwrap_err(), FormError::NoTemplateSelected);
    assert_eq!(draft_instance(Some("Core"), &teams, "  ", "").unwrap_err(), FormError::MissingInstanceName);
    let d = draft_instance(Some("Core"), &teams, " Night Shift ", " {\"a\":1} ").unwrap();
    assert_eq!(d.team_id, "t1");
    assert_eq!(d.name, "Night Shift");
    assert_eq!(d.config.as_deref(), Some("{\"a\":1}"));
}

#[test]
fn instance_ids_are_slugs_with_a_random_suffix() {
    let id = new_instance_id("Night Shift");
    assert!(id.starts_with("night-shift-"));
    assert_eq!(id.chars().count(), "night-shift-".len() + 4);
}
