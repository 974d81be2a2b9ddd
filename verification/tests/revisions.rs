use agentforge_ui::json::JsonValue;
use agentforge_ui::markdown::{inline_pieces, list_prefix, task_checkbox, InlinePiece, MarkdownRenderConfig};
use agentforge_ui::mcp::{
    next_config_save_step, refresh_start, save_outcome_message, ConfigSaveStep, McpMarketplacePanel,
    McpServerEntry, McpTransport, RefreshStart,
};
use agentforge_ui::onboarding::{OnboardingFlow, OnboardingStep};
use agentforge_ui::orchestration::{
    evidence_placeholder, inferred_assignee, learning_telemetry, quarantined_feedback_rows, validated_lesson_rows, Agent, FeedbackRecord,
    LessonRecord,
};
use agentforge_ui::providers::{
    new_key_plan, new_secret_account, secret_account_from_ref, settled_key_ref, KeyPlan,
};
use agentforge_ui::research::research_file_name_now;
use agentforge_ui::teams::{edited_agent, edited_agent_at, new_instance_id, AgentRecord, FormError};

fn is_lower_hex(c: char) -> bool {
    c.is_ascii_digit() || ('a'..='f').contains(&c)
}

fn is_uuid(s: &str) -> bool {
    let cs: Vec<char> = s.chars().collect();
    cs.len() == 36
        && cs.iter().enumerate().all(|(i, c)| {
            if [8, 13, 18, 23].contains(&i) {
                *c == '-'
            } else {
                is_lower_hex(*c)
            }
        })
        && cs[14] == '4'
        && "89ab".contains(cs[19])
}

#[test]
fn fresh_accounts_carry_a_random_uuid() {
    let a = new_secret_account();
    let b = new_secret_account();
    assert!(a.starts_with("custom-provider-"));
    assert!(is_uuid(&a["custom-provider-".len()..]));
    assert_ne!(a, b);
    match new_key_plan("  sk-raw  ", false) {
        KeyPlan::Store { account, secret } => {
            assert_eq!(secret, "sk-raw");
            assert!(is_uuid(&account["custom-provider-".len()..]));
        }
        other => panic!("unexpected plan {:?}", other),
    }
}

#[test]
fn instance_ids_end_with_four_hex_digits() {
    let id = new_instance_id("My Team");
    assert!(id.starts_with("my-team-"));
    assert_eq!(id.chars().count(), "my-team".len() + 5);
    assert!(id.chars().rev().take(4).all(is_lower_hex));
}

#[test]
fn settled_reference_follows_the_keychain() {
    let plan = KeyPlan::Store { account: "custom-provider-x".to_string(), secret: "k".to_string() };
    assert_eq!(settled_key_ref(&plan, true), Some(Some("secret://custom-provider-x".to_string())));
    assert_eq!(settled_key_ref(&plan, false), None);
    assert_eq!(settled_key_ref(&KeyPlan::NoKey, false), Some(None));
    assert_eq!(
        settled_key_ref(&KeyPlan::Reference("env:KEY".to_string()), false),
        Some(Some("env:KEY".to_string()))
    );
}

#[test]
fn onboarding_flow_of_one_step_is_finished_at_once() {
    let mut f = OnboardingFlow::new(vec![OnboardingStep { title: "a".to_string(), description: String::new() }]);
    assert!(f.is_finished());
    f.next_step();
    assert_eq!(f.current_index(), 0);
}

fn entry(name: &str) -> McpServerEntry {
    McpServerEntry {
        name: name.to_string(),
        transport: McpTransport::Stdio,
        command: Some("node".to_string()),
        args: vec![],
        endpoint: None,
        env_secret_refs: vec![],
        header_secret_refs: vec![],
    }
}

#[test]
fn imported_records_are_stamped_in_utc() {
    let r = entry("local").into_record("available");
    assert!(r.created_at.ends_with("+00:00"));
    assert!(r.created_at.len() >= 25);
}

#[test]
fn configuration_counts_as_saved_only_when_every_server_is() {
    let names = vec!["a".to_string(), "b".to_string()];
    assert_eq!(
        save_outcome_message(&names, &vec![None, None]),
        "Configured 2 server(s). Refresh each server to discover tools."
    );
    assert_eq!(
        save_outcome_message(&names, &vec![None, Some("locked".to_string())]),
        "Unable to save server configuration: b: locked"
    );
    assert_eq!(
        save_outcome_message(&names, &vec![Some("x".to_string()), Some("y".to_string())]),
        "Unable to save server configuration: a: x; b: y"
    );
}

#[test]
fn parsed_configuration_values_are_checked() {
    let server = JsonValue::Object(vec![("command".to_string(), JsonValue::Text("node".to_string()))]);
    let config = JsonValue::Object(vec![(
        "mcpServers".to_string(),
        JsonValue::Object(vec![("local".to_string(), server)]),
    )]);
    let entries = McpMarketplacePanel::servers_from_value(&config).expect("accepted");
    assert_eq!(entries.len(), 1);
    assert_eq!(entries[0].name, "local");
    assert_eq!(
        McpMarketplacePanel::servers_from_value(&JsonValue::Object(vec![])).err(),
        Some("Configuration must contain a mcpServers object.".to_string())
    );
    let empty = JsonValue::Object(vec![("mcpServers".to_string(), JsonValue::Object(vec![]))]);
    assert_eq!(
        McpMarketplacePanel::servers_from_value(&empty).err(),
        Some("Configuration must contain at least one MCP server.".to_string())
    );
}

#[test]
fn parsed_endpoints_are_checked() {
    let e = "https://mcp.example.test/api";
    assert_eq!(McpMarketplacePanel::check_parsed_endpoint(e, "https", Some("mcp.example.test")), Ok(()));
    assert_eq!(
        McpMarketplacePanel::check_parsed_endpoint("http://x.test", "http", Some("x.test")),
        Err("Remote MCP endpoints must use HTTPS.".to_string())
    );
    assert_eq!(
        McpMarketplacePanel::check_parsed_endpoint("https://LocalHost/", "https", Some("LocalHost")),
        Err("Remote MCP endpoints cannot target loopback hosts.".to_string())
    );
    assert_eq!(
        McpMarketplacePanel::check_parsed_endpoint("https://u:p@x.test/", "https", Some("x.test")),
        Err("Endpoint URLs must not embed username/password credentials.".to_string())
    );
}

#[test]
fn route_finds_an_agent_by_role() {
    let agents = vec![
        Agent { id: "1".to_string(), name: "Ann".to_string(), routing_role: "Backend Dev".to_string() },
        Agent { id: "2".to_string(), name: "Bo".to_string(), routing_role: "QA".to_string() },
    ];
    assert_eq!(inferred_assignee("qa", &agents), "Bo (inferred)");
    assert_eq!(inferred_assignee("pm", &agents), "Unassigned");
}

fn feedback(id: usize, status: &str) -> FeedbackRecord {
    FeedbackRecord {
        id: id.to_string(),
        subject_kind: "run".to_string(),
        subject_id: format!("r{}", id),
        content: "x".repeat(200),
        validation_status: status.to_string(),
    }
}

#[test]
fn learning_tab_lists_ten_quarantined_feedback_items() {
    let mut records = vec![feedback(0, "validated")];
    for i in 1..=12 {
        records.push(feedback(i, "quarantined"));
    }
    let rows = quarantined_feedback_rows(&records);
    assert_eq!(rows.len(), 10);
    assert_eq!(rows[0].id, "1");
    assert_eq!(rows[0].heading, "run: r1");
    assert_eq!(rows[0].detail.chars().count(), 180);
    assert_eq!(rows[9].id, "10");
    let lessons = vec![
        LessonRecord {
            id: "l1".to_string(),
            scope_kind: "global".to_string(),
            scope_id: "".to_string(),
            instruction: "Be brief".to_string(),
            status: "validated".to_string(),
        },
        LessonRecord {
            id: "l2".to_string(),
            scope_kind: "instance".to_string(),
            scope_id: "i".to_string(),
            instruction: "x".to_string(),
            status: "active".to_string(),
        },
    ];
    let lrows = validated_lesson_rows(&lessons);
    assert_eq!(lrows.len(), 1);
    assert_eq!(lrows[0].heading, "global / ");
    assert_eq!(lrows[0].detail, "Be brief");
}

fn stored_agent() -> AgentRecord {
    AgentRecord {
        id: "a1".to_string(),
        name: "Old".to_string(),
        provider: "OpenAI / gpt".to_string(),
        system_prompt: None,
        config: None,
        status: "online".to_string(),
        created_at: "2024-01-01T00:00:00+00:00".to_string(),
        updated_at: "2024-01-01T00:00:00+00:00".to_string(),
    }
}

#[test]
fn editing_an_agent_keeps_its_identity() {
    let old = stored_agent();
    let a = edited_agent_at(&old, "  New  ", None, "  be kind ", "{}".to_string(), "now".to_string()).unwrap();
    assert_eq!(a.id, "a1");
    assert_eq!(a.name, "New");
    assert_eq!(a.provider, "OpenAI / gpt");
    assert_eq!(a.system_prompt, Some("be kind".to_string()));
    assert_eq!(a.config, Some("{}".to_string()));
    assert_eq!(a.status, "online");
    assert_eq!(a.created_at, old.created_at);
    assert_eq!(a.updated_at, "now");
    let b = edited_agent(&old, "N", Some("Local / llama"), "", "{}".to_string()).unwrap();
    assert_eq!(b.provider, "Local / llama");
    assert_eq!(b.system_prompt, None);
    assert!(b.updated_at.ends_with("+00:00"));
    assert!(matches!(edited_agent(&old, "   ", None, "", "{}".to_string()), Err(FormError::MissingAgentName)));
}

#[test]
fn research_notes_are_named_with_the_current_stamp() {
    let name = research_file_name_now("What is Rust?");
    assert!(name.starts_with("research_"));
    assert!(name.ends_with("_What_is_Rust.md"));
    let stamp = &name["research_".len()..name.len() - "_What_is_Rust.md".len()];
    let cs: Vec<char> = stamp.chars().collect();
    assert!(cs.len() >= 15);
    assert_eq!(cs[cs.len() - 7], '_');
    assert!(cs[cs.len() - 6..].iter().all(|c| c.is_ascii_digit()));
}

fn describe(ps: &[InlinePiece]) -> Vec<String> {
    ps.iter()
        .map(|p| match p {
            InlinePiece::LineBreak => "|".to_string(),
            InlinePiece::Word { text, tag } => if *tag { format!("#{}", text) } else { text.clone() },
        })
        .collect()
}

#[test]
fn text_spans_are_drawn_word_by_word() {
    let tags = MarkdownRenderConfig { enable_obsidian_tags: true };
    let plain = MarkdownRenderConfig { enable_obsidian_tags: false };
    assert_eq!(describe(&inline_pieces("\n", tags)), vec!["|"]);
    assert_eq!(
        describe(&inline_pieces(" see  #todo now\nnext # x", tags)),
        vec!["see", "##todo", "now", "|", "next", "#", "x"]
    );
    assert_eq!(describe(&inline_pieces("#todo", plain)), vec!["#todo"]);
    assert_eq!(describe(&inline_pieces("", plain)), Vec::<String>::new());
}

#[test]
fn secret_references_name_their_account_through_whitespace() {
    assert_eq!(secret_account_from_ref(Some("  secret://acct-1 \t")), Some("acct-1".to_string()));
    assert_eq!(secret_account_from_ref(Some("secret://   ")), None);
    assert_eq!(secret_account_from_ref(Some("env:KEY")), None);
    assert_eq!(secret_account_from_ref(None), None);
}

#[test]
fn records_store_references_as_json_objects() {
    let mut e = entry("local");
    e.env_secret_refs = vec![("TOKEN".to_string(), "secret://t".to_string())];
    let r = e.record_at("available", "now".to_string());
    assert_eq!(r.env_secret_refs, r#"{"TOKEN":"secret://t"}"#);
    assert_eq!(r.header_secret_refs, "{}");
}

#[test]
fn save_steps_go_through_every_server_in_order() {
    let names = vec!["a".to_string(), "b".to_string()];
    assert_eq!(next_config_save_step(&names, &vec![]), ConfigSaveStep::Save(0));
    assert_eq!(next_config_save_step(&names, &vec![None]), ConfigSaveStep::Save(1));
    assert_eq!(
        next_config_save_step(&names, &vec![None, None]),
        ConfigSaveStep::Done("Configured 2 server(s). Refresh each server to discover tools.".to_string())
    );
    assert_eq!(
        next_config_save_step(&names, &vec![Some("e".to_string()), None]),
        ConfigSaveStep::Done("Unable to save server configuration: a: e".to_string())
    );
}

#[test]
fn refresh_is_gated_by_permission() {
    assert_eq!(refresh_start("x", false), RefreshStart::Denied("Permission denied for MCP discovery.".to_string()));
    assert_eq!(refresh_start("x", true), RefreshStart::Discover("Refreshing 'x'...".to_string()));
}

#[test]
fn list_rows_are_marked() {
    assert_eq!(list_prefix(true, 0), "1. ");
    assert_eq!(list_prefix(true, 9), "10. ");
    assert_eq!(list_prefix(false, 3), "• ");
    assert_eq!(task_checkbox(true, true), Some("☑"));
    assert_eq!(task_checkbox(true, false), Some("☐"));
    assert_eq!(task_checkbox(false, true), None);
}

#[test]
fn learning_telemetry_counts_over_all_candidates() {
    let s = |v: &[&str]| v.iter().map(|x| x.to_string()).collect::<Vec<String>>();
    let t = learning_telemetry(
        &s(&["queued", "running", "queued", "failed", "done"]),
        &s(&["passed", "failed", "passed"]),
        &s(&["running", "stopped"]),
        &s(&["pass", "fail", "fail", "skip"]),
    );
    assert_eq!(t.jobs, "2 queued | 1 running | 1 failed jobs");
    assert_eq!(t.runs, "2 passed | 1 failed runs");
    assert_eq!(t.deployments, "1 running deployments");
    assert_eq!(t.observations, "1 pass | 2 fail observations");
    assert_eq!(evidence_placeholder(0, false), Some("No feedback awaits validation."));
    assert_eq!(evidence_placeholder(0, true), Some("No validated lesson is waiting for versioning."));
    assert_eq!(evidence_placeholder(2, false), None);
}

#[test]
fn wiki_links_percent_encode_every_utf8_byte() {
    assert_eq!(
        agentforge_ui::knowledge::preprocess_obsidian_markdown("[[Café €]]"),
        "[Café €](obsidian://open?file=Caf%C3%A9%20%E2%82%AC)\n"
    );
}
