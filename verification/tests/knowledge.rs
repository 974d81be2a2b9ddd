use agentforge_ui::knowledge::{
    agent_display_name, append_related_knowledge, apply_filter, clean_knowledge_content,
    connection_count, count_kind, distinct_tag_count, graph_edges, instance_display_name,
    items_are_related_for_graph, preprocess_obsidian_markdown, related_items_for_instance,
    short_id, strip_tool_call_blocks, KnowledgeFilter, KnowledgeItem, KnowledgeRecordKind,
};

fn item(id: &str, title: &str, content: &str, kind: KnowledgeRecordKind, instance: Option<&str>) -> KnowledgeItem {
    KnowledgeItem {
        id: id.to_string(),
        title: title.to_string(),
        content: content.to_string(),
        record_kind: kind,
        origin_instance_id: instance.map(|s| s.to_string()),
        tags: vec![],
        vault_path: None,
    }
}

#[test]
fn filters_list_records_of_their_kind() {
    let items = vec![
        item("1", "a", "", KnowledgeRecordKind::Document, None),
        item("2", "b", "", KnowledgeRecordKind::Memory, None),
        item("3", "c", "", KnowledgeRecordKind::Document, None),
    ];
    assert_eq!(apply_filter(&items, KnowledgeFilter::All), vec![0, 1, 2]);
    assert_eq!(apply_filter(&items, KnowledgeFilter::Documents), vec![0, 2]);
    assert_eq!(apply_filter(&items, KnowledgeFilter::Artifacts), Vec::<usize>::new());
    assert_eq!(count_kind(&items, KnowledgeRecordKind::Document), 2);
}

#[test]
fn related_records_share_the_instance() {
    let mut items = vec![item("me", "Me", "", KnowledgeRecordKind::Memory, Some("i1"))];
    for k in 0..10 {
        items.push(item(&format!("o{}", k), "o", "", KnowledgeRecordKind::Memory, Some("i1")));
    }
    items.push(item("x", "x", "", KnowledgeRecordKind::Memory, Some("i2")));
    let related = related_items_for_instance(&items[0], &items);
    assert_eq!(related, vec![1, 2, 3, 4, 5, 6, 7, 8]);
    let lone = item("z", "z", "", KnowledgeRecordKind::Memory, None);
    assert!(related_items_for_instance(&lone, &items).is_empty());
}

#[test]
fn graph_relations_come_from_links_and_instances() {
    let a = item("a", "Alpha", "see [[Beta]]", KnowledgeRecordKind::Document, None);
    let b = item("b", "Beta", "", KnowledgeRecordKind::Document, Some("i"));
    let c = item("c", "Gamma", "", KnowledgeRecordKind::Memory, Some("i"));
    assert!(items_are_related_for_graph(0, &a, 1, &b));
    assert!(!items_are_related_for_graph(1, &b, 0, &a));
    assert!(items_are_related_for_graph(1, &b, 2, &c));
    assert!(!items_are_related_for_graph(2, &c, 1, &b));
    assert!(!items_are_related_for_graph(1, &b, 1, &b));
    assert_eq!(graph_edges(&vec![a, b, c]), vec![(0, 1), (1, 2)]);
}

#[test]
fn analytics_count_links_and_tags() {
    let mut a = item("a", "Alpha", "[[Beta]] and [[Gamma]] and [[Alpha]]", KnowledgeRecordKind::Document, None);
    a.tags = vec!["rust".to_string(), "ui".to_string()];
    let mut b = item("b", "Beta", "[[Alpha]]", KnowledgeRecordKind::Document, None);
    b.tags = vec!["rust".to_string()];
    let c = item("c", "Gamma", "", KnowledgeRecordKind::Artifact, None);
    let items = vec![a, b, c];
    assert_eq!(connection_count(&items), 3);
    assert_eq!(distinct_tag_count(&items), 2);
}

#[test]
fn short_ids_are_cut_past_twelve_bytes() {
    assert_eq!(short_id("  abc  "), "abc");
    assert_eq!(short_id("123456789012"), "123456789012");
    assert_eq!(short_id("1234567890123"), "12345678");
    assert_eq!(agent_display_name(Some("Ada"), "agent-0123456789"), "Ada");
    assert_eq!(agent_display_name(Some(" "), "agent-0123456789"), "agent-01");
    assert_eq!(agent_display_name(None, "a1"), "a1");
}

#[test]
fn instance_names_fall_back_to_the_id() {
    let instances = vec![("i1".to_string(), "Night".to_string()), ("i2".to_string(), " ".to_string())];
    assert_eq!(instance_display_name(&instances, "i1"), "Night");
    assert_eq!(instance_display_name(&instances, "i2"), "i2");
    assert_eq!(instance_display_name(&instances, "i3"), "i3");
}

#[test]
fn tool_call_blocks_are_stripped() {
    assert_eq!(strip_tool_call_blocks("a<tool_call x>y</tool_call>b"), "ab");
    assert_eq!(strip_tool_call_blocks("a<tool_call>unclosed"), "a");
    assert_eq!(strip_tool_call_blocks("plain"), "plain");
}

#[test]
fn obsidian_links_tags_and_keycaps_become_markdown() {
    assert_eq!(
        preprocess_obsidian_markdown("See [[Note A|A]] and #tag-1 here"),
        "See [A](obsidian://open?file=Note%20A) and [#tag-1](agentforge://tag/tag-1) here\n"
    );
    assert_eq!(preprocess_obsidian_markdown("1\u{fe0f}\u{20e3} step"), "1. step\n");
    assert_eq!(preprocess_obsidian_markdown("```\n#nottag\n```"), "```\n#nottag\n```\n");
    assert_eq!(preprocess_obsidian_markdown("a#b [[open"), "a#b [[open\n");
}

#[test]
fn display_text_drops_noise_and_renames_the_instance() {
    assert_eq!(clean_knowledge_content("Tool result: x\nHello\n\n\nWorld\nuser:", &None), "Hello\n\nWorld");
    assert_eq!(clean_knowledge_content("  ", &None), "No human-readable summary content is available yet.");
    assert_eq!(
        clean_knowledge_content("Session summary for instance inst-1: ok", &Some(("inst-1".to_string(), "Night".to_string()))),
        "Session summary for instance Night: ok"
    );
}

#[test]
fn related_knowledge_is_appended_once() {
    let titles = vec!["A".to_string(), "B".to_string()];
    assert_eq!(append_related_knowledge("Body", &titles), "Body\n\n## Related Knowledge\n- [[A]]\n- [[B]]\n");
    assert_eq!(append_related_knowledge("## Related\nx", &titles), "## Related\nx");
    assert_eq!(append_related_knowledge("Body", &vec![]), "Body");
}
