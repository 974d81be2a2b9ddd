use agentforge_ui::memory::{
    category_items, category_short_name, district_index, filtered_items, linked_items,
    pick_district, save_action, scene_labels, select_category, select_item, truncate_label,
    MemoryBankCategory, MemoryBankItem, MemoryBankLink, SaveAction,
};

fn item(id: &str, c: MemoryBankCategory, title: &str, content: &str, active: bool) -> MemoryBankItem {
    MemoryBankItem { id: id.to_string(), category: c, title: title.to_string(), content: content.to_string(), active }
}

#[test]
fn categories_have_short_names_and_districts() {
    assert_eq!(category_short_name(MemoryBankCategory::SystemArchitecture), "Architecture");
    assert_eq!(category_short_name(MemoryBankCategory::DecisionLog), "Decisions");
    assert_eq!(district_index(MemoryBankCategory::SystemArchitecture), 0);
    assert_eq!(district_index(MemoryBankCategory::ProjectBrief), 1);
}

#[test]
fn labels_are_truncated_with_an_ellipsis() {
    assert_eq!(truncate_label("short", 10), "short");
    assert_eq!(truncate_label("exactly10!", 10), "exactly10!");
    assert_eq!(truncate_label("a bit longer", 5), "a bit...");
    assert_eq!(truncate_label("ééééé", 2), "éé...");
}

#[test]
fn memories_are_filtered_by_status_category_and_query() {
    let items = vec![
        item("1", MemoryBankCategory::Progress, "Sprint", "done", true),
        item("2", MemoryBankCategory::Progress, "Old", "DONE", false),
        item("3", MemoryBankCategory::DecisionLog, "Use Rust", "because", true),
        item("4", MemoryBankCategory::Progress, "Next", "Done soon", true),
    ];
    assert_eq!(filtered_items(&items, None, ""), vec![0, 2, 3]);
    assert_eq!(filtered_items(&items, Some(MemoryBankCategory::Progress), ""), vec![0, 3]);
    assert_eq!(filtered_items(&items, None, "  DONE "), vec![0, 3]);
    assert_eq!(filtered_items(&items, None, "rust"), vec![2]);
}

#[test]
fn the_map_names_three_memories_per_category() {
    let mut items = Vec::new();
    for i in 0..5 {
        items.push(item(&i.to_string(), MemoryBankCategory::Progress, "p", "", true));
    }
    items.push(item("x", MemoryBankCategory::ActiveContext, "c", "", true));
    assert_eq!(scene_labels(&items, None, ""), vec![0, 1, 2, 5]);
}

#[test]
fn selecting_a_district_opens_its_first_active_memory() {
    let items = vec![
        item("1", MemoryBankCategory::Progress, "Old", "old", false),
        item("2", MemoryBankCategory::Progress, "Now", "now", true),
    ];
    let s = select_category(&items, MemoryBankCategory::Progress);
    assert_eq!(s.district, 3);
    assert_eq!(s.title, "Now");
    assert_eq!(s.editing, Some(1));
    let empty = select_category(&items, MemoryBankCategory::LessonsLearned);
    assert_eq!(empty.title, "Lessons");
    assert_eq!(empty.content, "*No active memories in this district. Select Edit to create one.*");
    assert_eq!(empty.editing, None);
}

#[test]
fn selecting_a_memory_by_id() {
    let items = vec![item("a", MemoryBankCategory::DecisionLog, "D", "d", true)];
    let s = select_item(&items, "a").unwrap();
    assert_eq!(s.district, 5);
    assert_eq!(s.content, "d");
    assert!(select_item(&items, "b").is_none());
}

#[test]
fn clicks_pick_the_last_shown_district_under_the_pointer() {
    let hits = vec![true, false, true, false, false, false];
    assert_eq!(pick_district(&hits, None), Some(2));
    assert_eq!(pick_district(&hits, Some(MemoryBankCategory::SystemArchitecture)), Some(0));
    assert_eq!(pick_district(&hits, Some(MemoryBankCategory::Progress)), None);
}

#[test]
fn saving_needs_a_title_and_content() {
    assert_eq!(save_action(" ", "x", true, None), SaveAction::Ignore);
    assert_eq!(save_action("t", "c", true, Some(2)), SaveAction::UpdateEditing);
    assert_eq!(save_action("t", "c", false, Some(2)), SaveAction::Create(MemoryBankCategory::ActiveContext));
    assert_eq!(save_action("t", "c", false, None), SaveAction::ShowOnly);
}

#[test]
fn inspector_lists_category_and_linked_memories() {
    let items = vec![
        item("a", MemoryBankCategory::Progress, "A", "", true),
        item("b", MemoryBankCategory::Progress, "B", "", false),
        item("c", MemoryBankCategory::DecisionLog, "C", "", true),
    ];
    assert_eq!(category_items(&items, MemoryBankCategory::Progress), vec![0]);
    let links = vec![
        MemoryBankLink { source_id: "a".to_string(), target_id: "c".to_string() },
        MemoryBankLink { source_id: "b".to_string(), target_id: "a".to_string() },
        MemoryBankLink { source_id: "a".to_string(), target_id: "zz".to_string() },
        MemoryBankLink { source_id: "c".to_string(), target_id: "b".to_string() },
    ];
    assert_eq!(linked_items(&items, &links, "a"), vec![2, 1]);
}
