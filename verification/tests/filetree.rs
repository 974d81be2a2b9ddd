use agentforge_ui::filetree::{ExpandedDirs, FileTree, TreeRow, TreeRowKind};
use agentforge_ui::knowledge::{KnowledgeItem, KnowledgeRecordKind};
use agentforge_ui::paths::{document_path, record_tree_path};

fn path(names: &[&str]) -> Vec<String> {
    names.iter().map(|s| s.to_string()).collect()
}

fn listing(tree: &FileTree) -> Vec<(String, bool, Option<usize>)> {
    tree.entries().iter().map(|e| (e.path.join("/"), e.is_file, e.item)).collect()
}

fn describe(rows: &[TreeRow]) -> Vec<String> {
    rows.iter()
        .map(|r| match &r.kind {
            TreeRowKind::Folder { expanded, key } => format!("{}:{}:folder:{}:{}", r.depth, r.name, expanded, key),
            TreeRowKind::File { item } => format!("{}:{}:file:{}", r.depth, r.name, item),
        })
        .collect()
}

fn sample() -> FileTree {
    FileTree::from_paths(&vec![
        path(&["Documents", "a.md"]),
        path(&["Documents", "sub", "b.md"]),
        path(&["Memories", "m.md"]),
        path(&["Artifacts", "x"]),
    ])
}

#[test]
fn tree_lists_folders_before_their_contents_in_name_order() {
    let tree = sample();
    assert_eq!(
        listing(&tree),
        vec![
            ("Artifacts".to_string(), false, None),
            ("Artifacts/x".to_string(), true, Some(3)),
            ("Documents".to_string(), false, None),
            ("Documents/a.md".to_string(), true, Some(0)),
            ("Documents/sub".to_string(), false, None),
            ("Documents/sub/b.md".to_string(), true, Some(1)),
            ("Memories".to_string(), false, None),
            ("Memories/m.md".to_string(), true, Some(2)),
        ]
    );
}

#[test]
fn first_record_at_a_path_keeps_it() {
    let tree = FileTree::from_paths(&vec![path(&["Documents", "a.md"]), path(&["Documents", "a.md"])]);
    assert_eq!(
        listing(&tree),
        vec![("Documents".to_string(), false, None), ("Documents/a.md".to_string(), true, Some(0))]
    );
}

#[test]
fn empty_tree_has_no_rows() {
    let tree = FileTree::new();
    assert!(tree.entries().is_empty());
    assert!(tree.visible_rows(&ExpandedDirs::new()).is_empty());
    let empty = FileTree::from_paths(&vec![Vec::new()]);
    assert!(empty.entries().is_empty());
}

#[test]
fn only_top_folders_show_at_first() {
    let tree = sample();
    let open = ExpandedDirs::new();
    assert!(open.is_expanded(""));
    assert!(!open.is_expanded("Documents"));
    assert_eq!(
        describe(&tree.visible_rows(&open)),
        vec![
            "1:Artifacts:folder:false:Artifacts",
            "1:Documents:folder:false:Documents",
            "1:Memories:folder:false:Memories",
        ]
    );
}

#[test]
fn opening_a_folder_shows_its_contents_one_step_in() {
    let tree = sample();
    let mut open = ExpandedDirs::new();
    open.toggle("Documents");
    assert_eq!(
        describe(&tree.visible_rows(&open)),
        vec![
            "1:Artifacts:folder:false:Artifacts",
            "1:Documents:folder:true:Documents",
            "2:a.md:file:0",
            "2:sub:folder:false:Documents/sub",
            "1:Memories:folder:false:Memories",
        ]
    );
    open.toggle("Documents/sub");
    let rows = describe(&tree.visible_rows(&open));
    assert!(rows.contains(&"3:b.md:file:1".to_string()));
}

#[test]
fn closing_the_root_hides_everything() {
    let tree = sample();
    let mut open = ExpandedDirs::new();
    open.toggle("");
    assert!(!open.is_expanded(""));
    assert!(tree.visible_rows(&open).is_empty());
}

#[test]
fn toggling_twice_restores_the_open_folders() {
    let mut open = ExpandedDirs::new();
    open.toggle("Documents");
    open.toggle("Documents");
    assert!(!open.is_expanded("Documents"));
    assert!(open.is_expanded(""));
}

#[test]
fn contents_of_a_file_stay_at_its_depth() {
    let tree = FileTree::from_paths(&vec![path(&["A"]), path(&["A", "b"])]);
    assert_eq!(describe(&tree.visible_rows(&ExpandedDirs::new())), vec!["1:A:file:0", "1:b:file:1"]);
}

fn record(title: &str, kind: KnowledgeRecordKind, vault_path: Option<&str>) -> KnowledgeItem {
    KnowledgeItem {
        id: "1".to_string(),
        title: title.to_string(),
        content: String::new(),
        record_kind: kind,
        origin_instance_id: None,
        tags: vec![],
        vault_path: vault_path.map(|s| s.to_string()),
    }
}

#[test]
fn records_stand_under_the_folder_of_their_kind() {
    let memory = record("Note", KnowledgeRecordKind::Memory, None);
    assert_eq!(record_tree_path(&memory, ""), path(&["Memories", "Note.md"]));
    let artifact = record("out/plot.png", KnowledgeRecordKind::Artifact, None);
    assert_eq!(record_tree_path(&artifact, ""), path(&["Artifacts", "out", "plot.png"]));
    let doc = record("Plan", KnowledgeRecordKind::Document, Some("/vault/sub/b.md"));
    assert_eq!(record_tree_path(&doc, "sub/b.md"), path(&["Documents", "sub", "b.md"]));
}

#[test]
fn documents_stand_where_they_are_in_the_vault() {
    let doc = record("Plan", KnowledgeRecordKind::Document, Some("/vault/sub/b.md"));
    assert_eq!(document_path(&doc, Some("/vault/sub/b.md"), "/vault", "/vault"), "sub/b.md");
    assert_eq!(document_path(&doc, Some("/vault/sub/b.md"), "", ""), "b.md");
    assert_eq!(document_path(&doc, Some("/elsewhere/c.md"), "/vault", "/vault"), "c.md");
    assert_eq!(document_path(&doc, None, "/vault", "/vault"), "Plan.md");
    assert_eq!(document_path(&doc, Some("/"), "", ""), "");
}

#[test]
fn adding_a_present_path_again_changes_nothing() {
    let mut tree = FileTree::new();
    tree.insert_path(&path(&["a", "b"]), 0);
    let first = listing(&tree);
    tree.insert_path(&path(&["a", "b"]), 5);
    assert_eq!(listing(&tree), first);
    tree.insert_path(&path(&["a"]), 7);
    assert_eq!(listing(&tree), first);
}
