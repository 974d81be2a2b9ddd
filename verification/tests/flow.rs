use agentforge_ui::flow::{
    canvas_links, layout_order_exec, new_node_title, node_run_state, palette_kind, wire_links,
    workflow_start_id, CanvasLink,
    FlowNodeKind, NodeRunState, WorkflowNode,
};

fn node(id: &str, kind: FlowNodeKind, next: &[&str]) -> WorkflowNode {
    WorkflowNode {
        id: id.to_string(),
        kind,
        next_nodes: next.iter().map(|s| s.to_string()).collect(),
        branch_yes: String::new(),
        branch_no: String::new(),
    }
}

#[test]
fn layout_walks_breadth_first_from_the_start() {
    let nodes = vec![
        node("c", FlowNodeKind::Other, &["d"]),
        node("start", FlowNodeKind::Other, &["b", "c"]),
        node("b", FlowNodeKind::Other, &["d", "missing"]),
        node("d", FlowNodeKind::Other, &[]),
        node("lonely", FlowNodeKind::Other, &[]),
    ];
    assert_eq!(layout_order_exec(&nodes), vec![1, 2, 0, 3, 4]);
}

#[test]
fn layout_follows_decision_branches_and_shows_every_node_once() {
    let mut decide = node("s", FlowNodeKind::Start, &[]);
    decide.kind = FlowNodeKind::Decision;
    decide.branch_yes = "y".to_string();
    decide.branch_no = "n".to_string();
    let nodes = vec![node("n", FlowNodeKind::Other, &["s"]), node("y", FlowNodeKind::Other, &[]), decide];
    let order = layout_order_exec(&nodes);
    assert_eq!(order, vec![0, 2, 1]);
    let mut seen = order.clone();
    seen.sort();
    assert_eq!(seen, vec![0, 1, 2]);
}

#[test]
fn layout_of_no_nodes_is_empty() {
    assert!(layout_order_exec(&vec![]).is_empty());
}

#[test]
fn canvas_links_follow_next_nodes() {
    let nodes = vec![node("a", FlowNodeKind::Start, &["b", "zz"]), node("b", FlowNodeKind::Other, &["a"])];
    assert_eq!(canvas_links(&nodes), vec![(0, 1), (1, 0)]);
}

#[test]
fn connections_set_branches_and_next_nodes() {
    let mut nodes = vec![
        node("d", FlowNodeKind::Decision, &[]),
        node("r", FlowNodeKind::HumanReview, &[]),
        node("t", FlowNodeKind::Other, &[]),
    ];
    let link = |f: &str, p: &str, t: &str| CanvasLink { from_id: f.to_string(), from_port: p.to_string(), to_id: t.to_string() };
    wire_links(&mut nodes, &vec![link("d", "true", "t"), link("d", "out", "r"), link("r", "approve", "t"), link("r", "out", "d"), link("t", "out", "d"), link("t", "out", "r"), link("zz", "out", "t")]);
    assert_eq!((nodes[0].branch_yes.as_str(), nodes[0].branch_no.as_str()), ("t", "r"));
    assert_eq!((nodes[1].branch_yes.as_str(), nodes[1].branch_no.as_str()), ("t", "d"));
    assert_eq!(nodes[2].next_nodes, vec!["d".to_string(), "r".to_string()]);
    assert!(nodes[0].next_nodes.is_empty());
}

#[test]
fn the_start_id_is_the_last_start_node() {
    assert_eq!(workflow_start_id(&vec![]), "start");
    let nodes = vec![node("s1", FlowNodeKind::Start, &[]), node("x", FlowNodeKind::Other, &[]), node("s2", FlowNodeKind::Start, &[])];
    assert_eq!(workflow_start_id(&nodes), "s2");
}

#[test]
fn node_run_states_are_ranked() {
    let done = vec!["a".to_string()];
    let current = vec!["a".to_string(), "b".to_string()];
    assert_eq!(node_run_state("a", &done, &current, None), NodeRunState::Completed);
    assert_eq!(node_run_state("b", &done, &current, Some("b")), NodeRunState::Running);
    assert_eq!(node_run_state("c", &done, &current, Some("c")), NodeRunState::AwaitingReview);
    assert_eq!(node_run_state("d", &done, &current, Some("c")), NodeRunState::Idle);
}

#[test]
fn palette_entries_add_nodes_of_their_kind() {
    assert_eq!(palette_kind("Decision"), FlowNodeKind::Decision);
    assert_eq!(palette_kind("Human Review"), FlowNodeKind::HumanReview);
    assert_eq!(palette_kind("Delay"), FlowNodeKind::Other);
    assert_eq!(palette_kind("Start"), FlowNodeKind::Start);
    assert_eq!(palette_kind("Unknown"), FlowNodeKind::Start);
    assert_eq!(new_node_title("Agent Task"), "New Agent Task");
}
