//! Workflows drawn on the builder's canvas: the order in which their nodes are laid
//! out, and the links that the canvas's connections make between them.
use crate::text::{chars_eq, chars_of};
use vstd::prelude::*;

verus! {

// ---------------------------------------------------------------------------
// Workflow nodes
// ---------------------------------------------------------------------------
/// The kinds of node whose links the canvas treats apart.
#[derive(Clone, Copy, PartialEq, Eq, Debug, Structural)]
pub enum FlowNodeKind {
    Start,
    /// Goes on to one of two nodes, by a condition.
    Decision,
    /// Goes on to one of two nodes, by a person's verdict.
    HumanReview,
    Other,
}

/// A node of a workflow, as far as the canvas reads its links.
#[derive(Debug)]
pub struct WorkflowNode {
    pub id: String,
    pub kind: FlowNodeKind,
    /// The nodes it goes on to.
    pub next_nodes: Vec<String>,
    /// For a decision the node taken when the condition holds; for a review, the
    /// node taken on approval.
    pub branch_yes: String,
    /// For a decision the node taken otherwise; for a review, the node taken on
    /// rejection.
    pub branch_no: String,
}

/// The texts of a list of strings.
pub open spec fn texts(v: Seq<String>) -> Seq<Seq<char>> {
    v.map_values(|s: String| s@)
}

/// The nodes that the layout goes on to from `n`: its next nodes, and for a
/// decision both of its branches.
pub open spec fn successors(n: WorkflowNode) -> Seq<Seq<char>> {
    if n.kind == FlowNodeKind::Decision {
        texts(n.next_nodes@) + seq![n.branch_yes@, n.branch_no@]
    } else {
        texts(n.next_nodes@)
    }
}

/// The first node at or after `i` with the id `id`.
pub open spec fn node_index_from(nodes: Seq<WorkflowNode>, id: Seq<char>, i: int) -> Option<int>
    decreases nodes.len() - i,
{
    if i < 0 || i >= nodes.len() {
        None
    } else if nodes[i].id@ == id {
        Some(i)
    } else {
        node_index_from(nodes, id, i + 1)
    }
}

/// How many nodes are not yet laid out.
pub open spec fn unvisited_count(v: Seq<bool>) -> nat
    decreases v.len(),
{
    if v.len() == 0 {
        0
    } else {
        unvisited_count(v.drop_last()) + if v.last() {
            0nat
        } else {
            1nat
        }
    }
}

pub proof fn lemma_visit_decreases(v: Seq<bool>, k: int)
    requires
        0 <= k < v.len(),
        !v[k],
    ensures
        unvisited_count(v.update(k, true)) + 1 == unvisited_count(v),
    decreases v.len(),
{
    if k < v.len() - 1 {
        lemma_visit_decreases(v.drop_last(), k);
        assert(v.update(k, true).drop_last() =~= v.drop_last().update(k, true));
    } else {
        assert(v.update(k, true).drop_last() =~= v.drop_last());
    }
}

/// The walk that lays out the nodes reachable from the queue, breadth first: each
/// id taken from the front of the queue names a node; a node not yet laid out is
/// laid out next and its successors join the back of the queue. It gives the order
/// of the nodes laid out and which are.
pub open spec fn walk(
    nodes: Seq<WorkflowNode>,
    queue: Seq<Seq<char>>,
    visited: Seq<bool>,
    order: Seq<usize>,
) -> (Seq<usize>, Seq<bool>)
    decreases unvisited_count(visited), queue.len(),
{
    if queue.len() == 0 {
        (order, visited)
    } else {
        let rest = queue.drop_first();
        match node_index_from(nodes, queue[0], 0) {
            None => walk(nodes, rest, visited, order),
            Some(k) => if k < 0 || k >= visited.len() || visited[k] {
                walk(nodes, rest, visited, order)
            } else {
                proof {
                    lemma_visit_decreases(visited, k);
                }
                walk(nodes, rest + successors(nodes[k]), visited.update(k, true), order.push(k as usize))
            },
        }
    }
}

/// The node the layout starts from: the first called `start` or of the start kind,
/// else the first node.
pub open spec fn start_index_from(nodes: Seq<WorkflowNode>, i: int) -> Option<int>
    decreases nodes.len() - i,
{
    if i < 0 || i >= nodes.len() {
        None
    } else if nodes[i].id@ == "start"@ || nodes[i].kind == FlowNodeKind::Start {
        Some(i)
    } else {
        start_index_from(nodes, i + 1)
    }
}

/// The queue the walk starts with: the start node, else the first node, else nothing.
pub open spec fn first_queue(nodes: Seq<WorkflowNode>) -> Seq<Seq<char>> {
    match start_index_from(nodes, 0) {
        Some(s) => seq![nodes[s].id@],
        None => if nodes.len() > 0 {
            seq![nodes[0].id@]
        } else {
            Seq::<Seq<char>>::empty()
        },
    }
}

/// The positions of the nodes not laid out, in order, after `order`.
pub open spec fn append_unvisited(visited: Seq<bool>, order: Seq<usize>, n: int) -> Seq<usize>
    decreases n,
{
    if n <= 0 {
        order
    } else {
        let prev = append_unvisited(visited, order, n - 1);
        if visited[n - 1] {
            prev
        } else {
            prev.push((n - 1) as usize)
        }
    }
}

/// The order in which a workflow's nodes, given in the order of its node map, are
/// laid out on the canvas: breadth first from the start node (or the first node
/// where none is a start), then the nodes that the walk did not reach.
pub open spec fn layout_order(nodes: Seq<WorkflowNode>) -> Seq<usize> {
    let first = first_queue(nodes);
    let w = walk(nodes, first, Seq::new(nodes.len(), |i: int| false), Seq::<usize>::empty());
    append_unvisited(w.1, w.0, nodes.len() as int)
}

fn find_node(nodes: &Vec<WorkflowNode>, id: &Vec<char>) -> (r: Option<usize>)
    ensures
        match r {
            Some(k) => node_index_from(nodes@, id@, 0) == Some(k as int) && k < nodes.len(),
            None => node_index_from(nodes@, id@, 0) is None,
        },
{
    let mut i: usize = 0;
    while i < nodes.len()
        invariant
            i <= nodes.len(),
            node_index_from(nodes@, id@, 0) == node_index_from(nodes@, id@, i as int),
        decreases nodes.len() - i,
    {
        if chars_eq(&chars_of(nodes[i].id.as_str()), id) {
            return Some(i);
        }
        i = i + 1;
    }
    None
}

fn push_successors(queue: &mut Vec<Vec<char>>, n: &WorkflowNode)
    ensures
        crate::text::views(final(queue)@) == crate::text::views(old(queue)@) + successors(*n),
        final(queue)@.len() == old(queue)@.len() + successors(*n).len(),
{
    let ghost start = crate::text::views(queue@);
    let ghost start_len = queue@.len();
    let mut j: usize = 0;
    while j < n.next_nodes.len()
        invariant
            j <= n.next_nodes.len(),
            start.len() == start_len,
            queue@.len() == start_len + j,
            crate::text::views(queue@) == start + texts(n.next_nodes@).take(j as int),
        decreases n.next_nodes.len() - j,
    {
        let x = chars_of(n.next_nodes[j].as_str());
        let ghost before = queue@;
        queue.push(x);
        proof {
            assert(queue@ == before.push(x));
            assert forall|i: int| 0 <= i < queue@.len() implies #[trigger] crate::text::views(
                queue@,
            )[i] == (start + texts(n.next_nodes@).take(j + 1))[i] by {
                if i < before.len() {
                    assert(queue@[i] == before[i]);
                    assert(crate::text::views(before)[i] == before[i]@);
                } else {
                    assert(queue@[i] == x);
                }
            }
        }
        assert(crate::text::views(queue@) =~= start + texts(n.next_nodes@).take(j + 1));
        j = j + 1;
    }
    assert(texts(n.next_nodes@).take(n.next_nodes.len() as int) =~= texts(n.next_nodes@));
    if n.kind == FlowNodeKind::Decision {
        let ghost mid = queue@;
        let y = chars_of(n.branch_yes.as_str());
        let z = chars_of(n.branch_no.as_str());
        queue.push(y);
        queue.push(z);
        proof {
            assert(queue@ == mid.push(y).push(z));
            assert forall|i: int| 0 <= i < queue@.len() implies #[trigger] crate::text::views(
                queue@,
            )[i] == (start + successors(*n))[i] by {
                if i < mid.len() {
                    assert(queue@[i] == mid[i]);
                    assert(crate::text::views(mid)[i] == mid[i]@);
                } else if i == mid.len() {
                    assert(queue@[i] == y);
                } else {
                    assert(queue@[i] == z);
                }
            }
        }
        assert(crate::text::views(queue@) =~= start + successors(*n));
    }
}

/// The order in which a workflow's nodes, given in the order of its node map, are
/// laid out on the canvas.
pub fn layout_order_exec(nodes: &Vec<WorkflowNode>) -> (r: Vec<usize>)
    ensures
        r@ == layout_order(nodes@),
{
    let mut queue: Vec<Vec<char>> = Vec::new();
    let mut s: usize = 0;
    let mut start: Option<usize> = None;
    while s < nodes.len() && start.is_none()
        invariant
            s <= nodes.len(),
            start matches Some(k) ==> start_index_from(nodes@, 0) == Some(k as int) && k < nodes.len(),
            start is None ==> start_index_from(nodes@, 0) == start_index_from(nodes@, s as int),
        decreases nodes.len() - s,
    {
        if chars_eq(&chars_of(nodes[s].id.as_str()), &chars_of("start")) || nodes[s].kind
            == FlowNodeKind::Start {
            start = Some(s);
        }
        s = s + 1;
    }
    match start {
        Some(k) => {
            queue.push(chars_of(nodes[k].id.as_str()));
        },
        None => {
            if nodes.len() > 0 {
                queue.push(chars_of(nodes[0].id.as_str()));
            }
        },
    }
    let ghost first = crate::text::views(queue@);
    assert(first =~= first_queue(nodes@));
    let mut visited: Vec<bool> = Vec::new();
    let mut v: usize = 0;
    while v < nodes.len()
        invariant
            v <= nodes.len(),
            visited@ == Seq::new(v as nat, |i: int| false),
        decreases nodes.len() - v,
    {
        visited.push(false);
        assert(visited@ =~= Seq::new((v + 1) as nat, |i: int| false));
        v = v + 1;
    }
    let mut order: Vec<usize> = Vec::new();
    let mut head: usize = 0;
    assert(crate::text::views(queue@).subrange(0, queue.len() as int) =~= first);
    while head < queue.len()
        invariant
            head <= queue.len(),
            visited.len() == nodes.len(),
            walk(nodes@, first, Seq::new(nodes.len() as nat, |i: int| false), Seq::<usize>::empty())
                == walk(
                nodes@,
                crate::text::views(queue@).subrange(head as int, queue.len() as int),
                visited@,
                order@,
            ),
        decreases unvisited_count(visited@), queue.len() - head,
    {
        let ghost q = crate::text::views(queue@).subrange(head as int, queue.len() as int);
        assert(q[0] == queue@[head as int]@);
        assert(q.drop_first() =~= crate::text::views(queue@).subrange(head + 1, queue.len() as int));
        let found = find_node(nodes, &queue[head]);
        head = head + 1;
        match found {
            Some(k) => {
                if !visited[k] {
                    proof {
                        lemma_visit_decreases(visited@, k as int);
                    }
                    visited.set(k, true);
                    order.push(k);
                    let ghost before = crate::text::views(queue@);
                    push_successors(&mut queue, &nodes[k]);
                    assert(crate::text::views(queue@).subrange(head as int, queue.len() as int)
                        =~= before.subrange(head as int, before.len() as int) + successors(
                        nodes@[k as int],
                    ));
                } else {
                }
            },
            None => {},
        }
    }
    let ghost w = walk(
        nodes@,
        first,
        Seq::new(nodes.len() as nat, |i: int| false),
        Seq::<usize>::empty(),
    );
    assert(w == (order@, visited@));
    let ghost base = order@;
    let mut i: usize = 0;
    while i < nodes.len()
        invariant
            i <= nodes.len(),
            visited.len() == nodes.len(),
            w == (base, visited@),
            order@ == append_unvisited(visited@, base, i as int),
        decreases nodes.len() - i,
    {
        if !visited[i] {
            order.push(i);
        }
        i = i + 1;
    }
    order
}

} // verus!

verus! {

/// The positions in `order` are distinct and below `n`, and they are the ones
/// `visited` marks.
pub open spec fn order_matches(visited: Seq<bool>, order: Seq<usize>, n: int) -> bool {
    &&& visited.len() == n
    &&& forall|i: int, j: int| 0 <= i < j < order.len() ==> order[i] != order[j]
    &&& forall|i: int| 0 <= i < order.len() ==> (#[trigger] order[i]) < n && visited[order[i] as int]
    &&& forall|k: int| 0 <= k < n && #[trigger] visited[k] ==> order.contains(k as usize)
}

proof fn lemma_walk_keeps_match(
    nodes: Seq<WorkflowNode>,
    queue: Seq<Seq<char>>,
    visited: Seq<bool>,
    order: Seq<usize>,
)
    requires
        nodes.len() <= usize::MAX,
        order_matches(visited, order, nodes.len() as int),
    ensures
        order_matches(
            walk(nodes, queue, visited, order).1,
            walk(nodes, queue, visited, order).0,
            nodes.len() as int,
        ),
    decreases unvisited_count(visited), queue.len(),
{
    if queue.len() > 0 {
        let rest = queue.drop_first();
        match node_index_from(nodes, queue[0], 0) {
            None => {
                lemma_walk_keeps_match(nodes, rest, visited, order);
            },
            Some(k) => {
                if k < 0 || k >= visited.len() || visited[k] {
                    lemma_walk_keeps_match(nodes, rest, visited, order);
                } else {
                    lemma_visit_decreases(visited, k);
                    let v2 = visited.update(k, true);
                    let o2 = order.push(k as usize);
                    assert(!order.contains(k as usize));
                    assert forall|k2: int| 0 <= k2 < nodes.len() && #[trigger] v2[k2] implies o2.contains(
                        k2 as usize,
                    ) by {
                        if k2 == k {
                            assert(o2[order.len() as int] == k as usize);
                        } else {
                            assert(visited[k2]);
                            let i = choose|i: int| 0 <= i < order.len() && order[i] == k2 as usize;
                            assert(o2[i] == k2 as usize);
                        }
                    }
                    assert(order_matches(v2, o2, nodes.len() as int));
                    lemma_walk_keeps_match(nodes, rest + successors(nodes[k]), v2, o2);
                }
            },
        }
    }
}

/// Every node of a workflow is laid out on the canvas exactly once.
pub proof fn law_layout_shows_each_node_once(nodes: Seq<WorkflowNode>)
    requires
        nodes.len() <= usize::MAX,
    ensures
        layout_order(nodes).len() == nodes.len(),
        forall|i: int, j: int|
            0 <= i < j < layout_order(nodes).len() ==> layout_order(nodes)[i] != layout_order(nodes)[j],
        forall|k: usize| k < nodes.len() ==> #[trigger] layout_order(nodes).contains(k),
{
    let first = first_queue(nodes);
    let v0 = Seq::new(nodes.len(), |i: int| false);
    let o0 = Seq::<usize>::empty();
    assert(order_matches(v0, o0, nodes.len() as int));
    lemma_walk_keeps_match(nodes, first, v0, o0);
    let w = walk(nodes, first, v0, o0);
    lemma_append_unvisited(w.1, w.0, nodes.len() as int, nodes.len() as int);
}

proof fn lemma_append_unvisited(visited: Seq<bool>, order: Seq<usize>, n: int, m: int)
    requires
        0 <= m <= n <= usize::MAX,
        order_matches(visited, order, n),
    ensures
        ({
            let r = append_unvisited(visited, order, m);
            &&& forall|i: int, j: int| 0 <= i < j < r.len() ==> r[i] != r[j]
            &&& forall|i: int| 0 <= i < r.len() ==> (#[trigger] r[i]) < n && (visited[r[i] as int] || r[i] < m)
            &&& forall|k: usize| k < n && (visited[k as int] || k < m) ==> #[trigger] r.contains(k)
            &&& r.len() == order.len() + (m - count_visited_below(visited, m))
        }),
        order.len() == count_visited_below(visited, n),
    decreases m,
{
    lemma_order_len(visited, order, n);
    if m > 0 {
        lemma_append_unvisited(visited, order, n, m - 1);
        let prev = append_unvisited(visited, order, m - 1);
        let r = append_unvisited(visited, order, m);
        if !visited[m - 1] {
            assert(!prev.contains((m - 1) as usize));
            assert forall|k: usize| k < n && (visited[k as int] || k < m) implies #[trigger] r.contains(k) by {
                if k == m - 1 {
                    assert(r[prev.len() as int] == (m - 1) as usize);
                } else {
                    assert(prev.contains(k));
                    let i = choose|i: int| 0 <= i < prev.len() && prev[i] == k;
                    assert(r[i] == k);
                }
            }
        }
    }
}

/// How many of the first `m` nodes are marked visited.
pub open spec fn count_visited_below(visited: Seq<bool>, m: int) -> nat
    decreases m,
{
    if m <= 0 {
        0
    } else {
        count_visited_below(visited, m - 1) + if visited[m - 1] {
            1nat
        } else {
            0nat
        }
    }
}

proof fn lemma_order_len(visited: Seq<bool>, order: Seq<usize>, n: int)
    requires
        0 <= n <= usize::MAX,
        order_matches(visited, order, n),
    ensures
        order.len() == count_visited_below(visited, n),
{
    lemma_count_as_filter(visited, order, n, n);
}

/// The positions in `order` below `m` number those that `visited` marks below `m`.
pub open spec fn count_below(order: Seq<usize>, m: int) -> nat
    decreases order.len(),
{
    if order.len() == 0 {
        0
    } else {
        count_below(order.drop_last(), m) + if (order.last() as int) < m {
            1nat
        } else {
            0nat
        }
    }
}

proof fn lemma_count_below_step(order: Seq<usize>, m: int)
    requires
        0 <= m <= usize::MAX,
        forall|i: int, j: int| 0 <= i < j < order.len() ==> order[i] != order[j],
    ensures
        count_below(order, m + 1) == count_below(order, m) + if order.contains(m as usize) {
            1nat
        } else {
            0nat
        },
    decreases order.len(),
{
    if order.len() > 0 {
        let p = order.drop_last();
        lemma_count_below_step(p, m);
        if order.last() == m as usize {
            assert(!p.contains(m as usize)) by {
                if p.contains(m as usize) {
                    let i = choose|i: int| 0 <= i < p.len() && p[i] == m as usize;
                    assert(order[i] == order[order.len() - 1]);
                }
            }
        } else {
            assert(order.contains(m as usize) == p.contains(m as usize)) by {
                if order.contains(m as usize) {
                    let i = choose|i: int| 0 <= i < order.len() && order[i] == m as usize;
                    assert(p[i] == m as usize);
                }
                if p.contains(m as usize) {
                    let i = choose|i: int| 0 <= i < p.len() && p[i] == m as usize;
                    assert(order[i] == m as usize);
                }
            }
        }
    }
}

proof fn lemma_count_below_all(order: Seq<usize>, n: int)
    requires
        0 <= n,
        forall|i: int| 0 <= i < order.len() ==> (#[trigger] order[i]) < n,
    ensures
        count_below(order, n) == order.len(),
    decreases order.len(),
{
    if order.len() > 0 {
        lemma_count_below_all(order.drop_last(), n);
    }
}

proof fn lemma_count_as_filter(visited: Seq<bool>, order: Seq<usize>, n: int, m: int)
    requires
        0 <= m <= n <= usize::MAX,
        order_matches(visited, order, n),
    ensures
        count_below(order, m) == count_visited_below(visited, m),
        m == n ==> order.len() == count_visited_below(visited, n),
    decreases m,
{
    if m > 0 {
        lemma_count_as_filter(visited, order, n, m - 1);
        lemma_count_below_step(order, m - 1);
        if order.contains((m - 1) as usize) {
            let i = choose|i: int| 0 <= i < order.len() && order[i] == (m - 1) as usize;
            assert(visited[order[i] as int]);
        }
    } else {
        assert(count_below(order, 0) == 0) by {
            lemma_count_below_zero(order);
        }
    }
    if m == n {
        lemma_count_below_all(order, n);
    }
}

proof fn lemma_count_below_zero(order: Seq<usize>)
    ensures
        count_below(order, 0) == 0,
    decreases order.len(),
{
    if order.len() > 0 {
        lemma_count_below_zero(order.drop_last());
    }
}

} // verus!

verus! {

// ---------------------------------------------------------------------------
// Links between nodes
// ---------------------------------------------------------------------------
/// The links that the canvas draws for the next nodes of the node at `i`, one per
/// next node that is a node of the workflow, from `nexts`.
pub open spec fn links_from(nodes: Seq<WorkflowNode>, i: int, nexts: Seq<Seq<char>>) -> Seq<(usize, usize)>
    decreases nexts.len(),
{
    if nexts.len() == 0 {
        Seq::<(usize, usize)>::empty()
    } else {
        let prev = links_from(nodes, i, nexts.drop_last());
        match node_index_from(nodes, nexts.last(), 0) {
            Some(j) => prev.push((i as usize, j as usize)),
            None => prev,
        }
    }
}

/// The links that the canvas draws for the first `m` nodes of a workflow.
pub open spec fn links_upto(nodes: Seq<WorkflowNode>, m: int) -> Seq<(usize, usize)>
    decreases m,
{
    if m <= 0 {
        Seq::<(usize, usize)>::empty()
    } else {
        links_upto(nodes, m - 1) + links_from(nodes, m - 1, texts(nodes[m - 1].next_nodes@))
    }
}

/// The links that the canvas draws between a workflow's nodes, as pairs of their
/// positions: from each node, in order, to each of its next nodes that exists.
pub fn canvas_links(nodes: &Vec<WorkflowNode>) -> (r: Vec<(usize, usize)>)
    ensures
        r@ == links_upto(nodes@, nodes.len() as int),
{
    let mut r: Vec<(usize, usize)> = Vec::new();
    let mut i: usize = 0;
    while i < nodes.len()
        invariant
            i <= nodes.len(),
            r@ == links_upto(nodes@, i as int),
        decreases nodes.len() - i,
    {
        let ghost base = r@;
        let nexts = &nodes[i].next_nodes;
        let mut j: usize = 0;
        while j < nexts.len()
            invariant
                i < nodes.len(),
                nexts == &nodes@[i as int].next_nodes,
                j <= nexts.len(),
                r@ == base + links_from(nodes@, i as int, texts(nexts@).take(j as int)),
            decreases nexts.len() - j,
        {
            assert(texts(nexts@).take(j + 1).drop_last() =~= texts(nexts@).take(j as int));
            assert(texts(nexts@).take(j + 1).last() == nexts@[j as int]@);
            if let Some(k) = find_node(nodes, &chars_of(nexts[j].as_str())) {
                r.push((i, k));
            }
            assert(r@ =~= base + links_from(nodes@, i as int, texts(nexts@).take(j + 1)));
            j = j + 1;
        }
        assert(texts(nexts@).take(nexts.len() as int) =~= texts(nexts@));
        i = i + 1;
    }
    r
}

/// A connection drawn on the canvas, by the workflow ids of its ends.
#[derive(Debug)]
pub struct CanvasLink {
    pub from_id: String,
    /// The output port it leaves from: `true` or else for a decision, `approve` or
    /// else for a review.
    pub from_port: String,
    pub to_id: String,
}

/// What a node holds of its links.
pub struct NodeLinks {
    pub id: Seq<char>,
    pub kind: FlowNodeKind,
    pub next: Seq<Seq<char>>,
    pub yes: Seq<char>,
    pub no: Seq<char>,
}

pub open spec fn node_links(n: WorkflowNode) -> NodeLinks {
    NodeLinks { id: n.id@, kind: n.kind, next: texts(n.next_nodes@), yes: n.branch_yes@, no: n.branch_no@ }
}

pub open spec fn all_node_links(ns: Seq<WorkflowNode>) -> Seq<NodeLinks> {
    ns.map_values(|n: WorkflowNode| node_links(n))
}

/// The first node at or after `i` whose id is `id`.
pub open spec fn links_index_from(ns: Seq<NodeLinks>, id: Seq<char>, i: int) -> Option<int>
    decreases ns.len() - i,
{
    if i < 0 || i >= ns.len() {
        None
    } else if ns[i].id == id {
        Some(i)
    } else {
        links_index_from(ns, id, i + 1)
    }
}

/// A node after a connection leaving it to `to` from `port`: a decision takes it as
/// its `true` branch or else its other branch, a review as its approval branch or
/// else its rejection branch; another node adds it to its next nodes.
pub open spec fn linked(n: NodeLinks, port: Seq<char>, to: Seq<char>) -> NodeLinks {
    match n.kind {
        FlowNodeKind::Decision => if port == "true"@ {
            NodeLinks { yes: to, ..n }
        } else {
            NodeLinks { no: to, ..n }
        },
        FlowNodeKind::HumanReview => if port == "approve"@ {
            NodeLinks { yes: to, ..n }
        } else {
            NodeLinks { no: to, ..n }
        },
        _ => NodeLinks { next: n.next.push(to), ..n },
    }
}

/// The nodes after the connections `links`, in order; a connection from an unknown
/// node changes nothing.
pub open spec fn wired(ns: Seq<NodeLinks>, links: Seq<CanvasLink>) -> Seq<NodeLinks>
    decreases links.len(),
{
    if links.len() == 0 {
        ns
    } else {
        let prev = wired(ns, links.drop_last());
        let l = links.last();
        match links_index_from(prev, l.from_id@, 0) {
            Some(k) => prev.update(k, linked(prev[k], l.from_port@, l.to_id@)),
            None => prev,
        }
    }
}

proof fn lemma_links_index(ns: Seq<WorkflowNode>, id: Seq<char>, i: int)
    ensures
        links_index_from(all_node_links(ns), id, i) == node_index_from(ns, id, i),
    decreases ns.len() - i,
{
    if 0 <= i < ns.len() {
        lemma_links_index(ns, id, i + 1);
    }
}

/// Sets the links of a workflow's nodes from the connections drawn on the canvas.
pub fn wire_links(nodes: &mut Vec<WorkflowNode>, links: &Vec<CanvasLink>)
    ensures
        all_node_links(final(nodes)@) == wired(all_node_links(old(nodes)@), links@),
{
    let ghost start = all_node_links(nodes@);
    let mut i: usize = 0;
    while i < links.len()
        invariant
            i <= links.len(),
            all_node_links(nodes@) == wired(start, links@.take(i as int)),
        decreases links.len() - i,
    {
        assert(links@.take(i + 1).drop_last() =~= links@.take(i as int));
        let l = &links[i];
        proof {
            lemma_links_index(nodes@, l.from_id@, 0);
        }
        if let Some(k) = find_node(nodes, &chars_of(l.from_id.as_str())) {
            let ghost before = nodes@;
            let mut n = nodes.remove(k);
            let port = chars_of(l.from_port.as_str());
            match n.kind {
                FlowNodeKind::Decision => {
                    if chars_eq(&port, &chars_of("true")) {
                        n.branch_yes = l.to_id.clone();
                    } else {
                        n.branch_no = l.to_id.clone();
                    }
                },
                FlowNodeKind::HumanReview => {
                    if chars_eq(&port, &chars_of("approve")) {
                        n.branch_yes = l.to_id.clone();
                    } else {
                        n.branch_no = l.to_id.clone();
                    }
                },
                _ => {
                    let ghost old_next = n.next_nodes@;
                    n.next_nodes.push(l.to_id.clone());
                    assert(texts(n.next_nodes@) =~= texts(old_next).push(l.to_id@));
                },
            }
            nodes.insert(k, n);
            proof {
                assert(nodes@ == before.update(k as int, n));
                assert(all_node_links(nodes@) =~= all_node_links(before).update(
                    k as int,
                    linked(node_links(before[k as int]), l.from_port@, l.to_id@),
                ));
            }
        }
        i = i + 1;
    }
    assert(links@.take(links.len() as int) =~= links@);
}

/// The id of the node a saved workflow starts from: that of the last start node,
/// else `start`.
pub open spec fn start_id_of(nodes: Seq<WorkflowNode>) -> Seq<char>
    decreases nodes.len(),
{
    if nodes.len() == 0 {
        "start"@
    } else if nodes.last().kind == FlowNodeKind::Start {
        nodes.last().id@
    } else {
        start_id_of(nodes.drop_last())
    }
}

/// The id of the node a saved workflow starts from.
pub fn workflow_start_id(nodes: &Vec<WorkflowNode>) -> (r: String)
    ensures
        r@ == start_id_of(nodes@),
{
    let mut r = "start".to_string();
    let mut i: usize = 0;
    while i < nodes.len()
        invariant
            i <= nodes.len(),
            r@ == start_id_of(nodes@.take(i as int)),
        decreases nodes.len() - i,
    {
        assert(nodes@.take(i + 1).drop_last() =~= nodes@.take(i as int));
        if nodes[i].kind == FlowNodeKind::Start {
            r = nodes[i].id.clone();
        }
        i = i + 1;
    }
    assert(nodes@.take(nodes.len() as int) =~= nodes@);
    r
}

// ---------------------------------------------------------------------------
// Execution state of a node
// ---------------------------------------------------------------------------
/// How a node stands in the running workflow.
#[derive(Clone, Copy, PartialEq, Eq, Debug, Structural)]
pub enum NodeRunState {
    Completed,
    Running,
    AwaitingReview,
    Idle,
}

/// How the node `id` stands: completed, else running, else awaiting review, else idle.
pub open spec fn node_run_state_of(
    id: Seq<char>,
    completed: Seq<Seq<char>>,
    current: Seq<Seq<char>>,
    pending_review: Option<Seq<char>>,
) -> NodeRunState {
    if completed.contains(id) {
        NodeRunState::Completed
    } else if current.contains(id) {
        NodeRunState::Running
    } else if pending_review == Some(id) {
        NodeRunState::AwaitingReview
    } else {
        NodeRunState::Idle
    }
}

fn contains_text(v: &Vec<String>, id: &Vec<char>) -> (r: bool)
    ensures
        r == texts(v@).contains(id@),
{
    let mut i: usize = 0;
    while i < v.len()
        invariant
            i <= v.len(),
            forall|k: int| 0 <= k < i ==> texts(v@)[k] != id@,
        decreases v.len() - i,
    {
        if chars_eq(&chars_of(v[i].as_str()), id) {
            assert(texts(v@)[i as int] == id@);
            return true;
        }
        i = i + 1;
    }
    false
}

/// How the node `id` stands in the running workflow.
pub fn node_run_state(
    id: &str,
    completed: &Vec<String>,
    current: &Vec<String>,
    pending_review: Option<&str>,
) -> (r: NodeRunState)
    ensures
        r == node_run_state_of(
            id@,
            texts(completed@),
            texts(current@),
            match pending_review {
                Some(p) => Some(p@),
                None => None,
            },
        ),
{
    let w = chars_of(id);
    if contains_text(completed, &w) {
        NodeRunState::Completed
    } else if contains_text(current, &w) {
        NodeRunState::Running
    } else {
        match pending_review {
            Some(p) => if crate::text::str_eq(p, id) {
                NodeRunState::AwaitingReview
            } else {
                NodeRunState::Idle
            },
            None => NodeRunState::Idle,
        }
    }
}

} // verus!

verus! {

// ---------------------------------------------------------------------------
// The palette
// ---------------------------------------------------------------------------
/// The kind of node that the palette entry `label` adds: the start, a decision and a
/// review are told apart; the other known entries are other nodes; an unknown entry
/// adds a start node.
pub open spec fn palette_kind_of(label: Seq<char>) -> FlowNodeKind {
    if label == "Start"@ {
        FlowNodeKind::Start
    } else if label == "Decision"@ {
        FlowNodeKind::Decision
    } else if label == "Human Review"@ {
        FlowNodeKind::HumanReview
    } else if label == "Cron"@ || label == "End"@ || label == "Agent Task"@ || label
        == "System Command"@ || label == "HTTP Request"@ || label == "Transform"@ || label
        == "Merge"@ || label == "Delay"@ {
        FlowNodeKind::Other
    } else {
        FlowNodeKind::Start
    }
}

/// The kind of node that a palette entry adds.
pub fn palette_kind(label: &str) -> (r: FlowNodeKind)
    ensures
        r == palette_kind_of(label@),
{
    let is = |w: &str| -> (b: bool)
        ensures
            b == (label@ == w@),
        { crate::text::str_eq(label, w) };
    if is("Start") {
        FlowNodeKind::Start
    } else if is("Decision") {
        FlowNodeKind::Decision
    } else if is("Human Review") {
        FlowNodeKind::HumanReview
    } else if is("Cron") || is("End") || is("Agent Task") || is("System Command") || is(
        "HTTP Request",
    ) || is("Transform") || is("Merge") || is("Delay") {
        FlowNodeKind::Other
    } else {
        FlowNodeKind::Start
    }
}

/// The entries of the workflow builder's palette.
pub open spec fn is_palette_entry(label: Seq<char>) -> bool {
    ||| label == "Start"@
    ||| label == "Cron"@
    ||| label == "End"@
    ||| label == "Agent Task"@
    ||| label == "System Command"@
    ||| label == "HTTP Request"@
    ||| label == "Transform"@
    ||| label == "Decision"@
    ||| label == "Human Review"@
    ||| label == "Merge"@
    ||| label == "Delay"@
}

/// Of the palette's entries, only `Start` adds a start node, only `Decision` a
/// decision and only `Human Review` a review; every other entry (Cron, End, Agent
/// Task, System Command, HTTP Request, Transform, Merge, Delay) adds another kind of
/// node, so adding it never puts a second start on the canvas.
pub proof fn law_palette_entries_add_their_own_kind(label: Seq<char>)
    requires
        is_palette_entry(label),
    ensures
        (palette_kind_of(label) == FlowNodeKind::Start) == (label == "Start"@),
        (palette_kind_of(label) == FlowNodeKind::Decision) == (label == "Decision"@),
        (palette_kind_of(label) == FlowNodeKind::HumanReview) == (label == "Human Review"@),
        label != "Start"@ && label != "Decision"@ && label != "Human Review"@ ==> palette_kind_of(label)
            == FlowNodeKind::Other,
{
    reveal_strlit("Start");
    reveal_strlit("Cron");
    reveal_strlit("End");
    reveal_strlit("Agent Task");
    reveal_strlit("System Command");
    reveal_strlit("HTTP Request");
    reveal_strlit("Transform");
    reveal_strlit("Decision");
    reveal_strlit("Human Review");
    reveal_strlit("Merge");
    reveal_strlit("Delay");
    assert("Decision"@.len() != "Start"@.len());
    assert("Human Review"@.len() != "Start"@.len());
    assert("Human Review"@.len() != "Decision"@.len());
}

/// The title of a node added from the palette entry `label`.
pub fn new_node_title(label: &str) -> (r: String)
    ensures
        r@ == "New "@ + label@,
{
    let mut v = chars_of("New ");
    crate::text::append_str(&mut v, label);
    crate::text::string_of(&v)
}

} // verus!
