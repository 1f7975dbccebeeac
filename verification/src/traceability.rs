//! Traceability graph for requirements, behaviors, and tasks.
//!
//! The graph tracks which behaviors implement a requirement (their
//! `implements` list) and which tasks reference it (their `[REQ-*]` list), in
//! both directions.
use vstd::prelude::*;

use crate::ast::{all_contents, contents_of, SectionContent, SourceFile};
use crate::span::Span;
use crate::strmap::{distinct_strings, StrMap, StrSet, string_set};

verus! {

/// A node in the traceability graph.
#[derive(Debug)]
pub struct TraceNode {
    /// The node identifier (REQ-*, TASK-*, or behavior name).
    pub id: String,
    /// The kind of node.
    pub kind: TraceNodeKind,
    /// Source location.
    pub span: Span,
}

/// Kinds of nodes in the traceability graph.
#[derive(Debug, Clone, Copy, PartialEq, Eq, Hash, Structural)]
pub enum TraceNodeKind {
    /// A requirement.
    Requirement,
    /// A behavior.
    Behavior,
    /// A task.
    Task,
}

/// What a node says, its identifier taken by its view.
pub struct TraceNodeView {
    pub id: Seq<char>,
    pub kind: TraceNodeKind,
    pub span: Span,
}

impl View for TraceNode {
    type V = TraceNodeView;

    open spec fn view(&self) -> TraceNodeView {
        TraceNodeView { id: self.id@, kind: self.kind, span: self.span }
    }
}

/// The nodes and the four edge maps of a graph.
pub struct GraphModel {
    pub nodes: Map<Seq<char>, TraceNodeView>,
    pub req_to_behaviors: Map<Seq<char>, Set<Seq<char>>>,
    pub req_to_tasks: Map<Seq<char>, Set<Seq<char>>>,
    pub behavior_to_reqs: Map<Seq<char>, Set<Seq<char>>>,
    pub task_to_reqs: Map<Seq<char>, Set<Seq<char>>>,
}

/// The sets of an edge map, taken by their views.
pub open spec fn edge_views(m: Map<Seq<char>, StrSet>) -> Map<Seq<char>, Set<Seq<char>>> {
    m.map_values(|s: StrSet| s@)
}

/// The targets of `k` in an edge map (empty when `k` has none).
pub open spec fn targets(m: Map<Seq<char>, Set<Seq<char>>>, k: Seq<char>) -> Set<Seq<char>> {
    if m.contains_key(k) {
        m[k]
    } else {
        Set::empty()
    }
}

/// `m` with an edge from `k` to `v` added.
pub open spec fn edge_added(m: Map<Seq<char>, Set<Seq<char>>>, k: Seq<char>, v: Seq<char>) -> Map<
    Seq<char>,
    Set<Seq<char>>,
> {
    m.insert(k, targets(m, k).insert(v))
}

/// The graph with no nodes and no edges.
pub open spec fn empty_graph() -> GraphModel {
    GraphModel {
        nodes: Map::empty(),
        req_to_behaviors: Map::empty(),
        req_to_tasks: Map::empty(),
        behavior_to_reqs: Map::empty(),
        task_to_reqs: Map::empty(),
    }
}

/// `g` with a node stored under `id` (replacing any node held there).
pub open spec fn node_added(g: GraphModel, id: Seq<char>, kind: TraceNodeKind, span: Span) -> GraphModel {
    GraphModel { nodes: g.nodes.insert(id, TraceNodeView { id, kind, span }), ..g }
}

/// `g` with behavior `b` linked to requirement `r`.
pub open spec fn behavior_linked(g: GraphModel, b: Seq<char>, r: Seq<char>) -> GraphModel {
    GraphModel {
        req_to_behaviors: edge_added(g.req_to_behaviors, r, b),
        behavior_to_reqs: edge_added(g.behavior_to_reqs, b, r),
        ..g
    }
}

/// `g` with task `t` linked to requirement `r`.
pub open spec fn task_linked(g: GraphModel, t: Seq<char>, r: Seq<char>) -> GraphModel {
    GraphModel {
        req_to_tasks: edge_added(g.req_to_tasks, r, t),
        task_to_reqs: edge_added(g.task_to_reqs, t, r),
        ..g
    }
}

/// `x` is a requirement node that is not a key of `edges`.
pub open spec fn kept_requirement<V>(nodes: Map<Seq<char>, TraceNodeView>, edges: Map<Seq<char>, V>, x: Seq<char>) -> bool {
    nodes.contains_key(x) && nodes[x].kind == TraceNodeKind::Requirement && !edges.contains_key(x)
}

/// The traceability graph.
pub struct TraceabilityGraph {
    /// All nodes in the graph.
    pub nodes: StrMap<TraceNode>,
    /// Edges from requirements to behaviors that implement them.
    pub req_to_behaviors: StrMap<StrSet>,
    /// Edges from requirements to tasks that reference them.
    pub req_to_tasks: StrMap<StrSet>,
    /// Reverse edges: behavior to requirements it implements.
    pub behavior_to_reqs: StrMap<StrSet>,
    /// Reverse edges: task to requirements it references.
    pub task_to_reqs: StrMap<StrSet>,
}

impl View for TraceabilityGraph {
    type V = GraphModel;

    open spec fn view(&self) -> GraphModel {
        GraphModel {
            nodes: self.nodes@.map_values(|n: TraceNode| n@),
            req_to_behaviors: edge_views(self.req_to_behaviors@),
            req_to_tasks: edge_views(self.req_to_tasks@),
            behavior_to_reqs: edge_views(self.behavior_to_reqs@),
            task_to_reqs: edge_views(self.task_to_reqs@),
        }
    }
}

/// Adding to a set in an edge map adds the edge.
fn add_edge(m: &mut StrMap<StrSet>, k: &str, v: &str)
    ensures
        edge_views(final(m)@) == edge_added(edge_views(old(m)@), k@, v@),
{
    m.add_to_set(k.to_owned(), v.to_owned());
    proof {
        let a = edge_views(m@);
        let b = edge_added(edge_views(old(m)@), k@, v@);
        assert forall|key: Seq<char>| a.contains_key(key) implies a[key] == b[key] by {
            if key != k@ {
            }
        }
        assert(a =~= b);
    }
}

/// The members of the set stored under `k` in `m`, in insertion order.
pub open spec fn set_items(m: StrMap<StrSet>, k: Seq<char>) -> Seq<Seq<char>> {
    if m@.contains_key(k) {
        crate::text::views(m@[k].item_seq())
    } else {
        Seq::empty()
    }
}

/// The members of the set stored under `k`, or none.
fn members(m: &StrMap<StrSet>, k: &str) -> (r: Vec<String>)
    ensures
        string_set(r@) == targets(edge_views(m@), k@),
        crate::text::views(r@) == set_items(*m, k@),
        distinct_strings(r@),
{
    match m.get(k) {
        Some(set) => set.to_vec(),
        None => {
            let r: Vec<String> = Vec::new();
            assert(string_set(r@) =~= Set::<Seq<char>>::empty());
            r
        },
    }
}

impl TraceabilityGraph {
    /// Create a new empty graph.
    pub fn new() -> (g: Self)
        ensures
            g@ == empty_graph(),
            edge_keys_nonempty(g@),
    {
        let g = TraceabilityGraph {
            nodes: StrMap::new(),
            req_to_behaviors: StrMap::new(),
            req_to_tasks: StrMap::new(),
            behavior_to_reqs: StrMap::new(),
            task_to_reqs: StrMap::new(),
        };
        assert(g@.nodes =~= Map::<Seq<char>, TraceNodeView>::empty());
        assert(g@.req_to_behaviors =~= Map::<Seq<char>, Set<Seq<char>>>::empty());
        assert(g@.req_to_tasks =~= Map::<Seq<char>, Set<Seq<char>>>::empty());
        assert(g@.behavior_to_reqs =~= Map::<Seq<char>, Set<Seq<char>>>::empty());
        assert(g@.task_to_reqs =~= Map::<Seq<char>, Set<Seq<char>>>::empty());
        g
    }

    fn add_node(&mut self, id: String, kind: TraceNodeKind, span: Span)
        ensures
            final(self)@ == node_added(old(self)@, id@, kind, span),
    {
        let node = TraceNode { id: id.clone(), kind, span };
        self.nodes.insert(id, node);
        proof {
            assert(self@.nodes =~= old(self)@.nodes.insert(id@, TraceNodeView { id: id@, kind, span }));
        }
    }

    /// Add a requirement node.
    pub fn add_requirement(&mut self, id: String, span: Span)
        ensures
            final(self)@ == node_added(old(self)@, id@, TraceNodeKind::Requirement, span),
            edge_keys_nonempty(old(self)@) ==> edge_keys_nonempty(final(self)@),
    {
        self.add_node(id, TraceNodeKind::Requirement, span);
    }

    /// Add a behavior node.
    pub fn add_behavior(&mut self, name: String, span: Span)
        ensures
            final(self)@ == node_added(old(self)@, name@, TraceNodeKind::Behavior, span),
            edge_keys_nonempty(old(self)@) ==> edge_keys_nonempty(final(self)@),
    {
        self.add_node(name, TraceNodeKind::Behavior, span);
    }

    /// Add a task node.
    pub fn add_task(&mut self, id: String, span: Span)
        ensures
            final(self)@ == node_added(old(self)@, id@, TraceNodeKind::Task, span),
            edge_keys_nonempty(old(self)@) ==> edge_keys_nonempty(final(self)@),
    {
        self.add_node(id, TraceNodeKind::Task, span);
    }

    /// Link a behavior to a requirement it implements.
    pub fn link_behavior_to_req(&mut self, behavior: &str, req_id: &str)
        ensures
            final(self)@ == behavior_linked(old(self)@, behavior@, req_id@),
            edge_keys_nonempty(old(self)@) ==> edge_keys_nonempty(final(self)@),
    {
        proof {
            if edge_keys_nonempty(self@) {
                behavior_linked_keeps_keys_nonempty(self@, behavior@, req_id@);
            }
        }
        add_edge(&mut self.req_to_behaviors, req_id, behavior);
        add_edge(&mut self.behavior_to_reqs, behavior, req_id);
    }

    /// Link a task to a requirement it references.
    pub fn link_task_to_req(&mut self, task_id: &str, req_id: &str)
        ensures
            final(self)@ == task_linked(old(self)@, task_id@, req_id@),
            edge_keys_nonempty(old(self)@) ==> edge_keys_nonempty(final(self)@),
    {
        proof {
            if edge_keys_nonempty(self@) {
                task_linked_keeps_keys_nonempty(self@, task_id@, req_id@);
            }
        }
        add_edge(&mut self.req_to_tasks, req_id, task_id);
        add_edge(&mut self.task_to_reqs, task_id, req_id);
    }

    /// Get all behaviors implementing a requirement.
    pub fn behaviors_for_req(&self, req_id: &str) -> (r: Vec<String>)
        ensures
            string_set(r@) == targets(self@.req_to_behaviors, req_id@),
            crate::text::views(r@) == set_items(self.req_to_behaviors, req_id@),
            distinct_strings(r@),
    {
        members(&self.req_to_behaviors, req_id)
    }

    /// Get all tasks referencing a requirement.
    pub fn tasks_for_req(&self, req_id: &str) -> (r: Vec<String>)
        ensures
            string_set(r@) == targets(self@.req_to_tasks, req_id@),
            crate::text::views(r@) == set_items(self.req_to_tasks, req_id@),
            distinct_strings(r@),
    {
        members(&self.req_to_tasks, req_id)
    }

    /// Get all requirements implemented by a behavior.
    pub fn reqs_for_behavior(&self, behavior: &str) -> (r: Vec<String>)
        ensures
            string_set(r@) == targets(self@.behavior_to_reqs, behavior@),
            crate::text::views(r@) == set_items(self.behavior_to_reqs, behavior@),
            distinct_strings(r@),
    {
        members(&self.behavior_to_reqs, behavior)
    }

    /// Get all requirements referenced by a task.
    pub fn reqs_for_task(&self, task_id: &str) -> (r: Vec<String>)
        ensures
            string_set(r@) == targets(self@.task_to_reqs, task_id@),
            crate::text::views(r@) == set_items(self.task_to_reqs, task_id@),
            distinct_strings(r@),
    {
        members(&self.task_to_reqs, task_id)
    }

    /// The requirement nodes whose ID is not a key of `edges`, in node order.
    fn requirements_without(&self, edges: &StrMap<StrSet>) -> (r: Vec<String>)
        ensures
            distinct_strings(r@),
            forall|x: Seq<char>|
                #![trigger string_set(r@).contains(x)]
                string_set(r@).contains(x) <==> (self@.nodes.contains_key(x) && self@.nodes[x].kind
                    == TraceNodeKind::Requirement && !edges@.contains_key(x)),
    {
        let mut r: Vec<String> = Vec::new();
        let mut i: usize = 0;
        let n = self.nodes.len();
        while i < n
            invariant
                n == self.nodes.entry_seq().len(),
                i <= n,
                forall|j: int|
                    0 <= j < r@.len() ==> kept_requirement(self@.nodes, edges@, #[trigger] r@[j]@),
                distinct_strings(r@),
                forall|j: int|
                    0 <= j < r@.len() ==> exists|k: int|
                        0 <= k < i && #[trigger] r@[j]@ == self.nodes.entry_seq()[k].0@,
                forall|j: int|
                    #![trigger self.nodes.entry_seq()[j]]
                    0 <= j < i && self.nodes@[self.nodes.entry_seq()[j].0@].kind
                        == TraceNodeKind::Requirement && !edges@.contains_key(
                        self.nodes.entry_seq()[j].0@,
                    ) ==> string_set(r@).contains(self.nodes.entry_seq()[j].0@),
            decreases n - i,
        {
            let id = self.nodes.key_at(i);
            let node = self.nodes.value_at(i);
            if node.kind == TraceNodeKind::Requirement && !edges.contains_key(id.as_str()) {
                let ghost r0 = r@;
                r.push(id.clone());
                proof {
                    assert(r@[r@.len() - 1]@ == id@);
                    assert forall|a: int, b: int| 0 <= a < r@.len() && 0 <= b < r@.len() && a != b implies r@[a]@ != r@[b]@ by {
                        if a < r0.len() && b < r0.len() {
                            assert(r@[a] == r0[a] && r@[b] == r0[b]);
                        } else if a < r0.len() {
                            assert(r@[a] == r0[a]);
                            let k = choose|k: int| 0 <= k < i && r0[a]@ == self.nodes.entry_seq()[k].0@;
                            assert(crate::strmap::distinct_keys(self.nodes.entry_seq()));
                        } else {
                            assert(r@[b] == r0[b]);
                            let k = choose|k: int| 0 <= k < i && r0[b]@ == self.nodes.entry_seq()[k].0@;
                            assert(crate::strmap::distinct_keys(self.nodes.entry_seq()));
                        }
                    }
                    assert forall|j: int| 0 <= j < r@.len() implies exists|k: int|
                        0 <= k < i + 1 && #[trigger] r@[j]@ == self.nodes.entry_seq()[k].0@ by {
                        if j < r0.len() {
                            assert(r@[j] == r0[j]);
                            let k = choose|k: int| 0 <= k < i && r0[j]@ == self.nodes.entry_seq()[k].0@;
                            assert(r@[j]@ == self.nodes.entry_seq()[k].0@);
                        } else {
                            assert(r@[j]@ == self.nodes.entry_seq()[i as int].0@);
                        }
                    }
                    assert(self.nodes@.contains_key(id@));
                    assert(self.nodes@[id@] == *node);
                    assert(kept_requirement(self@.nodes, edges@, id@));
                    assert(self.nodes@[id@].kind == TraceNodeKind::Requirement);
                    assert(!edges@.contains_key(id@));
                    assert forall|j: int| 0 <= j < r@.len() implies kept_requirement(self@.nodes, edges@, #[trigger] r@[j]@) by {
                        if j < r0.len() {
                            assert(r@[j] == r0[j]);
                            assert(kept_requirement(self@.nodes, edges@, r0[j]@));
                        } else {
                            assert(r@[j]@ == id@);
                        }
                    }
                    assert forall|j: int|
                        #![trigger self.nodes.entry_seq()[j]]
                        0 <= j < i + 1 && self.nodes@[self.nodes.entry_seq()[j].0@].kind
                            == TraceNodeKind::Requirement && !edges@.contains_key(
                            self.nodes.entry_seq()[j].0@,
                        ) implies string_set(r@).contains(self.nodes.entry_seq()[j].0@) by {
                        if j < i {
                            assert(string_set(r0).contains(self.nodes.entry_seq()[j].0@));
                            let k = choose|k: int|
                                0 <= k < r0.len() && r0[k]@ == self.nodes.entry_seq()[j].0@;
                            assert(r@[k] == r0[k]);
                        } else {
                            assert(r@[r@.len() - 1]@ == self.nodes.entry_seq()[j].0@);
                        }
                    }
                }
            }
            i += 1;
        }
        proof {
            assert forall|x: Seq<char>|
                #![trigger string_set(r@).contains(x)]
                string_set(r@).contains(x) <== (self@.nodes.contains_key(x) && self@.nodes[x].kind
                    == TraceNodeKind::Requirement && !edges@.contains_key(x)) by {
                if self@.nodes.contains_key(x) && self@.nodes[x].kind == TraceNodeKind::Requirement
                    && !edges@.contains_key(x) {
                    let j = crate::strmap::key_index(self.nodes.entry_seq(), x);
                    assert(self.nodes@.contains_key(x));
                    assert(0 <= j < n && self.nodes.entry_seq()[j].0@ == x);
                }
            }
        }
        r
    }

    /// Get requirements with no behaviors implementing them.
    pub fn uncovered_requirements(&self) -> (r: Vec<String>)
        ensures
            distinct_strings(r@),
            forall|x: Seq<char>|
                #![trigger string_set(r@).contains(x)]
                string_set(r@).contains(x) <==> (self@.nodes.contains_key(x) && self@.nodes[x].kind
                    == TraceNodeKind::Requirement && !self@.req_to_behaviors.contains_key(x)),
    {
        self.requirements_without(&self.req_to_behaviors)
    }

    /// Get requirements with no tasks referencing them.
    pub fn untasked_requirements(&self) -> (r: Vec<String>)
        ensures
            distinct_strings(r@),
            forall|x: Seq<char>|
                #![trigger string_set(r@).contains(x)]
                string_set(r@).contains(x) <==> (self@.nodes.contains_key(x) && self@.nodes[x].kind
                    == TraceNodeKind::Requirement && !self@.req_to_tasks.contains_key(x)),
    {
        self.requirements_without(&self.req_to_tasks)
    }
}

// ============================================================================
// Building the graph from a file
// ============================================================================

/// `g` with the node that one section content defines added.
pub open spec fn content_node_added(g: GraphModel, c: SectionContent) -> GraphModel {
    match c {
        SectionContent::Requirement(r) => node_added(g, r.id.value@, TraceNodeKind::Requirement, r.span),
        SectionContent::Behavior(b) => node_added(g, b.name.value@, TraceNodeKind::Behavior, b.span),
        SectionContent::Task(t) => node_added(g, t.id.value@, TraceNodeKind::Task, t.span),
        _ => g,
    }
}

/// `g` with the nodes of `cs` added in order.
pub open spec fn nodes_added(g: GraphModel, cs: Seq<SectionContent>) -> GraphModel
    decreases cs.len(),
{
    if cs.len() == 0 {
        g
    } else {
        content_node_added(nodes_added(g, cs.drop_last()), cs.last())
    }
}

/// `g` with behavior `b` linked to each requirement of `reqs`, in order.
pub open spec fn behavior_links_added(g: GraphModel, b: Seq<char>, reqs: Seq<Seq<char>>) -> GraphModel
    decreases reqs.len(),
{
    if reqs.len() == 0 {
        g
    } else {
        behavior_linked(behavior_links_added(g, b, reqs.drop_last()), b, reqs.last())
    }
}

/// `g` with task `t` linked to each requirement of `reqs`, in order.
pub open spec fn task_links_added(g: GraphModel, t: Seq<char>, reqs: Seq<Seq<char>>) -> GraphModel
    decreases reqs.len(),
{
    if reqs.len() == 0 {
        g
    } else {
        task_linked(task_links_added(g, t, reqs.drop_last()), t, reqs.last())
    }
}

/// The IDs of a list of requirement IDs.
pub open spec fn req_id_views(ids: Seq<crate::ast::ReqId>) -> Seq<Seq<char>> {
    ids.map_values(|r: crate::ast::ReqId| r.value@)
}

/// `g` with the edges that one section content defines added.
pub open spec fn content_edges_added(g: GraphModel, c: SectionContent) -> GraphModel {
    match c {
        SectionContent::Behavior(b) => behavior_links_added(g, b.name.value@, req_id_views(b.implements@)),
        SectionContent::Task(t) => task_links_added(g, t.id.value@, req_id_views(t.req_refs@)),
        _ => g,
    }
}

/// `g` with the edges of `cs` added in order.
pub open spec fn edges_added(g: GraphModel, cs: Seq<SectionContent>) -> GraphModel
    decreases cs.len(),
{
    if cs.len() == 0 {
        g
    } else {
        content_edges_added(edges_added(g, cs.drop_last()), cs.last())
    }
}

/// The traceability graph of a file: first every node, then every edge.
pub open spec fn graph_of(f: SourceFile) -> GraphModel {
    edges_added(nodes_added(empty_graph(), all_contents(f)), all_contents(f))
}

/// Build the traceability graph for a file.
pub fn traceability(ast: &SourceFile) -> (g: TraceabilityGraph)
    ensures
        g@ == graph_of(*ast),
{
    let mut graph = TraceabilityGraph::new();
    let contents = contents_of(ast);
    let ghost cs = contents@.map_values(|c: &SectionContent| *c);
    let mut i: usize = 0;
    while i < contents.len()
        invariant
            i <= contents@.len(),
            cs == contents@.map_values(|c: &SectionContent| *c),
            graph@ == nodes_added(empty_graph(), cs.take(i as int)),
        decreases contents.len() - i,
    {
        assert(cs.take(i + 1).drop_last() =~= cs.take(i as int));
        assert(cs.take(i + 1).last() == *contents@[i as int]);
        match contents[i] {
            SectionContent::Requirement(req) => graph.add_requirement(req.id.value.clone(), req.span),
            SectionContent::Behavior(b) => graph.add_behavior(b.name.value.clone(), b.span),
            SectionContent::Task(t) => graph.add_task(t.id.value.clone(), t.span),
            _ => {},
        }
        i += 1;
    }
    assert(cs.take(i as int) =~= cs);
    let ghost with_nodes = graph@;
    let mut i: usize = 0;
    while i < contents.len()
        invariant
            i <= contents@.len(),
            cs == contents@.map_values(|c: &SectionContent| *c),
            graph@ == edges_added(with_nodes, cs.take(i as int)),
        decreases contents.len() - i,
    {
        assert(cs.take(i + 1).drop_last() =~= cs.take(i as int));
        assert(cs.take(i + 1).last() == *contents@[i as int]);
        match contents[i] {
            SectionContent::Behavior(b) => {
                let ghost start = graph@;
                let mut j: usize = 0;
                while j < b.implements.len()
                    invariant
                        j <= b.implements@.len(),
                        graph@ == behavior_links_added(start, b.name.value@, req_id_views(b.implements@.take(j as int))),
                    decreases b.implements.len() - j,
                {
                    graph.link_behavior_to_req(b.name.value.as_str(), b.implements[j].value.as_str());
                    assert(req_id_views(b.implements@.take(j + 1)).drop_last() =~= req_id_views(b.implements@.take(j as int)));
                    j += 1;
                }
                assert(b.implements@.take(j as int) =~= b.implements@);
            },
            SectionContent::Task(t) => {
                let ghost start = graph@;
                let mut j: usize = 0;
                while j < t.req_refs.len()
                    invariant
                        j <= t.req_refs@.len(),
                        graph@ == task_links_added(start, t.id.value@, req_id_views(t.req_refs@.take(j as int))),
                    decreases t.req_refs.len() - j,
                {
                    graph.link_task_to_req(t.id.value.as_str(), t.req_refs[j].value.as_str());
                    assert(req_id_views(t.req_refs@.take(j + 1)).drop_last() =~= req_id_views(t.req_refs@.take(j as int)));
                    j += 1;
                }
                assert(t.req_refs@.take(j as int) =~= t.req_refs@);
            },
            _ => {},
        }
        i += 1;
    }
    assert(cs.take(i as int) =~= cs);
    graph
}

// ============================================================================
// Laws
// ============================================================================

/// Each edge map is the mirror of its reverse: `b` is among the behaviors of
/// `r` exactly when `r` is among the requirements of `b`, and likewise for tasks.
pub open spec fn edges_mirrored(g: GraphModel) -> bool {
    &&& forall|r: Seq<char>, b: Seq<char>|
        #![trigger targets(g.req_to_behaviors, r).contains(b)]
        #![trigger targets(g.behavior_to_reqs, b).contains(r)]
        targets(g.req_to_behaviors, r).contains(b) <==> targets(g.behavior_to_reqs, b).contains(r)
    &&& forall|r: Seq<char>, t: Seq<char>|
        #![trigger targets(g.req_to_tasks, r).contains(t)]
        #![trigger targets(g.task_to_reqs, t).contains(r)]
        targets(g.req_to_tasks, r).contains(t) <==> targets(g.task_to_reqs, t).contains(r)
}

/// The empty graph is mirrored.
pub proof fn empty_graph_mirrored()
    ensures
        edges_mirrored(empty_graph()),
{
}

/// Adding a node keeps the edges mirrored.
pub proof fn node_added_keeps_mirror(g: GraphModel, id: Seq<char>, kind: TraceNodeKind, span: Span)
    requires
        edges_mirrored(g),
    ensures
        edges_mirrored(node_added(g, id, kind, span)),
{
}

/// Linking a behavior keeps the edges mirrored.
pub proof fn behavior_linked_keeps_mirror(g: GraphModel, b: Seq<char>, r: Seq<char>)
    requires
        edges_mirrored(g),
    ensures
        edges_mirrored(behavior_linked(g, b, r)),
{
    let h = behavior_linked(g, b, r);
    assert forall|r2: Seq<char>, b2: Seq<char>|
        targets(h.req_to_behaviors, r2).contains(b2) <==> targets(h.behavior_to_reqs, b2).contains(r2) by {
        assert(targets(g.req_to_behaviors, r2).contains(b2) <==> targets(g.behavior_to_reqs, b2).contains(r2));
    }
    assert forall|r2: Seq<char>, t2: Seq<char>|
        targets(h.req_to_tasks, r2).contains(t2) <==> targets(h.task_to_reqs, t2).contains(r2) by {
        assert(targets(g.req_to_tasks, r2).contains(t2) <==> targets(g.task_to_reqs, t2).contains(r2));
    }
}

/// Linking a task keeps the edges mirrored.
pub proof fn task_linked_keeps_mirror(g: GraphModel, t: Seq<char>, r: Seq<char>)
    requires
        edges_mirrored(g),
    ensures
        edges_mirrored(task_linked(g, t, r)),
{
    let h = task_linked(g, t, r);
    assert forall|r2: Seq<char>, b2: Seq<char>|
        targets(h.req_to_behaviors, r2).contains(b2) <==> targets(h.behavior_to_reqs, b2).contains(r2) by {
        assert(targets(g.req_to_behaviors, r2).contains(b2) <==> targets(g.behavior_to_reqs, b2).contains(r2));
    }
    assert forall|r2: Seq<char>, t2: Seq<char>|
        targets(h.req_to_tasks, r2).contains(t2) <==> targets(h.task_to_reqs, t2).contains(r2) by {
        assert(targets(g.req_to_tasks, r2).contains(t2) <==> targets(g.task_to_reqs, t2).contains(r2));
    }
}

proof fn lemma_nodes_added_mirror(g: GraphModel, cs: Seq<SectionContent>)
    requires
        edges_mirrored(g),
    ensures
        edges_mirrored(nodes_added(g, cs)),
    decreases cs.len(),
{
    if cs.len() > 0 {
        lemma_nodes_added_mirror(g, cs.drop_last());
        let h = nodes_added(g, cs.drop_last());
        match cs.last() {
            SectionContent::Requirement(r) => node_added_keeps_mirror(h, r.id.value@, TraceNodeKind::Requirement, r.span),
            SectionContent::Behavior(b) => node_added_keeps_mirror(h, b.name.value@, TraceNodeKind::Behavior, b.span),
            SectionContent::Task(t) => node_added_keeps_mirror(h, t.id.value@, TraceNodeKind::Task, t.span),
            _ => {},
        }
    }
}

proof fn lemma_behavior_links_mirror(g: GraphModel, b: Seq<char>, reqs: Seq<Seq<char>>)
    requires
        edges_mirrored(g),
    ensures
        edges_mirrored(behavior_links_added(g, b, reqs)),
    decreases reqs.len(),
{
    if reqs.len() > 0 {
        lemma_behavior_links_mirror(g, b, reqs.drop_last());
        behavior_linked_keeps_mirror(behavior_links_added(g, b, reqs.drop_last()), b, reqs.last());
    }
}

proof fn lemma_task_links_mirror(g: GraphModel, t: Seq<char>, reqs: Seq<Seq<char>>)
    requires
        edges_mirrored(g),
    ensures
        edges_mirrored(task_links_added(g, t, reqs)),
    decreases reqs.len(),
{
    if reqs.len() > 0 {
        lemma_task_links_mirror(g, t, reqs.drop_last());
        task_linked_keeps_mirror(task_links_added(g, t, reqs.drop_last()), t, reqs.last());
    }
}

proof fn lemma_edges_added_mirror(g: GraphModel, cs: Seq<SectionContent>)
    requires
        edges_mirrored(g),
    ensures
        edges_mirrored(edges_added(g, cs)),
    decreases cs.len(),
{
    if cs.len() > 0 {
        lemma_edges_added_mirror(g, cs.drop_last());
        let h = edges_added(g, cs.drop_last());
        match cs.last() {
            SectionContent::Behavior(b) => lemma_behavior_links_mirror(h, b.name.value@, req_id_views(b.implements@)),
            SectionContent::Task(t) => lemma_task_links_mirror(h, t.id.value@, req_id_views(t.req_refs@)),
            _ => {},
        }
    }
}

/// In the graph of any file, a task references a requirement exactly when the
/// requirement lists that task, and likewise for behaviors.
pub proof fn graph_edges_mirrored(f: SourceFile)
    ensures
        edges_mirrored(graph_of(f)),
{
    empty_graph_mirrored();
    lemma_nodes_added_mirror(empty_graph(), all_contents(f));
    lemma_edges_added_mirror(nodes_added(empty_graph(), all_contents(f)), all_contents(f));
}

/// A requirement reported as untasked has no task referencing it.
pub proof fn untasked_requirement_has_no_tasks(g: GraphModel, r: Seq<char>)
    requires
        g.nodes.contains_key(r),
        g.nodes[r].kind == TraceNodeKind::Requirement,
        !g.req_to_tasks.contains_key(r),
    ensures
        targets(g.req_to_tasks, r) == Set::<Seq<char>>::empty(),
{
}

/// Every key of each edge map has at least one target: a key is only stored
/// when an edge from it is added.
pub open spec fn edge_keys_nonempty(g: GraphModel) -> bool {
    &&& forall|k: Seq<char>|
        #[trigger] g.req_to_behaviors.contains_key(k) ==> g.req_to_behaviors[k] != Set::<Seq<char>>::empty()
    &&& forall|k: Seq<char>|
        #[trigger] g.req_to_tasks.contains_key(k) ==> g.req_to_tasks[k] != Set::<Seq<char>>::empty()
    &&& forall|k: Seq<char>|
        #[trigger] g.behavior_to_reqs.contains_key(k) ==> g.behavior_to_reqs[k] != Set::<Seq<char>>::empty()
    &&& forall|k: Seq<char>|
        #[trigger] g.task_to_reqs.contains_key(k) ==> g.task_to_reqs[k] != Set::<Seq<char>>::empty()
}

/// Adding an edge to a map whose keys all have targets keeps that so.
proof fn lemma_edge_added_nonempty(m: Map<Seq<char>, Set<Seq<char>>>, k: Seq<char>, v: Seq<char>)
    requires
        forall|x: Seq<char>| #[trigger] m.contains_key(x) ==> m[x] != Set::<Seq<char>>::empty(),
    ensures
        forall|x: Seq<char>|
            #[trigger] edge_added(m, k, v).contains_key(x) ==> edge_added(m, k, v)[x] != Set::<Seq<char>>::empty(),
{
    let h = edge_added(m, k, v);
    assert forall|x: Seq<char>| #[trigger] h.contains_key(x) implies h[x] != Set::<Seq<char>>::empty() by {
        if x == k {
            assert(h[x].contains(v));
            assert(!Set::<Seq<char>>::empty().contains(v));
        } else {
            assert(m.contains_key(x));
        }
    }
}

/// The empty graph has no keys.
pub proof fn empty_graph_keys_nonempty()
    ensures
        edge_keys_nonempty(empty_graph()),
{
}

/// Adding a node leaves the edge maps unchanged.
pub proof fn node_added_keeps_keys_nonempty(g: GraphModel, id: Seq<char>, kind: TraceNodeKind, span: Span)
    requires
        edge_keys_nonempty(g),
    ensures
        edge_keys_nonempty(node_added(g, id, kind, span)),
{
}

/// Linking a behavior keeps every key with a target.
pub proof fn behavior_linked_keeps_keys_nonempty(g: GraphModel, b: Seq<char>, r: Seq<char>)
    requires
        edge_keys_nonempty(g),
    ensures
        edge_keys_nonempty(behavior_linked(g, b, r)),
{
    lemma_edge_added_nonempty(g.req_to_behaviors, r, b);
    lemma_edge_added_nonempty(g.behavior_to_reqs, b, r);
}

/// Linking a task keeps every key with a target.
pub proof fn task_linked_keeps_keys_nonempty(g: GraphModel, t: Seq<char>, r: Seq<char>)
    requires
        edge_keys_nonempty(g),
    ensures
        edge_keys_nonempty(task_linked(g, t, r)),
{
    lemma_edge_added_nonempty(g.req_to_tasks, r, t);
    lemma_edge_added_nonempty(g.task_to_reqs, t, r);
}

proof fn lemma_nodes_added_nonempty(g: GraphModel, cs: Seq<SectionContent>)
    requires
        edge_keys_nonempty(g),
    ensures
        edge_keys_nonempty(nodes_added(g, cs)),
    decreases cs.len(),
{
    if cs.len() > 0 {
        lemma_nodes_added_nonempty(g, cs.drop_last());
    }
}

proof fn lemma_behavior_links_nonempty(g: GraphModel, b: Seq<char>, reqs: Seq<Seq<char>>)
    requires
        edge_keys_nonempty(g),
    ensures
        edge_keys_nonempty(behavior_links_added(g, b, reqs)),
    decreases reqs.len(),
{
    if reqs.len() > 0 {
        lemma_behavior_links_nonempty(g, b, reqs.drop_last());
        behavior_linked_keeps_keys_nonempty(behavior_links_added(g, b, reqs.drop_last()), b, reqs.last());
    }
}

proof fn lemma_task_links_nonempty(g: GraphModel, t: Seq<char>, reqs: Seq<Seq<char>>)
    requires
        edge_keys_nonempty(g),
    ensures
        edge_keys_nonempty(task_links_added(g, t, reqs)),
    decreases reqs.len(),
{
    if reqs.len() > 0 {
        lemma_task_links_nonempty(g, t, reqs.drop_last());
        task_linked_keeps_keys_nonempty(task_links_added(g, t, reqs.drop_last()), t, reqs.last());
    }
}

proof fn lemma_edges_added_nonempty(g: GraphModel, cs: Seq<SectionContent>)
    requires
        edge_keys_nonempty(g),
    ensures
        edge_keys_nonempty(edges_added(g, cs)),
    decreases cs.len(),
{
    if cs.len() > 0 {
        lemma_edges_added_nonempty(g, cs.drop_last());
        let h = edges_added(g, cs.drop_last());
        match cs.last() {
            SectionContent::Behavior(b) => lemma_behavior_links_nonempty(h, b.name.value@, req_id_views(b.implements@)),
            SectionContent::Task(t) => lemma_task_links_nonempty(h, t.id.value@, req_id_views(t.req_refs@)),
            _ => {},
        }
    }
}

/// In the graph of any file, every key of an edge map has a target.
pub proof fn graph_keys_nonempty(f: SourceFile)
    ensures
        edge_keys_nonempty(graph_of(f)),
{
    lemma_nodes_added_nonempty(empty_graph(), all_contents(f));
    lemma_edges_added_nonempty(nodes_added(empty_graph(), all_contents(f)), all_contents(f));
}

/// In a graph whose keys all have targets (every graph that `new`, the `add_*`
/// and `link_*` operations or `traceability` build), a requirement is reported
/// as untasked exactly when no task references it, and as uncovered exactly
/// when no behavior implements it.
pub proof fn untasked_exactly_when_no_tasks(g: GraphModel, r: Seq<char>)
    requires
        edge_keys_nonempty(g),
        g.nodes.contains_key(r),
        g.nodes[r].kind == TraceNodeKind::Requirement,
    ensures
        !g.req_to_tasks.contains_key(r) <==> targets(g.req_to_tasks, r) == Set::<Seq<char>>::empty(),
        !g.req_to_behaviors.contains_key(r) <==> targets(g.req_to_behaviors, r) == Set::<Seq<char>>::empty(),
{
}

/// Linking a task to a requirement twice is the same as linking it once, and
/// the link is recorded on both sides.
pub proof fn task_link_is_idempotent_and_mirrored(g: GraphModel, t: Seq<char>, r: Seq<char>)
    ensures
        task_linked(task_linked(g, t, r), t, r) == task_linked(g, t, r),
        targets(task_linked(g, t, r).req_to_tasks, r).contains(t),
        targets(task_linked(g, t, r).task_to_reqs, t).contains(r),
{
    let h = task_linked(g, t, r);
    assert(targets(h.req_to_tasks, r).insert(t) =~= targets(h.req_to_tasks, r));
    assert(targets(h.task_to_reqs, t).insert(r) =~= targets(h.task_to_reqs, t));
    assert(edge_added(h.req_to_tasks, r, t) =~= h.req_to_tasks);
    assert(edge_added(h.task_to_reqs, t, r) =~= h.task_to_reqs);
}

/// Linking a behavior to a requirement twice is the same as linking it once,
/// and the link is recorded on both sides.
pub proof fn behavior_link_is_idempotent_and_mirrored(g: GraphModel, b: Seq<char>, r: Seq<char>)
    ensures
        behavior_linked(behavior_linked(g, b, r), b, r) == behavior_linked(g, b, r),
        targets(behavior_linked(g, b, r).req_to_behaviors, r).contains(b),
        targets(behavior_linked(g, b, r).behavior_to_reqs, b).contains(r),
{
    let h = behavior_linked(g, b, r);
    assert(targets(h.req_to_behaviors, r).insert(b) =~= targets(h.req_to_behaviors, r));
    assert(targets(h.behavior_to_reqs, b).insert(r) =~= targets(h.behavior_to_reqs, b));
    assert(edge_added(h.req_to_behaviors, r, b) =~= h.req_to_behaviors);
    assert(edge_added(h.behavior_to_reqs, b, r) =~= h.behavior_to_reqs);
}

/// Every edge of `g` is an edge of `h`, in all four maps.
pub open spec fn edges_kept(g: GraphModel, h: GraphModel) -> bool {
    &&& forall|x: Seq<char>, y: Seq<char>|
        #[trigger] targets(g.req_to_behaviors, x).contains(y) ==> targets(h.req_to_behaviors, x).contains(y)
    &&& forall|x: Seq<char>, y: Seq<char>|
        #[trigger] targets(g.behavior_to_reqs, x).contains(y) ==> targets(h.behavior_to_reqs, x).contains(y)
    &&& forall|x: Seq<char>, y: Seq<char>|
        #[trigger] targets(g.req_to_tasks, x).contains(y) ==> targets(h.req_to_tasks, x).contains(y)
    &&& forall|x: Seq<char>, y: Seq<char>|
        #[trigger] targets(g.task_to_reqs, x).contains(y) ==> targets(h.task_to_reqs, x).contains(y)
}

proof fn lemma_edge_added_keeps(m: Map<Seq<char>, Set<Seq<char>>>, k: Seq<char>, v: Seq<char>)
    ensures
        forall|x: Seq<char>, y: Seq<char>|
            #[trigger] targets(m, x).contains(y) ==> targets(edge_added(m, k, v), x).contains(y),
        targets(edge_added(m, k, v), k).contains(v),
{
}

proof fn lemma_behavior_links_keep(g: GraphModel, b: Seq<char>, reqs: Seq<Seq<char>>)
    ensures
        edges_kept(g, behavior_links_added(g, b, reqs)),
        forall|j: int|
            0 <= j < reqs.len() ==> targets(behavior_links_added(g, b, reqs).req_to_behaviors, #[trigger] reqs[j]).contains(b)
                && targets(behavior_links_added(g, b, reqs).behavior_to_reqs, b).contains(reqs[j]),
    decreases reqs.len(),
{
    if reqs.len() > 0 {
        let rest = reqs.drop_last();
        lemma_behavior_links_keep(g, b, rest);
        let h = behavior_links_added(g, b, rest);
        lemma_edge_added_keeps(h.req_to_behaviors, reqs.last(), b);
        lemma_edge_added_keeps(h.behavior_to_reqs, b, reqs.last());
        let h2 = behavior_links_added(g, b, reqs);
        assert forall|j: int| 0 <= j < reqs.len() implies targets(h2.req_to_behaviors, #[trigger] reqs[j]).contains(b)
            && targets(h2.behavior_to_reqs, b).contains(reqs[j]) by {
            if j < rest.len() {
                assert(rest[j] == reqs[j]);
            }
        }
    }
}

proof fn lemma_task_links_keep(g: GraphModel, t: Seq<char>, reqs: Seq<Seq<char>>)
    ensures
        edges_kept(g, task_links_added(g, t, reqs)),
        forall|j: int|
            0 <= j < reqs.len() ==> targets(task_links_added(g, t, reqs).req_to_tasks, #[trigger] reqs[j]).contains(t)
                && targets(task_links_added(g, t, reqs).task_to_reqs, t).contains(reqs[j]),
    decreases reqs.len(),
{
    if reqs.len() > 0 {
        let rest = reqs.drop_last();
        lemma_task_links_keep(g, t, rest);
        let h = task_links_added(g, t, rest);
        lemma_edge_added_keeps(h.req_to_tasks, reqs.last(), t);
        lemma_edge_added_keeps(h.task_to_reqs, t, reqs.last());
        let h2 = task_links_added(g, t, reqs);
        assert forall|j: int| 0 <= j < reqs.len() implies targets(h2.req_to_tasks, #[trigger] reqs[j]).contains(t)
            && targets(h2.task_to_reqs, t).contains(reqs[j]) by {
            if j < rest.len() {
                assert(rest[j] == reqs[j]);
            }
        }
    }
}

proof fn lemma_content_edges_keep(g: GraphModel, c: SectionContent)
    ensures
        edges_kept(g, content_edges_added(g, c)),
{
    match c {
        SectionContent::Behavior(b) => lemma_behavior_links_keep(g, b.name.value@, req_id_views(b.implements@)),
        SectionContent::Task(t) => lemma_task_links_keep(g, t.id.value@, req_id_views(t.req_refs@)),
        _ => {},
    }
}

/// The links that `cs[i]` declares are in the graph once all of `cs` is added.
proof fn lemma_edges_added_links(g: GraphModel, cs: Seq<SectionContent>, i: int)
    requires
        0 <= i < cs.len(),
    ensures
        cs[i] matches SectionContent::Behavior(b) ==> forall|j: int|
            0 <= j < b.implements@.len() ==> targets(edges_added(g, cs).req_to_behaviors, #[trigger] b.implements@[j].value@)
                .contains(b.name.value@) && targets(edges_added(g, cs).behavior_to_reqs, b.name.value@).contains(
                b.implements@[j].value@,
            ),
        cs[i] matches SectionContent::Task(t) ==> forall|j: int|
            0 <= j < t.req_refs@.len() ==> targets(edges_added(g, cs).req_to_tasks, #[trigger] t.req_refs@[j].value@)
                .contains(t.id.value@) && targets(edges_added(g, cs).task_to_reqs, t.id.value@).contains(
                t.req_refs@[j].value@,
            ),
    decreases cs.len(),
{
    let rest = cs.drop_last();
    let h = edges_added(g, rest);
    lemma_content_edges_keep(h, cs.last());
    if i < rest.len() {
        lemma_edges_added_links(g, rest, i);
        assert(rest[i] == cs[i]);
    } else {
        match cs.last() {
            SectionContent::Behavior(b) => {
                let ids = req_id_views(b.implements@);
                lemma_behavior_links_keep(h, b.name.value@, ids);
                assert forall|j: int| 0 <= j < b.implements@.len() implies targets(
                    edges_added(g, cs).req_to_behaviors,
                    #[trigger] b.implements@[j].value@,
                ).contains(b.name.value@) && targets(edges_added(g, cs).behavior_to_reqs, b.name.value@).contains(
                    b.implements@[j].value@,
                ) by {
                    assert(ids[j] == b.implements@[j].value@);
                }
            },
            SectionContent::Task(t) => {
                let ids = req_id_views(t.req_refs@);
                lemma_task_links_keep(h, t.id.value@, ids);
                assert forall|j: int| 0 <= j < t.req_refs@.len() implies targets(
                    edges_added(g, cs).req_to_tasks,
                    #[trigger] t.req_refs@[j].value@,
                ).contains(t.id.value@) && targets(edges_added(g, cs).task_to_reqs, t.id.value@).contains(
                    t.req_refs@[j].value@,
                ) by {
                    assert(ids[j] == t.req_refs@[j].value@);
                }
            },
            _ => {},
        }
    }
}

/// In the graph of a file, each behavior is linked both ways to every
/// requirement it implements, and each task to every requirement it
/// references. So a requirement that some behavior implements is never
/// reported as uncovered, and one that some task references never as untasked.
pub proof fn declared_links_are_in_the_graph(f: SourceFile, i: int)
    requires
        0 <= i < all_contents(f).len(),
    ensures
        all_contents(f)[i] matches SectionContent::Behavior(b) ==> forall|j: int|
            0 <= j < b.implements@.len() ==> {
                &&& targets(graph_of(f).req_to_behaviors, #[trigger] b.implements@[j].value@).contains(b.name.value@)
                &&& targets(graph_of(f).behavior_to_reqs, b.name.value@).contains(b.implements@[j].value@)
                &&& graph_of(f).req_to_behaviors.contains_key(b.implements@[j].value@)
            },
        all_contents(f)[i] matches SectionContent::Task(t) ==> forall|j: int|
            0 <= j < t.req_refs@.len() ==> {
                &&& targets(graph_of(f).req_to_tasks, #[trigger] t.req_refs@[j].value@).contains(t.id.value@)
                &&& targets(graph_of(f).task_to_reqs, t.id.value@).contains(t.req_refs@[j].value@)
                &&& graph_of(f).req_to_tasks.contains_key(t.req_refs@[j].value@)
            },
{
    lemma_edges_added_links(nodes_added(empty_graph(), all_contents(f)), all_contents(f), i);
}

/// The link that requirement `j` of content `c` declares: the behavior's (or
/// task's) name and the requirement ID.
pub open spec fn behavior_link_of(c: SectionContent, j: int) -> Option<(Seq<char>, Seq<char>)> {
    match c {
        SectionContent::Behavior(b) => if 0 <= j < b.implements@.len() {
            Some((b.name.value@, b.implements@[j].value@))
        } else {
            None
        },
        _ => None,
    }
}

/// The link that requirement reference `j` of content `c` declares, for a task.
pub open spec fn task_link_of(c: SectionContent, j: int) -> Option<(Seq<char>, Seq<char>)> {
    match c {
        SectionContent::Task(t) => if 0 <= j < t.req_refs@.len() {
            Some((t.id.value@, t.req_refs@[j].value@))
        } else {
            None
        },
        _ => None,
    }
}

/// Some behavior of `cs` named `b` implements requirement `r`.
pub open spec fn behavior_declares(cs: Seq<SectionContent>, b: Seq<char>, r: Seq<char>) -> bool {
    exists|i: int, j: int| 0 <= i < cs.len() && #[trigger] behavior_link_of(cs[i], j) == Some((b, r))
}

/// Some task of `cs` named `t` references requirement `r`.
pub open spec fn task_declares(cs: Seq<SectionContent>, t: Seq<char>, r: Seq<char>) -> bool {
    exists|i: int, j: int| 0 <= i < cs.len() && #[trigger] task_link_of(cs[i], j) == Some((t, r))
}

/// Every edge of `g` is one that `cs` declares.
pub open spec fn edges_declared(g: GraphModel, cs: Seq<SectionContent>) -> bool {
    &&& forall|r: Seq<char>, b: Seq<char>|
        #[trigger] targets(g.req_to_behaviors, r).contains(b) ==> behavior_declares(cs, b, r)
    &&& forall|b: Seq<char>, r: Seq<char>|
        #[trigger] targets(g.behavior_to_reqs, b).contains(r) ==> behavior_declares(cs, b, r)
    &&& forall|r: Seq<char>, t: Seq<char>|
        #[trigger] targets(g.req_to_tasks, r).contains(t) ==> task_declares(cs, t, r)
    &&& forall|t: Seq<char>, r: Seq<char>|
        #[trigger] targets(g.task_to_reqs, t).contains(r) ==> task_declares(cs, t, r)
}

proof fn lemma_edge_added_targets(m: Map<Seq<char>, Set<Seq<char>>>, k: Seq<char>, v: Seq<char>)
    ensures
        forall|x: Seq<char>, y: Seq<char>|
            #[trigger] targets(edge_added(m, k, v), x).contains(y) ==> targets(m, x).contains(y) || (x == k && y == v),
{
}

proof fn lemma_behavior_links_declared(g: GraphModel, cs: Seq<SectionContent>, i: int, n: int)
    requires
        0 <= i < cs.len(),
        cs[i] is Behavior,
        0 <= n <= cs[i]->Behavior_0.implements@.len(),
        edges_declared(g, cs),
    ensures
        edges_declared(
            behavior_links_added(g, cs[i]->Behavior_0.name.value@, req_id_views(cs[i]->Behavior_0.implements@).take(n)),
            cs,
        ),
    decreases n,
{
    let b = cs[i]->Behavior_0;
    let ids = req_id_views(b.implements@);
    if n > 0 {
        lemma_behavior_links_declared(g, cs, i, n - 1);
        assert(ids.take(n).drop_last() =~= ids.take(n - 1));
        let h = behavior_links_added(g, b.name.value@, ids.take(n - 1));
        let r = ids[n - 1];
        lemma_edge_added_targets(h.req_to_behaviors, r, b.name.value@);
        lemma_edge_added_targets(h.behavior_to_reqs, b.name.value@, r);
        assert(behavior_link_of(cs[i], n - 1) == Some((b.name.value@, r)));
        assert(behavior_declares(cs, b.name.value@, r));
    } else {
        assert(ids.take(0) =~= Seq::<Seq<char>>::empty());
    }
}

proof fn lemma_task_links_declared(g: GraphModel, cs: Seq<SectionContent>, i: int, n: int)
    requires
        0 <= i < cs.len(),
        cs[i] is Task,
        0 <= n <= cs[i]->Task_0.req_refs@.len(),
        edges_declared(g, cs),
    ensures
        edges_declared(
            task_links_added(g, cs[i]->Task_0.id.value@, req_id_views(cs[i]->Task_0.req_refs@).take(n)),
            cs,
        ),
    decreases n,
{
    let t = cs[i]->Task_0;
    let ids = req_id_views(t.req_refs@);
    if n > 0 {
        lemma_task_links_declared(g, cs, i, n - 1);
        assert(ids.take(n).drop_last() =~= ids.take(n - 1));
        let h = task_links_added(g, t.id.value@, ids.take(n - 1));
        let r = ids[n - 1];
        lemma_edge_added_targets(h.req_to_tasks, r, t.id.value@);
        lemma_edge_added_targets(h.task_to_reqs, t.id.value@, r);
        assert(task_link_of(cs[i], n - 1) == Some((t.id.value@, r)));
        assert(task_declares(cs, t.id.value@, r));
    } else {
        assert(ids.take(0) =~= Seq::<Seq<char>>::empty());
    }
}

proof fn lemma_edges_added_declared(g: GraphModel, cs: Seq<SectionContent>, m: int)
    requires
        0 <= m <= cs.len(),
        edges_declared(g, cs),
    ensures
        edges_declared(edges_added(g, cs.take(m)), cs),
    decreases m,
{
    if m == 0 {
        assert(cs.take(0) =~= Seq::<SectionContent>::empty());
    } else {
        lemma_edges_added_declared(g, cs, m - 1);
        assert(cs.take(m).drop_last() =~= cs.take(m - 1));
        assert(cs.take(m).last() == cs[m - 1]);
        let h = edges_added(g, cs.take(m - 1));
        match cs[m - 1] {
            SectionContent::Behavior(b) => {
                lemma_behavior_links_declared(h, cs, m - 1, b.implements@.len() as int);
                assert(req_id_views(b.implements@).take(b.implements@.len() as int) =~= req_id_views(b.implements@));
            },
            SectionContent::Task(t) => {
                lemma_task_links_declared(h, cs, m - 1, t.req_refs@.len() as int);
                assert(req_id_views(t.req_refs@).take(t.req_refs@.len() as int) =~= req_id_views(t.req_refs@));
            },
            _ => {},
        }
    }
}

proof fn lemma_nodes_added_edges(g: GraphModel, cs: Seq<SectionContent>)
    ensures
        nodes_added(g, cs).req_to_behaviors == g.req_to_behaviors,
        nodes_added(g, cs).behavior_to_reqs == g.behavior_to_reqs,
        nodes_added(g, cs).req_to_tasks == g.req_to_tasks,
        nodes_added(g, cs).task_to_reqs == g.task_to_reqs,
    decreases cs.len(),
{
    if cs.len() > 0 {
        lemma_nodes_added_edges(g, cs.drop_last());
    }
}

/// In the graph of a file every link is declared by the file: a behavior is
/// among those of a requirement (and the requirement among its) only when
/// some behavior of that name lists the requirement under `implements`, and a
/// task only when some task of that name references it.
pub proof fn graph_links_are_declared(f: SourceFile)
    ensures
        edges_declared(graph_of(f), all_contents(f)),
{
    let cs = all_contents(f);
    let g0 = nodes_added(empty_graph(), cs);
    lemma_nodes_added_edges(empty_graph(), cs);
    lemma_edges_added_declared(g0, cs, cs.len() as int);
    assert(cs.take(cs.len() as int) =~= cs);
}

} // verus!
