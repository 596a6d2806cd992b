//! The component dependency graph.
//!
//! Nodes live in an arena and refer to each other by index. A node is added
//! only after every node it depends on, so an edge always leads to a smaller
//! index and the graph cannot hold a cycle. Each component has at most one
//! node, however many parents reach it.

use crate::builder::ArtifactList;
use crate::builder::ArtifactListView;
use crate::config::component_views;
use crate::config::Component;
use crate::config::ComponentView;
use crate::config::ConfigFile;
use crate::config::ConfigFileView;
use crate::error::BuildError;
use crate::manifest::component_names;
use crate::manifest::first_occurrences;
use crate::manifest::lemma_first_occurrences;
use crate::paths::str_eq;
use vstd::prelude::*;

verus! {

/// Where a node stands in its build.
#[derive(Debug, Clone, PartialEq, Eq)]
pub enum BuildStatus {
    NotStarted,
    InProgress,
    Success(ArtifactList),
    Failure,
}

pub enum BuildStatusView {
    NotStarted,
    InProgress,
    Success(ArtifactListView),
    Failure,
}

impl View for BuildStatus {
    type V = BuildStatusView;

    open spec fn view(&self) -> BuildStatusView {
        match self {
            BuildStatus::NotStarted => BuildStatusView::NotStarted,
            BuildStatus::InProgress => BuildStatusView::InProgress,
            BuildStatus::Success(list) => BuildStatusView::Success(list@),
            BuildStatus::Failure => BuildStatusView::Failure,
        }
    }
}

/// One node of the graph: a component with what it depends on.
#[derive(Debug, Clone, PartialEq, Eq)]
pub struct DependencyTree {
    /// The nodes of the components that this one requires, by index into the
    /// graph's arena, in the order of the requirements.
    pub dependencies: Vec<usize>,
    /// The requirements that name no component: paths of source inputs.
    pub sources: Vec<String>,
    pub component: Component,
    pub status: BuildStatus,
}

pub struct DependencyTreeView {
    pub dependencies: Seq<usize>,
    pub sources: Seq<Seq<char>>,
    pub component: ComponentView,
    pub status: BuildStatusView,
}

impl View for DependencyTree {
    type V = DependencyTreeView;

    open spec fn view(&self) -> DependencyTreeView {
        DependencyTreeView {
            dependencies: self.dependencies@,
            sources: self.sources.deep_view(),
            component: self.component@,
            status: self.status@,
        }
    }
}

/// The views of a run of nodes, in order.
pub open spec fn node_views(nodes: Seq<DependencyTree>) -> Seq<DependencyTreeView> {
    Seq::new(nodes.len(), |i: int| nodes[i]@)
}

/// The dependency graph of one build.
#[derive(Debug, Clone, PartialEq, Eq)]
pub struct DependencyGraph {
    /// The arena. A node's index is its identity.
    pub nodes: Vec<DependencyTree>,
    /// The nodes of the top-level components: those that a partition requires
    /// directly. Each occurs once, in the order of its first requirement.
    pub roots: Vec<usize>,
}

pub struct DependencyGraphView {
    pub nodes: Seq<DependencyTreeView>,
    pub roots: Seq<usize>,
}

impl View for DependencyGraph {
    type V = DependencyGraphView;

    open spec fn view(&self) -> DependencyGraphView {
        DependencyGraphView { nodes: node_views(self.nodes@), roots: self.roots@ }
    }
}

/// Whether `i` is the first place at which `name` occurs among `names`.
pub open spec fn is_first_at(names: Seq<Seq<char>>, name: Seq<char>, i: int) -> bool {
    &&& 0 <= i < names.len()
    &&& names[i] == name
    &&& forall|j: int| 0 <= j < i ==> names[j] != name
}

/// The names of a manifest's components, in order.
pub open spec fn names_of(cfg: ConfigFileView) -> Seq<Seq<char>> {
    component_names(cfg.components)
}

/// Whether `name` stands for the component at index `c`: the first one of
/// that name.
pub open spec fn defines(cfg: ConfigFileView, name: Seq<char>, c: int) -> bool {
    is_first_at(names_of(cfg), name, c)
}

/// Whether the component at `a` requires the component at `b`.
pub open spec fn requires_component(cfg: ConfigFileView, a: int, b: int) -> bool {
    &&& 0 <= a < cfg.components.len()
    &&& exists|k: int|
        0 <= k < cfg.components[a].requires.len() && defines(
            cfg,
            #[trigger] cfg.components[a].requires[k],
            b,
        )
}

/// Whether some partition requires the component at `c` directly.
pub open spec fn top_level(cfg: ConfigFileView, c: int) -> bool {
    exists|p: int, k: int|
        0 <= p < cfg.image.partitions.len() && 0 <= k < cfg.image.partitions[p].requires.len()
            && defines(cfg, #[trigger] cfg.image.partitions[p].requires[k], c)
}

/// Whether `walk` follows requirements from a top-level component onwards.
pub open spec fn is_walk(cfg: ConfigFileView, walk: Seq<int>) -> bool {
    &&& walk.len() >= 1
    &&& top_level(cfg, walk[0])
    &&& forall|i: int|
        0 <= i < walk.len() - 1 ==> requires_component(cfg, #[trigger] walk[i], walk[i + 1])
}

/// Whether a walk ends on a component that it has passed before.
pub open spec fn closes(walk: Seq<int>) -> bool {
    exists|j: int| 0 <= j < walk.len() - 1 && #[trigger] walk[j] == walk.last()
}

/// Whether the requirements of a manifest's components lead in a circle that
/// can be reached from some partition.
pub open spec fn has_cycle(cfg: ConfigFileView) -> bool {
    exists|walk: Seq<int>| is_walk(cfg, walk) && closes(walk)
}

/// Those of the first `n` requirements that name a component, in order.
pub open spec fn resolved(names: Seq<Seq<char>>, needs: Seq<Seq<char>>, n: int) -> Seq<
    Seq<char>,
>
    decreases n,
{
    if n <= 0 {
        Seq::empty()
    } else if names.contains(needs[n - 1]) {
        resolved(names, needs, n - 1).push(needs[n - 1])
    } else {
        resolved(names, needs, n - 1)
    }
}

/// Those of the first `n` requirements that name no component, in order.
pub open spec fn unresolved(names: Seq<Seq<char>>, needs: Seq<Seq<char>>, n: int) -> Seq<
    Seq<char>,
>
    decreases n,
{
    if n <= 0 {
        Seq::empty()
    } else if names.contains(needs[n - 1]) {
        unresolved(names, needs, n - 1)
    } else {
        unresolved(names, needs, n - 1).push(needs[n - 1])
    }
}

/// Whether the node at `id` is what the manifest says of its component: it
/// holds the first definition of its name, its sources are the requirements
/// that name no component, and its dependencies are earlier nodes that stand,
/// one for one and in order, for the requirements that name one.
pub open spec fn node_describes(
    cfg: ConfigFileView,
    nodes: Seq<DependencyTreeView>,
    id: int,
) -> bool {
    let node = nodes[id];
    let names = names_of(cfg);
    let needs = node.component.requires;
    let wanted = resolved(names, needs, needs.len() as int);
    &&& exists|c: int| #[trigger]
        defines(cfg, node.component.name, c) && node.component == cfg.components[c]
    &&& node.sources == unresolved(names, needs, needs.len() as int)
    &&& node.dependencies.len() == wanted.len()
    &&& forall|k: int|
        0 <= k < node.dependencies.len() ==> (#[trigger] node.dependencies[k]) < id
            && nodes[node.dependencies[k] as int].component.name == wanted[k]
}

/// The requirements of the first `p` partitions, one partition after the
/// other.
pub open spec fn partition_needs(cfg: ConfigFileView, p: int) -> Seq<Seq<char>>
    decreases p,
{
    if p <= 0 {
        Seq::empty()
    } else {
        partition_needs(cfg, p - 1) + cfg.image.partitions[p - 1].requires
    }
}

/// The names of the top-level components, each once, in the order in which
/// the partitions first require them.
pub open spec fn top_level_names(cfg: ConfigFileView) -> Seq<Seq<char>> {
    let needs = partition_needs(cfg, cfg.image.partitions.len() as int);
    first_occurrences(resolved(names_of(cfg), needs, needs.len() as int))
}

/// Whether the node at `a` depends on the node at `b` through any number of
/// edges, none included.
pub open spec fn node_reaches(nodes: Seq<DependencyTreeView>, a: int, b: int) -> bool
    decreases a,
{
    a == b || (0 <= a < nodes.len() && exists|k: int|
        #![trigger nodes[a].dependencies[k]]
        0 <= k < nodes[a].dependencies.len() && nodes[a].dependencies[k] < a && node_reaches(
            nodes,
            nodes[a].dependencies[k] as int,
            b,
        ))
}

impl DependencyGraphView {
    /// Whether every edge leads to an earlier node, no two nodes share a
    /// component name, and the roots are distinct nodes.
    pub open spec fn wf(self) -> bool {
        &&& forall|i: int, k: int|
            0 <= i < self.nodes.len() && 0 <= k < self.nodes[i].dependencies.len()
                ==> (#[trigger] self.nodes[i].dependencies[k]) < i
        &&& forall|i: int, j: int|
            0 <= i < j < self.nodes.len() ==> (#[trigger] self.nodes[i]).component.name != (
            #[trigger] self.nodes[j]).component.name
        &&& forall|r: int|
            0 <= r < self.roots.len() ==> (#[trigger] self.roots[r]) < self.nodes.len()
        &&& self.roots.no_duplicates()
    }

    /// Whether a node of the graph holds the component of the given name.
    pub open spec fn has_node(self, name: Seq<char>) -> bool {
        exists|i: int|
            0 <= i < self.nodes.len() && (#[trigger] self.nodes[i]).component.name == name
    }

    /// Whether one of the roots holds the component of the given name.
    pub open spec fn has_root(self, name: Seq<char>) -> bool {
        exists|r: int|
            0 <= r < self.roots.len() && self.nodes[(
            #[trigger] self.roots[r]) as int].component.name == name
    }

    /// Whether the graph is the one that the manifest describes: every node is
    /// what the manifest says of its component and has not started, and the
    /// roots are the components that the partitions require directly.
    pub open spec fn describes(self, cfg: ConfigFileView) -> bool {
        &&& forall|id: int|
            0 <= id < self.nodes.len() ==> #[trigger] node_describes(cfg, self.nodes, id)
        &&& forall|id: int|
            0 <= id < self.nodes.len() ==> (#[trigger] self.nodes[id]).status
                is NotStarted
        &&& forall|c: int| #[trigger] top_level(cfg, c) ==> self.has_root(cfg.components[c].name)
        &&& forall|r: int| 0 <= r < self.roots.len() ==> #[trigger] self.root_is_required(cfg, r)
        &&& self.root_names() == top_level_names(cfg)
        &&& forall|id: int| 0 <= id < self.nodes.len() ==> #[trigger] self.needed(id)
    }

    /// The names of the components that the roots hold, in the order of the
    /// roots.
    pub open spec fn root_names(self) -> Seq<Seq<char>> {
        Seq::new(self.roots.len(), |r: int| self.nodes[self.roots[r] as int].component.name)
    }

    /// Whether some root depends on the node at `id`, through any number of
    /// edges, or is that node.
    pub open spec fn needed(self, id: int) -> bool {
        exists|r: int|
            0 <= r < self.roots.len() && node_reaches(
                self.nodes,
                (#[trigger] self.roots[r]) as int,
                id,
            )
    }

    /// Whether the root at place `r` holds a component that some partition
    /// requires directly.
    pub open spec fn root_is_required(self, cfg: ConfigFileView, r: int) -> bool {
        exists|c: int| #[trigger]
            top_level(cfg, c) && self.nodes[self.roots[r] as int].component == cfg.components[c]
    }
}

/// Finds the component that a name stands for: the first of that name.
pub fn find_component(components: &Vec<Component>, name: &str) -> (r: Option<usize>)
    ensures
        match r {
            Some(i) => is_first_at(component_names(component_views(components@)), name@, i as int),
            None => !component_names(component_views(components@)).contains(name@),
        },
{
    let ghost names = component_names(component_views(components@));
    let mut i: usize = 0;
    while i < components.len()
        invariant
            i <= components.len(),
            names == component_names(component_views(components@)),
            names.len() == components.len(),
            forall|j: int| 0 <= j < i ==> names[j] != name@,
        decreases components.len() - i,
    {
        if str_eq(components[i].name.as_str(), name) {
            assert(names[i as int] == name@);
            return Some(i);
        }
        i += 1;
    }
    None
}

/// How far the construction has come with one component.
#[derive(Debug, Clone, Copy, PartialEq, Eq, Structural)]
enum Mark {
    /// Not looked at yet.
    Unvisited,
    /// Its requirements are being resolved.
    InProgress,
    /// Its node is the one at this index.
    Done(usize),
}

/// How many components have not been looked at yet.
spec fn unvisited(marks: Seq<Mark>) -> nat
    decreases marks.len(),
{
    if marks.len() == 0 {
        0
    } else {
        unvisited(marks.drop_last()) + if marks.last() is Unvisited {
            1nat
        } else {
            0nat
        }
    }
}

proof fn lemma_unvisited_update(marks: Seq<Mark>, i: int, mark: Mark)
    requires
        0 <= i < marks.len(),
    ensures
        unvisited(marks.update(i, mark)) + (if marks[i] is Unvisited {
            1nat
        } else {
            0nat
        }) == unvisited(marks) + (if mark is Unvisited {
            1nat
        } else {
            0nat
        }),
    decreases marks.len(),
{
    let updated = marks.update(i, mark);
    if i == marks.len() - 1 {
        assert(updated.drop_last() =~= marks.drop_last());
    } else {
        assert(updated.drop_last() =~= marks.drop_last().update(i, mark));
        lemma_unvisited_update(marks.drop_last(), i, mark);
    }
}

/// A requirement that names a component is among the resolved ones.
proof fn lemma_resolved_member(names: Seq<Seq<char>>, needs: Seq<Seq<char>>, n: int, k: int)
    requires
        0 <= k < n <= needs.len(),
        names.contains(needs[k]),
    ensures
        exists|j: int|
            0 <= j < resolved(names, needs, n).len() && #[trigger] resolved(
                names,
                needs,
                n,
            )[j] == needs[k],
    decreases n,
{
    let here = resolved(names, needs, n);
    if k == n - 1 {
        assert(here[here.len() - 1] == needs[k]);
    } else {
        lemma_resolved_member(names, needs, n - 1, k);
        let before = resolved(names, needs, n - 1);
        let j = choose|j: int| 0 <= j < before.len() && before[j] == needs[k];
        assert(here[j] == needs[k]);
    }
}

/// Two components that are both the first of one name are one component.
proof fn lemma_first_unique(names: Seq<Seq<char>>, name: Seq<char>, a: int, b: int)
    requires
        is_first_at(names, name, a),
        is_first_at(names, name, b),
    ensures
        a == b,
{
}

/// Whether some component's node is the one at `id`.
spec fn owned(marks: Seq<Mark>, id: int) -> bool {
    exists|c: int| 0 <= c < marks.len() && #[trigger] marks[c] == Mark::Done(id as usize)
}

/// Whether the mark of component `c` fits the nodes built so far.
spec fn mark_fits(
    cfg: ConfigFileView,
    marks: Seq<Mark>,
    nodes: Seq<DependencyTreeView>,
    path: Seq<int>,
    c: int,
) -> bool {
    match marks[c] {
        Mark::Unvisited => true,
        Mark::InProgress => path.contains(c),
        Mark::Done(id) => id < nodes.len() && nodes[id as int].component == cfg.components[c]
            && defines(cfg, cfg.components[c].name, c),
    }
}

/// What holds of the construction between any two of its steps, while the
/// components on `path` are being resolved.
#[verifier::opaque]
spec fn building(
    cfg: ConfigFileView,
    marks: Seq<Mark>,
    nodes: Seq<DependencyTreeView>,
    path: Seq<int>,
) -> bool {
    &&& marks.len() == cfg.components.len()
    &&& forall|c: int| 0 <= c < marks.len() ==> #[trigger] mark_fits(cfg, marks, nodes, path, c)
    &&& forall|id: int| 0 <= id < nodes.len() ==> #[trigger] node_describes(cfg, nodes, id)
    &&& forall|id: int| 0 <= id < nodes.len() ==> (#[trigger] nodes[id]).status is NotStarted
    &&& forall|id: int| 0 <= id < nodes.len() ==> #[trigger] owned(marks, id)
    &&& forall|i: int, j: int|
        0 <= i < j < nodes.len() ==> (#[trigger] nodes[i]).component.name != (
        #[trigger] nodes[j]).component.name
}

/// Whether `after` holds every node of `before`, at the same index.
spec fn extends(before: Seq<DependencyTreeView>, after: Seq<DependencyTreeView>) -> bool {
    &&& before.len() <= after.len()
    &&& forall|i: int| 0 <= i < before.len() ==> #[trigger] after[i] == before[i]
}

/// Whether every component that was settled or under way before is as it was.
spec fn advance(before: Seq<Mark>, after: Seq<Mark>) -> bool {
    &&& before.len() == after.len()
    &&& forall|c: int|
        0 <= c < before.len() && !((#[trigger] before[c]) is Unvisited) ==> after[c] == before[c]
}

/// A node that described its component among fewer nodes still does.
proof fn lemma_describes_extends(
    cfg: ConfigFileView,
    before: Seq<DependencyTreeView>,
    after: Seq<DependencyTreeView>,
    id: int,
)
    requires
        extends(before, after),
        0 <= id < before.len(),
        node_describes(cfg, before, id),
    ensures
        node_describes(cfg, after, id),
{
    let node = before[id];
    assert(after[id] == node);
    let c = choose|c: int| #[trigger]
        defines(cfg, node.component.name, c) && node.component == cfg.components[c];
    assert(defines(cfg, after[id].component.name, c) && after[id].component == cfg.components[c]);
    assert forall|k: int| 0 <= k < node.dependencies.len() implies (
    #[trigger] node.dependencies[k]) < id && after[node.dependencies[k] as int].component.name
        == resolved(
        names_of(cfg),
        node.component.requires,
        node.component.requires.len() as int,
    )[k] by {
        assert(after[node.dependencies[k] as int] == before[node.dependencies[k] as int]);
    }
}

/// Beginning with a component that has not been looked at keeps the
/// construction sound, with the component on the path.
proof fn lemma_enter(
    cfg: ConfigFileView,
    marks: Seq<Mark>,
    nodes: Seq<DependencyTreeView>,
    path: Seq<int>,
    c: int,
)
    requires
        building(cfg, marks, nodes, path),
        0 <= c < marks.len(),
        marks[c] is Unvisited,
    ensures
        building(cfg, marks.update(c, Mark::InProgress), nodes, path.push(c)),
        unvisited(marks.update(c, Mark::InProgress)) < unvisited(marks),
{
    reveal(building);
    let after = marks.update(c, Mark::InProgress);
    let here = path.push(c);
    lemma_unvisited_update(marks, c, Mark::InProgress);
    assert forall|x: int| 0 <= x < after.len() implies #[trigger] mark_fits(
        cfg,
        after,
        nodes,
        here,
        x,
    ) by {
        assert(mark_fits(cfg, marks, nodes, path, x));
        if x == c {
            assert(here[here.len() - 1] == c);
        } else if marks[x] is InProgress {
            let j = choose|j: int| 0 <= j < path.len() && path[j] == x;
            assert(here[j] == x);
        }
    }
    assert forall|id: int| 0 <= id < nodes.len() implies #[trigger] owned(after, id) by {
        assert(owned(marks, id));
        let x = choose|x: int|
            0 <= x < marks.len() && #[trigger] marks[x] == Mark::Done(id as usize);
        assert(after[x] == Mark::Done(id as usize));
    }
}

/// A component that is met again while its requirements are being resolved
/// lies on a circle.
proof fn lemma_cycle(
    cfg: ConfigFileView,
    marks: Seq<Mark>,
    nodes: Seq<DependencyTreeView>,
    path: Seq<int>,
    c: int,
)
    requires
        building(cfg, marks, nodes, path),
        0 <= c < marks.len(),
        marks[c] is InProgress,
        is_walk(cfg, path.push(c)),
    ensures
        has_cycle(cfg),
{
    reveal(building);
    assert(mark_fits(cfg, marks, nodes, path, c));
    let walk = path.push(c);
    let j = choose|j: int| 0 <= j < path.len() && path[j] == c;
    assert(walk[j] == walk.last());
    assert(closes(walk));
}

/// The node of a settled component exists and holds that component.
proof fn lemma_done(
    cfg: ConfigFileView,
    marks: Seq<Mark>,
    nodes: Seq<DependencyTreeView>,
    path: Seq<int>,
    c: int,
)
    requires
        building(cfg, marks, nodes, path),
        0 <= c < marks.len(),
        marks[c] is Done,
    ensures
        marks[c]->Done_0 < nodes.len(),
        nodes[marks[c]->Done_0 as int].component == cfg.components[c],
        defines(cfg, cfg.components[c].name, c),
{
    reveal(building);
    assert(mark_fits(cfg, marks, nodes, path, c));
}

/// Following one more requirement from the end of a walk gives a walk.
proof fn lemma_walk_on(cfg: ConfigFileView, here: Seq<int>, c: int, d: int, k: int)
    requires
        is_walk(cfg, here),
        here.last() == c,
        0 <= c < cfg.components.len(),
        0 <= k < cfg.components[c].requires.len(),
        defines(cfg, cfg.components[c].requires[k], d),
    ensures
        is_walk(cfg, here.push(d)),
{
    assert(requires_component(cfg, c, d));
    let walk = here.push(d);
    assert forall|i: int| 0 <= i < walk.len() - 1 implies requires_component(
        cfg,
        #[trigger] walk[i],
        walk[i + 1],
    ) by {
        if i < here.len() - 1 {
            assert(walk[i] == here[i]);
            assert(walk[i + 1] == here[i + 1]);
        } else {
            assert(walk[i] == c);
        }
    }
    assert(walk[0] == here[0]);
}

/// Adding the node of the component whose requirements were just resolved
/// keeps the construction sound, with the component off the path.
proof fn lemma_leave(
    cfg: ConfigFileView,
    marks: Seq<Mark>,
    nodes: Seq<DependencyTreeView>,
    path: Seq<int>,
    c: int,
    node: DependencyTreeView,
)
    requires
        building(cfg, marks, nodes, path.push(c)),
        0 <= c < marks.len(),
        marks[c] is InProgress,
        nodes.len() <= usize::MAX,
        defines(cfg, cfg.components[c].name, c),
        node.component == cfg.components[c],
        node.status is NotStarted,
        node.sources == unresolved(
            names_of(cfg),
            node.component.requires,
            node.component.requires.len() as int,
        ),
        node.dependencies.len() == resolved(
            names_of(cfg),
            node.component.requires,
            node.component.requires.len() as int,
        ).len(),
        forall|j: int|
            0 <= j < node.dependencies.len() ==> (#[trigger] node.dependencies[j]) < nodes.len()
                && nodes[node.dependencies[j] as int].component.name == resolved(
                names_of(cfg),
                node.component.requires,
                node.component.requires.len() as int,
            )[j],
    ensures
        building(cfg, marks.update(c, Mark::Done(nodes.len() as usize)), nodes.push(node), path),
        unvisited(marks.update(c, Mark::Done(nodes.len() as usize))) == unvisited(marks),
{
    reveal(building);
    let names = names_of(cfg);
    let here = path.push(c);
    let after = marks.update(c, Mark::Done(nodes.len() as usize));
    let more = nodes.push(node);
    assert(extends(nodes, more));
    lemma_unvisited_update(marks, c, Mark::Done(nodes.len() as usize));
    assert forall|x: int| 0 <= x < after.len() implies #[trigger] mark_fits(
        cfg,
        after,
        more,
        path,
        x,
    ) by {
        assert(mark_fits(cfg, marks, nodes, here, x));
        if x != c && marks[x] is InProgress {
            let j = choose|j: int| 0 <= j < here.len() && here[j] == x;
            assert(path[j] == x);
        }
    }
    assert forall|i: int| 0 <= i < more.len() implies #[trigger] node_describes(cfg, more, i) by {
        if i < nodes.len() {
            assert(node_describes(cfg, nodes, i));
            lemma_describes_extends(cfg, nodes, more, i);
        } else {
            assert(more[i] == node);
            assert(defines(cfg, node.component.name, c) && node.component == cfg.components[c]);
            assert forall|j: int| 0 <= j < node.dependencies.len() implies (
            #[trigger] node.dependencies[j]) < i && more[node.dependencies[j] as int].component.name
                == resolved(
                names,
                node.component.requires,
                node.component.requires.len() as int,
            )[j] by {
                assert(more[node.dependencies[j] as int] == nodes[node.dependencies[j] as int]);
            }
        }
    }
    assert forall|i: int| 0 <= i < more.len() implies #[trigger] owned(after, i) by {
        if i < nodes.len() {
            assert(owned(marks, i));
            let x = choose|x: int|
                0 <= x < marks.len() && #[trigger] marks[x] == Mark::Done(i as usize);
            assert(after[x] == Mark::Done(i as usize));
        } else {
            assert(after[c] == Mark::Done(i as usize));
        }
    }
    assert forall|i: int, j: int| 0 <= i < j < more.len() implies (
    #[trigger] more[i]).component.name != (#[trigger] more[j]).component.name by {
        if j == nodes.len() {
            assert(owned(marks, i));
            let x = choose|x: int|
                0 <= x < marks.len() && #[trigger] marks[x] == Mark::Done(i as usize);
            assert(mark_fits(cfg, marks, nodes, here, x));
            assert(x != c);
            if more[i].component.name == more[j].component.name {
                lemma_first_unique(names, names[x], x, c);
            }
        } else {
            assert(more[i] == nodes[i]);
            assert(more[j] == nodes[j]);
        }
    }
    assert forall|id: int| 0 <= id < more.len() implies (#[trigger] more[id]).status
        is NotStarted by {
        if id < nodes.len() {
            assert(more[id] == nodes[id]);
        }
    }
}

/// Whether a later node depends on the node at `id` directly.
spec fn has_parent(nodes: Seq<DependencyTreeView>, id: int) -> bool {
    exists|a: int, k: int|
        id < a < nodes.len() && 0 <= k < nodes[a].dependencies.len()
            && #[trigger] nodes[a].dependencies[k] == id
}

/// Whether every node so far has a later node that depends on it, or is among
/// those that still wait for one.
spec fn attached(nodes: Seq<DependencyTreeView>, pending: Seq<usize>) -> bool {
    forall|id: int|
        0 <= id < nodes.len() ==> #[trigger] has_parent(nodes, id) || pending.contains(id as usize)
}

/// Nodes stay attached when more nodes are built and more of them wait.
proof fn lemma_attached_more(
    before: Seq<DependencyTreeView>,
    after: Seq<DependencyTreeView>,
    pending: Seq<usize>,
    more: Seq<usize>,
)
    requires
        extends(before, after),
        attached(before, pending),
        forall|j: int| 0 <= j < pending.len() ==> more.contains(#[trigger] pending[j]),
    ensures
        forall|id: int|
            0 <= id < before.len() ==> #[trigger] has_parent(after, id) || more.contains(
                id as usize,
            ),
{
    assert forall|id: int| 0 <= id < before.len() implies #[trigger] has_parent(after, id)
        || more.contains(id as usize) by {
        if has_parent(before, id) {
            let (a, k) = choose|a: int, k: int|
                id < a < before.len() && 0 <= k < before[a].dependencies.len()
                    && #[trigger] before[a].dependencies[k] == id;
            assert(after[a] == before[a]);
            assert(after[a].dependencies[k] == id);
        } else {
            assert(pending.contains(id as usize));
            let j = choose|j: int| 0 <= j < pending.len() && pending[j] == id as usize;
            assert(more.contains(pending[j]));
        }
    }
}

/// A new node takes in every node that waited for it, and waits itself.
proof fn lemma_attach(
    nodes: Seq<DependencyTreeView>,
    pending: Seq<usize>,
    node: DependencyTreeView,
)
    requires
        attached(nodes, pending + node.dependencies),
        nodes.len() <= usize::MAX,
    ensures
        attached(nodes.push(node), pending.push(nodes.len() as usize)),
{
    let more = nodes.push(node);
    let waiting = pending.push(nodes.len() as usize);
    let both = pending + node.dependencies;
    assert forall|id: int| 0 <= id < more.len() implies #[trigger] has_parent(more, id)
        || waiting.contains(id as usize) by {
        if id == nodes.len() {
            assert(waiting[waiting.len() - 1] == id as usize);
        } else if has_parent(nodes, id) {
            let (a, k) = choose|a: int, k: int|
                id < a < nodes.len() && 0 <= k < nodes[a].dependencies.len()
                    && #[trigger] nodes[a].dependencies[k] == id;
            assert(more[a] == nodes[a]);
            assert(more[a].dependencies[k] == id);
        } else {
            assert(both.contains(id as usize));
            let j = choose|j: int| 0 <= j < both.len() && both[j] == id as usize;
            if j < pending.len() {
                assert(waiting[j] == id as usize);
            } else {
                let k = j - pending.len();
                assert(more[nodes.len() as int].dependencies[k] == id);
            }
        }
    }
}

/// Resolves one component: gives the index of its node, which is built now,
/// after the nodes of everything the component requires, unless it exists.
fn build_step(
    config: &ConfigFile,
    c: usize,
    marks: &mut Vec<Mark>,
    nodes: &mut Vec<DependencyTree>,
    Ghost(path): Ghost<Seq<int>>,
    Ghost(pending): Ghost<Seq<usize>>,
) -> (r: Result<usize, BuildError>)
    requires
        building(config@, old(marks)@, node_views(old(nodes)@), path),
        attached(node_views(old(nodes)@), pending),
        defines(config@, config@.components[c as int].name, c as int),
        is_walk(config@, path.push(c as int)),
    ensures
        match r {
            Ok(id) => {
                &&& building(config@, final(marks)@, node_views(final(nodes)@), path)
                &&& attached(node_views(final(nodes)@), pending.push(id))
                &&& final(marks)@[c as int] == Mark::Done(id)
                &&& id < final(nodes)@.len()
                &&& node_views(final(nodes)@)[id as int].component == config@.components[c as int]
                &&& extends(node_views(old(nodes)@), node_views(final(nodes)@))
                &&& advance(old(marks)@, final(marks)@)
                &&& unvisited(final(marks)@) <= unvisited(old(marks)@)
            },
            Err(e) => e == BuildError::LoopError && has_cycle(config@),
        },
    decreases unvisited(old(marks)@),
{
    let ghost cfg = config@;
    let ghost names = names_of(cfg);
    let ghost marks0 = marks@;
    let ghost nodes0 = node_views(nodes@);
    assert(marks0.len() == cfg.components.len()) by {
        reveal(building);
    }
    let mark = marks[c];
    match mark {
        Mark::Done(id) => {
            proof {
                lemma_done(cfg, marks0, nodes0, path, c as int);
                let more = pending.push(id);
                assert forall|j: int| 0 <= j < pending.len() implies more.contains(
                    #[trigger] pending[j],
                ) by {
                    assert(more[j] == pending[j]);
                }
                lemma_attached_more(nodes0, nodes0, pending, more);
            }
            Ok(id)
        },
        Mark::InProgress => {
            proof {
                lemma_cycle(cfg, marks0, nodes0, path, c as int);
            }
            Err(BuildError::LoopError)
        },
        Mark::Unvisited => {
            marks.set(c, Mark::InProgress);
            let ghost here = path.push(c as int);
            proof {
                lemma_enter(cfg, marks0, nodes0, path, c as int);
            }
            let component = &config.components[c];
            assert(component@ == cfg.components[c as int]);
            let ghost needs = cfg.components[c as int].requires;
            let mut dependencies: Vec<usize> = Vec::new();
            let mut sources: Vec<String> = Vec::new();
            let mut k: usize = 0;
            assert(sources.deep_view() =~= unresolved(names, needs, 0));
            assert(pending + dependencies@ =~= pending);
            while k < component.requires.len()
                invariant
                    attached(node_views(nodes@), pending + dependencies@),
                    cfg == config@,
                    names == names_of(cfg),
                    marks0 == old(marks)@,
                    here == path.push(c as int),
                    is_walk(cfg, here),
                    c < config.components.len(),
                    *component == config.components@[c as int],
                    needs == cfg.components[c as int].requires,
                    needs == component.requires.deep_view(),
                    k <= component.requires.len(),
                    building(cfg, marks@, node_views(nodes@), here),
                    marks@[c as int] is InProgress,
                    extends(nodes0, node_views(nodes@)),
                    marks0.len() == marks@.len(),
                    marks0.len() == cfg.components.len(),
                    forall|x: int|
                        0 <= x < marks0.len() && x != c && !((#[trigger] marks0[x]) is Unvisited)
                            ==> marks@[x] == marks0[x],
                    unvisited(marks@) < unvisited(marks0),
                    sources.deep_view() == unresolved(names, needs, k as int),
                    dependencies@.len() == resolved(names, needs, k as int).len(),
                    forall|j: int|
                        0 <= j < dependencies@.len() ==> (#[trigger] dependencies@[j])
                            < nodes@.len() && node_views(
                            nodes@,
                        )[dependencies@[j] as int].component.name == resolved(
                            names,
                            needs,
                            k as int,
                        )[j],
                decreases component.requires.len() - k,
            {
                let name = &component.requires[k];
                assert(name@ == needs[k as int]);
                let ghost before_sources = sources.deep_view();
                match find_component(&config.components, name.as_str()) {
                    Some(d) => {
                        let ghost nodes1 = node_views(nodes@);
                        let ghost marks1 = marks@;
                        proof {
                            assert(names.contains(needs[k as int]));
                            lemma_walk_on(cfg, here, c as int, d as int, k as int);
                        }
                        let ghost waiting = pending + dependencies@;
                        match build_step(config, d, marks, nodes, Ghost(here), Ghost(waiting)) {
                            Ok(id) => {
                                dependencies.push(id);
                                proof {
                                    assert(pending + dependencies@ =~= waiting.push(id));
                                    let nodes2 = node_views(nodes@);
                                    assert(nodes2[id as int].component.name == needs[k as int]);
                                    assert forall|j: int|
                                        0 <= j < dependencies@.len() implies (
                                    #[trigger] dependencies@[j]) < nodes@.len()
                                        && nodes2[dependencies@[j] as int].component.name
                                        == resolved(names, needs, k + 1)[j] by {
                                        if j < dependencies@.len() - 1 {
                                            assert(nodes2[dependencies@[j] as int]
                                                == nodes1[dependencies@[j] as int]);
                                        }
                                    }
                                }
                            },
                            Err(e) => {
                                return Err(e);
                            },
                        }
                    },
                    None => {
                        sources.push(name.clone());
                        assert(sources.deep_view() =~= before_sources.push(name@));
                    },
                }
                k += 1;
            }
            let id = nodes.len();
            let ghost nodes1 = node_views(nodes@);
            let ghost marks1 = marks@;
            let node = DependencyTree {
                dependencies,
                sources,
                component: component.duplicate(),
                status: BuildStatus::NotStarted,
            };
            let ghost node_view = node@;
            nodes.push(node);
            marks.set(c, Mark::Done(id));
            proof {
                assert(node_views(nodes@) =~= nodes1.push(node_view));
                lemma_leave(cfg, marks1, nodes1, path, c as int, node_view);
                lemma_attach(nodes1, pending, node_view);
                assert(extends(nodes1, node_views(nodes@)));
            }
            Ok(id)
        },
    }
}

/// Whether the component that the requirement `k` of partition `p` names, if
/// it names one, is settled and has its node among the roots.
spec fn covered(cfg: ConfigFileView, marks: Seq<Mark>, roots: Seq<usize>, p: int, k: int) -> bool {
    forall|c: int| #[trigger]
        defines(cfg, cfg.image.partitions[p].requires[k], c) ==> 0 <= c < marks.len()
            && marks[c] is Done && roots.contains(marks[c]->Done_0)
}

/// Whether the node at `id` holds a top-level component.
spec fn justified(cfg: ConfigFileView, nodes: Seq<DependencyTreeView>, id: int) -> bool {
    exists|c: int| #[trigger] top_level(cfg, c) && nodes[id].component == cfg.components[c]
}

/// The requirements that are dealt with once those before `k` of partition
/// `p`, and all those of earlier partitions, are.
spec fn needs_so_far(cfg: ConfigFileView, p: int, k: int) -> Seq<Seq<char>> {
    partition_needs(cfg, p) + cfg.image.partitions[p].requires.take(k)
}

/// The names of the components that the nodes `roots` hold.
spec fn names_at(nodes: Seq<DependencyTreeView>, roots: Seq<usize>) -> Seq<Seq<char>> {
    Seq::new(roots.len(), |r: int| nodes[roots[r] as int].component.name)
}

/// With nothing looked at and no node built, the construction is sound.
proof fn lemma_start(cfg: ConfigFileView, marks: Seq<Mark>)
    requires
        marks.len() == cfg.components.len(),
        forall|c: int| 0 <= c < marks.len() ==> marks[c] is Unvisited,
    ensures
        building(cfg, marks, Seq::<DependencyTreeView>::empty(), Seq::<int>::empty()),
{
    reveal(building);
}

/// Along a walk, every component is settled, and each one's node was built
/// before the node of the one that requires it.
proof fn lemma_walk_settled(
    cfg: ConfigFileView,
    marks: Seq<Mark>,
    nodes: Seq<DependencyTreeView>,
    walk: Seq<int>,
    i: int,
)
    requires
        building(cfg, marks, nodes, Seq::<int>::empty()),
        forall|c: int| #[trigger] top_level(cfg, c) ==> 0 <= c < marks.len() && marks[c] is Done,
        is_walk(cfg, walk),
        0 <= i < walk.len(),
    ensures
        0 <= walk[i] < marks.len(),
        marks[walk[i]] is Done,
        i > 0 ==> marks[walk[i]]->Done_0 < marks[walk[i - 1]]->Done_0,
        i > 0 ==> 0 <= walk[i - 1] < marks.len() && marks[walk[i - 1]] is Done,
    decreases i,
{
    if i > 0 {
        lemma_walk_settled(cfg, marks, nodes, walk, i - 1);
        reveal(building);
        let names = names_of(cfg);
        let a = walk[i - 1];
        let b = walk[i];
        assert(requires_component(cfg, a, b));
        let k = choose|k: int|
            0 <= k < cfg.components[a].requires.len() && defines(
                cfg,
                #[trigger] cfg.components[a].requires[k],
                b,
            );
        assert(mark_fits(cfg, marks, nodes, Seq::<int>::empty(), a));
        let ida = marks[a]->Done_0 as int;
        let node = nodes[ida];
        let needs = node.component.requires;
        assert(node_describes(cfg, nodes, ida));
        assert(names[b] == needs[k]);
        assert(names.contains(needs[k]));
        lemma_resolved_member(names, needs, needs.len() as int, k);
        let wanted = resolved(names, needs, needs.len() as int);
        let j = choose|j: int| 0 <= j < wanted.len() && #[trigger] wanted[j] == needs[k];
        let dep = node.dependencies[j] as int;
        assert(dep < ida);
        assert(owned(marks, dep));
        let x = choose|x: int|
            0 <= x < marks.len() && #[trigger] marks[x] == Mark::Done(dep as usize);
        assert(mark_fits(cfg, marks, nodes, Seq::<int>::empty(), x));
        lemma_first_unique(names, names[b], x, b);
    }
}

/// Along a walk, the nodes get ever older.
proof fn lemma_walk_descends(
    cfg: ConfigFileView,
    marks: Seq<Mark>,
    nodes: Seq<DependencyTreeView>,
    walk: Seq<int>,
    j: int,
    i: int,
)
    requires
        building(cfg, marks, nodes, Seq::<int>::empty()),
        forall|c: int| #[trigger] top_level(cfg, c) ==> 0 <= c < marks.len() && marks[c] is Done,
        is_walk(cfg, walk),
        0 <= j < i < walk.len(),
    ensures
        0 <= walk[i] < marks.len(),
        0 <= walk[j] < marks.len(),
        marks[walk[i]] is Done,
        marks[walk[j]] is Done,
        marks[walk[i]]->Done_0 < marks[walk[j]]->Done_0,
    decreases i - j,
{
    lemma_walk_settled(cfg, marks, nodes, walk, i);
    if j < i - 1 {
        lemma_walk_descends(cfg, marks, nodes, walk, j, i - 1);
    }
}

/// Once every top-level component is settled, no walk leads in a circle.
proof fn lemma_acyclic(cfg: ConfigFileView, marks: Seq<Mark>, nodes: Seq<DependencyTreeView>)
    requires
        building(cfg, marks, nodes, Seq::<int>::empty()),
        forall|c: int| #[trigger] top_level(cfg, c) ==> 0 <= c < marks.len() && marks[c] is Done,
    ensures
        !has_cycle(cfg),
{
    if has_cycle(cfg) {
        let walk = choose|walk: Seq<int>| is_walk(cfg, walk) && closes(walk);
        let j = choose|j: int| 0 <= j < walk.len() - 1 && #[trigger] walk[j] == walk.last();
        lemma_walk_descends(cfg, marks, nodes, walk, j, walk.len() - 1);
    }
}

/// Whether an index occurs in a list of indices.
fn contains_id(ids: &Vec<usize>, id: usize) -> (r: bool)
    ensures
        r == ids@.contains(id),
{
    let mut i: usize = 0;
    while i < ids.len()
        invariant
            i <= ids.len(),
            forall|j: int| 0 <= j < i ==> ids@[j] != id,
        decreases ids.len() - i,
    {
        if ids[i] == id {
            return true;
        }
        i += 1;
    }
    false
}

/// The resolved requirements among the first `n` do not depend on what comes
/// behind them.
proof fn lemma_resolved_prefix(names: Seq<Seq<char>>, a: Seq<Seq<char>>, b: Seq<Seq<char>>, n: int)
    requires
        0 <= n <= a.len(),
        n <= b.len(),
        forall|i: int| 0 <= i < n ==> a[i] == b[i],
    ensures
        resolved(names, a, n) == resolved(names, b, n),
    decreases n,
{
    if n > 0 {
        lemma_resolved_prefix(names, a, b, n - 1);
    }
}

/// What the construction has reached once the requirements before `k` of
/// partition `p`, and all those of earlier partitions, are dealt with.
spec fn progress(
    cfg: ConfigFileView,
    marks: Seq<Mark>,
    nodes: Seq<DependencyTreeView>,
    roots: Seq<usize>,
    p: int,
    k: int,
) -> bool {
    &&& building(cfg, marks, nodes, Seq::<int>::empty())
    &&& attached(nodes, roots)
    &&& roots.no_duplicates()
    &&& forall|r: int| 0 <= r < roots.len() ==> (#[trigger] roots[r]) < nodes.len()
    &&& forall|r: int| 0 <= r < roots.len() ==> justified(cfg, nodes, (#[trigger] roots[r]) as int)
    &&& names_at(nodes, roots) == first_occurrences(
        resolved(names_of(cfg), needs_so_far(cfg, p, k), needs_so_far(cfg, p, k).len() as int),
    )
    &&& forall|q: int, h: int|
        0 <= q < p && 0 <= h < cfg.image.partitions[q].requires.len() ==> #[trigger] covered(
            cfg,
            marks,
            roots,
            q,
            h,
        )
    &&& forall|h: int| 0 <= h < k ==> #[trigger] covered(cfg, marks, roots, p, h)
}

/// Settling one more top-level component keeps what was reached.
proof fn lemma_progress(
    cfg: ConfigFileView,
    marks: Seq<Mark>,
    nodes: Seq<DependencyTreeView>,
    roots: Seq<usize>,
    marks2: Seq<Mark>,
    nodes2: Seq<DependencyTreeView>,
    roots2: Seq<usize>,
    p: int,
    k: int,
    c: int,
    id: usize,
)
    requires
        progress(cfg, marks, nodes, roots, p, k),
        0 <= p < cfg.image.partitions.len(),
        0 <= k < cfg.image.partitions[p].requires.len(),
        defines(cfg, cfg.image.partitions[p].requires[k], c),
        building(cfg, marks2, nodes2, Seq::<int>::empty()),
        attached(nodes2, roots.push(id)),
        extends(nodes, nodes2),
        advance(marks, marks2),
        0 <= c < marks2.len(),
        marks2[c] == Mark::Done(id),
        id < nodes2.len(),
        nodes2[id as int].component == cfg.components[c],
        roots2 == if roots.contains(id) {
            roots
        } else {
            roots.push(id)
        },
    ensures
        progress(cfg, marks2, nodes2, roots2, p, k + 1),
{
    let names = names_of(cfg);
    let name = cfg.image.partitions[p].requires[k];
    assert(top_level(cfg, c));
    assert forall|r: int| 0 <= r < roots2.len() implies justified(
        cfg,
        nodes2,
        (#[trigger] roots2[r]) as int,
    ) by {
        if r < roots.len() {
            assert(roots2[r] == roots[r]);
            assert(justified(cfg, nodes, roots[r] as int));
            let x = choose|x: int| #[trigger]
                top_level(cfg, x) && nodes[roots[r] as int].component == cfg.components[x];
            assert(nodes2[roots[r] as int] == nodes[roots[r] as int]);
            assert(top_level(cfg, x) && nodes2[roots2[r] as int].component == cfg.components[x]);
        } else {
            assert(top_level(cfg, c) && nodes2[roots2[r] as int].component == cfg.components[c]);
        }
    }
    assert forall|q: int, h: int|
        (0 <= q < p && 0 <= h < cfg.image.partitions[q].requires.len()) || (q == p && 0 <= h
            < k) implies #[trigger] covered(cfg, marks2, roots2, q, h) by {
        assert(covered(cfg, marks, roots, q, h));
        assert forall|x: int| #[trigger]
            defines(cfg, cfg.image.partitions[q].requires[h], x) implies 0 <= x < marks2.len()
            && marks2[x] is Done && roots2.contains(marks2[x]->Done_0) by {
            assert(marks2[x] == marks[x]);
            let r = choose|r: int| 0 <= r < roots.len() && roots[r] == marks[x]->Done_0;
            assert(roots2[r] == marks2[x]->Done_0);
        }
    }
    assert(covered(cfg, marks2, roots2, p, k)) by {
        assert forall|x: int| #[trigger]
            defines(cfg, cfg.image.partitions[p].requires[k], x) implies 0 <= x < marks2.len()
            && marks2[x] is Done && roots2.contains(marks2[x]->Done_0) by {
            lemma_first_unique(names, cfg.image.partitions[p].requires[k], x, c);
            if roots.contains(id) {
            } else {
                assert(roots2[roots2.len() - 1] == id);
            }
        }
    }
    assert forall|r: int| 0 <= r < roots2.len() implies (#[trigger] roots2[r]) < nodes2.len() by {
        if r < roots.len() {
            assert(roots2[r] == roots[r]);
        }
    }
    // The roots are still the first occurrences of the resolved requirements.
    let before = needs_so_far(cfg, p, k);
    let after = needs_so_far(cfg, p, k + 1);
    assert(after =~= before.push(name));
    let seen = resolved(names, before, before.len() as int);
    let kept = first_occurrences(seen);
    lemma_resolved_prefix(names, after, before, before.len() as int);
    assert(names[c] == name);
    assert(names.contains(name));
    let next = resolved(names, after, after.len() as int);
    assert(next == seen.push(name));
    assert(next.drop_last() =~= seen);
    lemma_first_occurrences(seen);
    assert(names_at(nodes, roots) == kept);
    assert(nodes2[id as int].component.name == name);
    if roots.contains(id) {
        let r = choose|r: int| 0 <= r < roots.len() && roots[r] == id;
        assert(names_at(nodes, roots)[r] == nodes[roots[r] as int].component.name);
        assert(nodes2[roots[r] as int] == nodes[roots[r] as int]);
        assert(kept[r] == name);
        assert(kept.contains(name));
        assert(seen.contains(name));
        assert(first_occurrences(next) == kept);
    } else {
        if seen.contains(name) {
            assert(kept.contains(name));
            let j = choose|j: int| 0 <= j < kept.len() && kept[j] == name;
            assert(names_at(nodes, roots)[j] == nodes[roots[j] as int].component.name);
            assert(nodes2[roots[j] as int] == nodes[roots[j] as int]);
            reveal(building);
            let x = roots[j] as int;
            if x < id {
                assert(nodes2[x].component.name != nodes2[id as int].component.name);
            } else if id < x {
                assert(nodes2[id as int].component.name != nodes2[x].component.name);
            }
            assert(roots[j] == id);
        }
        assert(first_occurrences(next) == kept.push(name));
    }
    assert(names_at(nodes2, roots2) =~= first_occurrences(next)) by {
        assert forall|r: int| 0 <= r < roots2.len() implies names_at(nodes2, roots2)[r]
            == first_occurrences(next)[r] by {
            if r < roots.len() {
                assert(roots2[r] == roots[r]);
                assert(nodes2[roots[r] as int] == nodes[roots[r] as int]);
                assert(names_at(nodes, roots)[r] == nodes[roots[r] as int].component.name);
            }
        }
    }
    // Every node is still attached.
    assert(attached(nodes2, roots2)) by {
        if roots.contains(id) {
            let more = roots.push(id);
            assert forall|j: int| 0 <= j < more.len() implies roots.contains(
                #[trigger] more[j],
            ) by {
                if j < roots.len() {
                    assert(roots[j] == more[j]);
                }
            }
            lemma_attached_more(nodes2, nodes2, more, roots);
        }
    }
}

/// A requirement that names no component changes nothing.
proof fn lemma_progress_skip(
    cfg: ConfigFileView,
    marks: Seq<Mark>,
    nodes: Seq<DependencyTreeView>,
    roots: Seq<usize>,
    p: int,
    k: int,
)
    requires
        progress(cfg, marks, nodes, roots, p, k),
        0 <= p < cfg.image.partitions.len(),
        0 <= k < cfg.image.partitions[p].requires.len(),
        !names_of(cfg).contains(cfg.image.partitions[p].requires[k]),
    ensures
        progress(cfg, marks, nodes, roots, p, k + 1),
{
    let names = names_of(cfg);
    let name = cfg.image.partitions[p].requires[k];
    assert(covered(cfg, marks, roots, p, k)) by {
        assert forall|x: int| #[trigger]
            defines(cfg, cfg.image.partitions[p].requires[k], x) implies false by {
            assert(names_of(cfg)[x] == cfg.image.partitions[p].requires[k]);
        }
    }
    let before = needs_so_far(cfg, p, k);
    let after = needs_so_far(cfg, p, k + 1);
    assert(after =~= before.push(name));
    lemma_resolved_prefix(names, after, before, before.len() as int);
    assert(resolved(names, after, after.len() as int) == resolved(
        names,
        before,
        before.len() as int,
    ));
}

/// With one partition dealt with, the next one begins.
proof fn lemma_progress_next(
    cfg: ConfigFileView,
    marks: Seq<Mark>,
    nodes: Seq<DependencyTreeView>,
    roots: Seq<usize>,
    p: int,
)
    requires
        0 <= p < cfg.image.partitions.len(),
        progress(cfg, marks, nodes, roots, p, cfg.image.partitions[p].requires.len() as int),
    ensures
        progress(cfg, marks, nodes, roots, p + 1, 0),
{
    let needs = cfg.image.partitions[p].requires;
    assert(needs.take(needs.len() as int) =~= needs);
    assert(needs_so_far(cfg, p, needs.len() as int) =~= needs_so_far(cfg, p + 1, 0));
}

/// Following one more edge from a node that is reached reaches further.
proof fn lemma_reaches_on(nodes: Seq<DependencyTreeView>, x: int, a: int, k: int)
    requires
        node_reaches(nodes, x, a),
        0 <= a < nodes.len(),
        0 <= k < nodes[a].dependencies.len(),
        nodes[a].dependencies[k] < a,
    ensures
        node_reaches(nodes, x, nodes[a].dependencies[k] as int),
    decreases x,
{
    let b = nodes[a].dependencies[k] as int;
    if x == a {
        assert(node_reaches(nodes, b, b));
    } else {
        let h = choose|h: int|
            #![trigger nodes[x].dependencies[h]]
            0 <= h < nodes[x].dependencies.len() && nodes[x].dependencies[h] < x && node_reaches(
                nodes,
                nodes[x].dependencies[h] as int,
                a,
            );
        lemma_reaches_on(nodes, nodes[x].dependencies[h] as int, a, k);
    }
}

/// Every node that has a later node depending on it, or is a root, is reached
/// from a root.
proof fn lemma_connected(nodes: Seq<DependencyTreeView>, roots: Seq<usize>, id: int)
    requires
        attached(nodes, roots),
        0 <= id < nodes.len() <= usize::MAX,
    ensures
        (DependencyGraphView { nodes, roots }).needed(id),
    decreases nodes.len() - id,
{
    let graph = DependencyGraphView { nodes, roots };
    if has_parent(nodes, id) {
        let (a, k) = choose|a: int, k: int|
            id < a < nodes.len() && 0 <= k < nodes[a].dependencies.len()
                && #[trigger] nodes[a].dependencies[k] == id;
        lemma_connected(nodes, roots, a);
        let r = choose|r: int|
            0 <= r < roots.len() && node_reaches(nodes, (#[trigger] graph.roots[r]) as int, a);
        lemma_reaches_on(nodes, roots[r] as int, a, k);
        assert(node_reaches(nodes, graph.roots[r] as int, id));
    } else {
        assert(roots.contains(id as usize));
        let r = choose|r: int| 0 <= r < roots.len() && roots[r] == id as usize;
        assert(node_reaches(nodes, graph.roots[r] as int, id));
    }
}

/// With every requirement of every partition dealt with, the graph is the
/// one that the manifest describes, and the manifest holds no circle.
proof fn lemma_finish(
    cfg: ConfigFileView,
    marks: Seq<Mark>,
    nodes: Seq<DependencyTreeView>,
    roots: Seq<usize>,
)
    requires
        progress(cfg, marks, nodes, roots, cfg.image.partitions.len() as int, 0),
        nodes.len() <= usize::MAX,
    ensures
        (DependencyGraphView { nodes, roots }).wf(),
        (DependencyGraphView { nodes, roots }).describes(cfg),
        !has_cycle(cfg),
{
    let graph = DependencyGraphView { nodes, roots };
    assert forall|c: int| #[trigger] top_level(cfg, c) implies 0 <= c < marks.len() && marks[c]
        is Done && roots.contains(marks[c]->Done_0) by {
        let (p, k) = choose|p: int, k: int|
            0 <= p < cfg.image.partitions.len() && 0 <= k
                < cfg.image.partitions[p].requires.len() && defines(
                cfg,
                #[trigger] cfg.image.partitions[p].requires[k],
                c,
            );
        assert(covered(cfg, marks, roots, p, k));
    }
    lemma_acyclic(cfg, marks, nodes);
    reveal(building);
    assert forall|i: int, k: int|
        0 <= i < nodes.len() && 0 <= k < nodes[i].dependencies.len() implies (
    #[trigger] nodes[i].dependencies[k]) < i by {
        assert(node_describes(cfg, nodes, i));
    }
    assert forall|c: int| #[trigger] top_level(cfg, c) implies graph.has_root(
        cfg.components[c].name,
    ) by {
        let r = choose|r: int| 0 <= r < roots.len() && roots[r] == marks[c]->Done_0;
        assert(mark_fits(cfg, marks, nodes, Seq::<int>::empty(), c));
        assert(nodes[roots[r] as int].component.name == cfg.components[c].name);
    }
    assert forall|r: int| 0 <= r < roots.len() implies #[trigger] graph.root_is_required(
        cfg,
        r,
    ) by {
        assert(justified(cfg, nodes, roots[r] as int));
    }
    let all = cfg.image.partitions.len() as int;
    assert(needs_so_far(cfg, all, 0) =~= partition_needs(cfg, all));
    assert(graph.root_names() =~= names_at(nodes, roots));
    assert forall|id: int| 0 <= id < nodes.len() implies #[trigger] graph.needed(id) by {
        lemma_connected(nodes, roots, id);
    }
}

/// Builds the dependency graph of a manifest.
///
/// Every component that a partition requires, directly or through other
/// components, gets exactly one node, built after the nodes it depends on,
/// and no other component gets one. A requirement of a partition that names
/// no component is passed over; one of a component is kept as a source input.
/// The roots are the nodes of the components that the partitions require
/// directly, in the order in which they are first required. The build fails
/// with `LoopError` exactly when the requirements lead in a circle that some
/// partition reaches.
pub fn build_dependency_graph(config: &ConfigFile) -> (r: Result<DependencyGraph, BuildError>)
    ensures
        match r {
            Ok(graph) => graph@.wf() && graph@.describes(config@) && !has_cycle(config@),
            Err(e) => e == BuildError::LoopError && has_cycle(config@),
        },
{
    let ghost cfg = config@;
    let mut marks: Vec<Mark> = Vec::new();
    let mut i: usize = 0;
    while i < config.components.len()
        invariant
            i <= config.components.len(),
            marks@.len() == i,
            forall|c: int| 0 <= c < i ==> marks@[c] is Unvisited,
        decreases config.components.len() - i,
    {
        marks.push(Mark::Unvisited);
        i += 1;
    }
    let mut nodes: Vec<DependencyTree> = Vec::new();
    let mut roots: Vec<usize> = Vec::new();
    proof {
        assert(node_views(nodes@) =~= Seq::<DependencyTreeView>::empty());
        lemma_start(cfg, marks@);
        assert(needs_so_far(cfg, 0, 0) =~= Seq::<Seq<char>>::empty());
        assert(names_at(node_views(nodes@), roots@) =~= Seq::<Seq<char>>::empty());
    }
    let mut p: usize = 0;
    while p < config.image.partitions.len()
        invariant
            cfg == config@,
            p <= config.image.partitions.len(),
            marks@.len() == config.components.len(),
            progress(cfg, marks@, node_views(nodes@), roots@, p as int, 0),
        decreases config.image.partitions.len() - p,
    {
        let partition = &config.image.partitions[p];
        assert(partition@ == cfg.image.partitions[p as int]);
        let mut k: usize = 0;
        while k < partition.requires.len()
            invariant
                cfg == config@,
                p < config.image.partitions.len(),
                *partition == config.image.partitions@[p as int],
                partition.requires.deep_view() == cfg.image.partitions[p as int].requires,
                k <= partition.requires.len(),
                marks@.len() == config.components.len(),
                progress(cfg, marks@, node_views(nodes@), roots@, p as int, k as int),
            decreases partition.requires.len() - k,
        {
            let name = &partition.requires[k];
            assert(name@ == cfg.image.partitions[p as int].requires[k as int]);
            let ghost marks1 = marks@;
            let ghost nodes1 = node_views(nodes@);
            let ghost roots1 = roots@;
            match find_component(&config.components, name.as_str()) {
                Some(c) => {
                    proof {
                        assert(defines(
                            cfg,
                            cfg.image.partitions[p as int].requires[k as int],
                            c as int,
                        ));
                        assert(top_level(cfg, c as int));
                        let walk = Seq::<int>::empty().push(c as int);
                        assert(is_walk(cfg, walk));
                    }
                    match build_step(
                        config,
                        c,
                        &mut marks,
                        &mut nodes,
                        Ghost(Seq::empty()),
                        Ghost(roots1),
                    ) {
                        Ok(id) => {
                            if !contains_id(&roots, id) {
                                roots.push(id);
                            }
                            proof {
                                lemma_progress(
                                    cfg,
                                    marks1,
                                    nodes1,
                                    roots1,
                                    marks@,
                                    node_views(nodes@),
                                    roots@,
                                    p as int,
                                    k as int,
                                    c as int,
                                    id,
                                );
                            }
                        },
                        Err(e) => {
                            return Err(e);
                        },
                    }
                },
                None => {
                    proof {
                        lemma_progress_skip(cfg, marks1, nodes1, roots1, p as int, k as int);
                    }
                },
            }
            k += 1;
        }
        proof {
            lemma_progress_next(cfg, marks@, node_views(nodes@), roots@, p as int);
        }
        p += 1;
    }
    proof {
        assert(node_views(nodes@).len() == nodes.len());
        lemma_finish(cfg, marks@, node_views(nodes@), roots@);
    }
    Ok(DependencyGraph { nodes, roots })
}

/// In a well-formed graph a component name belongs to one node only, so every
/// parent that requires a component reaches the same node.
pub proof fn lemma_shared_nodes(graph: DependencyGraphView, a: int, k: int, b: int, h: int)
    requires
        graph.wf(),
        0 <= a < graph.nodes.len(),
        0 <= b < graph.nodes.len(),
        0 <= k < graph.nodes[a].dependencies.len(),
        0 <= h < graph.nodes[b].dependencies.len(),
        graph.nodes[graph.nodes[a].dependencies[k] as int].component.name
            == graph.nodes[graph.nodes[b].dependencies[h] as int].component.name,
    ensures
        graph.nodes[a].dependencies[k] == graph.nodes[b].dependencies[h],
{
    let x = graph.nodes[a].dependencies[k] as int;
    let y = graph.nodes[b].dependencies[h] as int;
    if x < y {
        assert(graph.nodes[x].component.name != graph.nodes[y].component.name);
    } else if y < x {
        assert(graph.nodes[y].component.name != graph.nodes[x].component.name);
    }
}

impl DependencyGraph {
    /// How many nodes the graph holds.
    pub fn len(&self) -> (r: usize)
        ensures
            r == self@.nodes.len(),
    {
        self.nodes.len()
    }

    /// The index of the node that holds the component of the given name. In a
    /// well-formed graph there is at most one.
    pub fn find_node(&self, name: &str) -> (r: Option<usize>)
        ensures
            match r {
                Some(id) => id < self@.nodes.len() && self@.nodes[id as int].component.name
                    == name@ && forall|j: int|
                    0 <= j < id ==> (#[trigger] self@.nodes[j]).component.name != name@,
                None => !self@.has_node(name@),
            },
    {
        let mut i: usize = 0;
        while i < self.nodes.len()
            invariant
                i <= self.nodes.len(),
                forall|j: int| 0 <= j < i ==> (#[trigger] self@.nodes[j]).component.name != name@,
            decreases self.nodes.len() - i,
        {
            if str_eq(self.nodes[i].component.name.as_str(), name) {
                return Some(i);
            }
            i += 1;
        }
        None
    }

    /// The root of the dependency subtree of a top-level component: the index
    /// of the first root that holds the component of the given name.
    pub fn root_of(&self, name: &str) -> (r: Option<usize>)
        ensures
            match r {
                Some(id) => self@.roots.contains(id) && id < self@.nodes.len()
                    && self@.nodes[id as int].component.name == name@,
                None => forall|j: int|
                    0 <= j < self@.roots.len() && (#[trigger] self@.roots[j]) < self@.nodes.len()
                        ==> self@.nodes[self@.roots[j] as int].component.name != name@,
            },
    {
        let mut i: usize = 0;
        while i < self.roots.len()
            invariant
                i <= self.roots.len(),
                forall|j: int|
                    0 <= j < i && (#[trigger] self@.roots[j]) < self@.nodes.len()
                        ==> self@.nodes[self@.roots[j] as int].component.name != name@,
            decreases self.roots.len() - i,
        {
            let id = self.roots[i];
            if id < self.nodes.len() && str_eq(self.nodes[id].component.name.as_str(), name) {
                return Some(id);
            }
            i += 1;
        }
        None
    }
}

} // verus!
