//! The component build scheduler.
//!
//! The scheduler keeps the status of every node of the dependency graph and
//! decides, one short step at a time, what a worker that has reached a node
//! does next. It never runs a command itself: it hands the command out, at
//! most once per node, and is told how the command ended.

use crate::builder::build_command;
use crate::builder::command_args;
use crate::builder::command_program;
use crate::builder::ArtifactList;
use crate::builder::ArtifactListView;
use crate::builder::BuildCommand;
use crate::builder::BuildCommandView;
use crate::populate::list_views;
use crate::config::copy_strings;
use crate::error::BuildError;
use crate::error::BuildErrorView;
use crate::graph::node_reaches;
use crate::graph::node_views;
use crate::graph::BuildStatus;
use crate::graph::BuildStatusView;
use crate::graph::DependencyGraph;
use crate::graph::DependencyTree;
use crate::graph::DependencyTreeView;
use vstd::prelude::*;

verus! {

/// The scheduler's state as a mathematical value.
pub struct SchedulerView {
    /// The nodes of the graph, each with its status.
    pub nodes: Seq<DependencyTreeView>,
    /// How often each node's build command was handed out.
    pub invocations: Seq<u64>,
    /// For each failed node, the node whose own command failed: the node
    /// itself, or the one on which it depends, directly or not.
    pub causes: Seq<Option<usize>>,
}

impl SchedulerView {
    /// Whether every edge from the node at `id` leads to an earlier node.
    pub open spec fn leads_back(self, id: int) -> bool {
        forall|k: int|
            0 <= k < self.nodes[id].dependencies.len() ==> (
            #[trigger] self.nodes[id].dependencies[k]) < id
    }

    /// Whether every dependency of the node at `id` has been built.
    pub open spec fn deps_succeeded(self, id: int) -> bool {
        forall|k: int|
            0 <= k < self.nodes[id].dependencies.len() ==> self.nodes[(
            #[trigger] self.nodes[id].dependencies[k]) as int].status is Success
    }

    /// Whether the dependency `k` of the node at `id` has failed.
    pub open spec fn dep_failed(self, id: int, k: int) -> bool {
        &&& 0 <= k < self.nodes[id].dependencies.len()
        &&& self.nodes[self.nodes[id].dependencies[k] as int].status is Failure
    }

    /// Whether the dependency `k` of the node at `id` is the first that has
    /// failed.
    pub open spec fn first_failed(self, id: int, k: int) -> bool {
        &&& self.dep_failed(id, k)
        &&& forall|h: int| 0 <= h < k ==> !self.dep_failed(id, h)
    }

    /// What a successful build of the node at `id` yields: the artifacts that
    /// its component declares, under the component's name.
    pub open spec fn yields(self, id: int) -> ArtifactListView {
        ArtifactListView {
            component: self.nodes[id].component.name,
            artifacts: self.nodes[id].component.yields,
        }
    }

    /// Whether the record of the node at `id` is consistent with its status.
    ///
    /// A command is handed out at most once, and only when every dependency
    /// has been built. A built node's command was handed out exactly once. A
    /// failed node either had its own command fail, or has a failed dependency
    /// whose cause it shares, and then its own command was never handed out.
    pub open spec fn node_wf(self, id: int) -> bool {
        &&& self.leads_back(id)
        &&& match self.nodes[id].status {
            BuildStatusView::NotStarted => self.invocations[id] == 0 && self.causes[id] is None,
            BuildStatusView::InProgress => self.causes[id] is None && (self.invocations[id] == 0
                || (self.invocations[id] == 1 && self.deps_succeeded(id))),
            BuildStatusView::Success(list) => self.invocations[id] == 1 && self.causes[id]
                is None && self.deps_succeeded(id) && list == self.yields(id),
            BuildStatusView::Failure => self.causes[id] matches Some(c) && if c == id {
                self.invocations[id] == 1 && self.deps_succeeded(id)
            } else {
                self.invocations[id] == 0 && exists|k: int|
                    #![trigger self.nodes[id].dependencies[k]]
                    self.dep_failed(id, k) && self.causes[self.nodes[id].dependencies[k] as int]
                        == Some(c)
            },
        }
    }

    /// Whether the scheduler's state is consistent.
    pub open spec fn wf(self) -> bool {
        &&& self.invocations.len() == self.nodes.len()
        &&& self.causes.len() == self.nodes.len()
        &&& forall|id: int| 0 <= id < self.nodes.len() ==> #[trigger] self.node_wf(id)
    }

    /// This state with another status for the node at `id`.
    pub open spec fn with_status(self, id: int, status: BuildStatusView) -> SchedulerView {
        SchedulerView {
            nodes: self.nodes.update(id, DependencyTreeView { status, ..self.nodes[id] }),
            ..self
        }
    }

    /// This state with the command of the node at `id` handed out once more.
    pub open spec fn with_invocation(self, id: int) -> SchedulerView {
        SchedulerView {
            invocations: self.invocations.update(id, (self.invocations[id] + 1) as u64),
            ..self
        }
    }

    /// This state with a cause of failure for the node at `id`.
    pub open spec fn with_cause(self, id: int, cause: usize) -> SchedulerView {
        SchedulerView { causes: self.causes.update(id, Some(cause)), ..self }
    }

    /// Whether the node at `id` waits for its dependencies: it is in progress
    /// and its command has not been handed out.
    pub open spec fn pending(self, id: int) -> bool {
        self.nodes[id].status is InProgress && self.invocations[id] == 0
    }

    /// Whether the node at `id` runs its command: it is in progress and its
    /// command has been handed out.
    pub open spec fn running(self, id: int) -> bool {
        self.nodes[id].status is InProgress && self.invocations[id] == 1
    }

    /// The error that a failed node surfaces: the failed dependency is the
    /// component whose own command failed.
    pub open spec fn failure(self, id: int) -> BuildErrorView
        recommends
            self.causes[id] is Some,
    {
        BuildErrorView::FailedDependency(self.nodes[self.causes[id]->Some_0 as int].component.name)
    }

    /// Whether the node at `a` depends on the node at `b` through any number of
    /// edges, none included.
    pub open spec fn reaches(self, a: int, b: int) -> bool {
        node_reaches(self.nodes, a, b)
    }
}

/// What a worker that has reached a node does next.
#[derive(Debug, Clone, PartialEq, Eq)]
pub enum Decision {
    /// The node was not started and is now in progress, in this worker's
    /// hands: build the nodes at these indices, then ask to go on.
    Start(Vec<usize>),
    /// Another worker has the node in hand: come back later.
    Wait,
    /// The node is built: these are its artifacts.
    Done(ArtifactList),
    /// The node has failed.
    Failed(BuildError),
}

pub enum DecisionView {
    Start(Seq<usize>),
    Wait,
    Done(ArtifactListView),
    Failed(BuildErrorView),
}

impl View for Decision {
    type V = DecisionView;

    open spec fn view(&self) -> DecisionView {
        match self {
            Decision::Start(deps) => DecisionView::Start(deps@),
            Decision::Wait => DecisionView::Wait,
            Decision::Done(list) => DecisionView::Done(list@),
            Decision::Failed(e) => DecisionView::Failed(e@),
        }
    }
}

/// How a node that waits for its dependencies goes on.
#[derive(Debug, Clone, PartialEq, Eq)]
pub enum Step {
    /// Every dependency is built: run this command, then report how it ended.
    Invoke(BuildCommand),
    /// Some dependency is not settled yet, and none has failed: come back
    /// later.
    Wait,
    /// A dependency has failed, and with it this node.
    Failed(BuildError),
    /// The node does not wait for its dependencies: nothing to do.
    Idle,
}

pub enum StepView {
    Invoke(BuildCommandView),
    Wait,
    Failed(BuildErrorView),
    Idle,
}

impl View for Step {
    type V = StepView;

    open spec fn view(&self) -> StepView {
        match self {
            Step::Invoke(command) => StepView::Invoke(command@),
            Step::Wait => StepView::Wait,
            Step::Failed(e) => StepView::Failed(e@),
            Step::Idle => StepView::Idle,
        }
    }
}

/// The nodes of a graph with every status set back to not started.
pub open spec fn fresh(nodes: Seq<DependencyTreeView>) -> Seq<DependencyTreeView> {
    Seq::new(
        nodes.len(),
        |i: int| DependencyTreeView { status: BuildStatusView::NotStarted, ..nodes[i] },
    )
}

/// Whether every edge of a graph leads to an earlier node.
pub open spec fn edges_lead_back(nodes: Seq<DependencyTreeView>) -> bool {
    forall|i: int, k: int|
        0 <= i < nodes.len() && 0 <= k < nodes[i].dependencies.len() ==> (
        #[trigger] nodes[i].dependencies[k]) < i
}

/// Schedules the builds of one dependency graph.
#[derive(Debug)]
pub struct Scheduler {
    nodes: Vec<DependencyTree>,
    invocations: Vec<u64>,
    causes: Vec<Option<usize>>,
}

impl View for Scheduler {
    type V = SchedulerView;

    closed spec fn view(&self) -> SchedulerView {
        SchedulerView {
            nodes: node_views(self.nodes@),
            invocations: self.invocations@,
            causes: self.causes@,
        }
    }
}

/// A step that changes nothing but the record of one node, which was not
/// settled before, keeps the state consistent if that record is.
pub proof fn lemma_transition(before: SchedulerView, after: SchedulerView, id: int)
    requires
        before.wf(),
        0 <= id < before.nodes.len(),
        before.nodes[id].status is NotStarted || before.nodes[id].status is InProgress,
        after.nodes.len() == before.nodes.len(),
        after.invocations.len() == before.nodes.len(),
        after.causes.len() == before.nodes.len(),
        forall|x: int|
            0 <= x < before.nodes.len() && x != id ==> #[trigger] after.nodes[x]
                == before.nodes[x],
        forall|x: int|
            0 <= x < before.nodes.len() && x != id ==> #[trigger] after.invocations[x]
                == before.invocations[x],
        forall|x: int|
            0 <= x < before.nodes.len() && x != id ==> #[trigger] after.causes[x]
                == before.causes[x],
        after.nodes[id].dependencies == before.nodes[id].dependencies,
        after.nodes[id].component == before.nodes[id].component,
        after.node_wf(id),
    ensures
        after.wf(),
{
    assert forall|y: int| 0 <= y < after.nodes.len() implies #[trigger] after.node_wf(y) by {
        if y != id {
            assert(before.node_wf(y));
            assert(after.nodes[y] == before.nodes[y]);
            assert(after.invocations[y] == before.invocations[y]);
            assert(after.causes[y] == before.causes[y]);
            let deps = before.nodes[y].dependencies;
            if before.deps_succeeded(y) {
                assert forall|k: int| 0 <= k < deps.len() implies after.nodes[(
                #[trigger] after.nodes[y].dependencies[k]) as int].status is Success by {
                    let d = before.nodes[y].dependencies[k] as int;
                    assert(before.nodes[d].status is Success);
                    assert(d != id);
                    assert(after.nodes[d] == before.nodes[d]);
                }
            }
            if before.nodes[y].status is Failure && before.causes[y] != Some(y as usize) {
                let c = before.causes[y]->Some_0;
                let k = choose|k: int|
                    #![trigger before.nodes[y].dependencies[k]]
                    before.dep_failed(y, k) && before.causes[before.nodes[y].dependencies[k] as int]
                        == Some(c);
                let d = before.nodes[y].dependencies[k] as int;
                assert(d != id);
                assert(after.nodes[d] == before.nodes[d]);
                assert(after.causes[d] == before.causes[d]);
                assert(after.dep_failed(y, k) && after.causes[after.nodes[y].dependencies[k] as int]
                    == Some(c));
            }
        }
    }
}

impl Scheduler {
    /// A scheduler for a graph, with every node not started and no command
    /// handed out.
    ///
    /// Fails with `ReferenceDropped` exactly when some edge of the graph does
    /// not lead to an earlier node.
    pub fn new(graph: DependencyGraph) -> (r: Result<Self, BuildError>)
        ensures
            match r {
                Ok(scheduler) => {
                    &&& edges_lead_back(graph@.nodes)
                    &&& scheduler@.wf()
                    &&& scheduler@.nodes == fresh(graph@.nodes)
                    &&& forall|id: int|
                        0 <= id < scheduler@.nodes.len() ==> scheduler@.invocations[id] == 0
                },
                Err(e) => e == BuildError::ReferenceDropped && !edges_lead_back(graph@.nodes),
            },
    {
        let ghost given = graph@.nodes;
        let mut nodes = graph.nodes;
        let mut invocations: Vec<u64> = Vec::new();
        let mut causes: Vec<Option<usize>> = Vec::new();
        let mut i: usize = 0;
        while i < nodes.len()
            invariant
                given == graph@.nodes,
                i <= nodes.len(),
                nodes.len() == given.len(),
                invocations.len() == i,
                causes.len() == i,
                forall|j: int| 0 <= j < i ==> invocations@[j] == 0 && causes@[j] is None,
                forall|j: int| 0 <= j < i ==> (#[trigger] node_views(nodes@)[j]) == fresh(given)[j],
                forall|j: int|
                    i <= j < nodes.len() ==> (#[trigger] node_views(nodes@)[j]) == given[j],
                forall|j: int, k: int|
                    0 <= j < i && 0 <= k < given[j].dependencies.len() ==> (
                    #[trigger] given[j].dependencies[k]) < j,
            decreases nodes.len() - i,
        {
            let mut k: usize = 0;
            assert(node_views(nodes@)[i as int] == given[i as int]);
            while k < nodes[i].dependencies.len()
                invariant
                    given == graph@.nodes,
                    i < nodes.len(),
                    nodes.len() == given.len(),
                    nodes@[i as int].dependencies@ == given[i as int].dependencies,
                    k <= nodes[i as int].dependencies.len(),
                    forall|h: int| 0 <= h < k ==> (#[trigger] given[i as int].dependencies[h]) < i,
                decreases nodes[i as int].dependencies.len() - k,
            {
                if nodes[i].dependencies[k] >= i {
                    assert(!(given[i as int].dependencies[k as int] < i));
                    return Err(BuildError::ReferenceDropped);
                }
                k += 1;
            }
            let ghost before = node_views(nodes@);
            nodes[i].status = BuildStatus::NotStarted;
            invocations.push(0);
            causes.push(None);
            proof {
                let after = node_views(nodes@);
                assert forall|j: int| 0 <= j < i + 1 implies (#[trigger] after[j]) == fresh(
                    given,
                )[j] by {
                    if j < i {
                        assert(after[j] == before[j]);
                    }
                }
                assert forall|j: int| i + 1 <= j < nodes.len() implies (#[trigger] after[j])
                    == given[j] by {
                    assert(after[j] == before[j]);
                }
            }
            i += 1;
        }
        let scheduler = Scheduler { nodes, invocations, causes };
        proof {
            assert(scheduler@.nodes =~= fresh(given));
            assert forall|id: int|
                0 <= id < scheduler@.nodes.len() implies #[trigger] scheduler@.node_wf(id) by {
                assert(scheduler@.nodes[id] == fresh(given)[id]);
                assert(scheduler@.nodes[id].dependencies == given[id].dependencies);
                assert forall|k: int|
                    0 <= k < scheduler@.nodes[id].dependencies.len() implies (
                #[trigger] scheduler@.nodes[id].dependencies[k]) < id by {
                    assert(given[id].dependencies[k] < id);
                }
                assert(scheduler@.invocations[id] == 0);
                assert(scheduler@.causes[id] is None);
            }
        }
        Ok(scheduler)
    }

    /// How many nodes there are.
    pub fn len(&self) -> (r: usize)
        ensures
            r == self@.nodes.len(),
    {
        self.nodes.len()
    }

    /// The node at `id`, with its status.
    pub fn node(&self, id: usize) -> (r: &DependencyTree)
        requires
            id < self@.nodes.len(),
        ensures
            r@ == self@.nodes[id as int],
    {
        &self.nodes[id]
    }

    /// How often the command of the node at `id` was handed out.
    pub fn invocations(&self, id: usize) -> (r: u64)
        requires
            self@.wf(),
            id < self@.nodes.len(),
        ensures
            r == self@.invocations[id as int],
            r <= 1,
    {
        assert(self@.node_wf(id as int));
        self.invocations[id]
    }

    /// The error that the failed node at `id` surfaces.
    fn failure_of(&self, id: usize) -> (r: BuildError)
        requires
            self@.wf(),
            id < self@.nodes.len(),
            self@.nodes[id as int].status is Failure,
        ensures
            r@ == self@.failure(id as int),
    {
        assert(self@.node_wf(id as int));
        match self.causes[id] {
            Some(c) => {
                proof {
                    if c != id {
                        let k = choose|k: int|
                            #![trigger self@.nodes[id as int].dependencies[k]]
                            self@.dep_failed(id as int, k)
                                && self@.causes[self@.nodes[id as int].dependencies[k] as int]
                                == Some(c);
                        let d = self@.nodes[id as int].dependencies[k] as int;
                        assert(d < id);
                        assert(self@.node_wf(d));
                    }
                    self@.lemma_cause_in_range(id as int);
                }
                BuildError::FailedDependency(self.nodes[c].component.name.clone())
            },
            None => BuildError::ReferenceDropped,
        }
    }

    /// The worker that has the node at `id` in hand asks to go on.
    ///
    /// Only a node that waits for its dependencies can go on. If one of them
    /// has failed, the node fails with the cause of the first that has, and
    /// its command is never handed out. If all of them are built, the command
    /// is handed out, for the only time. Otherwise nothing changes.
    pub fn proceed(&mut self, id: usize) -> (r: Step)
        requires
            old(self)@.wf(),
            id < old(self)@.nodes.len(),
        ensures
            final(self)@.wf(),
            !old(self)@.pending(id as int) ==> r@ == StepView::Idle && final(self)@ == old(self)@,
            old(self)@.pending(id as int) ==> {
                if exists|k: int| old(self)@.dep_failed(id as int, k) {
                    exists|k: int|
                        #![trigger old(self)@.nodes[id as int].dependencies[k]]
                        old(self)@.first_failed(id as int, k) && final(self)@ == old(
                            self,
                        )@.with_status(id as int, BuildStatusView::Failure).with_cause(
                            id as int,
                            old(
                                self,
                            )@.causes[old(self)@.nodes[id as int].dependencies[k] as int]->Some_0,
                        ) && r@ == StepView::Failed(final(self)@.failure(id as int))
                } else if old(self)@.deps_succeeded(id as int) {
                    &&& final(self)@ == old(self)@.with_invocation(id as int)
                    &&& final(self)@.invocations[id as int] == 1
                    &&& r@ == StepView::Invoke(
                        BuildCommandView {
                            program: command_program(
                                old(self)@.nodes[id as int].component.build_mode,
                            ),
                            args: command_args(old(self)@.nodes[id as int].component.build_mode),
                        },
                    )
                } else {
                    r@ == StepView::Wait && final(self)@ == old(self)@
                }
            },
    {
        assert(self@.node_wf(id as int));
        let pending = match &self.nodes[id].status {
            BuildStatus::InProgress => self.invocations[id] == 0,
            _ => false,
        };
        if !pending {
            return Step::Idle;
        }
        let mut all_built = true;
        let mut k: usize = 0;
        while k < self.nodes[id].dependencies.len()
            invariant
                self@ == old(self)@,
                self@.wf(),
                self@.pending(id as int),
                id < self.nodes.len(),
                k <= self.nodes[id as int].dependencies.len(),
                forall|h: int| 0 <= h < k ==> !self@.dep_failed(id as int, h),
                all_built <==> forall|h: int|
                    0 <= h < k ==> self@.nodes[(
                    #[trigger] self@.nodes[id as int].dependencies[h]) as int].status is Success,
            decreases self.nodes[id as int].dependencies.len() - k,
        {
            let dep = self.nodes[id].dependencies[k];
            assert(self@.node_wf(id as int));
            assert(self@.nodes[id as int].dependencies[k as int] == dep);
            assert(dep < id);
            match &self.nodes[dep].status {
                BuildStatus::Failure => {
                    assert(self@.node_wf(dep as int));
                    proof {
                        self@.lemma_cause_in_range(dep as int);
                    }
                    assert(self@.first_failed(id as int, k as int));
                    let cause = match self.causes[dep] {
                        Some(c) => c,
                        None => dep,
                    };
                    self.nodes[id].status = BuildStatus::Failure;
                    self.causes.set(id, Some(cause));
                    proof {
                        let target = old(self)@.with_status(
                            id as int,
                            BuildStatusView::Failure,
                        ).with_cause(id as int, cause);
                        assert(self@.nodes =~= target.nodes);
                        assert(self@.causes =~= target.causes);
                        assert(self@.dep_failed(id as int, k as int));
                        assert(self@.causes[self@.nodes[id as int].dependencies[k as int] as int]
                            == Some(cause));
                        assert(self@.node_wf(id as int));
                        lemma_transition(old(self)@, self@, id as int);
                    }
                    return Step::Failed(self.failure_of(id));
                },
                BuildStatus::Success(_) => {},
                _ => {
                    all_built = false;
                },
            }
            k += 1;
        }
        if all_built {
            self.invocations.set(id, 1);
            proof {
                assert(self@.invocations =~= old(self)@.with_invocation(id as int).invocations);
                assert(self@.deps_succeeded(id as int));
                lemma_transition(old(self)@, self@, id as int);
            }
            Step::Invoke(build_command(&self.nodes[id].component.build_mode))
        } else {
            Step::Wait
        }
    }

    /// The worker that ran the command of the node at `id` reports how it
    /// ended.
    ///
    /// Only a node whose command is running takes a report: it is built, with
    /// the artifacts that its component yields, or has failed by its own
    /// command. The result says whether the report was taken; if not, nothing
    /// changes.
    pub fn finish(&mut self, id: usize, succeeded: bool) -> (r: bool)
        requires
            old(self)@.wf(),
            id < old(self)@.nodes.len(),
        ensures
            final(self)@.wf(),
            r == old(self)@.running(id as int),
            final(self)@ == if !r {
                old(self)@
            } else if succeeded {
                old(self)@.with_status(
                    id as int,
                    BuildStatusView::Success(old(self)@.yields(id as int)),
                )
            } else {
                old(self)@.with_status(id as int, BuildStatusView::Failure).with_cause(
                    id as int,
                    id,
                )
            },
    {
        assert(self@.node_wf(id as int));
        let running = match &self.nodes[id].status {
            BuildStatus::InProgress => self.invocations[id] == 1,
            _ => false,
        };
        if !running {
            return false;
        }
        if succeeded {
            let list = ArtifactList {
                component: self.nodes[id].component.name.clone(),
                artifacts: copy_strings(&self.nodes[id].component.yields),
            };
            self.nodes[id].status = BuildStatus::Success(list);
            proof {
                assert(self@.nodes =~= old(self)@.with_status(
                    id as int,
                    BuildStatusView::Success(old(self)@.yields(id as int)),
                ).nodes);
                assert(self@.deps_succeeded(id as int));
                lemma_transition(old(self)@, self@, id as int);
            }
        } else {
            self.nodes[id].status = BuildStatus::Failure;
            self.causes.set(id, Some(id));
            proof {
                let target = old(self)@.with_status(id as int, BuildStatusView::Failure).with_cause(
                    id as int,
                    id,
                );
                assert(self@.nodes =~= target.nodes);
                assert(self@.causes =~= target.causes);
                assert(self@.deps_succeeded(id as int));
                lemma_transition(old(self)@, self@, id as int);
            }
        }
        true
    }
}

impl SchedulerView {
    /// The cause of a failed node is an existing node, not later than the
    /// failed one.
    pub proof fn lemma_cause_in_range(self, id: int)
        requires
            self.wf(),
            0 <= id < self.nodes.len(),
            self.nodes[id].status is Failure,
        ensures
            self.causes[id] is Some,
            self.causes[id]->Some_0 <= id,
        decreases id,
    {
        assert(self.node_wf(id));
        let c = self.causes[id]->Some_0;
        if c != id {
            let k = choose|k: int|
                #![trigger self.nodes[id].dependencies[k]]
                self.dep_failed(id, k) && self.causes[self.nodes[id].dependencies[k] as int]
                    == Some(c);
            let d = self.nodes[id].dependencies[k] as int;
            assert(d < id);
            self.lemma_cause_in_range(d);
        }
    }
}

impl SchedulerView {
    /// At most once: in every consistent state the command of a node has been
    /// handed out once at most, exactly once if the node is built, and never
    /// if it has not started.
    pub proof fn lemma_at_most_once(self, id: int)
        requires
            self.wf(),
            0 <= id < self.nodes.len(),
        ensures
            self.invocations[id] <= 1,
            self.nodes[id].status is Success ==> self.invocations[id] == 1,
            self.nodes[id].status is NotStarted ==> self.invocations[id] == 0,
    {
        assert(self.node_wf(id));
    }

    /// Dependency order: once the command of a node has been handed out, every
    /// node that it depends on, directly or not, is built.
    pub proof fn lemma_built_before(self, a: int, b: int)
        requires
            self.wf(),
            0 <= a < self.nodes.len(),
            self.invocations[a] == 1,
            self.reaches(a, b),
            a != b,
        ensures
            0 <= b < a,
            self.nodes[b].status is Success,
        decreases a,
    {
        assert(self.node_wf(a));
        let k = choose|k: int|
            #![trigger self.nodes[a].dependencies[k]]
            0 <= k < self.nodes[a].dependencies.len() && self.nodes[a].dependencies[k] < a
                && node_reaches(self.nodes, self.nodes[a].dependencies[k] as int, b);
        let d = self.nodes[a].dependencies[k] as int;
        assert(self.nodes[d].status is Success);
        assert(self.node_wf(d));
        if d != b {
            self.lemma_built_before(d, b);
        }
    }

    /// No node fails without a cause below it: a failed node depends, through
    /// any number of edges, on its cause, and the cause is a node whose own
    /// command was handed out and failed.
    pub proof fn lemma_failure_has_cause(self, a: int)
        requires
            self.wf(),
            0 <= a < self.nodes.len(),
            self.nodes[a].status is Failure,
        ensures
            self.causes[a] is Some,
            0 <= self.causes[a]->Some_0 <= a,
            self.reaches(a, self.causes[a]->Some_0 as int),
            self.nodes[self.causes[a]->Some_0 as int].status is Failure,
            self.causes[self.causes[a]->Some_0 as int] == self.causes[a],
            self.invocations[self.causes[a]->Some_0 as int] == 1,
        decreases a,
    {
        assert(self.node_wf(a));
        let c = self.causes[a]->Some_0;
        if c != a {
            let k = choose|k: int|
                #![trigger self.nodes[a].dependencies[k]]
                self.dep_failed(a, k) && self.causes[self.nodes[a].dependencies[k] as int] == Some(
                    c,
                );
            let d = self.nodes[a].dependencies[k] as int;
            assert(d < a);
            self.lemma_failure_has_cause(d);
            assert(self.reaches(d, c as int));
        }
    }

    /// Failure spreads upwards: a settled node that depends, through any number
    /// of edges, on a failed node has failed too.
    pub proof fn lemma_failure_spreads(self, a: int, c: int)
        requires
            self.wf(),
            0 <= a < self.nodes.len(),
            0 <= c < self.nodes.len(),
            self.reaches(a, c),
            self.nodes[c].status is Failure,
            self.nodes[a].status is Success || self.nodes[a].status is Failure,
        ensures
            self.nodes[a].status is Failure,
        decreases a,
    {
        if a != c {
            assert(self.node_wf(a));
            let k = choose|k: int|
                #![trigger self.nodes[a].dependencies[k]]
                0 <= k < self.nodes[a].dependencies.len() && self.nodes[a].dependencies[k] < a
                    && node_reaches(self.nodes, self.nodes[a].dependencies[k] as int, c);
            let d = self.nodes[a].dependencies[k] as int;
            if self.nodes[a].status is Success {
                assert(self.nodes[d].status is Success);
                self.lemma_failure_spreads(d, c);
            }
        }
    }

    /// Failure propagation: where the command of one node only has failed,
    /// every settled node that depends on it surfaces that node as the failed
    /// dependency, and no node that does not depend on it has failed.
    pub proof fn lemma_failure_propagation(self, a: int, c: int)
        requires
            self.wf(),
            0 <= a < self.nodes.len(),
            0 <= c < self.nodes.len(),
            self.nodes[c].status is Failure,
            forall|x: int|
                0 <= x < self.nodes.len() && #[trigger] self.causes[x] == Some(x as usize) ==> x
                    == c,
        ensures
            self.reaches(a, c) && (self.nodes[a].status is Success || self.nodes[a].status
                is Failure) ==> self.nodes[a].status is Failure && self.failure(a)
                == BuildErrorView::FailedDependency(self.nodes[c].component.name),
            self.nodes[a].status is Failure ==> self.reaches(a, c),
    {
        if self.reaches(a, c) && (self.nodes[a].status is Success || self.nodes[a].status
            is Failure) {
            self.lemma_failure_spreads(a, c);
        }
        if self.nodes[a].status is Failure {
            self.lemma_failure_has_cause(a);
            let cause = self.causes[a]->Some_0 as int;
            assert(self.causes[cause] == Some(cause as usize));
        }
    }
}

/// How far the components that a partition needs have come.
#[derive(Debug, Clone, PartialEq, Eq)]
pub enum PartitionProgress {
    /// All of them are built: these are their artifacts, in the order asked.
    Ready(Vec<ArtifactList>),
    /// None has failed, and some is not built yet.
    Waiting,
    /// One has failed.
    Failed(BuildError),
}

pub enum PartitionProgressView {
    Ready(Seq<ArtifactListView>),
    Waiting,
    Failed(BuildErrorView),
}

impl View for PartitionProgress {
    type V = PartitionProgressView;

    open spec fn view(&self) -> PartitionProgressView {
        match self {
            PartitionProgress::Ready(lists) => PartitionProgressView::Ready(list_views(lists@)),
            PartitionProgress::Waiting => PartitionProgressView::Waiting,
            PartitionProgress::Failed(e) => PartitionProgressView::Failed(e@),
        }
    }
}

impl SchedulerView {
    /// Whether the node at place `k` of `ids` is the first of them that has
    /// failed.
    pub open spec fn first_failure_at(self, ids: Seq<usize>, k: int) -> bool {
        &&& 0 <= k < ids.len()
        &&& self.nodes[ids[k] as int].status is Failure
        &&& forall|h: int|
            0 <= h < k ==> !(self.nodes[(#[trigger] ids[h]) as int].status is Failure)
    }

    /// Whether every one of the nodes `ids` is built.
    pub open spec fn all_built(self, ids: Seq<usize>) -> bool {
        forall|k: int|
            0 <= k < ids.len() ==> self.nodes[(#[trigger] ids[k]) as int].status is Success
    }
}

/// A worker has reached the node at `id` and wants it built: says what the
/// worker does next.
///
/// A node that was not started goes in progress and into this worker's
/// hands, with the list of its dependencies. Nothing else changes: a node
/// in progress means waiting, a built one gives its artifacts, and a failed
/// one the failed dependency.
pub fn build_component(scheduler: &mut Scheduler, id: usize) -> (r: Decision)
    requires
        old(scheduler)@.wf(),
        id < old(scheduler)@.nodes.len(),
    ensures
        final(scheduler)@.wf(),
        match old(scheduler)@.nodes[id as int].status {
            BuildStatusView::NotStarted => {
                &&& r@ == DecisionView::Start(old(scheduler)@.nodes[id as int].dependencies)
                &&& final(scheduler)@ == old(scheduler)@.with_status(
                    id as int,
                    BuildStatusView::InProgress,
                )
            },
            BuildStatusView::InProgress => r@ == DecisionView::Wait && final(scheduler)@ == old(
                scheduler,
            )@,
            BuildStatusView::Success(list) => r@ == DecisionView::Done(list) && final(scheduler)@
                == old(scheduler)@,
            BuildStatusView::Failure => r@ == DecisionView::Failed(
                old(scheduler)@.failure(id as int),
            ) && final(scheduler)@ == old(scheduler)@,
        },
{
    assert(scheduler@.node_wf(id as int));
    match &scheduler.nodes[id].status {
        BuildStatus::NotStarted => {
            let mut deps: Vec<usize> = Vec::new();
            let mut k: usize = 0;
            while k < scheduler.nodes[id].dependencies.len()
                invariant
                    id < scheduler.nodes.len(),
                    k <= scheduler.nodes[id as int].dependencies.len(),
                    deps@ == scheduler.nodes[id as int].dependencies@.take(k as int),
                decreases scheduler.nodes[id as int].dependencies.len() - k,
            {
                deps.push(scheduler.nodes[id].dependencies[k]);
                assert(deps@ =~= scheduler.nodes[id as int].dependencies@.take(k + 1));
                k += 1;
            }
            assert(deps@ =~= scheduler.nodes[id as int].dependencies@);
            scheduler.nodes[id].status = BuildStatus::InProgress;
            proof {
                assert(scheduler@.nodes =~= old(scheduler)@.with_status(
                    id as int,
                    BuildStatusView::InProgress,
                ).nodes);
                lemma_transition(old(scheduler)@, scheduler@, id as int);
            }
            Decision::Start(deps)
        },
        BuildStatus::InProgress => Decision::Wait,
        BuildStatus::Success(list) => Decision::Done(list.duplicate()),
        BuildStatus::Failure => Decision::Failed(scheduler.failure_of(id)),
    }
}


/// Says how far the build of a partition has come, given the nodes of the
/// components that the partition requires directly.
///
/// The build of a partition is over once one of them has failed, and then
/// surfaces the failure of the first that has, or once all of them are
/// built, and then gives their artifacts. Until then it waits.
pub fn build_partition(scheduler: &Scheduler, ids: &Vec<usize>) -> (r: PartitionProgress)
    requires
        scheduler@.wf(),
        forall|k: int| 0 <= k < ids@.len() ==> (#[trigger] ids@[k]) < scheduler@.nodes.len(),
    ensures
        match r@ {
            PartitionProgressView::Failed(e) => exists|k: int|
                #![trigger ids@[k]]
                scheduler@.first_failure_at(ids@, k) && e == scheduler@.failure(ids@[k] as int),
            PartitionProgressView::Ready(lists) => {
                &&& scheduler@.all_built(ids@)
                &&& lists.len() == ids@.len()
                &&& forall|k: int|
                    0 <= k < ids@.len() ==> (#[trigger] lists[k]) == scheduler@.yields(
                        ids@[k] as int,
                    )
            },
            PartitionProgressView::Waiting => !scheduler@.all_built(ids@) && forall|k: int|
                0 <= k < ids@.len() ==> !(scheduler@.nodes[(#[trigger] ids@[k]) as int].status
                    is Failure),
        },
{
    let mut lists: Vec<ArtifactList> = Vec::new();
    let mut waiting = false;
    let mut k: usize = 0;
    while k < ids.len()
        invariant
            k <= ids.len(),
            scheduler@.wf(),
            forall|h: int| 0 <= h < ids@.len() ==> (#[trigger] ids@[h]) < scheduler@.nodes.len(),
            forall|h: int| 0 <= h < k ==> !(scheduler@.nodes[(#[trigger] ids@[h]) as int].status
                is Failure),
            !waiting ==> lists@.len() == k && scheduler@.all_built(ids@.take(k as int)) && forall|
                h: int,
            |
                0 <= h < k ==> (#[trigger] list_views(lists@)[h]) == scheduler@.yields(
                    ids@[h] as int,
                ),
            waiting ==> exists|h: int|
                0 <= h < k && !(scheduler@.nodes[(#[trigger] ids@[h]) as int].status is Success),
        decreases ids.len() - k,
    {
        let id = ids[k];
        assert(ids@[k as int] == id);
        assert(scheduler@.node_wf(id as int));
        let ghost before = list_views(lists@);
        match &scheduler.nodes[id].status {
            BuildStatus::Failure => {
                assert(scheduler@.first_failure_at(ids@, k as int));
                return PartitionProgress::Failed(scheduler.failure_of(id));
            },
            BuildStatus::Success(list) => {
                if !waiting {
                    lists.push(list.duplicate());
                    proof {
                        let now = list_views(lists@);
                        assert forall|h: int| 0 <= h < k + 1 implies (#[trigger] now[h])
                            == scheduler@.yields(ids@[h] as int) by {
                            if h < k {
                                assert(now[h] == before[h]);
                            }
                        }
                        assert forall|h: int| 0 <= h < k + 1 implies scheduler@.nodes[(
                        #[trigger] ids@.take(k + 1)[h]) as int].status is Success by {
                            if h < k {
                                assert(ids@.take(k as int)[h] == ids@[h]);
                            }
                        }
                    }
                }
            },
            _ => {
                waiting = true;
            },
        }
        k += 1;
    }
    if waiting {
        PartitionProgress::Waiting
    } else {
        assert(ids@.take(ids@.len() as int) =~= ids@);
        PartitionProgress::Ready(lists)
    }
}

} // verus!
