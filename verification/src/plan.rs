//! The build of an image, up to the point where resources are acquired: the
//! manifest is merged with its imports and checked, and the dependency graph
//! is laid out.

use crate::config::component_views;
use crate::config::ConfigFile;
use crate::config::ConfigFileView;
use crate::config::ImportableModule;
use crate::error::BuildError;
use crate::error::BuildErrorView;
use crate::graph::build_dependency_graph;
use crate::graph::has_cycle;
use crate::graph::is_first_at;
use crate::graph::resolved;
use crate::graph::DependencyGraph;
use crate::graph::DependencyGraphView;
use crate::manifest::check_duplicates;
use crate::manifest::component_names;
use crate::manifest::first_occurrences;
use crate::manifest::first_repeat_at;
use crate::manifest::lemma_first_occurrences;
use crate::manifest::lemma_duplicates_rejected;
use crate::manifest::merge_modules;
use crate::manifest::module_components;
use vstd::prelude::*;

verus! {

/// What a build works from once its manifest is resolved.
#[derive(Debug, Clone, PartialEq, Eq)]
pub struct BuildPlan {
    /// The manifest, with the components of every imported module merged in.
    pub config: ConfigFile,
    /// The dependency graph of the components that the partitions need.
    pub graph: DependencyGraph,
    /// For every partition, in order, the nodes of the components that it
    /// requires directly, each once.
    pub partitions: Vec<Vec<usize>>,
}

/// A manifest with the components of imported modules behind its own.
pub open spec fn merged(config: ConfigFileView, modules: Seq<ImportableModule>) -> ConfigFileView {
    ConfigFileView { components: config.components + module_components(modules), ..config }
}

/// The names of the components that the nodes of a graph hold, in order.
pub open spec fn node_names(graph: DependencyGraphView) -> Seq<Seq<char>> {
    Seq::new(graph.nodes.len(), |i: int| graph.nodes[i].component.name)
}

/// The names of the components that a partition with the given requirements
/// needs directly: the requirements that have a node in the graph, each once,
/// in the order in which they first occur.
pub open spec fn needed_names(graph: DependencyGraphView, needs: Seq<Seq<char>>) -> Seq<Seq<char>> {
    first_occurrences(resolved(node_names(graph), needs, needs.len() as int))
}

/// Whether `ids` are the nodes of the components that a partition with the
/// given requirements needs directly: one node for each needed name, in the
/// order of the names, and for each name the first node that holds it.
pub open spec fn partition_nodes(
    graph: DependencyGraphView,
    needs: Seq<Seq<char>>,
    ids: Seq<usize>,
) -> bool {
    &&& ids.len() == needed_names(graph, needs).len()
    &&& forall|i: int|
        0 <= i < ids.len() ==> is_first_at(
            node_names(graph),
            needed_names(graph, needs)[i],
            (#[trigger] ids[i]) as int,
        )
}

/// The nodes of the components that a partition with the given requirements
/// needs directly.
pub fn partition_roots(graph: &DependencyGraph, needs: &Vec<String>) -> (r: Vec<usize>)
    ensures
        partition_nodes(graph@, needs.deep_view(), r@),
{
    let ghost names = node_names(graph@);
    let ghost wanted = needs.deep_view();
    let mut ids: Vec<usize> = Vec::new();
    let mut k: usize = 0;
    while k < needs.len()
        invariant
            k <= needs.len(),
            names == node_names(graph@),
            wanted == needs.deep_view(),
            ids@.len() == first_occurrences(resolved(names, wanted, k as int)).len(),
            forall|i: int|
                0 <= i < ids@.len() ==> is_first_at(
                    names,
                    first_occurrences(resolved(names, wanted, k as int))[i],
                    (#[trigger] ids@[i]) as int,
                ),
        decreases needs.len() - k,
    {
        let ghost name = wanted[k as int];
        let ghost seen = resolved(names, wanted, k as int);
        let ghost kept = first_occurrences(seen);
        let ghost before = ids@;
        assert(needs@[k as int]@ == name);
        proof {
            lemma_first_occurrences(seen);
        }
        match graph.find_node(needs[k].as_str()) {
            Some(id) => {
                assert(names[id as int] == name);
                assert(names.contains(name));
                assert(is_first_at(names, name, id as int));
                let ghost next = seen.push(name);
                assert(resolved(names, wanted, k + 1) == next);
                assert(next.drop_last() =~= seen);
                let mut known = false;
                let mut i: usize = 0;
                while i < ids.len()
                    invariant
                        i <= ids.len(),
                        known <==> exists|j: int| 0 <= j < i && ids@[j] == id,
                    decreases ids.len() - i,
                {
                    if ids[i] == id {
                        known = true;
                    }
                    i += 1;
                }
                proof {
                    if known {
                        let j = choose|j: int| 0 <= j < before.len() && before[j] == id;
                        assert(is_first_at(names, kept[j], before[j] as int));
                        assert(kept[j] == name);
                        assert(kept.contains(name));
                        assert(seen.contains(name));
                    } else {
                        if seen.contains(name) {
                            assert(kept.contains(name));
                            let j = choose|j: int| 0 <= j < kept.len() && kept[j] == name;
                            assert(is_first_at(names, kept[j], before[j] as int));
                            assert(before[j] == id);
                        }
                    }
                }
                if !known {
                    ids.push(id);
                    assert(first_occurrences(next) == kept.push(name));
                } else {
                    assert(first_occurrences(next) == kept);
                }
            },
            None => {
                assert forall|i: int| 0 <= i < names.len() implies names[i] != name by {
                    assert(graph@.nodes[i].component.name == names[i]);
                    if names[i] == name {
                        assert(graph@.has_node(name));
                    }
                }
                assert(!names.contains(name));
                assert(resolved(names, wanted, k + 1) == seen);
            },
        }
        k += 1;
    }
    ids
}

/// Resolves a manifest into the plan of its build.
///
/// The components of the imported modules are merged in behind the
/// manifest's own, in the order given. The build is rejected with
/// `DuplicateComponentName` if two components then share a name, and
/// otherwise with `LoopError` if the requirements of the components that some
/// partition needs lead in a circle. In every other case the plan holds the
/// merged manifest, its dependency graph, and the top-level nodes of each
/// partition.
pub fn build(config: ConfigFile, modules: Vec<ImportableModule>) -> (r: Result<
    BuildPlan,
    BuildError,
>)
    ensures
        ({
            let full = merged(config@, modules@);
            let names = component_names(full.components);
            match r {
                Ok(plan) => {
                    &&& names.no_duplicates()
                    &&& !has_cycle(full)
                    &&& plan.config@ == full
                    &&& plan.graph@.wf()
                    &&& plan.graph@.describes(full)
                    &&& plan.partitions@.len() == full.image.partitions.len()
                    &&& forall|p: int|
                        0 <= p < plan.partitions@.len() ==> partition_nodes(
                            plan.graph@,
                            full.image.partitions[p].requires,
                            (#[trigger] plan.partitions@[p])@,
                        )
                },
                Err(e) => if !names.no_duplicates() {
                    exists|j: int|
                        first_repeat_at(names, j) && e@ == BuildErrorView::DuplicateComponentName(
                            #[trigger] names[j],
                        )
                } else {
                    e == BuildError::LoopError && has_cycle(full)
                },
            }
        }),
{
    let ghost full = merged(config@, modules@);
    let ghost names = component_names(full.components);
    let mut config = config;
    merge_modules(&mut config, modules);
    assert(config@ == full);
    assert(component_views(config.components@) == full.components);
    proof {
        lemma_duplicates_rejected(names);
    }
    match check_duplicates(&config.components) {
        Ok(()) => {},
        Err(e) => {
            return Err(e);
        },
    }
    let graph = match build_dependency_graph(&config) {
        Ok(graph) => graph,
        Err(e) => {
            return Err(e);
        },
    };
    let mut partitions: Vec<Vec<usize>> = Vec::new();
    let mut p: usize = 0;
    while p < config.image.partitions.len()
        invariant
            p <= config.image.partitions.len(),
            config@ == full,
            partitions@.len() == p,
            forall|q: int|
                0 <= q < p ==> partition_nodes(
                    graph@,
                    full.image.partitions[q].requires,
                    (#[trigger] partitions@[q])@,
                ),
        decreases config.image.partitions.len() - p,
    {
        let ids = partition_roots(&graph, &config.image.partitions[p].requires);
        assert(config.image.partitions@[p as int]@ == full.image.partitions[p as int]);
        partitions.push(ids);
        p += 1;
    }
    Ok(BuildPlan { config, graph, partitions })
}

} // verus!
