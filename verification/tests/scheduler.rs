use imgbuild::builder::build_command;
use imgbuild::builder::clean_before_build;
use imgbuild::builder::ArtifactList;
use imgbuild::builder::BuildCommand;
use imgbuild::config::BuildMode;
use imgbuild::config::CacheMode;
use imgbuild::config::Component;
use imgbuild::config::ConfigFile;
use imgbuild::config::ImageConfig;
use imgbuild::config::ImageFormat;
use imgbuild::config::Partition;
use imgbuild::error::BuildError;
use imgbuild::graph::build_dependency_graph;
use imgbuild::graph::BuildStatus;
use imgbuild::graph::DependencyGraph;
use imgbuild::graph::DependencyTree;
use imgbuild::scheduler::build_component;
use imgbuild::scheduler::build_partition;
use imgbuild::scheduler::Decision;
use imgbuild::scheduler::PartitionProgress;
use imgbuild::scheduler::Scheduler;
use imgbuild::scheduler::Step;

fn unit(name: &str, requires: &[&str]) -> Component {
    Component {
        name: name.to_string(),
        requires: requires.iter().map(|r| r.to_string()).collect(),
        yields: vec![format!("target/{}", name)],
        cache_mode: CacheMode::Normal,
        build_mode: BuildMode::Shell(format!("build {}", name)),
    }
}

fn graph_of(components: Vec<Component>, top: &[&str]) -> DependencyGraph {
    let config = ConfigFile {
        name: "demo".to_string(),
        description: None,
        requires: vec![],
        image: ImageConfig {
            label: "demo".to_string(),
            description: None,
            size: 64,
            format: ImageFormat::Raw,
            partitions: vec![Partition {
                requires: top.iter().map(|r| r.to_string()).collect(),
                label: "root".to_string(),
                size: 64,
                setup: String::new(),
                filesystem: None,
                files: vec![],
            }],
        },
        components,
    };
    build_dependency_graph(&config).unwrap()
}

fn shell_command(name: &str) -> BuildCommand {
    BuildCommand {
        program: "nu".to_string(),
        args: vec!["-c".to_string(), format!("build {}", name)],
    }
}

fn artifacts(name: &str) -> ArtifactList {
    ArtifactList { component: name.to_string(), artifacts: vec![format!("target/{}", name)] }
}

/// Builds the node and everything below it with one worker, and records the
/// order in which commands are handed out. `fails` names the components whose
/// command ends badly.
fn run(scheduler: &mut Scheduler, id: usize, fails: &[&str], order: &mut Vec<String>) -> Result<ArtifactList, BuildError> {
    match build_component(scheduler, id) {
        Decision::Start(deps) => {
            for dep in deps {
                let _ = run(scheduler, dep, fails, order);
            }
            match scheduler.proceed(id) {
                Step::Invoke(_) => {
                    let name = scheduler.node(id).component.name.clone();
                    order.push(name.clone());
                    assert!(scheduler.finish(id, !fails.contains(&name.as_str())));
                },
                Step::Failed(_) => {},
                other => panic!("a single worker never waits: {:?}", other),
            }
            run(scheduler, id, fails, order)
        },
        Decision::Wait => panic!("a single worker never waits"),
        Decision::Done(list) => Ok(list),
        Decision::Failed(e) => Err(e),
    }
}

#[test]
fn a_diamond_builds_its_bottom_once() {
    let graph = graph_of(
        vec![unit("A", &["B", "C"]), unit("B", &["D"]), unit("C", &["D"]), unit("D", &[])],
        &["A"],
    );
    let top = graph.root_of("A").unwrap();
    let mut scheduler = Scheduler::new(graph).unwrap();
    let mut order = Vec::new();
    assert_eq!(run(&mut scheduler, top, &[], &mut order), Ok(artifacts("A")));
    assert_eq!(order, vec!["D", "B", "C", "A"]);
    assert_eq!(order.iter().filter(|n| n.as_str() == "D").count(), 1);
    for id in 0..scheduler.len() {
        assert_eq!(scheduler.invocations(id), 1);
    }
}

#[test]
fn a_parent_waits_until_every_dependency_is_built() {
    let graph = graph_of(vec![unit("A", &["B", "C"]), unit("B", &[]), unit("C", &[])], &["A"]);
    let (a, b, c) = (2, 0, 1);
    let mut s = Scheduler::new(graph).unwrap();
    assert_eq!(build_component(&mut s, a), Decision::Start(vec![b, c]));
    assert_eq!(s.proceed(a), Step::Wait);
    assert_eq!(build_component(&mut s, b), Decision::Start(vec![]));
    assert_eq!(s.proceed(b), Step::Invoke(shell_command("B")));
    assert_eq!(s.proceed(a), Step::Wait);
    assert!(s.finish(b, true));
    assert_eq!(s.proceed(a), Step::Wait);
    assert_eq!(build_component(&mut s, c), Decision::Start(vec![]));
    assert_eq!(s.proceed(c), Step::Invoke(shell_command("C")));
    assert!(s.finish(c, true));
    assert_eq!(s.invocations(a), 0);
    assert_eq!(s.proceed(a), Step::Invoke(shell_command("A")));
    assert_eq!(s.invocations(a), 1);
}

#[test]
fn a_command_is_handed_out_once_only() {
    let graph = graph_of(vec![unit("A", &[])], &["A"]);
    let mut s = Scheduler::new(graph).unwrap();
    assert_eq!(s.proceed(0), Step::Idle);
    assert_eq!(build_component(&mut s, 0), Decision::Start(vec![]));
    assert_eq!(build_component(&mut s, 0), Decision::Wait);
    assert_eq!(s.proceed(0), Step::Invoke(shell_command("A")));
    assert_eq!(s.proceed(0), Step::Idle);
    assert_eq!(build_component(&mut s, 0), Decision::Wait);
    assert!(s.finish(0, true));
    assert!(!s.finish(0, false));
    assert_eq!(s.proceed(0), Step::Idle);
    assert_eq!(build_component(&mut s, 0), Decision::Done(artifacts("A")));
    assert_eq!(s.invocations(0), 1);
    assert_eq!(s.node(0).status, BuildStatus::Success(artifacts("A")));
}

#[test]
fn a_report_is_taken_only_while_the_command_runs() {
    let graph = graph_of(vec![unit("A", &[])], &["A"]);
    let mut s = Scheduler::new(graph).unwrap();
    assert!(!s.finish(0, true));
    assert_eq!(s.node(0).status, BuildStatus::NotStarted);
    assert_eq!(build_component(&mut s, 0), Decision::Start(vec![]));
    assert!(!s.finish(0, true));
    assert_eq!(s.node(0).status, BuildStatus::InProgress);
}

#[test]
fn a_failing_dependency_fails_its_parent() {
    let graph = graph_of(vec![unit("A", &["B"]), unit("B", &[])], &["A"]);
    let (a, b) = (1, 0);
    let mut s = Scheduler::new(graph).unwrap();
    let mut order = Vec::new();
    assert_eq!(
        run(&mut s, a, &["B"], &mut order),
        Err(BuildError::FailedDependency("B".to_string()))
    );
    assert_eq!(order, vec!["B"]);
    assert_eq!(s.node(a).status, BuildStatus::Failure);
    assert_eq!(s.node(b).status, BuildStatus::Failure);
    assert_eq!(s.invocations(a), 0);
    assert_eq!(s.invocations(b), 1);
    assert_eq!(build_component(&mut s, b), Decision::Failed(BuildError::FailedDependency("B".to_string())));
}

#[test]
fn every_ancestor_surfaces_the_component_that_failed() {
    let graph = graph_of(
        vec![unit("A", &["B", "X"]), unit("B", &["C"]), unit("C", &[]), unit("X", &[])],
        &["A", "X"],
    );
    let a = graph.find_node("A").unwrap();
    let b = graph.find_node("B").unwrap();
    let x = graph.find_node("X").unwrap();
    let mut s = Scheduler::new(graph).unwrap();
    let mut order = Vec::new();
    let failed = Err(BuildError::FailedDependency("C".to_string()));
    assert_eq!(run(&mut s, a, &["C"], &mut order), failed);
    assert_eq!(build_component(&mut s, b), Decision::Failed(BuildError::FailedDependency("C".to_string())));
    assert_eq!(s.invocations(b), 0);
    assert_eq!(s.invocations(a), 0);
    assert_eq!(s.node(x).status, BuildStatus::Success(artifacts("X")));
    assert_eq!(order, vec!["C", "X"]);
}

#[test]
fn a_failure_is_noticed_before_the_other_dependencies_settle() {
    let graph = graph_of(vec![unit("A", &["B", "C"]), unit("B", &[]), unit("C", &[])], &["A"]);
    let (a, b, c) = (2, 0, 1);
    let mut s = Scheduler::new(graph).unwrap();
    assert_eq!(build_component(&mut s, a), Decision::Start(vec![b, c]));
    assert_eq!(build_component(&mut s, c), Decision::Start(vec![]));
    assert_eq!(s.proceed(c), Step::Invoke(shell_command("C")));
    assert!(s.finish(c, false));
    assert_eq!(s.proceed(a), Step::Failed(BuildError::FailedDependency("C".to_string())));
    assert_eq!(s.node(b).status, BuildStatus::NotStarted);
    assert_eq!(s.node(a).status, BuildStatus::Failure);
}

#[test]
fn the_first_failed_dependency_is_the_cause() {
    let graph = graph_of(vec![unit("A", &["B", "C"]), unit("B", &[]), unit("C", &[])], &["A"]);
    let (a, b, c) = (2, 0, 1);
    let mut s = Scheduler::new(graph).unwrap();
    for id in [c, b] {
        assert_eq!(build_component(&mut s, id), Decision::Start(vec![]));
        assert!(matches!(s.proceed(id), Step::Invoke(_)));
        assert!(s.finish(id, false));
    }
    assert_eq!(build_component(&mut s, a), Decision::Start(vec![b, c]));
    assert_eq!(s.proceed(a), Step::Failed(BuildError::FailedDependency("B".to_string())));
}

#[test]
fn a_partition_is_ready_when_all_its_components_are_built() {
    let graph = graph_of(vec![unit("A", &[]), unit("B", &[])], &["A", "B"]);
    let mut s = Scheduler::new(graph).unwrap();
    let ids = vec![0, 1];
    assert_eq!(build_partition(&s, &ids), PartitionProgress::Waiting);
    let mut order = Vec::new();
    run(&mut s, 0, &[], &mut order).unwrap();
    assert_eq!(build_partition(&s, &ids), PartitionProgress::Waiting);
    run(&mut s, 1, &[], &mut order).unwrap();
    assert_eq!(build_partition(&s, &ids), PartitionProgress::Ready(vec![artifacts("A"), artifacts("B")]));
    assert_eq!(build_partition(&s, &vec![]), PartitionProgress::Ready(vec![]));
}

#[test]
fn a_partition_fails_with_its_first_failed_component() {
    let graph = graph_of(vec![unit("A", &[]), unit("B", &[])], &["A", "B"]);
    let mut s = Scheduler::new(graph).unwrap();
    let mut order = Vec::new();
    assert!(run(&mut s, 1, &["B"], &mut order).is_err());
    assert_eq!(
        build_partition(&s, &vec![0, 1]),
        PartitionProgress::Failed(BuildError::FailedDependency("B".to_string()))
    );
}

#[test]
fn a_graph_with_a_dangling_edge_is_refused() {
    let node = DependencyTree {
        dependencies: vec![0],
        sources: vec![],
        component: unit("A", &[]),
        status: BuildStatus::NotStarted,
    };
    let graph = DependencyGraph { nodes: vec![node], roots: vec![0] };
    assert_eq!(Scheduler::new(graph).unwrap_err(), BuildError::ReferenceDropped);
}

#[test]
fn a_scheduler_starts_with_nothing_started() {
    let mut graph = graph_of(vec![unit("A", &[])], &["A"]);
    graph.nodes[0].status = BuildStatus::Failure;
    let s = Scheduler::new(graph).unwrap();
    assert_eq!(s.node(0).status, BuildStatus::NotStarted);
    assert_eq!(s.invocations(0), 0);
    assert_eq!(s.len(), 1);
}

#[test]
fn cargo_builds_with_the_recipes_arguments() {
    let mode = BuildMode::Cargo(vec!["--release".to_string(), "-p".to_string(), "kernel".to_string()]);
    let command = build_command(&mode);
    assert_eq!(command.program, "cargo");
    assert_eq!(command.args, vec!["build", "--release", "-p", "kernel"]);
    assert_eq!(build_command(&BuildMode::Cargo(vec![])).args, vec!["build"]);
}

#[test]
fn the_shell_gets_the_script() {
    let command = build_command(&BuildMode::Shell("exit 1".to_string()));
    assert_eq!(command.program, "nu");
    assert_eq!(command.args, vec!["-c", "exit 1"]);
}

#[test]
fn cache_modes_decide_on_a_clean_build() {
    assert!(clean_before_build(CacheMode::Transient, false));
    assert!(clean_before_build(CacheMode::Transient, true));
    assert!(!clean_before_build(CacheMode::Normal, false));
    assert!(clean_before_build(CacheMode::Normal, true));
    assert!(!clean_before_build(CacheMode::Aggressive, false));
    assert!(!clean_before_build(CacheMode::Aggressive, true));
}

#[test]
fn the_defaults_are_raw_and_normal() {
    assert_eq!(ImageFormat::default(), ImageFormat::Raw);
    assert_eq!(CacheMode::default(), CacheMode::Normal);
}
