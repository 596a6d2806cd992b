use imgbuild::builder::ArtifactList;
use imgbuild::config::File;
use imgbuild::config::FilesystemEntry;
use imgbuild::config::Partition;
use imgbuild::error::BuildError;
use imgbuild::populate::has_artifact;
use imgbuild::populate::place_file;
use imgbuild::populate::populate;
use imgbuild::populate::strip_leading_slashes;
use imgbuild::populate::Placement;

fn built() -> Vec<ArtifactList> {
    vec![
        ArtifactList {
            component: "kernel".to_string(),
            artifacts: vec!["target/kernel.elf".to_string(), "target/kernel.map".to_string()],
        },
        ArtifactList { component: "init".to_string(), artifacts: vec!["target/init".to_string()] },
    ]
}

fn file(path: &str, content: FilesystemEntry) -> File {
    File { path: path.to_string(), content }
}

fn artifact(component: &str, artifact: &str) -> FilesystemEntry {
    FilesystemEntry::Artifact { component: component.to_string(), artifact: artifact.to_string() }
}

#[test]
fn a_text_is_written_below_the_live_mount() {
    let directive = file("etc/hostname", FilesystemEntry::Text("demo\n".to_string()));
    assert_eq!(
        place_file("/b/live/root", &directive, &built()),
        Ok(Placement::Write { target: "/b/live/root/etc/hostname".to_string(), text: "demo\n".to_string() })
    );
}

#[test]
fn an_absolute_path_stays_inside_the_partition() {
    let directive = file("/etc/hostname", FilesystemEntry::Text("demo".to_string()));
    assert_eq!(
        place_file("/b/live/root", &directive, &built()),
        Ok(Placement::Write { target: "/b/live/root/etc/hostname".to_string(), text: "demo".to_string() })
    );
    let directive = file("///boot/kernel", FilesystemEntry::Symlink("/boot/kernel-1".to_string()));
    assert_eq!(
        place_file("/b/live/root", &directive, &built()),
        Ok(Placement::Symlink {
            target: "/b/live/root/boot/kernel".to_string(),
            points_to: "/boot/kernel-1".to_string()
        })
    );
}

#[test]
fn leading_slashes_are_taken_off() {
    assert_eq!(strip_leading_slashes("/a/b"), "a/b");
    assert_eq!(strip_leading_slashes("//a//b/"), "a//b/");
    assert_eq!(strip_leading_slashes("a/b"), "a/b");
    assert_eq!(strip_leading_slashes("/"), "");
    assert_eq!(strip_leading_slashes(""), "");
    assert_eq!(strip_leading_slashes("/\u{e9}t\u{e9}"), "\u{e9}t\u{e9}");
}

#[test]
fn an_artifact_is_copied_from_where_it_was_built() {
    let directive = file("boot/kernel", artifact("kernel", "target/kernel.elf"));
    assert_eq!(
        place_file("/live/boot", &directive, &built()),
        Ok(Placement::Copy { target: "/live/boot/boot/kernel".to_string(), source: "target/kernel.elf".to_string() })
    );
}

#[test]
fn an_artifact_that_was_not_built_is_an_error() {
    let lists = built();
    let missing = file("x", artifact("kernel", "target/other"));
    assert_eq!(
        place_file("/live", &missing, &lists),
        Err(BuildError::FailedDependency("kernel".to_string()))
    );
    let unknown = file("x", artifact("shell", "target/init"));
    assert_eq!(place_file("/live", &unknown, &lists), Err(BuildError::FailedDependency("shell".to_string())));
    let crossed = file("x", artifact("init", "target/kernel.elf"));
    assert_eq!(place_file("/live", &crossed, &lists), Err(BuildError::FailedDependency("init".to_string())));
}

#[test]
fn artifacts_are_found_by_component_and_path() {
    let lists = built();
    assert!(has_artifact(&lists, "kernel", "target/kernel.map"));
    assert!(has_artifact(&lists, "init", "target/init"));
    assert!(!has_artifact(&lists, "init", "target/kernel.map"));
    assert!(!has_artifact(&lists, "kernel", ""));
    assert!(!has_artifact(&vec![], "kernel", "target/kernel.elf"));
}

#[test]
fn the_output_of_a_script_is_captured() {
    let directive = file("etc/version", FilesystemEntry::FromShell("git describe".to_string()));
    assert_eq!(
        place_file("/live", &directive, &vec![]),
        Ok(Placement::Capture { target: "/live/etc/version".to_string(), script: "git describe".to_string() })
    );
}

fn partition_with(files: Vec<File>) -> Partition {
    Partition {
        requires: vec!["kernel".to_string()],
        label: "root".to_string(),
        size: 8,
        setup: String::new(),
        filesystem: Some("fat32".to_string()),
        files,
    }
}

#[test]
fn a_partition_is_populated_in_the_order_of_its_directives() {
    let partition = partition_with(vec![
        file("a", FilesystemEntry::Text("1".to_string())),
        file("b", artifact("init", "target/init")),
        file("c", FilesystemEntry::Symlink("a".to_string())),
    ]);
    assert_eq!(
        populate(&partition, "/live/root", &built()),
        Ok(vec![
            Placement::Write { target: "/live/root/a".to_string(), text: "1".to_string() },
            Placement::Copy { target: "/live/root/b".to_string(), source: "target/init".to_string() },
            Placement::Symlink { target: "/live/root/c".to_string(), points_to: "a".to_string() },
        ])
    );
    assert_eq!(populate(&partition_with(vec![]), "/live/root", &built()), Ok(vec![]));
}

#[test]
fn the_first_directive_that_cannot_be_placed_stops_the_population() {
    let partition = partition_with(vec![
        file("a", FilesystemEntry::Text("1".to_string())),
        file("b", artifact("gone", "x")),
        file("c", artifact("lost", "y")),
    ]);
    assert_eq!(
        populate(&partition, "/live/root", &built()),
        Err(BuildError::FailedDependency("gone".to_string()))
    );
}
