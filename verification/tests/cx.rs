use imgbuild::config::ConfigFile;
use imgbuild::config::ImageConfig;
use imgbuild::config::ImageFormat;
use imgbuild::config::Partition;
use imgbuild::cx::mk_context;
use imgbuild::cx::Context;
use imgbuild::cx::Release;
use imgbuild::cx::Resource;
use imgbuild::paths::PathManager;

fn labelled(label: &str) -> Partition {
    Partition {
        requires: vec![],
        label: label.to_string(),
        size: 8,
        setup: String::new(),
        filesystem: None,
        files: vec![],
    }
}

fn manifest_named(name: &str, labels: &[&str]) -> ConfigFile {
    ConfigFile {
        name: name.to_string(),
        description: None,
        requires: vec![],
        image: ImageConfig {
            label: name.to_string(),
            description: None,
            size: 64,
            format: ImageFormat::Raw,
            partitions: labels.iter().map(|l| labelled(l)).collect(),
        },
        components: vec![],
    }
}

fn context() -> Context {
    let config = manifest_named("Demo OS", &["boot", "root"]);
    let paths = PathManager::new(&config, Some("/work/build".to_string()), "/work");
    mk_context(&config, &paths).0
}

#[test]
fn build_commands_see_the_build_directory_and_the_image() {
    let cx = context();
    assert_eq!(cx.env("BUILD_DIR"), Some("/work/build".to_string()));
    assert_eq!(cx.env("IMAGE"), Some("/work/build/demo-os.img".to_string()));
    assert_eq!(cx.env("HOME"), None);
    assert_eq!(cx.env("build_dir"), None);
    assert_eq!(cx.env(""), None);
}

#[test]
fn the_context_knows_the_paths_of_the_build() {
    let cx = context();
    assert_eq!(cx.paths().build_dir(), "/work/build");
    assert_eq!(cx.paths().live_part("root"), Some("/work/build/live/root".to_string()));
}

#[test]
fn the_directories_of_a_build_are_listed() {
    let config = manifest_named("demo", &["boot", "root"]);
    let paths = PathManager::new(&config, None, "/work");
    let (cx, directories) = mk_context(&config, &paths);
    assert_eq!(directories, vec!["/work/build", "/work/build/live/boot", "/work/build/live/root"]);
    assert_eq!(cx.held(), 0);
}

#[test]
fn partitions_that_the_paths_do_not_know_get_no_directory() {
    let known = manifest_named("demo", &["boot"]);
    let paths = PathManager::new(&known, Some("/b".to_string()), "/");
    let other = manifest_named("demo", &["swap", "boot"]);
    let (_, directories) = mk_context(&other, &paths);
    assert_eq!(directories, vec!["/b", "/b/live/boot"]);
}

#[test]
fn resources_are_acquired_in_order() {
    let mut cx = context();
    assert!(!cx.acquire(Resource::PartFs));
    assert!(!cx.acquire(Resource::Mounts));
    assert_eq!(cx.held(), 0);
    assert!(cx.acquire(Resource::Disk));
    assert!(!cx.acquire(Resource::Disk));
    assert!(!cx.acquire(Resource::Mounts));
    assert!(cx.acquire(Resource::PartFs));
    assert!(!cx.acquire(Resource::PartFs));
    assert!(!cx.acquire(Resource::Disk));
    assert!(cx.acquire(Resource::Mounts));
    assert!(!cx.acquire(Resource::Mounts));
    assert_eq!(cx.held(), 3);
}

#[test]
fn everything_is_released_in_reverse() {
    let mut cx = context();
    cx.acquire(Resource::Disk);
    cx.acquire(Resource::PartFs);
    cx.acquire(Resource::Mounts);
    assert_eq!(
        cx.teardown(),
        vec![Release::UnmountFilesystems, Release::UnmountPartFs, Release::UnmountDisk]
    );
    assert_eq!(cx.held(), 0);
    assert_eq!(cx.teardown(), vec![]);
    assert_eq!(cx.env("BUILD_DIR"), Some("/work/build".to_string()));
}

#[test]
fn a_build_that_ends_early_releases_what_it_holds() {
    let mut cx = context();
    assert_eq!(cx.teardown(), vec![]);
    cx.acquire(Resource::Disk);
    assert_eq!(cx.teardown(), vec![Release::UnmountDisk]);
    cx.acquire(Resource::Disk);
    cx.acquire(Resource::PartFs);
    assert_eq!(cx.teardown(), vec![Release::UnmountPartFs, Release::UnmountDisk]);
    assert!(cx.acquire(Resource::Disk));
}
