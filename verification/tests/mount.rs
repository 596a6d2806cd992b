use imgbuild::config::ConfigFile;
use imgbuild::config::ImageConfig;
use imgbuild::config::ImageFormat;
use imgbuild::config::Partition;
use imgbuild::error::BuildError;
use imgbuild::mount::driver_for;
use imgbuild::mount::mount_filesystems;
use imgbuild::mount::preload_filesystems;
use imgbuild::mount::unmount_outcome;
use imgbuild::mount::FilesystemDriver;
use imgbuild::mount::FilesystemStep;
use imgbuild::mount::MountHandle;
use imgbuild::paths::PathManager;

fn formatted(label: &str, filesystem: Option<&str>) -> Partition {
    Partition {
        requires: vec![],
        label: label.to_string(),
        size: 8,
        setup: String::new(),
        filesystem: filesystem.map(|f| f.to_string()),
        files: vec![],
    }
}

fn manifest_with(partitions: Vec<Partition>) -> ConfigFile {
    ConfigFile {
        name: "os".to_string(),
        description: None,
        requires: vec![],
        image: ImageConfig {
            label: "os".to_string(),
            description: None,
            size: 64,
            format: ImageFormat::Raw,
            partitions,
        },
        components: vec![],
    }
}

fn step(label: &str, driver: FilesystemDriver) -> FilesystemStep {
    FilesystemStep {
        label: label.to_string(),
        device: format!("/b/partitions/{}", label),
        mount_point: format!("/b/live/{}", label),
        driver,
    }
}

#[test]
fn known_filesystems_have_a_driver() {
    assert_eq!(driver_for("fat32"), Ok(FilesystemDriver::Fat32));
    assert_eq!(driver_for("redoxfs"), Ok(FilesystemDriver::RedoxFs));
    assert_eq!(FilesystemDriver::Fat32.name(), "fat32");
    assert_eq!(FilesystemDriver::RedoxFs.name(), "redoxfs");
}

#[test]
fn an_unknown_filesystem_is_an_error() {
    assert_eq!(driver_for("ext4"), Err(BuildError::UnrecognisedFilesystem("ext4".to_string())));
    assert_eq!(driver_for("FAT32"), Err(BuildError::UnrecognisedFilesystem("FAT32".to_string())));
    assert_eq!(driver_for(""), Err(BuildError::UnrecognisedFilesystem(String::new())));
    assert_eq!(driver_for("fat32 "), Err(BuildError::UnrecognisedFilesystem("fat32 ".to_string())));
}

#[test]
fn every_partition_with_a_filesystem_gets_a_step() {
    let config = manifest_with(vec![
        formatted("efi", Some("fat32")),
        formatted("raw", None),
        formatted("root", Some("redoxfs")),
    ]);
    let paths = PathManager::new(&config, Some("/b".to_string()), "/");
    assert_eq!(
        preload_filesystems(&config.image, &paths),
        Ok(vec![step("efi", FilesystemDriver::Fat32), step("root", FilesystemDriver::RedoxFs)])
    );
}

#[test]
fn partitions_without_a_filesystem_need_nothing() {
    let config = manifest_with(vec![formatted("boot", None)]);
    let paths = PathManager::new(&config, Some("/b".to_string()), "/");
    assert_eq!(preload_filesystems(&config.image, &paths), Ok(vec![]));
    let (steps, handle) = mount_filesystems(&config.image, &paths).unwrap();
    assert!(steps.is_empty());
    assert_eq!(handle.len(), 0);
}

#[test]
fn the_first_unknown_filesystem_stops_the_plan() {
    let config = manifest_with(vec![
        formatted("efi", Some("fat32")),
        formatted("a", Some("ext4")),
        formatted("b", Some("btrfs")),
    ]);
    let paths = PathManager::new(&config, Some("/b".to_string()), "/");
    let unknown = BuildError::UnrecognisedFilesystem("ext4".to_string());
    assert_eq!(preload_filesystems(&config.image, &paths), Err(unknown.clone()));
    assert_eq!(mount_filesystems(&config.image, &paths).unwrap_err(), unknown);
}

#[test]
fn a_partition_that_the_paths_do_not_know_is_an_error() {
    let known = manifest_with(vec![formatted("efi", Some("fat32"))]);
    let paths = PathManager::new(&known, Some("/b".to_string()), "/");
    let other = manifest_with(vec![formatted("efi", Some("fat32")), formatted("swap", None)]);
    assert_eq!(preload_filesystems(&other.image, &paths), Err(BuildError::InvalidPartitionName));
    let other = manifest_with(vec![formatted("swap", Some("ext4"))]);
    assert_eq!(preload_filesystems(&other.image, &paths), Err(BuildError::InvalidPartitionName));
}

#[test]
fn mounts_are_recorded_as_they_are_made() {
    let config = manifest_with(vec![
        formatted("efi", Some("fat32")),
        formatted("root", Some("redoxfs")),
        formatted("data", Some("fat32")),
    ]);
    let paths = PathManager::new(&config, Some("/b".to_string()), "/");
    let (steps, mut handle) = mount_filesystems(&config.image, &paths).unwrap();
    assert_eq!(steps, preload_filesystems(&config.image, &paths).unwrap());
    assert_eq!(handle.len(), 0);
    for step in &steps[..2] {
        handle.record(step.mount_point.clone());
    }
    assert_eq!(handle.unmount_all(), vec!["/b/live/root", "/b/live/efi"]);
}

#[test]
fn mounts_are_released_in_reverse() {
    let mut handle = MountHandle::new();
    assert_eq!(handle.clone().unmount_all(), Vec::<String>::new());
    handle.record("/live/a".to_string());
    handle.record("/live/b".to_string());
    handle.record("/live/c".to_string());
    assert_eq!(handle.len(), 3);
    assert_eq!(handle.unmount_all(), vec!["/live/c", "/live/b", "/live/a"]);
}

#[test]
fn the_first_failed_release_is_surfaced() {
    assert_eq!(unmount_outcome(&vec![]), Ok(()));
    assert_eq!(unmount_outcome(&vec![None, None]), Ok(()));
    assert_eq!(unmount_outcome(&vec![None, Some(16), Some(22)]), Err(16));
    assert_eq!(unmount_outcome(&vec![Some(1), None]), Err(1));
}

#[test]
fn a_failed_creation_names_the_filesystem() {
    assert_eq!(FilesystemDriver::Fat32.created(true), Ok(()));
    assert_eq!(
        FilesystemDriver::Fat32.created(false),
        Err(BuildError::FailedToCreateFilesystem("FAT32".to_string()))
    );
    assert_eq!(
        FilesystemDriver::RedoxFs.created(false),
        Err(BuildError::FailedToCreateFilesystem("RedoxFS".to_string()))
    );
}
