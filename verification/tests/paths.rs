use imgbuild::cli::locate_manifest;
use imgbuild::cli::Args;
use imgbuild::cli::BuildActions;
use imgbuild::config::ConfigFile;
use imgbuild::config::ImageConfig;
use imgbuild::config::ImageFormat;
use imgbuild::config::Partition;
use imgbuild::paths::anchor;
use imgbuild::paths::directory;
use imgbuild::paths::image_file_name;
use imgbuild::paths::str_eq;
use imgbuild::paths::PathManager;
use imgbuild::reporter::ReportMode;

fn partition_named(label: &str) -> Partition {
    Partition {
        requires: vec![],
        label: label.to_string(),
        size: 8,
        setup: String::new(),
        filesystem: None,
        files: vec![],
    }
}

fn config_named(name: &str, format: ImageFormat) -> ConfigFile {
    ConfigFile {
        name: name.to_string(),
        description: None,
        requires: vec![],
        image: ImageConfig {
            label: "img".to_string(),
            description: None,
            size: 16,
            format,
            partitions: vec![partition_named("boot"), partition_named("root")],
        },
        components: vec![],
    }
}

#[test]
fn the_final_image_is_named_in_kebab_case() {
    let config = config_named("My Cool OS", ImageFormat::Raw);
    let paths = PathManager::new(&config, Some("/tmp/out".to_string()), "/home/user");
    assert_eq!(paths.final_image(), "/tmp/out/my-cool-os.img");
}

#[test]
fn camel_case_names_are_split_into_words() {
    let config = config_named("myCoolOs", ImageFormat::Raw);
    let paths = PathManager::new(&config, Some("/b".to_string()), "/");
    assert_eq!(paths.final_image(), "/b/my-cool-os.img");
}

#[test]
fn a_copy_on_write_image_has_its_own_extension() {
    let config = config_named("demo", ImageFormat::QCow2);
    let paths = PathManager::new(&config, Some("/tmp/out".to_string()), "/home/user");
    assert_eq!(paths.final_image(), "/tmp/out/demo.qcow2");
}

#[test]
fn the_extension_is_appended_to_a_dotted_name() {
    let config = config_named("os.two", ImageFormat::Raw);
    let paths = PathManager::new(&config, Some("/b".to_string()), "/");
    assert_eq!(paths.final_image(), "/b/os.two.img");
}

#[test]
fn the_build_directory_defaults_to_build_under_the_working_directory() {
    let config = config_named("demo", ImageFormat::Raw);
    let paths = PathManager::new(&config, None, "/home/user/project");
    assert_eq!(paths.build_dir(), "/home/user/project/build");
    assert_eq!(paths.final_image(), "/home/user/project/build/demo.img");
}

#[test]
fn a_requested_build_directory_is_used() {
    let config = config_named("demo", ImageFormat::Raw);
    let paths = PathManager::new(&config, Some("/var/build".to_string()), "/home/user");
    assert_eq!(paths.build_dir(), "/var/build");
    assert_eq!(paths.duplicate(), paths);
}

#[test]
fn a_relative_build_directory_is_seen_from_the_working_directory() {
    let config = config_named("demo", ImageFormat::Raw);
    let paths = PathManager::new(&config, Some("out/images".to_string()), "/home/user");
    assert_eq!(paths.build_dir(), "/home/user/out/images");
    assert_eq!(paths.final_image(), "/home/user/out/images/demo.img");
    assert_eq!(anchor("a/b", "/x"), "/x/a/b");
    assert_eq!(anchor("/a/b", "/x"), "/a/b");
}

#[test]
fn partitions_are_exposed_below_the_build_directory() {
    let config = config_named("demo", ImageFormat::Raw);
    let paths = PathManager::new(&config, Some("/var/build".to_string()), "/");
    assert_eq!(paths.partitions(), "/var/build/partitions");
    assert_eq!(paths.partition("boot"), Some("/var/build/partitions/boot".to_string()));
    assert_eq!(paths.partition("root"), Some("/var/build/partitions/root".to_string()));
    assert_eq!(paths.partition("swap"), None);
}

#[test]
fn filesystems_are_mounted_below_live() {
    let config = config_named("demo", ImageFormat::Raw);
    let paths = PathManager::new(&config, Some("/var/build".to_string()), "/");
    assert_eq!(paths.live(), "/var/build/live");
    assert_eq!(paths.live_part("root"), Some("/var/build/live/root".to_string()));
    assert_eq!(paths.live_part("Root"), None);
}

#[test]
fn labels_are_known_by_exact_text() {
    let config = config_named("demo", ImageFormat::Raw);
    let paths = PathManager::new(&config, None, "/w");
    assert!(paths.has_label("boot"));
    assert!(!paths.has_label("boo"));
    assert!(!paths.has_label(""));
}

#[test]
fn texts_are_compared_by_content() {
    assert!(str_eq("abc", "abc"));
    assert!(!str_eq("abc", "abd"));
    assert!(str_eq("", ""));
}

#[test]
fn a_manifest_is_found_from_the_working_directory() {
    assert_eq!(locate_manifest("os/manifest.toml", "/home/user"), "/home/user/os/manifest.toml");
    assert_eq!(locate_manifest("/etc/os/manifest.toml", "/home/user"), "/etc/os/manifest.toml");
    assert_eq!(locate_manifest("manifest.toml", "/"), "/manifest.toml");
}

#[test]
fn the_command_line_is_a_plain_value() {
    let args = Args {
        report_mode: ReportMode::Text,
        action: BuildActions::Build { config: "m.toml".to_string(), clean: true, build_dir: None },
    };
    assert_eq!(args.clone(), args);
    assert_ne!(
        args.action,
        BuildActions::Checkout { recipe: "kernel".to_string(), destination: Some("/src".to_string()) }
    );
}

#[test]
fn an_image_file_is_named_after_its_format() {
    assert_eq!(image_file_name("my-os".to_string(), ImageFormat::Raw), "my-os.img");
    assert_eq!(image_file_name("my-os".to_string(), ImageFormat::QCow2), "my-os.qcow2");
    assert_eq!(image_file_name(String::new(), ImageFormat::Raw), ".img");
}

#[test]
fn a_path_lies_in_its_parent() {
    assert_eq!(directory("/a/b.toml", Some("/a".to_string())), "/a");
    assert_eq!(directory("/", None), "/");
    assert_eq!(directory("", None), "");
}
