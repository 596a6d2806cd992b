use imgbuild::config::BuildMode;
use imgbuild::config::CacheMode;
use imgbuild::config::Component;
use imgbuild::config::ConfigFile;
use imgbuild::config::ImageConfig;
use imgbuild::config::ImageFormat;
use imgbuild::config::ImportableModule;
use imgbuild::config::Partition;
use imgbuild::error::BuildError;
use imgbuild::manifest::add_toml_extension;
use imgbuild::manifest::check_duplicates;
use imgbuild::manifest::distinct_imports;
use imgbuild::manifest::ends_with;
use imgbuild::manifest::merge_module;
use imgbuild::manifest::merge_modules;
use imgbuild::manifest::resolve_import;
use imgbuild::manifest::resolve_imports;
use imgbuild::plan::build;

fn shell(name: &str, requires: &[&str]) -> Component {
    Component {
        name: name.to_string(),
        requires: requires.iter().map(|r| r.to_string()).collect(),
        yields: vec![],
        cache_mode: CacheMode::default(),
        build_mode: BuildMode::Shell("true".to_string()),
    }
}

fn manifest(components: Vec<Component>, requires: &[&str]) -> ConfigFile {
    ConfigFile {
        name: "demo".to_string(),
        description: None,
        requires: vec![],
        image: ImageConfig {
            label: "demo".to_string(),
            description: None,
            size: 64,
            format: ImageFormat::Raw,
            partitions: vec![Partition {
                requires: requires.iter().map(|r| r.to_string()).collect(),
                label: "boot".to_string(),
                size: 64,
                setup: String::new(),
                filesystem: None,
                files: vec![],
            }],
        },
        components,
    }
}

fn names(config: &ConfigFile) -> Vec<String> {
    config.components.iter().map(|c| c.name.clone()).collect()
}

#[test]
fn duplicate_component_is_rejected() {
    let config = manifest(vec![shell("kernel", &[]), shell("kernel", &[])], &["kernel"]);
    let err = build(config, vec![]).unwrap_err();
    assert_eq!(err, BuildError::DuplicateComponentName("kernel".to_string()));
    assert_eq!(format!("{:?}", err), "DuplicateComponentName(\"kernel\")");
}

#[test]
fn duplicate_across_an_import_is_rejected() {
    let config = manifest(vec![shell("kernel", &[])], &[]);
    let module = ImportableModule { components: vec![shell("init", &[]), shell("kernel", &[])] };
    assert_eq!(
        build(config, vec![module]).unwrap_err(),
        BuildError::DuplicateComponentName("kernel".to_string())
    );
}

#[test]
fn the_first_name_that_comes_up_twice_is_reported() {
    let components = vec![shell("a", &[]), shell("b", &[]), shell("b", &[]), shell("a", &[])];
    assert_eq!(
        check_duplicates(&components),
        Err(BuildError::DuplicateComponentName("b".to_string()))
    );
}

#[test]
fn duplicates_win_over_a_cycle() {
    let config = manifest(vec![shell("a", &["a"]), shell("a", &[])], &["a"]);
    assert_eq!(
        build(config, vec![]).unwrap_err(),
        BuildError::DuplicateComponentName("a".to_string())
    );
}

#[test]
fn distinct_names_pass_the_check() {
    let components = vec![shell("a", &[]), shell("b", &[]), shell("c", &[])];
    assert_eq!(check_duplicates(&components), Ok(()));
    assert_eq!(check_duplicates(&vec![]), Ok(()));
}

#[test]
fn modules_are_merged_behind_the_manifest_in_order() {
    let mut config = manifest(vec![shell("root", &[])], &[]);
    let first = ImportableModule { components: vec![shell("a", &[]), shell("b", &[])] };
    let second = ImportableModule { components: vec![] };
    let third = ImportableModule { components: vec![shell("c", &[])] };
    merge_modules(&mut config, vec![first, second, third]);
    assert_eq!(names(&config), vec!["root", "a", "b", "c"]);
    assert_eq!(config.name, "demo");
    assert_eq!(config.image.partitions.len(), 1);
}

#[test]
fn merging_one_module_appends_its_components() {
    let mut config = manifest(vec![shell("root", &[])], &[]);
    merge_module(&mut config, ImportableModule { components: vec![shell("x", &["root"])] });
    assert_eq!(names(&config), vec!["root", "x"]);
    assert_eq!(config.components[1].requires, vec!["root"]);
}

#[test]
fn the_plan_holds_the_merged_manifest() {
    let config = manifest(vec![shell("a", &[])], &["a", "b"]);
    let module = ImportableModule { components: vec![shell("b", &["a"])] };
    let plan = build(config, vec![module]).unwrap();
    assert_eq!(names(&plan.config), vec!["a", "b"]);
    assert_eq!(plan.graph.nodes.len(), 2);
    assert_eq!(plan.partitions.len(), 1);
    assert_eq!(plan.partitions[0].len(), 2);
}

#[test]
fn a_relative_import_resolves_beside_the_manifest_and_gets_the_extension() {
    assert_eq!(resolve_import("/work/os/manifest.toml", "mods/kernel"), "/work/os/mods/kernel.toml");
}

#[test]
fn an_import_that_has_the_extension_keeps_it() {
    assert_eq!(
        resolve_import("/work/os/manifest.toml", "mods/kernel.toml"),
        "/work/os/mods/kernel.toml"
    );
}

#[test]
fn another_extension_is_not_replaced() {
    assert_eq!(resolve_import("/work/manifest.toml", "kernel.v2"), "/work/kernel.v2.toml");
}

#[test]
fn an_absolute_import_is_taken_as_it_is() {
    assert_eq!(resolve_import("/work/os/manifest.toml", "/etc/mods/kernel"), "/etc/mods/kernel");
}

#[test]
fn a_manifest_without_a_parent_is_its_own_base() {
    assert_eq!(resolve_import("", "kernel"), "kernel.toml");
    assert_eq!(resolve_import("manifest.toml", "kernel"), "kernel.toml");
}

#[test]
fn every_import_is_resolved_in_order() {
    let mut config = manifest(vec![], &[]);
    config.requires = vec!["a".to_string(), "/abs/b".to_string(), "sub/c.toml".to_string()];
    assert_eq!(
        resolve_imports("/w/m.toml", &config),
        vec!["/w/a.toml", "/abs/b", "/w/sub/c.toml"]
    );
}

#[test]
fn each_import_is_loaded_once() {
    let paths: Vec<String> =
        ["/w/a.toml", "/w/b.toml", "/w/a.toml", "/w/c.toml", "/w/b.toml"].iter().map(|p| p.to_string()).collect();
    assert_eq!(distinct_imports(&paths), vec!["/w/a.toml", "/w/b.toml", "/w/c.toml"]);
    assert_eq!(distinct_imports(&vec![]), Vec::<String>::new());
}

#[test]
fn suffixes_are_recognised() {
    assert!(ends_with("kernel.toml", ".toml"));
    assert!(ends_with(".toml", ".toml"));
    assert!(!ends_with("toml", ".toml"));
    assert!(!ends_with("kernel.tom", ".toml"));
    assert!(ends_with("anything", ""));
    assert!(ends_with("g\u{e9}n\u{e9}ral.toml", ".toml"));
}

#[test]
fn the_extension_is_added_once() {
    assert_eq!(add_toml_extension("kernel".to_string()), "kernel.toml");
    assert_eq!(add_toml_extension("kernel.toml".to_string()), "kernel.toml");
    assert_eq!(add_toml_extension(String::new()), ".toml");
    assert_eq!(add_toml_extension("kernel.TOML".to_string()), "kernel.TOML.toml");
}
