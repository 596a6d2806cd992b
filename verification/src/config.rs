//! The manifest data model.
//!
//! Each type carries a view that replaces strings by character sequences and
//! vectors by sequences, so that contracts elsewhere can speak of a manifest as
//! a mathematical value.

use vstd::prelude::*;

verus! {

/// How the backing file of an image is encoded.
#[derive(Debug, Clone, Copy, PartialEq, Eq, Structural)]
pub enum ImageFormat {
    /// Plain bytes.
    Raw,
    /// A copy-on-write container that a storage daemon mediates.
    QCow2,
}

impl Default for ImageFormat {
    fn default() -> (r: Self)
        ensures
            r == ImageFormat::Raw,
    {
        ImageFormat::Raw
    }
}

/// How long the working files of a component are kept.
#[derive(Debug, Clone, Copy, PartialEq, Eq, Structural)]
pub enum CacheMode {
    /// Kept as long as possible; cleared only by an explicit request or a clean build.
    Aggressive,
    /// Kept under the regular preservation rules.
    Normal,
    /// Kept for the lifetime of one build only.
    Transient,
}

impl Default for CacheMode {
    fn default() -> (r: Self)
        ensures
            r == CacheMode::Normal,
    {
        CacheMode::Normal
    }
}

/// The recipe that builds a component.
#[derive(Debug, Clone, PartialEq, Eq)]
pub enum BuildMode {
    /// `cargo build` with these further arguments.
    Cargo(Vec<String>),
    /// A script handed to the shell.
    Shell(String),
}

pub enum BuildModeView {
    Cargo(Seq<Seq<char>>),
    Shell(Seq<char>),
}

impl View for BuildMode {
    type V = BuildModeView;

    open spec fn view(&self) -> BuildModeView {
        match self {
            BuildMode::Cargo(args) => BuildModeView::Cargo(args.deep_view()),
            BuildMode::Shell(script) => BuildModeView::Shell(script@),
        }
    }
}

/// A named unit of buildable source.
#[derive(Debug, Clone, PartialEq, Eq)]
pub struct Component {
    pub name: String,
    /// Names of other components, or else paths of source inputs.
    pub requires: Vec<String>,
    /// Paths of the artifacts that the build produces.
    pub yields: Vec<String>,
    pub cache_mode: CacheMode,
    pub build_mode: BuildMode,
}

pub struct ComponentView {
    pub name: Seq<char>,
    pub requires: Seq<Seq<char>>,
    pub yields: Seq<Seq<char>>,
    pub cache_mode: CacheMode,
    pub build_mode: BuildModeView,
}

impl View for Component {
    type V = ComponentView;

    open spec fn view(&self) -> ComponentView {
        ComponentView {
            name: self.name@,
            requires: self.requires.deep_view(),
            yields: self.yields.deep_view(),
            cache_mode: self.cache_mode,
            build_mode: self.build_mode@,
        }
    }
}

/// What a file-placement directive puts at its target.
#[derive(Debug, Clone, PartialEq, Eq)]
pub enum FilesystemEntry {
    /// A symbolic link to this target.
    Symlink(String),
    /// These literal bytes.
    Text(String),
    /// A copy of one artifact of one component.
    Artifact { component: String, artifact: String },
    /// The standard output of this script.
    FromShell(String),
}

pub enum FilesystemEntryView {
    Symlink(Seq<char>),
    Text(Seq<char>),
    Artifact { component: Seq<char>, artifact: Seq<char> },
    FromShell(Seq<char>),
}

impl View for FilesystemEntry {
    type V = FilesystemEntryView;

    open spec fn view(&self) -> FilesystemEntryView {
        match self {
            FilesystemEntry::Symlink(t) => FilesystemEntryView::Symlink(t@),
            FilesystemEntry::Text(t) => FilesystemEntryView::Text(t@),
            FilesystemEntry::Artifact { component, artifact } => FilesystemEntryView::Artifact {
                component: component@,
                artifact: artifact@,
            },
            FilesystemEntry::FromShell(s) => FilesystemEntryView::FromShell(s@),
        }
    }
}

/// A file-placement directive: a path inside the partition and its content.
#[derive(Debug, Clone, PartialEq, Eq)]
pub struct File {
    pub path: String,
    pub content: FilesystemEntry,
}

pub struct FileView {
    pub path: Seq<char>,
    pub content: FilesystemEntryView,
}

impl View for File {
    type V = FileView;

    open spec fn view(&self) -> FileView {
        FileView { path: self.path@, content: self.content@ }
    }
}

/// One partition of the image.
#[derive(Debug, Clone, PartialEq, Eq)]
pub struct Partition {
    /// Names of the components whose artifacts this partition needs.
    pub requires: Vec<String>,
    pub label: String,
    /// Size in mebibytes. A negative value takes what is left of the image,
    /// short of that many mebibytes.
    pub size: i64,
    pub setup: String,
    pub filesystem: Option<String>,
    pub files: Vec<File>,
}

pub struct PartitionView {
    pub requires: Seq<Seq<char>>,
    pub label: Seq<char>,
    pub size: int,
    pub setup: Seq<char>,
    pub filesystem: Option<Seq<char>>,
    pub files: Seq<FileView>,
}

impl View for Partition {
    type V = PartitionView;

    open spec fn view(&self) -> PartitionView {
        PartitionView {
            requires: self.requires.deep_view(),
            label: self.label@,
            size: self.size as int,
            setup: self.setup@,
            filesystem: self.filesystem.deep_view(),
            files: Seq::new(self.files@.len(), |i: int| self.files@[i]@),
        }
    }
}

/// The image to assemble.
#[derive(Debug, Clone, PartialEq, Eq)]
pub struct ImageConfig {
    pub label: String,
    pub description: Option<String>,
    /// Total size in mebibytes.
    pub size: i64,
    pub format: ImageFormat,
    pub partitions: Vec<Partition>,
}

pub struct ImageConfigView {
    pub label: Seq<char>,
    pub description: Option<Seq<char>>,
    pub size: int,
    pub format: ImageFormat,
    pub partitions: Seq<PartitionView>,
}

impl View for ImageConfig {
    type V = ImageConfigView;

    open spec fn view(&self) -> ImageConfigView {
        ImageConfigView {
            label: self.label@,
            description: self.description.deep_view(),
            size: self.size as int,
            format: self.format,
            partitions: Seq::new(self.partitions@.len(), |i: int| self.partitions@[i]@),
        }
    }
}

/// The root manifest.
#[derive(Debug, Clone, PartialEq, Eq)]
pub struct ConfigFile {
    pub name: String,
    pub description: Option<String>,
    /// Paths of the module files to import.
    pub requires: Vec<String>,
    pub image: ImageConfig,
    pub components: Vec<Component>,
}

pub struct ConfigFileView {
    pub name: Seq<char>,
    pub description: Option<Seq<char>>,
    pub requires: Seq<Seq<char>>,
    pub image: ImageConfigView,
    pub components: Seq<ComponentView>,
}

impl View for ConfigFile {
    type V = ConfigFileView;

    open spec fn view(&self) -> ConfigFileView {
        ConfigFileView {
            name: self.name@,
            description: self.description.deep_view(),
            requires: self.requires.deep_view(),
            image: self.image@,
            components: component_views(self.components@),
        }
    }
}

/// An imported fragment: further component definitions.
#[derive(Debug, Clone, PartialEq, Eq)]
pub struct ImportableModule {
    pub components: Vec<Component>,
}

impl View for ImportableModule {
    type V = Seq<ComponentView>;

    open spec fn view(&self) -> Seq<ComponentView> {
        component_views(self.components@)
    }
}

/// The views of a run of components, in order.
pub open spec fn component_views(components: Seq<Component>) -> Seq<ComponentView> {
    Seq::new(components.len(), |i: int| components[i]@)
}

/// A copy of a list of strings.
pub fn copy_strings(list: &Vec<String>) -> (r: Vec<String>)
    ensures
        r.deep_view() == list.deep_view(),
{
    let mut copy: Vec<String> = Vec::new();
    let mut i: usize = 0;
    while i < list.len()
        invariant
            i <= list.len(),
            copy.len() == i,
            forall|j: int| 0 <= j < i ==> copy@[j]@ == list@[j]@,
        decreases list.len() - i,
    {
        copy.push(list[i].clone());
        i += 1;
    }
    assert(copy.deep_view() =~= list.deep_view());
    copy
}

impl BuildMode {
    /// A copy of this recipe.
    pub fn duplicate(&self) -> (r: BuildMode)
        ensures
            r@ == self@,
    {
        match self {
            BuildMode::Cargo(args) => BuildMode::Cargo(copy_strings(args)),
            BuildMode::Shell(script) => BuildMode::Shell(script.clone()),
        }
    }
}

impl Component {
    /// A copy of this component.
    pub fn duplicate(&self) -> (r: Component)
        ensures
            r@ == self@,
    {
        Component {
            name: self.name.clone(),
            requires: copy_strings(&self.requires),
            yields: copy_strings(&self.yields),
            cache_mode: self.cache_mode,
            build_mode: self.build_mode.duplicate(),
        }
    }
}

} // verus!
