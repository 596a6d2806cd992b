//! Derivation of every on-disk path of a build from the manifest.
//!
//! Paths are held as strings. Joining them is left to `std::path`, whose
//! results the contracts refer to by name.

use crate::config::copy_strings;
use crate::config::ConfigFile;
use crate::config::ImageFormat;
use crate::config::Partition;
use convert_case::Case;
use convert_case::Casing;
use std::path::Path;
use vstd::prelude::*;
use vstd::string::*;

verus! {

/// The kebab-case form that `convert_case` gives a name.
pub uninterp spec fn kebab_case(name: Seq<char>) -> Seq<char>;

/// The path that `std::path::Path::join` makes of a base and a further path.
pub uninterp spec fn joined_path(base: Seq<char>, rel: Seq<char>) -> Seq<char>;

/// The parent that `std::path::Path::parent` finds for a path, if it has one.
pub uninterp spec fn parent_path(path: Seq<char>) -> Option<Seq<char>>;

/// Whether `std::path::Path::is_absolute` holds of a path.
pub uninterp spec fn absolute_path(path: Seq<char>) -> bool;

/// Calls `convert_case::Casing::to_case` with `Case::Kebab`. The contract only
/// names the result: the conversion depends on nothing but the input text.
#[verifier::external_body]
pub(crate) fn to_kebab(name: &str) -> (r: String)
    ensures
        r@ == kebab_case(name@),
{
    name.to_case(Case::Kebab)
}

/// Calls `std::path::Path::join`. Both inputs are UTF-8, so the joined path is
/// too, and turning it back into a string loses nothing. The contract only
/// names the result.
#[verifier::external_body]
pub(crate) fn join_path(base: &str, rel: &str) -> (r: String)
    ensures
        r@ == joined_path(base@, rel@),
{
    Path::new(base).join(rel).to_string_lossy().into_owned()
}

/// Calls `std::path::Path::parent`. The contract only names the result.
#[verifier::external_body]
pub(crate) fn parent_of(path: &str) -> (r: Option<String>)
    ensures
        r.deep_view() == parent_path(path@),
{
    Path::new(path).parent().map(|p| p.to_string_lossy().into_owned())
}

/// Calls `std::path::Path::is_absolute`. The contract only names the result.
#[verifier::external_body]
pub(crate) fn is_absolute(path: &str) -> (r: bool)
    ensures
        r == absolute_path(path@),
{
    Path::new(path).is_absolute()
}

/// The file extension of the final image in a given format, dot included.
pub open spec fn image_extension(format: ImageFormat) -> Seq<char> {
    match format {
        ImageFormat::Raw => ".img"@,
        ImageFormat::QCow2 => ".qcow2"@,
    }
}

/// The file name of the final image: a name with the extension of the format
/// behind it.
pub fn image_file_name(name: String, format: ImageFormat) -> (r: String)
    ensures
        r@ == name@ + image_extension(format),
{
    let mut file = name;
    match format {
        ImageFormat::Raw => file.append(".img"),
        ImageFormat::QCow2 => file.append(".qcow2"),
    }
    file
}

/// The directory that a path lies in, given the parent that the path has, if
/// it has one: the parent, or else the path itself.
pub open spec fn directory_of(path: Seq<char>, parent: Option<Seq<char>>) -> Seq<char> {
    match parent {
        Some(dir) => dir,
        None => path,
    }
}

/// The directory that a path lies in, given its parent.
pub fn directory(path: &str, parent: Option<String>) -> (r: String)
    ensures
        r@ == directory_of(path@, parent.deep_view()),
{
    match parent {
        Some(dir) => dir,
        None => path.to_owned(),
    }
}

/// A path as seen from a directory: the path itself if it is absolute, and
/// else the path below the directory.
pub open spec fn anchored(path: Seq<char>, dir: Seq<char>) -> Seq<char> {
    if absolute_path(path) {
        path
    } else {
        joined_path(dir, path)
    }
}

/// Anchors a path in a directory unless it is absolute.
pub fn anchor(path: &str, dir: &str) -> (r: String)
    ensures
        r@ == anchored(path@, dir@),
{
    if is_absolute(path) {
        path.to_owned()
    } else {
        join_path(dir, path)
    }
}

/// The directory that holds every working file of a build: the requested
/// one, or else `build`, as seen from the working directory.
pub open spec fn build_directory(request: Option<Seq<char>>, working_dir: Seq<char>) -> Seq<char> {
    match request {
        Some(dir) => anchored(dir, working_dir),
        None => joined_path(working_dir, "build"@),
    }
}

/// The labels of a run of partitions, in order.
pub open spec fn partition_labels(partitions: Seq<Partition>) -> Seq<Seq<char>> {
    Seq::new(partitions.len(), |i: int| partitions[i].label@)
}

/// What a [`PathManager`] derives its paths from.
pub struct PathManagerView {
    /// The manifest's name.
    pub name: Seq<char>,
    pub format: ImageFormat,
    /// The labels of the image's partitions, in order.
    pub labels: Seq<Seq<char>>,
    /// The directory that holds every working file of the build.
    pub build_dir: Seq<char>,
}

impl PathManagerView {
    /// The mount point of the partition-exposing filesystem.
    pub open spec fn partitions(self) -> Seq<char> {
        joined_path(self.build_dir, "partitions"@)
    }

    /// The directory under which each partition's filesystem is mounted.
    pub open spec fn live(self) -> Seq<char> {
        joined_path(self.build_dir, "live"@)
    }

    /// The path of the finished image.
    pub open spec fn final_image(self) -> Seq<char> {
        joined_path(self.build_dir, kebab_case(self.name) + image_extension(self.format))
    }
}

/// Derives the paths of one build.
#[derive(Debug, Clone, PartialEq, Eq)]
pub struct PathManager {
    name: String,
    format: ImageFormat,
    labels: Vec<String>,
    build_dir: String,
}

impl View for PathManager {
    type V = PathManagerView;

    closed spec fn view(&self) -> PathManagerView {
        PathManagerView {
            name: self.name@,
            format: self.format,
            labels: self.labels.deep_view(),
            build_dir: self.build_dir@,
        }
    }
}

impl PathManager {
    /// A path manager for `config`. The build directory is the requested one,
    /// or else `build`, as seen from the working directory.
    pub fn new(config: &ConfigFile, request: Option<String>, working_dir: &str) -> (r: Self)
        ensures
            r@.name == config.name@,
            r@.format == config.image.format,
            r@.labels == partition_labels(config.image.partitions@),
            r@.build_dir == build_directory(request.deep_view(), working_dir@),
    {
        let build_dir = match request {
            Some(dir) => anchor(dir.as_str(), working_dir),
            None => join_path(working_dir, "build"),
        };
        let mut labels: Vec<String> = Vec::new();
        let mut i: usize = 0;
        while i < config.image.partitions.len()
            invariant
                i <= config.image.partitions.len(),
                labels.len() == i,
                forall|j: int| 0 <= j < i ==> labels@[j]@ == config.image.partitions@[j].label@,
            decreases config.image.partitions.len() - i,
        {
            labels.push(config.image.partitions[i].label.clone());
            i += 1;
        }
        assert(labels.deep_view() =~= partition_labels(config.image.partitions@));
        PathManager { name: config.name.clone(), format: config.image.format, labels, build_dir }
    }

    /// A copy of this path manager.
    pub fn duplicate(&self) -> (r: Self)
        ensures
            r@ == self@,
    {
        PathManager {
            name: self.name.clone(),
            format: self.format,
            labels: copy_strings(&self.labels),
            build_dir: self.build_dir.clone(),
        }
    }

    /// The path of the final image: the manifest's name in kebab case, with the
    /// format's extension, in the build directory.
    pub fn final_image(&self) -> (r: String)
        ensures
            r@ == self@.final_image(),
    {
        let file = image_file_name(to_kebab(self.name.as_str()), self.format);
        join_path(self.build_dir.as_str(), file.as_str())
    }

    /// The directory in which build assets are stored: the working directory
    /// of the build process.
    pub fn build_dir(&self) -> (r: String)
        ensures
            r@ == self@.build_dir,
    {
        self.build_dir.clone()
    }

    /// Where the partition-exposing filesystem is mounted.
    pub fn partitions(&self) -> (r: String)
        ensures
            r@ == self@.partitions(),
    {
        join_path(self.build_dir.as_str(), "partitions")
    }

    /// The path of one partition's block device: `Some` exactly for a label
    /// that the image defines.
    pub fn partition(&self, partition: &str) -> (r: Option<String>)
        ensures
            r.deep_view() == if self@.labels.contains(partition@) {
                Some(joined_path(self@.partitions(), partition@))
            } else {
                None
            },
    {
        if self.has_label(partition) {
            let base = self.partitions();
            Some(join_path(base.as_str(), partition))
        } else {
            None
        }
    }

    /// The directory that holds the mounted filesystems, one per partition.
    pub fn live(&self) -> (r: String)
        ensures
            r@ == self@.live(),
    {
        join_path(self.build_dir.as_str(), "live")
    }

    /// The path at which one partition's filesystem is mounted: `Some` exactly
    /// for a label that the image defines.
    pub fn live_part(&self, partition: &str) -> (r: Option<String>)
        ensures
            r.deep_view() == if self@.labels.contains(partition@) {
                Some(joined_path(self@.live(), partition@))
            } else {
                None
            },
    {
        if self.has_label(partition) {
            let base = self.live();
            Some(join_path(base.as_str(), partition))
        } else {
            None
        }
    }

    /// Whether the image defines a partition with this label.
    pub fn has_label(&self, label: &str) -> (r: bool)
        ensures
            r == self@.labels.contains(label@),
    {
        let mut i: usize = 0;
        while i < self.labels.len()
            invariant
                i <= self.labels.len(),
                forall|j: int| 0 <= j < i ==> self.labels@[j]@ != label@,
            decreases self.labels.len() - i,
        {
            if str_eq(self.labels[i].as_str(), label) {
                assert(self@.labels[i as int] == label@);
                return true;
            }
            i += 1;
        }
        assert forall|j: int| 0 <= j < self@.labels.len() implies self@.labels[j] != label@ by {
            assert(self@.labels[j] == self.labels@[j]@);
        }
        false
    }
}

/// Whether two strings hold the same text.
pub fn str_eq(a: &str, b: &str) -> (r: bool)
    ensures
        r == (a@ == b@),
{
    a.to_owned() == b.to_owned()
}

} // verus!
