//! The partition populator: what is put where on a mounted partition.

use crate::builder::ArtifactList;
use crate::builder::ArtifactListView;
use crate::config::File;
use crate::config::FileView;
use crate::config::FilesystemEntry;
use crate::config::FilesystemEntryView;
use crate::config::Partition;
use crate::error::BuildError;
use crate::error::BuildErrorView;
use crate::paths::join_path;
use crate::paths::joined_path;
use crate::paths::str_eq;
use vstd::prelude::*;
use vstd::string::*;

verus! {

/// A path without the slashes that it begins with.
pub open spec fn without_leading_slashes(path: Seq<char>) -> Seq<char>
    decreases path.len(),
{
    if path.len() > 0 && path[0] == '/' {
        without_leading_slashes(path.drop_first())
    } else {
        path
    }
}

/// Takes the slashes off the beginning of a path, so that joining it to a
/// directory leads below that directory.
pub fn strip_leading_slashes(path: &str) -> (r: String)
    ensures
        r@ == without_leading_slashes(path@),
{
    let n = path.unicode_len();
    let mut k: usize = 0;
    assert(path@.skip(0) =~= path@);
    while k < n && path.get_char(k) == '/'
        invariant
            k <= n,
            n == path@.len(),
            without_leading_slashes(path@) == without_leading_slashes(path@.skip(k as int)),
        decreases n - k,
    {
        assert(path@.skip(k as int)[0] == path@[k as int]);
        assert(path@.skip(k as int).drop_first() =~= path@.skip(k + 1));
        k += 1;
    }
    proof {
        if k < n {
            assert(path@.skip(k as int)[0] == path@[k as int]);
        }
        assert(path@.skip(k as int) =~= path@.subrange(k as int, n as int));
    }
    path.substring_char(k, n).to_owned()
}

/// Where a directive's target lies on the host: the directive's path, taken
/// as relative, below the partition's live mount.
pub open spec fn target_path(live: Seq<char>, path: Seq<char>) -> Seq<char> {
    joined_path(live, without_leading_slashes(path))
}

/// One thing to put on a mounted partition. Parent directories of the target
/// are created as needed, and a file that is there already is overwritten.
#[derive(Debug, Clone, PartialEq, Eq)]
pub enum Placement {
    /// Make a symbolic link at `target` that points at `points_to`.
    Symlink { target: String, points_to: String },
    /// Write the bytes of `text` to `target`.
    Write { target: String, text: String },
    /// Copy the artifact at `source` to `target`.
    Copy { target: String, source: String },
    /// Run `script` with the build environment and write its standard output
    /// to `target`; a non-zero exit is fatal.
    Capture { target: String, script: String },
}

pub enum PlacementView {
    Symlink { target: Seq<char>, points_to: Seq<char> },
    Write { target: Seq<char>, text: Seq<char> },
    Copy { target: Seq<char>, source: Seq<char> },
    Capture { target: Seq<char>, script: Seq<char> },
}

impl View for Placement {
    type V = PlacementView;

    open spec fn view(&self) -> PlacementView {
        match self {
            Placement::Symlink { target, points_to } => PlacementView::Symlink {
                target: target@,
                points_to: points_to@,
            },
            Placement::Write { target, text } => PlacementView::Write {
                target: target@,
                text: text@,
            },
            Placement::Copy { target, source } => PlacementView::Copy {
                target: target@,
                source: source@,
            },
            Placement::Capture { target, script } => PlacementView::Capture {
                target: target@,
                script: script@,
            },
        }
    }
}

/// The views of a run of placements, in order.
pub open spec fn placement_views(placements: Seq<Placement>) -> Seq<PlacementView> {
    Seq::new(placements.len(), |i: int| placements[i]@)
}

/// The views of a run of artifact lists, in order.
pub open spec fn list_views(lists: Seq<ArtifactList>) -> Seq<ArtifactListView> {
    Seq::new(lists.len(), |i: int| lists[i]@)
}

/// Whether some list of the given component holds the given artifact.
pub open spec fn yielded(
    lists: Seq<ArtifactListView>,
    component: Seq<char>,
    artifact: Seq<char>,
) -> bool {
    exists|i: int|
        0 <= i < lists.len() && (#[trigger] lists[i]).component == component
            && lists[i].artifacts.contains(artifact)
}

/// What a directive comes to, given the artifacts that were built: a
/// placement, or `FailedDependency` with the component's name where the
/// directive wants an artifact that no list of that component holds.
pub open spec fn placement_of(
    live: Seq<char>,
    file: FileView,
    lists: Seq<ArtifactListView>,
) -> Result<PlacementView, BuildErrorView> {
    let target = target_path(live, file.path);
    match file.content {
        FilesystemEntryView::Symlink(points_to) => Ok(PlacementView::Symlink { target, points_to }),
        FilesystemEntryView::Text(text) => Ok(PlacementView::Write { target, text }),
        FilesystemEntryView::Artifact { component, artifact } => if yielded(
            lists,
            component,
            artifact,
        ) {
            Ok(PlacementView::Copy { target, source: artifact })
        } else {
            Err(BuildErrorView::FailedDependency(component))
        },
        FilesystemEntryView::FromShell(script) => Ok(PlacementView::Capture { target, script }),
    }
}

/// Whether a component's artifact is among those that were built.
pub fn has_artifact(lists: &Vec<ArtifactList>, component: &str, artifact: &str) -> (r: bool)
    ensures
        r == yielded(list_views(lists@), component@, artifact@),
{
    let mut i: usize = 0;
    while i < lists.len()
        invariant
            i <= lists.len(),
            forall|j: int|
                0 <= j < i ==> !((#[trigger] list_views(lists@)[j]).component == component@
                    && list_views(lists@)[j].artifacts.contains(artifact@)),
        decreases lists.len() - i,
    {
        if str_eq(lists[i].component.as_str(), component) {
            let list = &lists[i];
            let mut k: usize = 0;
            while k < list.artifacts.len()
                invariant
                    i < lists.len(),
                    *list == lists@[i as int],
                    list@.component == component@,
                    k <= list.artifacts.len(),
                    forall|h: int| 0 <= h < k ==> list.artifacts@[h]@ != artifact@,
                decreases list.artifacts.len() - k,
            {
                if str_eq(list.artifacts[k].as_str(), artifact) {
                    assert(list@.artifacts[k as int] == artifact@);
                    assert(list_views(lists@)[i as int] == list@);
                    return true;
                }
                k += 1;
            }
            assert forall|h: int| 0 <= h < list@.artifacts.len() implies list@.artifacts[h]
                != artifact@ by {
                assert(list@.artifacts[h] == list.artifacts@[h]@);
            }
            assert(list_views(lists@)[i as int] == list@);
        }
        i += 1;
    }
    false
}

/// Decides what one directive puts on the partition mounted at `live`.
pub fn place_file(live: &str, file: &File, lists: &Vec<ArtifactList>) -> (r: Result<
    Placement,
    BuildError,
>)
    ensures
        match (r, placement_of(live@, file@, list_views(lists@))) {
            (Ok(placement), Ok(wanted)) => placement@ == wanted,
            (Err(e), Err(wanted)) => e@ == wanted,
            _ => false,
        },
{
    let relative = strip_leading_slashes(file.path.as_str());
    let target = join_path(live, relative.as_str());
    match &file.content {
        FilesystemEntry::Symlink(points_to) => Ok(
            Placement::Symlink { target, points_to: points_to.clone() },
        ),
        FilesystemEntry::Text(text) => Ok(Placement::Write { target, text: text.clone() }),
        FilesystemEntry::Artifact { component, artifact } => {
            if has_artifact(lists, component.as_str(), artifact.as_str()) {
                Ok(Placement::Copy { target, source: artifact.clone() })
            } else {
                Err(BuildError::FailedDependency(component.clone()))
            }
        },
        FilesystemEntry::FromShell(script) => Ok(
            Placement::Capture { target, script: script.clone() },
        ),
    }
}

/// Whether `i` is the first directive that cannot be placed.
pub open spec fn first_unplaced(
    live: Seq<char>,
    files: Seq<FileView>,
    lists: Seq<ArtifactListView>,
    i: int,
) -> bool {
    &&& 0 <= i < files.len()
    &&& placement_of(live, files[i], lists) is Err
    &&& forall|j: int| 0 <= j < i ==> placement_of(live, files[j], lists) is Ok
}

/// Decides what is put on a partition mounted at `live`: one placement per
/// file directive, in order. The first directive that cannot be placed stops
/// the population with its error.
pub fn populate(partition: &Partition, live: &str, lists: &Vec<ArtifactList>) -> (r: Result<
    Vec<Placement>,
    BuildError,
>)
    ensures
        match r {
            Ok(placements) => {
                &&& placements@.len() == partition@.files.len()
                &&& forall|i: int|
                    0 <= i < placements@.len() ==> placement_of(
                        live@,
                        partition@.files[i],
                        list_views(lists@),
                    ) == Ok::<PlacementView, BuildErrorView>((#[trigger] placements@[i])@)
            },
            Err(e) => exists|i: int|
                first_unplaced(live@, partition@.files, list_views(lists@), i) && placement_of(
                    live@,
                    partition@.files[i],
                    list_views(lists@),
                ) == Err::<PlacementView, BuildErrorView>(e@),
        },
{
    let mut placements: Vec<Placement> = Vec::new();
    let mut i: usize = 0;
    while i < partition.files.len()
        invariant
            i <= partition.files.len(),
            partition@.files.len() == partition.files.len(),
            placements@.len() == i,
            forall|j: int|
                0 <= j < i ==> placement_of(live@, partition@.files[j], list_views(lists@)) == Ok::<
                    PlacementView,
                    BuildErrorView,
                >((#[trigger] placements@[j])@),
        decreases partition.files.len() - i,
    {
        assert(partition@.files[i as int] == partition.files@[i as int]@);
        match place_file(live, &partition.files[i], lists) {
            Ok(placement) => {
                placements.push(placement);
            },
            Err(e) => {
                assert forall|j: int| 0 <= j < i implies placement_of(
                    live@,
                    partition@.files[j],
                    list_views(lists@),
                ) is Ok by {
                    assert(placement_of(live@, partition@.files[j], list_views(lists@)) == Ok::<
                        PlacementView,
                        BuildErrorView,
                    >(placements@[j]@));
                }
                assert(first_unplaced(live@, partition@.files, list_views(lists@), i as int));
                return Err(e);
            },
        }
        i += 1;
    }
    Ok(placements)
}

} // verus!
