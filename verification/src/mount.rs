//! The filesystem driver registry and the mount coordinator.
//!
//! The functions here decide what is to be formatted and mounted, and in what
//! order mounts are released. The caller runs the drivers.

use crate::config::ImageConfig;
use crate::config::Partition;
use crate::error::BuildError;
use crate::error::BuildErrorView;
use crate::paths::joined_path;
use crate::paths::str_eq;
use crate::paths::PathManager;
use crate::paths::PathManagerView;
use vstd::prelude::*;

verus! {

/// A filesystem that the pipeline can create and mount.
#[derive(Debug, Clone, Copy, PartialEq, Eq, Structural)]
pub enum FilesystemDriver {
    /// Created by `mkfs.fat`, mounted by the operating system.
    Fat32,
    /// Created and mounted in-process.
    RedoxFs,
}

/// The registry: which driver, if any, a filesystem name stands for.
pub open spec fn registered_driver(name: Seq<char>) -> Option<FilesystemDriver> {
    if name == "fat32"@ {
        Some(FilesystemDriver::Fat32)
    } else if name == "redoxfs"@ {
        Some(FilesystemDriver::RedoxFs)
    } else {
        None
    }
}

/// Looks a filesystem name up in the registry. A name without a driver is an
/// `UnrecognisedFilesystem` error that carries the name.
pub fn driver_for(name: &str) -> (r: Result<FilesystemDriver, BuildError>)
    ensures
        match registered_driver(name@) {
            Some(driver) => r == Ok::<FilesystemDriver, BuildError>(driver),
            None => r is Err && r->Err_0@ == BuildErrorView::UnrecognisedFilesystem(name@),
        },
{
    if str_eq(name, "fat32") {
        Ok(FilesystemDriver::Fat32)
    } else if str_eq(name, "redoxfs") {
        Ok(FilesystemDriver::RedoxFs)
    } else {
        Err(BuildError::UnrecognisedFilesystem(name.to_owned()))
    }
}

/// One partition that gets a filesystem: where its block device is exposed,
/// where the filesystem is mounted, and which driver handles it.
#[derive(Debug, Clone, PartialEq, Eq)]
pub struct FilesystemStep {
    pub label: String,
    /// The partition's block device under the partition-exposing filesystem.
    pub device: String,
    /// The partition's live mount point.
    pub mount_point: String,
    pub driver: FilesystemDriver,
}

pub struct FilesystemStepView {
    pub label: Seq<char>,
    pub device: Seq<char>,
    pub mount_point: Seq<char>,
    pub driver: FilesystemDriver,
}

impl View for FilesystemStep {
    type V = FilesystemStepView;

    open spec fn view(&self) -> FilesystemStepView {
        FilesystemStepView {
            label: self.label@,
            device: self.device@,
            mount_point: self.mount_point@,
            driver: self.driver,
        }
    }
}

/// The views of a run of steps, in order.
pub open spec fn step_views(steps: Seq<FilesystemStep>) -> Seq<FilesystemStepView> {
    Seq::new(steps.len(), |i: int| steps[i]@)
}

/// Why a partition cannot be prepared, if it cannot: its label is unknown to
/// the path manager, or it names a filesystem without a driver.
pub open spec fn partition_fault(paths: PathManagerView, part: Partition) -> Option<
    BuildErrorView,
> {
    if !paths.labels.contains(part.label@) {
        Some(BuildErrorView::InvalidPartitionName)
    } else {
        match part.filesystem {
            Some(fs) => match registered_driver(fs@) {
                Some(_) => None,
                None => Some(BuildErrorView::UnrecognisedFilesystem(fs@)),
            },
            None => None,
        }
    }
}

/// The step that a sound partition contributes: none without a filesystem.
pub open spec fn partition_step(paths: PathManagerView, part: Partition) -> Option<
    FilesystemStepView,
> {
    match part.filesystem {
        Some(fs) => match registered_driver(fs@) {
            Some(driver) => Some(
                FilesystemStepView {
                    label: part.label@,
                    device: joined_path(paths.partitions(), part.label@),
                    mount_point: joined_path(paths.live(), part.label@),
                    driver,
                },
            ),
            None => None,
        },
        None => None,
    }
}

/// The steps of the first `n` partitions, in partition order.
pub open spec fn steps_of(paths: PathManagerView, parts: Seq<Partition>, n: int) -> Seq<
    FilesystemStepView,
>
    decreases n,
{
    if n <= 0 {
        Seq::empty()
    } else {
        match partition_step(paths, parts[n - 1]) {
            Some(step) => steps_of(paths, parts, n - 1).push(step),
            None => steps_of(paths, parts, n - 1),
        }
    }
}

/// Whether `i` is the first partition that cannot be prepared.
pub open spec fn first_fault_at(paths: PathManagerView, parts: Seq<Partition>, i: int) -> bool {
    &&& 0 <= i < parts.len()
    &&& partition_fault(paths, parts[i]) is Some
    &&& forall|j: int| 0 <= j < i ==> partition_fault(paths, parts[j]) is None
}

/// Decides which partitions get a filesystem and through which driver.
///
/// Partitions are taken in order. The first one whose label the path manager
/// does not know, or whose filesystem has no driver, stops the plan with its
/// error. Otherwise the result lists one step per partition that names a
/// filesystem, in partition order.
pub fn preload_filesystems(image: &ImageConfig, paths: &PathManager) -> (r: Result<
    Vec<FilesystemStep>,
    BuildError,
>)
    ensures
        match r {
            Ok(steps) => {
                &&& forall|j: int|
                    0 <= j < image.partitions@.len() ==> partition_fault(
                        paths@,
                        #[trigger] image.partitions@[j],
                    ) is None
                &&& step_views(steps@) == steps_of(
                    paths@,
                    image.partitions@,
                    image.partitions@.len() as int,
                )
            },
            Err(e) => exists|i: int|
                first_fault_at(paths@, image.partitions@, i) && partition_fault(
                    paths@,
                    image.partitions@[i],
                ) == Some(e@),
        },
{
    let mut steps: Vec<FilesystemStep> = Vec::new();
    let mut i: usize = 0;
    while i < image.partitions.len()
        invariant
            i <= image.partitions.len(),
            forall|j: int|
                0 <= j < i ==> partition_fault(paths@, #[trigger] image.partitions@[j]) is None,
            step_views(steps@) == steps_of(paths@, image.partitions@, i as int),
        decreases image.partitions.len() - i,
    {
        let part = &image.partitions[i];
        let ghost before = step_views(steps@);
        let device = paths.partition(part.label.as_str());
        let mount_point = paths.live_part(part.label.as_str());
        match (device, mount_point) {
            (Some(device), Some(mount_point)) => {
                match &part.filesystem {
                    Some(fs) => {
                        match driver_for(fs.as_str()) {
                            Ok(driver) => {
                                steps.push(
                                    FilesystemStep {
                                        label: part.label.clone(),
                                        device,
                                        mount_point,
                                        driver,
                                    },
                                );
                                assert(step_views(steps@) =~= before.push(
                                    partition_step(paths@, *part)->Some_0,
                                ));
                            },
                            Err(e) => {
                                assert(first_fault_at(paths@, image.partitions@, i as int));
                                return Err(e);
                            },
                        }
                    },
                    None => {},
                }
            },
            _ => {
                assert(first_fault_at(paths@, image.partitions@, i as int));
                return Err(BuildError::InvalidPartitionName);
            },
        }
        i += 1;
    }
    Ok(steps)
}

/// Records what was mounted, so that it can be released again.
#[derive(Debug, Clone, PartialEq, Eq)]
pub struct MountHandle {
    partitions: Vec<String>,
}

impl View for MountHandle {
    type V = Seq<Seq<char>>;

    /// The recorded mount points, oldest first.
    closed spec fn view(&self) -> Seq<Seq<char>> {
        self.partitions.deep_view()
    }
}

impl MountHandle {
    /// A handle that records nothing yet.
    pub fn new() -> (r: Self)
        ensures
            r@ == Seq::<Seq<char>>::empty(),
    {
        let r = MountHandle { partitions: Vec::new() };
        assert(r.partitions.deep_view() =~= Seq::<Seq<char>>::empty());
        r
    }

    /// Records one more mount point, behind those already recorded.
    pub fn record(&mut self, mount_point: String)
        ensures
            final(self)@ == old(self)@.push(mount_point@),
    {
        self.partitions.push(mount_point);
        assert(self.partitions.deep_view() =~= old(self).partitions.deep_view().push(
            mount_point@,
        ));
    }

    /// How many mounts are recorded.
    pub fn len(&self) -> (r: usize)
        ensures
            r == self@.len(),
    {
        self.partitions.len()
    }

    /// Gives up the handle and lists every recorded mount point in the order
    /// of release: the most recent mount first.
    pub fn unmount_all(self) -> (r: Vec<String>)
        ensures
            r.deep_view() == self@.reverse(),
    {
        let mut order: Vec<String> = Vec::new();
        let mut i: usize = self.partitions.len();
        while i > 0
            invariant
                i <= self.partitions.len(),
                order.len() == self.partitions.len() - i,
                forall|j: int|
                    0 <= j < order.len() ==> order@[j]@ == self.partitions@[self.partitions.len()
                        - 1 - j]@,
            decreases i,
        {
            i -= 1;
            order.push(self.partitions[i].clone());
        }
        assert(order.deep_view() =~= self.partitions.deep_view().reverse());
        order
    }
}

/// Decides what the mount coordinator mounts: the plan of
/// [`preload_filesystems`], each step now to be mounted at its mount point, in
/// order. The plan comes with a handle that records nothing yet; every mount
/// point is recorded in it once its mount is made.
pub fn mount_filesystems(image: &ImageConfig, paths: &PathManager) -> (r: Result<
    (Vec<FilesystemStep>, MountHandle),
    BuildError,
>)
    ensures
        match r {
            Ok((steps, handle)) => {
                &&& forall|j: int|
                    0 <= j < image.partitions@.len() ==> partition_fault(
                        paths@,
                        #[trigger] image.partitions@[j],
                    ) is None
                &&& step_views(steps@) == steps_of(
                    paths@,
                    image.partitions@,
                    image.partitions@.len() as int,
                )
                &&& handle@ == Seq::<Seq<char>>::empty()
            },
            Err(e) => exists|i: int|
                first_fault_at(paths@, image.partitions@, i) && partition_fault(
                    paths@,
                    image.partitions@[i],
                ) == Some(e@),
        },
{
    match preload_filesystems(image, paths) {
        Ok(steps) => Ok((steps, MountHandle::new())),
        Err(e) => Err(e),
    }
}

/// The first failure among the outcomes of a run of releases, each given as
/// the operating system's error number, or `None` where the release went well.
pub open spec fn first_failure(outcomes: Seq<Option<i32>>) -> Option<i32>
    decreases outcomes.len(),
{
    if outcomes.len() == 0 {
        None
    } else if outcomes[0] is Some {
        outcomes[0]
    } else {
        first_failure(outcomes.drop_first())
    }
}

/// What a run of releases surfaces once every one of them was attempted: the
/// first error, if there was any.
pub fn unmount_outcome(outcomes: &Vec<Option<i32>>) -> (r: Result<(), i32>)
    ensures
        match first_failure(outcomes@) {
            Some(errno) => r == Err::<(), i32>(errno),
            None => r is Ok,
        },
{
    let mut i: usize = 0;
    assert(outcomes@.skip(0) =~= outcomes@);
    while i < outcomes.len()
        invariant
            i <= outcomes.len(),
            first_failure(outcomes@) == first_failure(outcomes@.skip(i as int)),
        decreases outcomes.len() - i,
    {
        let ghost rest = outcomes@.skip(i as int);
        assert(rest[0] == outcomes@[i as int]);
        assert(rest.drop_first() =~= outcomes@.skip(i + 1));
        match outcomes[i] {
            Some(errno) => {
                return Err(errno);
            },
            None => {},
        }
        i += 1;
    }
    assert(outcomes@.skip(i as int).len() == 0);
    Ok(())
}

impl FilesystemDriver {
    /// The name by which the driver's filesystem is known.
    pub open spec fn display_name(self) -> Seq<char> {
        match self {
            FilesystemDriver::Fat32 => "FAT32"@,
            FilesystemDriver::RedoxFs => "RedoxFS"@,
        }
    }

    /// The name under which the driver is registered.
    pub open spec fn registered_name(self) -> Seq<char> {
        match self {
            FilesystemDriver::Fat32 => "fat32"@,
            FilesystemDriver::RedoxFs => "redoxfs"@,
        }
    }

    /// The name under which the driver is registered.
    pub fn name(&self) -> (r: &'static str)
        ensures
            r@ == self.registered_name(),
    {
        match self {
            FilesystemDriver::Fat32 => "fat32",
            FilesystemDriver::RedoxFs => "redoxfs",
        }
    }

    /// Judges how the creation of a filesystem ended: a failure is
    /// `FailedToCreateFilesystem` with the filesystem's name.
    pub fn created(&self, success: bool) -> (r: Result<(), BuildError>)
        ensures
            success ==> r is Ok,
            !success ==> r is Err && r->Err_0@ == BuildErrorView::FailedToCreateFilesystem(
                self.display_name(),
            ),
    {
        if success {
            Ok(())
        } else {
            match self {
                FilesystemDriver::Fat32 => Err(
                    BuildError::FailedToCreateFilesystem("FAT32".to_owned()),
                ),
                FilesystemDriver::RedoxFs => Err(
                    BuildError::FailedToCreateFilesystem("RedoxFS".to_owned()),
                ),
            }
        }
    }
}

} // verus!
