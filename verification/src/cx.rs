//! The build context: the environment that build commands see, and the
//! record of what was acquired, so that all of it is released again in
//! reverse order, however the build ends.

use crate::config::ConfigFile;
use crate::config::Partition;
use crate::paths::joined_path;
use crate::paths::str_eq;
use crate::paths::PathManager;
use crate::paths::PathManagerView;
use vstd::prelude::*;

verus! {

/// Something that the build holds and has to give back.
#[derive(Debug, Clone, Copy, PartialEq, Eq, Structural)]
pub enum Resource {
    /// The disk backend, created and made usable.
    Disk,
    /// The session of the partition-exposing filesystem, which also holds the
    /// backing file open.
    PartFs,
    /// The filesystems of the partitions, as far as they are mounted.
    Mounts,
}

/// How a resource is given back.
#[derive(Debug, Clone, Copy, PartialEq, Eq, Structural)]
pub enum Release {
    /// Unmount every filesystem that is mounted, the latest mount first.
    UnmountFilesystems,
    /// End the session of the partition-exposing filesystem, which closes the
    /// backing file.
    UnmountPartFs,
    /// Release the disk backend.
    UnmountDisk,
}

/// How a given resource is given back.
pub open spec fn release_of(resource: Resource) -> Release {
    match resource {
        Resource::Disk => Release::UnmountDisk,
        Resource::PartFs => Release::UnmountPartFs,
        Resource::Mounts => Release::UnmountFilesystems,
    }
}

/// The order in which resources are acquired: the disk, the
/// partition-exposing filesystem on it, and the filesystems inside the
/// partitions that it exposes.
pub open spec fn acquisition_order() -> Seq<Resource> {
    seq![Resource::Disk, Resource::PartFs, Resource::Mounts]
}

/// Whether a resource may be acquired next: it is the next one in the order of
/// acquisition.
pub open spec fn admits(acquired: Seq<Resource>, resource: Resource) -> bool {
    acquired.len() < 3 && acquisition_order()[acquired.len() as int] == resource
}

/// Whether resources were acquired in the order of acquisition, without a
/// gap.
pub open spec fn in_order(acquired: Seq<Resource>) -> bool {
    acquired.len() <= 3 && acquired == acquisition_order().take(acquired.len() as int)
}

/// The releases that give back what was acquired: the latest acquisition
/// first.
pub open spec fn teardown_of(acquired: Seq<Resource>) -> Seq<Release> {
    Seq::new(acquired.len(), |i: int| release_of(acquired[acquired.len() - 1 - i]))
}

/// The environment of a build, variable by variable.
pub open spec fn environment(paths: PathManagerView) -> Seq<(Seq<char>, Seq<char>)> {
    seq![("BUILD_DIR"@, paths.build_dir), ("IMAGE"@, paths.final_image())]
}

/// The value of a variable in an environment: that of the first entry of
/// that name.
pub open spec fn lookup(env: Seq<(Seq<char>, Seq<char>)>, var: Seq<char>) -> Option<Seq<char>>
    decreases env.len(),
{
    if env.len() == 0 {
        None
    } else if env[0].0 == var {
        Some(env[0].1)
    } else {
        lookup(env.drop_first(), var)
    }
}

/// The live-mount directories of the first `n` partitions, in order: one for
/// every partition whose label the path manager knows.
pub open spec fn live_directories(
    paths: PathManagerView,
    partitions: Seq<Partition>,
    n: int,
) -> Seq<Seq<char>>
    decreases n,
{
    if n <= 0 {
        Seq::empty()
    } else if paths.labels.contains(partitions[n - 1].label@) {
        live_directories(paths, partitions, n - 1).push(
            joined_path(paths.live(), partitions[n - 1].label@),
        )
    } else {
        live_directories(paths, partitions, n - 1)
    }
}

pub struct ContextView {
    /// Where everything of the build lies.
    pub paths: PathManagerView,
    /// The environment that build commands see.
    pub env: Seq<(Seq<char>, Seq<char>)>,
    /// What the build holds, in the order of acquisition.
    pub acquired: Seq<Resource>,
}

/// The context of one build.
#[derive(Debug)]
pub struct Context {
    paths: PathManager,
    env: Vec<(String, String)>,
    acquired: Vec<Resource>,
}

impl View for Context {
    type V = ContextView;

    closed spec fn view(&self) -> ContextView {
        ContextView {
            paths: self.paths@,
            env: Seq::new(self.env@.len(), |i: int| (self.env@[i].0@, self.env@[i].1@)),
            acquired: self.acquired@,
        }
    }
}

/// Prepares the context of a build: the environment, with nothing acquired
/// yet, and the directories that have to exist before anything is acquired,
/// the build directory first.
pub fn mk_context(config: &ConfigFile, paths: &PathManager) -> (r: (Context, Vec<String>))
    ensures
        r.0@.paths == paths@,
        r.0@.env == environment(paths@),
        r.0@.acquired == Seq::<Resource>::empty(),
        r.1.deep_view() == seq![paths@.build_dir] + live_directories(
            paths@,
            config.image.partitions@,
            config.image.partitions@.len() as int,
        ),
{
    let build_dir = paths.build_dir();
    let final_image = paths.final_image();
    let mut directories: Vec<String> = Vec::new();
    directories.push(build_dir.clone());
    let mut i: usize = 0;
    assert(directories.deep_view() =~= seq![paths@.build_dir] + live_directories(
        paths@,
        config.image.partitions@,
        0,
    ));
    while i < config.image.partitions.len()
        invariant
            i <= config.image.partitions.len(),
            directories.deep_view() == seq![paths@.build_dir] + live_directories(
                paths@,
                config.image.partitions@,
                i as int,
            ),
        decreases config.image.partitions.len() - i,
    {
        let ghost before = directories.deep_view();
        match paths.live_part(config.image.partitions[i].label.as_str()) {
            Some(dir) => {
                directories.push(dir);
                assert(directories.deep_view() =~= before.push(
                    joined_path(paths@.live(), config.image.partitions@[i as int].label@),
                ));
                assert(directories.deep_view() =~= seq![paths@.build_dir] + live_directories(
                    paths@,
                    config.image.partitions@,
                    i + 1,
                ));
            },
            None => {},
        }
        i += 1;
    }
    let mut env: Vec<(String, String)> = Vec::new();
    env.push(("BUILD_DIR".to_owned(), build_dir));
    env.push(("IMAGE".to_owned(), final_image));
    let context = Context { paths: paths.duplicate(), env, acquired: Vec::new() };
    assert(context@.env =~= environment(paths@));
    (context, directories)
}

impl Context {
    /// The value of a variable of the build environment.
    pub fn env(&self, var: &str) -> (r: Option<String>)
        ensures
            r.deep_view() == lookup(self@.env, var@),
    {
        let mut i: usize = 0;
        assert(self@.env.skip(0) =~= self@.env);
        while i < self.env.len()
            invariant
                i <= self.env.len(),
                lookup(self@.env, var@) == lookup(self@.env.skip(i as int), var@),
            decreases self.env.len() - i,
        {
            let ghost rest = self@.env.skip(i as int);
            assert(rest[0] == self@.env[i as int]);
            assert(rest.drop_first() =~= self@.env.skip(i + 1));
            if str_eq(self.env[i].0.as_str(), var) {
                return Some(self.env[i].1.clone());
            }
            i += 1;
        }
        None
    }

    /// The path manager of the build.
    pub fn paths(&self) -> (r: &PathManager)
        ensures
            r@ == self@.paths,
    {
        &self.paths
    }

    /// How many resources the build holds.
    pub fn held(&self) -> (r: usize)
        ensures
            r == self@.acquired.len(),
    {
        self.acquired.len()
    }

    /// Records that a resource was acquired, if it is its turn. The result
    /// says whether it was; if not, nothing changes.
    pub fn acquire(&mut self, resource: Resource) -> (r: bool)
        ensures
            r == admits(old(self)@.acquired, resource),
            final(self)@.paths == old(self)@.paths,
            final(self)@.env == old(self)@.env,
            final(self)@.acquired == if r {
                old(self)@.acquired.push(resource)
            } else {
                old(self)@.acquired
            },
            in_order(old(self)@.acquired) ==> in_order(final(self)@.acquired),
    {
        let count = self.acquired.len();
        let admitted = match resource {
            Resource::Disk => count == 0,
            Resource::PartFs => count == 1,
            Resource::Mounts => count == 2,
        };
        if admitted {
            self.acquired.push(resource);
            proof {
                if in_order(old(self)@.acquired) {
                    assert(self@.acquired =~= acquisition_order().take(
                        self@.acquired.len() as int,
                    ));
                }
            }
        }
        admitted
    }

    /// Gives everything back: lists the releases to perform, the latest
    /// acquisition first, and leaves the context holding nothing.
    pub fn teardown(&mut self) -> (r: Vec<Release>)
        ensures
            r@ == teardown_of(old(self)@.acquired),
            final(self)@.paths == old(self)@.paths,
            final(self)@.env == old(self)@.env,
            final(self)@.acquired == Seq::<Resource>::empty(),
    {
        let mut releases: Vec<Release> = Vec::new();
        let ghost held = self@.acquired;
        while self.acquired.len() > 0
            invariant
                self@.paths == old(self)@.paths,
                self@.env == old(self)@.env,
                held == old(self)@.acquired,
                self@.acquired == held.take(self@.acquired.len() as int),
                self@.acquired.len() <= held.len(),
                releases@.len() == held.len() - self@.acquired.len(),
                forall|i: int|
                    0 <= i < releases@.len() ==> (#[trigger] releases@[i]) == release_of(
                        held[held.len() - 1 - i],
                    ),
            decreases self.acquired.len(),
        {
            let ghost before = self@.acquired;
            let resource = self.acquired.pop().unwrap();
            assert(resource == before[before.len() - 1]);
            assert(self@.acquired =~= before.drop_last());
            assert(self@.acquired =~= held.take(self@.acquired.len() as int));
            let release = match resource {
                Resource::Disk => Release::UnmountDisk,
                Resource::PartFs => Release::UnmountPartFs,
                Resource::Mounts => Release::UnmountFilesystems,
            };
            releases.push(release);
        }
        assert(releases@ =~= teardown_of(held));
        assert(self@.acquired =~= Seq::<Resource>::empty());
        releases
    }
}

/// Teardown: at whatever point of the acquisition a build ends, everything
/// that it holds is released, in reverse. The filesystems are unmounted
/// first, then the partition-exposing filesystem, and the disk last.
pub proof fn lemma_teardown(acquired: Seq<Resource>)
    requires
        in_order(acquired),
    ensures
        teardown_of(acquired) == if acquired.len() == 0 {
            Seq::<Release>::empty()
        } else if acquired.len() == 1 {
            seq![Release::UnmountDisk]
        } else if acquired.len() == 2 {
            seq![Release::UnmountPartFs, Release::UnmountDisk]
        } else {
            seq![Release::UnmountFilesystems, Release::UnmountPartFs, Release::UnmountDisk]
        },
{
    let order = acquisition_order();
    assert(forall|i: int| 0 <= i < acquired.len() ==> acquired[i] == order.take(
        acquired.len() as int,
    )[i]);
    if acquired.len() == 0 {
        assert(teardown_of(acquired) =~= Seq::<Release>::empty());
    } else if acquired.len() == 1 {
        assert(teardown_of(acquired) =~= seq![Release::UnmountDisk]);
    } else if acquired.len() == 2 {
        assert(teardown_of(acquired) =~= seq![Release::UnmountPartFs, Release::UnmountDisk]);
    } else {
        assert(teardown_of(acquired) =~= seq![
            Release::UnmountFilesystems,
            Release::UnmountPartFs,
            Release::UnmountDisk,
        ]);
    }
}

} // verus!
