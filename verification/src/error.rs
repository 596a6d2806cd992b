//! The error taxonomy of a build.

use vstd::prelude::*;

verus! {

/// Everything that can abort a build, apart from plain operating-system errors.
#[derive(Debug, Clone, PartialEq, Eq)]
pub enum BuildError {
    /// Two component definitions share this name after imports were merged.
    DuplicateComponentName(String),
    /// A reference into the dependency graph does not lead to a node that
    /// exists already.
    ReferenceDropped,
    /// The build directory at this path cannot be used.
    InvalidBuildDir(String),
    /// The named component failed, so nothing that depends on it was built.
    FailedDependency(String),
    /// The `requires` relation between components contains a cycle.
    LoopError,
    /// The backing image could not be created.
    FailedToCreateImage,
    /// The storage daemon did not terminate cleanly after the quit command.
    QmpQuitFail,
    /// The storage daemon closed the control channel instead of replying.
    QmpQuitWrite0,
    /// The disk cannot take the kind of partition table that is asked for.
    InvalidDiskType,
    /// A partition was referred to by a label that the image does not define.
    InvalidPartitionName,
    /// The partition-exposing filesystem cannot be set up for the disk.
    FuseError,
    /// A partition names a filesystem for which no driver is registered.
    UnrecognisedFilesystem(String),
    /// The named filesystem driver failed to create its filesystem.
    FailedToCreateFilesystem(String),
    /// The partition with this label has no place on the disk.
    FailedToPartition(String),
}

/// The mathematical content of a [`BuildError`]: strings become character sequences.
pub enum BuildErrorView {
    DuplicateComponentName(Seq<char>),
    ReferenceDropped,
    InvalidBuildDir(Seq<char>),
    FailedDependency(Seq<char>),
    LoopError,
    FailedToCreateImage,
    QmpQuitFail,
    QmpQuitWrite0,
    InvalidDiskType,
    InvalidPartitionName,
    FuseError,
    UnrecognisedFilesystem(Seq<char>),
    FailedToCreateFilesystem(Seq<char>),
    FailedToPartition(Seq<char>),
}

impl View for BuildError {
    type V = BuildErrorView;

    open spec fn view(&self) -> BuildErrorView {
        match self {
            BuildError::DuplicateComponentName(s) => BuildErrorView::DuplicateComponentName(s@),
            BuildError::ReferenceDropped => BuildErrorView::ReferenceDropped,
            BuildError::InvalidBuildDir(s) => BuildErrorView::InvalidBuildDir(s@),
            BuildError::FailedDependency(s) => BuildErrorView::FailedDependency(s@),
            BuildError::LoopError => BuildErrorView::LoopError,
            BuildError::FailedToCreateImage => BuildErrorView::FailedToCreateImage,
            BuildError::QmpQuitFail => BuildErrorView::QmpQuitFail,
            BuildError::QmpQuitWrite0 => BuildErrorView::QmpQuitWrite0,
            BuildError::InvalidDiskType => BuildErrorView::InvalidDiskType,
            BuildError::InvalidPartitionName => BuildErrorView::InvalidPartitionName,
            BuildError::FuseError => BuildErrorView::FuseError,
            BuildError::UnrecognisedFilesystem(s) => BuildErrorView::UnrecognisedFilesystem(s@),
            BuildError::FailedToCreateFilesystem(s) => BuildErrorView::FailedToCreateFilesystem(s@),
            BuildError::FailedToPartition(s) => BuildErrorView::FailedToPartition(s@),
        }
    }
}

/// Any failure that the pipeline surfaces: one of the build's own errors, or
/// an operating-system error, given by its number.
#[derive(Debug, Clone, PartialEq, Eq)]
pub enum Failure {
    Build(BuildError),
    Io(i32),
}

pub enum FailureView {
    Build(BuildErrorView),
    Io(i32),
}

impl View for Failure {
    type V = FailureView;

    open spec fn view(&self) -> FailureView {
        match self {
            Failure::Build(e) => FailureView::Build(e@),
            Failure::Io(errno) => FailureView::Io(*errno),
        }
    }
}

} // verus!
