//! Declarative assembly of partitioned disk images.
//!
//! From one manifest the pipeline allocates a backing file, partitions it,
//! exposes the partitions as files, creates and mounts filesystems inside
//! them, builds the components that the partitions need, and places the
//! results. This crate holds the rules of that pipeline as verified functions
//! on plain values. Every function decides; none performs I/O. A caller reads
//! files, runs commands and mounts filesystems as the results tell it to, and
//! reports back how that went.
//!
//! - [`config`], [`manifest`], [`plan`]: the manifest, its imports, the rule
//!   that component names are unique, and the plan of a build.
//! - [`graph`]: the component dependency graph, one node per component.
//! - [`scheduler`], [`builder`]: which component is built when, at most once,
//!   and how failure spreads.
//! - [`geometry`], [`disk`], [`raw`], [`qemu`]: the partition table and the two
//!   kinds of backing image.
//! - [`partfs`]: the filesystem that exposes partitions as files, with reads
//!   and writes that never leave a partition.
//! - [`mount`], [`populate`], [`cx`]: filesystems inside partitions, what is
//!   placed on them, and the release of everything that a build holds.
//! - [`paths`], [`cli`], [`reporter`], [`error`]: paths, arguments, report
//!   modes and errors.

pub mod builder;
pub mod cli;
pub mod config;
pub mod cx;
pub mod disk;
pub mod error;
pub mod geometry;
pub mod graph;
pub mod manifest;
pub mod mount;
pub mod partfs;
pub mod paths;
pub mod plan;
pub mod populate;
pub mod qemu;
pub mod raw;
pub mod reporter;
pub mod scheduler;
