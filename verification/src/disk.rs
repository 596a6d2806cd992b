//! The disk backend: one contract over the two kinds of backing image, and the
//! partition table that both of them get.

use crate::config::ImageConfig;
use crate::config::ImageFormat;
use crate::config::Partition;
use crate::error::BuildError;
use crate::error::BuildErrorView;
use crate::geometry::disk_ok;
use crate::geometry::first_misfit;
use crate::geometry::fits;
use crate::geometry::labels_of;
use crate::geometry::length_of;
use crate::geometry::lemma_geometry;
use crate::geometry::lemma_remaining_bounds;
use crate::geometry::partition_geometries;
use crate::geometry::partition_sectors;
use crate::geometry::signed_sectors;
use crate::geometry::start_of;
use crate::paths::PathManager;
use crate::qemu::action_views;
use crate::qemu::DiskAction;
use crate::qemu::DiskActionView;
use crate::qemu::QCow2;
use crate::qemu::QCow2View;
use crate::raw::image_bytes;
use crate::raw::Raw;
use crate::raw::RawView;
use vstd::prelude::*;

verus! {

/// The backend that owns the backing file of an image.
#[derive(Debug, Clone, PartialEq, Eq)]
pub enum DiskManager {
    Raw(Raw),
    QCow2(QCow2),
}

pub enum DiskManagerView {
    Raw(RawView),
    QCow2(QCow2View),
}

impl View for DiskManager {
    type V = DiskManagerView;

    open spec fn view(&self) -> DiskManagerView {
        match self {
            DiskManager::Raw(disk) => DiskManagerView::Raw(disk@),
            DiskManager::QCow2(disk) => DiskManagerView::QCow2(disk@),
        }
    }
}

impl DiskManagerView {
    /// The path of the backing file.
    pub open spec fn backing(self) -> Seq<char> {
        match self {
            DiskManagerView::Raw(disk) => disk.backing,
            DiskManagerView::QCow2(disk) => disk.backing,
        }
    }

    /// What `mount` asks of the caller.
    pub open spec fn mount_actions(self) -> Seq<DiskActionView> {
        match self {
            DiskManagerView::Raw(_) => Seq::empty(),
            DiskManagerView::QCow2(disk) => disk.mount_actions(),
        }
    }

    /// What `unmount` asks of the caller.
    pub open spec fn unmount_actions(self) -> Seq<DiskActionView> {
        match self {
            DiskManagerView::Raw(_) => Seq::empty(),
            DiskManagerView::QCow2(disk) => disk.unmount_actions(),
        }
    }

    /// The backend once `mount` is through.
    pub open spec fn mounted(self) -> DiskManagerView {
        match self {
            DiskManagerView::Raw(disk) => self,
            DiskManagerView::QCow2(disk) => DiskManagerView::QCow2(
                QCow2View { running: true, ..disk },
            ),
        }
    }

    /// The backend once `unmount` is through.
    pub open spec fn unmounted(self) -> DiskManagerView {
        match self {
            DiskManagerView::Raw(disk) => self,
            DiskManagerView::QCow2(disk) => DiskManagerView::QCow2(
                QCow2View { running: false, ..disk },
            ),
        }
    }
}

/// One line of the partition table.
#[derive(Debug, Clone, PartialEq, Eq)]
pub struct TableEntry {
    pub label: String,
    /// The name of the filesystem that the partition is meant for, as a hint.
    pub filesystem: Option<String>,
    /// The first sector.
    pub start: i64,
    /// The last sector.
    pub end: i64,
}

pub struct TableEntryView {
    pub label: Seq<char>,
    pub filesystem: Option<Seq<char>>,
    pub start: i64,
    pub end: i64,
}

impl View for TableEntry {
    type V = TableEntryView;

    open spec fn view(&self) -> TableEntryView {
        TableEntryView {
            label: self.label@,
            filesystem: self.filesystem.deep_view(),
            start: self.start,
            end: self.end,
        }
    }
}

/// The views of a run of table entries, in order.
pub open spec fn table_views(entries: Seq<TableEntry>) -> Seq<TableEntryView> {
    Seq::new(entries.len(), |i: int| entries[i]@)
}

/// The line of the partition table for partition `i` of an image on a disk of
/// `total` sectors.
pub open spec fn table_entry(
    partitions: Seq<Partition>,
    total: int,
    sizes: Seq<int>,
    i: int,
) -> TableEntryView {
    TableEntryView {
        label: partitions[i].label@,
        filesystem: partitions[i].filesystem.deep_view(),
        start: start_of(total, sizes, i) as i64,
        end: (start_of(total, sizes, i) + length_of(total, sizes, i) - 1) as i64,
    }
}

impl DiskManager {
    /// The backend for an image, chosen by the image's format, with its
    /// backing file at the path of the final image, and what the caller does
    /// to create that file.
    ///
    /// Fails with `FailedToCreateImage` exactly when the format is raw and the
    /// image has no size in bytes.
    pub fn create_disk(image: &ImageConfig, paths: &PathManager) -> (r: Result<
        (Self, Vec<DiskAction>),
        BuildError,
    >)
        ensures
            match r {
                Ok((disk, actions)) => match image.format {
                    ImageFormat::Raw => image_bytes(image.size as int) matches Some(bytes)
                        && disk@ == DiskManagerView::Raw(
                        RawView { backing: paths@.final_image(), size: image.size as int },
                    ) && action_views(actions@) == seq![
                        DiskActionView::Allocate { path: paths@.final_image(), bytes },
                    ],
                    ImageFormat::QCow2 => disk@ == DiskManagerView::QCow2(
                        QCow2View {
                            backing: paths@.final_image(),
                            format: ImageFormat::QCow2,
                            size: image.size as int,
                            running: false,
                        },
                    ) && action_views(actions@) == disk@->QCow2_0.create_actions(),
                },
                Err(e) => e == BuildError::FailedToCreateImage && image.format == ImageFormat::Raw
                    && image_bytes(image.size as int) is None,
            },
    {
        let backing = paths.final_image();
        match image.format {
            ImageFormat::Raw => match Raw::create_disk(backing, image.size) {
                Ok((disk, actions)) => Ok((DiskManager::Raw(disk), actions)),
                Err(e) => Err(e),
            },
            ImageFormat::QCow2 => {
                let (disk, actions) = QCow2::create_disk(backing, image.size, ImageFormat::QCow2);
                Ok((DiskManager::QCow2(disk), actions))
            },
        }
    }

    /// The path of the backing file.
    pub fn backing(&self) -> (r: String)
        ensures
            r@ == self@.backing(),
    {
        match self {
            DiskManager::Raw(disk) => disk.backing(),
            DiskManager::QCow2(disk) => disk.backing(),
        }
    }

    /// Makes the image usable as a plain file at its backing path: lists what
    /// the caller has to do for that.
    pub fn mount(&mut self) -> (r: Vec<DiskAction>)
        ensures
            final(self)@ == old(self)@.mounted(),
            action_views(r@) == old(self)@.mount_actions(),
    {
        match self {
            DiskManager::Raw(disk) => {
                let actions = disk.mount();
                assert(action_views(actions@) =~= Seq::<DiskActionView>::empty());
                actions
            },
            DiskManager::QCow2(disk) => disk.mount(),
        }
    }

    /// Releases the image: lists what the caller has to do for that.
    pub fn unmount(&mut self) -> (r: Vec<DiskAction>)
        ensures
            final(self)@ == old(self)@.unmounted(),
            action_views(r@) == old(self)@.unmount_actions(),
    {
        match self {
            DiskManager::Raw(disk) => {
                let actions = disk.unmount();
                assert(action_views(actions@) =~= Seq::<DiskActionView>::empty());
                actions
            },
            DiskManager::QCow2(disk) => disk.unmount(),
        }
    }

    /// The partition table of an image on a disk with the given sector size:
    /// one entry per partition, in order, with its label, its filesystem hint
    /// and its first and last sector.
    ///
    /// Fails as [`partition_geometries`] does, and in no other case.
    pub fn build(&self, image: &ImageConfig, sector_size: u64) -> (r: Result<
        Vec<TableEntry>,
        BuildError,
    >)
        ensures
            ({
                let total = signed_sectors(image.size as int, sector_size as int);
                let sizes = partition_sectors(image.partitions@, sector_size as int);
                match r {
                    Ok(entries) => {
                        &&& disk_ok(image.size as int, sector_size as int)
                        &&& forall|i: int| 0 <= i < sizes.len() ==> fits(total, sizes, i)
                        &&& table_views(entries@) == Seq::new(
                            sizes.len(),
                            |i: int| table_entry(image.partitions@, total, sizes, i),
                        )
                    },
                    Err(e) => if !disk_ok(image.size as int, sector_size as int) {
                        e@ == BuildErrorView::FailedToCreateImage
                    } else {
                        exists|i: int|
                            first_misfit(total, sizes, i) && e@
                                == BuildErrorView::FailedToPartition(
                                #[trigger] labels_of(image.partitions@)[i],
                            )
                    },
                }
            }),
    {
        let ghost total = signed_sectors(image.size as int, sector_size as int);
        let ghost sizes = partition_sectors(image.partitions@, sector_size as int);
        match partition_geometries(image, sector_size) {
            Ok(geometries) => {
                let mut entries: Vec<TableEntry> = Vec::new();
                let mut i: usize = 0;
                while i < image.partitions.len()
                    invariant
                        i <= image.partitions.len(),
                        total == signed_sectors(image.size as int, sector_size as int),
                        sizes == partition_sectors(image.partitions@, sector_size as int),
                        disk_ok(image.size as int, sector_size as int),
                        0 <= total <= i64::MAX,
                        sizes.len() == image.partitions.len(),
                        forall|j: int| 0 <= j < sizes.len() ==> fits(total, sizes, j),
                        geometries@ == Seq::new(
                            sizes.len(),
                            |j: int| crate::geometry::geometry_of(total, sizes, j),
                        ),
                        table_views(entries@) == Seq::new(
                            i as nat,
                            |j: int| table_entry(image.partitions@, total, sizes, j),
                        ),
                    decreases image.partitions.len() - i,
                {
                    let partition = &image.partitions[i];
                    let geometry = geometries[i];
                    proof {
                        assert(fits(total, sizes, i as int));
                        lemma_remaining_bounds(total, sizes, i as int);
                        lemma_remaining_bounds(total, sizes, i + 1);
                        assert(geometry == crate::geometry::geometry_of(total, sizes, i as int));
                        assert(geometry.start == start_of(total, sizes, i as int));
                        assert(geometry.length == length_of(total, sizes, i as int));
                    }
                    let filesystem = match &partition.filesystem {
                        Some(name) => Some(name.clone()),
                        None => None,
                    };
                    let ghost before = table_views(entries@);
                    let entry = TableEntry {
                        label: partition.label.clone(),
                        filesystem,
                        start: geometry.start,
                        end: geometry.start + (geometry.length - 1),
                    };
                    assert(entry@ == table_entry(image.partitions@, total, sizes, i as int));
                    entries.push(entry);
                    assert(table_views(entries@) =~= before.push(
                        table_entry(image.partitions@, total, sizes, i as int),
                    ));
                    assert(table_views(entries@) =~= Seq::new(
                        (i + 1) as nat,
                        |j: int| table_entry(image.partitions@, total, sizes, j),
                    ));
                    i += 1;
                }
                Ok(entries)
            },
            Err(e) => Err(e),
        }
    }
}

} // verus!
