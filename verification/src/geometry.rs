//! Partition geometry: where on the disk each partition lies.
//!
//! Sizes are given in mebibytes and laid out in sectors, one partition after
//! the other, with a running remainder. A negative size takes what is left of
//! the disk, short of that many mebibytes.

use crate::config::ImageConfig;
use crate::config::Partition;
use crate::error::BuildError;
use crate::error::BuildErrorView;
use vstd::prelude::*;

verus! {

/// The bytes in a mebibyte.
pub const MEBIBYTE: u64 = 1048576;

/// The extent of one partition, in sectors.
#[derive(Debug, Clone, Copy, PartialEq, Eq, Structural)]
pub struct Geometry {
    /// The first sector.
    pub start: i64,
    /// The number of sectors.
    pub length: i64,
}

impl Geometry {
    /// The last sector of the extent, if the extent holds a sector at least
    /// and its last sector can be numbered with 64 signed bits.
    pub fn end(&self) -> (r: Option<i64>)
        ensures
            r == if self.length >= 1 && i64::MIN <= self.start + self.length - 1 <= i64::MAX {
                Some((self.start + self.length - 1) as i64)
            } else {
                None::<i64>
            },
    {
        if self.length < 1 {
            return None;
        }
        let last: i128 = self.start as i128 + (self.length as i128 - 1);
        if last < i64::MIN as i128 || last > i64::MAX as i128 {
            None
        } else {
            Some(last as i64)
        }
    }
}

/// The absolute value of an integer.
pub open spec fn magnitude_of(n: int) -> int {
    if n < 0 {
        -n
    } else {
        n
    }
}

/// The absolute value of an integer.
pub fn magnitude(n: i64) -> (r: u64)
    ensures
        r == magnitude_of(n as int),
{
    if n == i64::MIN {
        0x8000_0000_0000_0000u64
    } else if n < 0 {
        (-n) as u64
    } else {
        n as u64
    }
}

/// A size in mebibytes as a number of sectors, rounded towards zero and with
/// the sign of the size.
pub open spec fn signed_sectors(mib: int, sector_size: int) -> int {
    if mib < 0 {
        -((-mib * MEBIBYTE) / sector_size)
    } else {
        (mib * MEBIBYTE) / sector_size
    }
}

/// The sizes of a run of partitions as signed numbers of sectors.
pub open spec fn partition_sectors(partitions: Seq<Partition>, sector_size: int) -> Seq<int> {
    Seq::new(partitions.len(), |i: int| signed_sectors(partitions[i].size as int, sector_size))
}

/// The sectors that are left once the first `n` partitions are laid out. A
/// partition of negative size leaves exactly what it is short of the end.
pub open spec fn remaining_before(total: int, sizes: Seq<int>, n: int) -> int
    decreases n,
{
    if n <= 0 {
        total
    } else if sizes[n - 1] < 0 {
        -sizes[n - 1]
    } else {
        remaining_before(total, sizes, n - 1) - sizes[n - 1]
    }
}

/// The length of partition `i`: its size, or for a negative size what is left
/// of the disk, short of that size.
pub open spec fn length_of(total: int, sizes: Seq<int>, i: int) -> int {
    if sizes[i] < 0 {
        remaining_before(total, sizes, i) + sizes[i]
    } else {
        sizes[i]
    }
}

/// The first sector of partition `i`: everything before it is taken.
pub open spec fn start_of(total: int, sizes: Seq<int>, i: int) -> int {
    total - remaining_before(total, sizes, i)
}

/// Whether partition `i` holds a sector at least and ends within the disk.
pub open spec fn fits(total: int, sizes: Seq<int>, i: int) -> bool {
    1 <= length_of(total, sizes, i) <= remaining_before(total, sizes, i)
}

/// Whether a disk of the given size and sector size can be laid out at all:
/// the sector size is not zero, the size is not negative, and the number of
/// sectors fits 64 signed bits.
pub open spec fn disk_ok(size: int, sector_size: int) -> bool {
    sector_size >= 1 && size >= 0 && signed_sectors(size, sector_size) <= i64::MAX
}

/// Whether `i` is the first partition that does not fit.
pub open spec fn first_misfit(total: int, sizes: Seq<int>, i: int) -> bool {
    &&& 0 <= i < sizes.len()
    &&& !fits(total, sizes, i)
    &&& forall|j: int| 0 <= j < i ==> fits(total, sizes, j)
}

/// The geometry of partition `i`.
pub open spec fn geometry_of(total: int, sizes: Seq<int>, i: int) -> Geometry {
    Geometry { start: start_of(total, sizes, i) as i64, length: length_of(total, sizes, i) as i64 }
}

/// As long as every partition fits, the remainder stays within the disk.
pub proof fn lemma_remaining_bounds(total: int, sizes: Seq<int>, n: int)
    requires
        0 <= n <= sizes.len(),
        total >= 0,
        forall|j: int| 0 <= j < n ==> fits(total, sizes, j),
    ensures
        0 <= remaining_before(total, sizes, n) <= total,
    decreases n,
{
    if n > 0 {
        lemma_remaining_bounds(total, sizes, n - 1);
        assert(fits(total, sizes, n - 1));
    }
}

/// Geometry: where every partition fits, the partitions lie one behind the
/// other from sector 0 without a gap, each holds a sector at least, none
/// reaches beyond the disk, and so no two of them overlap.
pub proof fn lemma_geometry(total: int, sizes: Seq<int>, i: int, j: int)
    requires
        total >= 0,
        0 <= i < j < sizes.len(),
        forall|h: int| 0 <= h < sizes.len() ==> fits(total, sizes, h),
    ensures
        start_of(total, sizes, 0) == 0,
        start_of(total, sizes, i + 1) == start_of(total, sizes, i) + length_of(total, sizes, i),
        0 <= start_of(total, sizes, i) < start_of(total, sizes, i) + length_of(total, sizes, i)
            <= start_of(total, sizes, j),
        start_of(total, sizes, j) + length_of(total, sizes, j) <= total,
    decreases j - i,
{
    assert(fits(total, sizes, i));
    assert(fits(total, sizes, j));
    lemma_remaining_bounds(total, sizes, i);
    lemma_remaining_bounds(total, sizes, j);
    lemma_remaining_bounds(total, sizes, j + 1);
    if i + 1 < j {
        lemma_geometry(total, sizes, i + 1, j);
    }
}

/// The sum of the first `n` sizes.
pub open spec fn sum_of(sizes: Seq<int>, n: int) -> int
    decreases n,
{
    if n <= 0 {
        0
    } else {
        sum_of(sizes, n - 1) + sizes[n - 1]
    }
}

/// Coverage: where no size is negative, the partitions take exactly as many
/// sectors as their sizes add up to, from sector 0 on. They cover the whole
/// disk if and only if the sizes add up to it.
pub proof fn lemma_coverage(total: int, sizes: Seq<int>, n: int)
    requires
        0 <= n <= sizes.len(),
        forall|h: int| 0 <= h < n ==> sizes[h] >= 0,
    ensures
        start_of(total, sizes, n) == sum_of(sizes, n),
        remaining_before(total, sizes, n) == 0 <==> sum_of(sizes, n) == total,
    decreases n,
{
    if n > 0 {
        lemma_coverage(total, sizes, n - 1);
    }
}

/// The labels of a run of partitions, in order.
pub open spec fn labels_of(partitions: Seq<Partition>) -> Seq<Seq<char>> {
    Seq::new(partitions.len(), |i: int| partitions[i].label@)
}

/// A size in mebibytes as a signed number of sectors.
fn sectors(mib: i64, sector_size: u64) -> (r: i128)
    requires
        sector_size >= 1,
    ensures
        r == signed_sectors(mib as int, sector_size as int),
        -0x8_0000_0000_0000_0000_0000 <= r <= 0x8_0000_0000_0000_0000_0000,
{
    let size: u128 = magnitude(mib) as u128;
    assert(size * MEBIBYTE <= 0x8000_0000_0000_0000 * 1048576) by (nonlinear_arith)
        requires
            0 <= size <= 0x8000_0000_0000_0000,
            MEBIBYTE == 1048576,
    ;
    let bytes: u128 = size * (MEBIBYTE as u128);
    let count: u128 = bytes / (sector_size as u128);
    assert(count <= bytes) by (nonlinear_arith)
        requires
            count == bytes / (sector_size as u128),
            sector_size >= 1,
    ;
    if mib < 0 {
        -(count as i128)
    } else {
        count as i128
    }
}

/// Lays the partitions of an image out on a disk with the given sector size.
///
/// The disk holds as many sectors as the image's size in mebibytes gives. The
/// partitions are laid out in order, each directly behind the one before. One
/// of negative size takes what is left, short of that size.
///
/// Fails with `FailedToCreateImage` when the sector size is zero, the image
/// size negative, or the sectors too many to number. Otherwise fails with
/// `FailedToPartition` and the label of the first partition that would be left
/// without a sector or reach beyond the disk. Succeeds in every other case.
pub fn partition_geometries(image: &ImageConfig, sector_size: u64) -> (r: Result<
    Vec<Geometry>,
    BuildError,
>)
    ensures
        ({
            let total = signed_sectors(image.size as int, sector_size as int);
            let sizes = partition_sectors(image.partitions@, sector_size as int);
            match r {
                Ok(geometries) => {
                    &&& disk_ok(image.size as int, sector_size as int)
                    &&& 0 <= total
                    &&& forall|i: int| 0 <= i < sizes.len() ==> fits(total, sizes, i)
                    &&& geometries@ == Seq::new(sizes.len(), |i: int| geometry_of(total, sizes, i))
                },
                Err(e) => if !disk_ok(image.size as int, sector_size as int) {
                    e@ == BuildErrorView::FailedToCreateImage
                } else {
                    exists|i: int|
                        first_misfit(total, sizes, i) && e@ == BuildErrorView::FailedToPartition(
                            #[trigger] labels_of(image.partitions@)[i],
                        )
                },
            }
        }),
{
    if sector_size == 0 || image.size < 0 {
        return Err(BuildError::FailedToCreateImage);
    }
    let total: i128 = sectors(image.size, sector_size);
    if total > i64::MAX as i128 {
        return Err(BuildError::FailedToCreateImage);
    }
    let ghost sizes = partition_sectors(image.partitions@, sector_size as int);
    let mut geometries: Vec<Geometry> = Vec::new();
    let mut remaining: i128 = total;
    let mut i: usize = 0;
    while i < image.partitions.len()
        invariant
            i <= image.partitions.len(),
            sector_size >= 1,
            image.size >= 0,
            0 <= total <= i64::MAX,
            total == signed_sectors(image.size as int, sector_size as int),
            sizes == partition_sectors(image.partitions@, sector_size as int),
            remaining == remaining_before(total as int, sizes, i as int),
            0 <= remaining <= total,
            forall|j: int| 0 <= j < i ==> fits(total as int, sizes, j),
            geometries@ == Seq::new(i as nat, |j: int| geometry_of(total as int, sizes, j)),
        decreases image.partitions.len() - i,
    {
        let partition = &image.partitions[i];
        let size: i128 = sectors(partition.size, sector_size);
        assert(size == sizes[i as int]);
        let length: i128 = if size < 0 {
            remaining + size
        } else {
            size
        };
        if length < 1 || length > remaining {
            assert(first_misfit(total as int, sizes, i as int));
            assert(labels_of(image.partitions@)[i as int] == partition.label@);
            return Err(BuildError::FailedToPartition(partition.label.clone()));
        }
        let start: i128 = total - remaining;
        geometries.push(Geometry { start: start as i64, length: length as i64 });
        remaining = remaining - length;
        assert(geometries@ =~= Seq::new(
            (i + 1) as nat,
            |j: int| geometry_of(total as int, sizes, j),
        ));
        i += 1;
    }
    Ok(geometries)
}

} // verus!
