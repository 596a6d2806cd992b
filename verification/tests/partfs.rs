use imgbuild::error::BuildError;
use imgbuild::partfs::extent_fits;
use imgbuild::partfs::Attrs;
use imgbuild::partfs::DirEntry;
use imgbuild::partfs::DirItem;
use imgbuild::partfs::EntryReply;
use imgbuild::partfs::FileAttr;
use imgbuild::partfs::FileKind;
use imgbuild::partfs::FsError;
use imgbuild::partfs::FsNode;
use imgbuild::partfs::IoRequest;
use imgbuild::partfs::PartitionFS;
use imgbuild::partfs::PartitionRecord;
use imgbuild::partfs::StatFs;
use imgbuild::partfs::Timestamp;
use imgbuild::partfs::MAX_FILES;
use imgbuild::partfs::PERMISSIONS;
use imgbuild::partfs::ROOT_INODE;
use imgbuild::partfs::TTL_SECS;

const MOUNTED: Timestamp = Timestamp { secs: 1700000000, nanos: 250 };

fn record(name: &str, start: u64, length: u64) -> PartitionRecord {
    PartitionRecord { name: Some(name.to_string()), start, length }
}

/// Two partitions of 8 MiB each on a disk with sectors of 512 bytes.
fn two_halves() -> PartitionFS {
    PartitionFS::new(&vec![record("p1", 0, 16384), record("p2", 16384, 16384)], 512, MOUNTED, 1000, 100)
        .unwrap()
}

fn file_attr(ino: u64, size: u64, blocks: u64, kind: FileKind) -> FileAttr {
    FileAttr {
        ino,
        size,
        blocks,
        atime: MOUNTED,
        mtime: MOUNTED,
        ctime: MOUNTED,
        crtime: MOUNTED,
        kind,
        perm: 0o744,
        nlink: 1,
        uid: 1000,
        gid: 100,
        rdev: 0,
        blksize: 512,
        flags: 0,
    }
}

#[test]
fn what_is_written_to_a_partition_is_read_back_after_a_remount() {
    let mut disk = vec![0u8; 16 * 1024 * 1024];
    let fs = two_halves();
    let pattern = b"DEADBEEF".to_vec();
    assert_eq!(fs.write_to(&mut disk, 3, 0, &pattern), Ok(8));
    drop(fs);
    let fs = two_halves();
    assert_eq!(fs.read_from(&disk, 3, 0, 8), Ok(pattern));
    assert_eq!(fs.read_from(&disk, 2, 0, 1), Ok(vec![0x00]));
    assert_eq!(&disk[8 * 1024 * 1024..8 * 1024 * 1024 + 8], b"DEADBEEF");
    assert!(disk[..8 * 1024 * 1024].iter().all(|b| *b == 0));
}

#[test]
fn a_round_trip_works_at_any_offset() {
    let mut disk = vec![0u8; 16 * 1024 * 1024];
    let fs = two_halves();
    let pattern = vec![1u8, 2, 3, 4, 5];
    assert_eq!(fs.write_to(&mut disk, 2, 1000, &pattern), Ok(5));
    assert_eq!(fs.read_from(&disk, 2, 1000, 5), Ok(pattern));
    assert_eq!(fs.read_from(&disk, 2, 998, 4), Ok(vec![0, 0, 1, 2]));
    assert_eq!(fs.read_from(&disk, 3, 1000, 5), Ok(vec![0; 5]));
}

#[test]
fn a_read_is_turned_into_a_range_of_the_disk() {
    let fs = two_halves();
    assert_eq!(fs.read_partition(2, 0, 4096), Ok(IoRequest { position: 0, length: 4096 }));
    assert_eq!(fs.read_partition(3, 0, 4096), Ok(IoRequest { position: 8388608, length: 4096 }));
    assert_eq!(fs.read_partition(3, 512, 100), Ok(IoRequest { position: 8389120, length: 100 }));
}

#[test]
fn transfers_are_clamped_to_the_partition() {
    let fs = two_halves();
    let size = 8388608;
    assert_eq!(fs.read_partition(2, size - 10, 4096), Ok(IoRequest { position: size - 10, length: 10 }));
    assert_eq!(fs.read_partition(2, size, 4096), Ok(IoRequest { position: size, length: 0 }));
    assert_eq!(fs.read_partition(2, size + 1, 4096), Ok(IoRequest { position: size, length: 0 }));
    assert_eq!(fs.read_partition(2, u64::MAX, u64::MAX), Ok(IoRequest { position: size, length: 0 }));
    assert_eq!(fs.read_partition(2, 0, u64::MAX), Ok(IoRequest { position: 0, length: size }));
    assert_eq!(fs.write_partition(3, size - 3, 8), Ok(IoRequest { position: 2 * size - 3, length: 3 }));
    assert_eq!(fs.write_partition(3, size + 5, 8), Ok(IoRequest { position: 2 * size, length: 0 }));
    assert_eq!(fs.write_partition(2, 7, 0), Ok(IoRequest { position: 7, length: 0 }));
}

#[test]
fn a_write_never_leaves_its_partition() {
    let mut disk = vec![0u8; 16 * 1024 * 1024];
    let fs = two_halves();
    let size = 8 * 1024 * 1024;
    assert_eq!(fs.write_to(&mut disk, 2, size - 2, &vec![9, 9, 9, 9]), Ok(2));
    assert_eq!(&disk[size as usize - 2..size as usize + 2], &[9, 9, 0, 0]);
    assert_eq!(fs.write_to(&mut disk, 2, size, &vec![7]), Ok(0));
    assert_eq!(fs.read_from(&disk, 2, size - 2, 100), Ok(vec![9, 9]));
    assert_eq!(fs.read_from(&disk, 2, size + 100, 100), Ok(vec![]));
}

#[test]
fn a_short_disk_gives_short_transfers() {
    let mut disk = vec![5u8; 10];
    let fs = PartitionFS::new(&vec![record("p", 0, 1)], 512, MOUNTED, 0, 0).unwrap();
    assert_eq!(fs.read_from(&disk, 2, 4, 100), Ok(vec![5; 6]));
    assert_eq!(fs.read_from(&disk, 2, 20, 100), Ok(vec![]));
    assert_eq!(fs.write_to(&mut disk, 2, 8, &vec![1, 2, 3, 4]), Ok(2));
    assert_eq!(disk, vec![5, 5, 5, 5, 5, 5, 5, 5, 1, 2]);
    assert_eq!(fs.write_to(&mut disk, 2, 10, &vec![1]), Ok(0));
}

#[test]
fn transfers_need_a_partition_file() {
    let fs = two_halves();
    let mut disk = vec![0u8; 16];
    assert_eq!(fs.read_partition(ROOT_INODE, 0, 1), Err(FsError::NotFound));
    assert_eq!(fs.read_partition(4, 0, 1), Err(FsError::InvalidArgument));
    assert_eq!(fs.read_partition(0, 0, 1), Err(FsError::InvalidArgument));
    assert_eq!(fs.write_partition(ROOT_INODE, 0, 1), Err(FsError::NotFound));
    assert_eq!(fs.write_partition(99, 0, 1), Err(FsError::InvalidArgument));
    assert_eq!(fs.read_from(&disk, 1, 0, 1), Err(FsError::NotFound));
    assert_eq!(fs.write_to(&mut disk, 77, 0, &vec![1]), Err(FsError::InvalidArgument));
    assert_eq!(disk, vec![0u8; 16]);
}

#[test]
fn a_partition_file_is_a_regular_file_of_the_partitions_size() {
    let fs = two_halves();
    assert_eq!(
        fs.getattr(2),
        Ok(EntryReply { attr: file_attr(2, 8388608, 16384, FileKind::RegularFile), ttl_secs: 1, generation: 0 })
    );
    assert_eq!(fs.getattr(3).unwrap().attr.ino, 3);
    assert_eq!(TTL_SECS, 1);
    assert_eq!(PERMISSIONS, 0o744);
}

#[test]
fn the_root_is_an_empty_directory() {
    let fs = two_halves();
    assert_eq!(
        fs.getattr(1),
        Ok(EntryReply { attr: file_attr(1, 0, 0, FileKind::Directory), ttl_secs: 1, generation: 0 })
    );
}

#[test]
fn an_unknown_inode_has_no_attributes() {
    let fs = two_halves();
    assert_eq!(fs.getattr(0), Err(FsError::NotFound));
    assert_eq!(fs.getattr(4), Err(FsError::NotFound));
    assert_eq!(fs.getattr(u64::MAX), Err(FsError::NotFound));
}

#[test]
fn a_name_is_looked_up_in_the_root() {
    let fs = two_halves();
    assert_eq!(
        fs.lookup(1, "p2"),
        Ok(EntryReply { attr: file_attr(3, 8388608, 16384, FileKind::RegularFile), ttl_secs: 1, generation: 0 })
    );
    assert_eq!(fs.lookup(1, "p1").unwrap().attr.ino, 2);
    assert_eq!(fs.lookup(1, "p3"), Err(FsError::NotFound));
    assert_eq!(fs.lookup(1, ""), Err(FsError::NotFound));
    assert_eq!(fs.lookup(2, "p1"), Err(FsError::NotFound));
    assert_eq!(fs.lookup(9, "p1"), Err(FsError::NotFound));
}

#[test]
fn the_first_of_two_equal_names_is_found() {
    let fs = PartitionFS::new(&vec![record("x", 0, 1), record("x", 1, 2)], 512, MOUNTED, 0, 0).unwrap();
    assert_eq!(fs.lookup(1, "x").unwrap().attr.ino, 2);
    assert_eq!(fs.lookup(1, "x").unwrap().attr.size, 512);
}

#[test]
fn the_root_lists_its_partitions_as_block_devices() {
    let fs = two_halves();
    let p1 = DirEntry { inode: 2, next_offset: 3, kind: FileKind::BlockDevice, name: "p1".to_string() };
    let p2 = DirEntry { inode: 3, next_offset: 4, kind: FileKind::BlockDevice, name: "p2".to_string() };
    assert_eq!(fs.readdir(1, 0), Ok(vec![p1, p2.clone()]));
    assert_eq!(fs.readdir(1, 1), Ok(vec![p2]));
    assert_eq!(fs.readdir(1, 2), Ok(vec![]));
    assert_eq!(fs.readdir(1, 3), Ok(vec![]));
    assert_eq!(fs.readdir(1, -1), Ok(vec![]));
    assert_eq!(fs.readdir(1, i64::MAX), Ok(vec![]));
}

#[test]
fn only_the_root_can_be_listed() {
    let fs = two_halves();
    assert_eq!(fs.readdir(2, 0), Err(FsError::InvalidArgument));
    assert_eq!(fs.readdir(3, 0), Err(FsError::InvalidArgument));
    assert_eq!(fs.readdir(4, 0), Err(FsError::NotFound));
    assert_eq!(fs.readdir(0, 0), Err(FsError::NotFound));
}

#[test]
fn file_handles_count_up_from_one() {
    let mut fs = two_halves();
    assert_eq!(fs.open_count(), 0);
    assert_eq!(fs.open(2), 1);
    assert_eq!(fs.open(3), 2);
    assert_eq!(fs.open(2), 3);
    assert_eq!(fs.open(42), 4);
    assert_eq!(fs.open_count(), 4);
    assert_eq!(fs.inode_of(1), Some(2));
    assert_eq!(fs.inode_of(2), Some(3));
    assert_eq!(fs.inode_of(4), Some(42));
    assert_eq!(fs.inode_of(0), None);
    assert_eq!(fs.inode_of(5), None);
}

#[test]
fn unnamed_partitions_get_no_file() {
    let records = vec![
        PartitionRecord { name: None, start: 0, length: 34 },
        record("boot", 34, 100),
        PartitionRecord { name: None, start: 134, length: 10 },
        record("root", 144, 200),
    ];
    let fs = PartitionFS::new(&records, 512, MOUNTED, 0, 0).unwrap();
    assert_eq!(fs.file_count(), 2);
    assert_eq!(fs.sector_size(), 512);
    assert_eq!(fs.lookup(1, "boot").unwrap().attr.ino, 2);
    assert_eq!(fs.lookup(1, "root").unwrap().attr.ino, 3);
    assert_eq!(fs.read_partition(3, 0, 1), Ok(IoRequest { position: 144 * 512, length: 1 }));
    assert_eq!(fs.getattr(4), Err(FsError::NotFound));
}

#[test]
fn an_extent_beyond_64_bits_is_refused() {
    let records = vec![record("ok", 0, 8), record("huge", u64::MAX / 512, 1)];
    assert_eq!(PartitionFS::new(&records, 512, MOUNTED, 0, 0).unwrap_err(), BuildError::FuseError);
    let records = vec![record("sum", u64::MAX, 1)];
    assert_eq!(PartitionFS::new(&records, 1, MOUNTED, 0, 0).unwrap_err(), BuildError::FuseError);
    let records = vec![record("edge", u64::MAX - 1, 1)];
    assert!(PartitionFS::new(&records, 1, MOUNTED, 0, 0).is_ok());
    let records = vec![PartitionRecord { name: None, start: u64::MAX, length: u64::MAX }];
    assert!(PartitionFS::new(&records, u64::MAX, MOUNTED, 0, 0).is_ok());
    assert!(MAX_FILES > 1 << 62);
}

#[test]
fn extents_are_checked_without_overflow() {
    assert!(extent_fits(0, 0, 0));
    assert!(extent_fits(u64::MAX, u64::MAX, 0));
    assert!(extent_fits(u64::MAX - 1, 1, 1));
    assert!(!extent_fits(u64::MAX, 1, 1));
    assert!(extent_fits(1 << 54, (1 << 54) - 1, 512));
    assert!(!extent_fits(1 << 54, 1 << 54, 512));
    assert!(!extent_fits(1, 1, u64::MAX));
    assert!(extent_fits(1, 0, u64::MAX));
}

#[test]
fn a_sector_size_of_zero_gives_empty_files() {
    let fs = PartitionFS::new(&vec![record("p", 5, 10)], 0, MOUNTED, 0, 0).unwrap();
    let attr = fs.getattr(2).unwrap().attr;
    assert_eq!((attr.size, attr.blocks, attr.blksize), (0, 0, 0));
    assert_eq!(fs.read_partition(2, 0, 10), Ok(IoRequest { position: 0, length: 0 }));
}

#[test]
fn a_wide_block_size_is_reported_by_its_low_bits() {
    let attrs = Attrs { mtime: MOUNTED, size: 1 << 40, block_size: (1 << 32) + 4096, kind: FileKind::RegularFile, perm: 0o744 };
    let attr = attrs.into_fileattrs(9, 1, 2);
    assert_eq!(attr.blksize, 4096);
    assert_eq!(attr.blocks, (1u64 << 40) / ((1u64 << 32) + 4096));
    assert_eq!((attr.ino, attr.uid, attr.gid, attr.nlink, attr.rdev, attr.flags), (9, 1, 2, 1, 0, 0));
    let dir = Attrs::dir(MOUNTED, 512);
    assert_eq!(dir, Attrs { mtime: MOUNTED, size: 0, block_size: 512, kind: FileKind::Directory, perm: 0o744 });
}

#[test]
fn the_root_holds_one_entry_per_partition() {
    let fs = two_halves();
    let root = fs.root();
    assert_eq!(root.inode, 1);
    assert_eq!(root.parent, None);
    assert_eq!(root.name, "");
    assert!(root.contains_inode(1));
    assert!(root.contains_inode(2));
    assert!(root.contains_inode(3));
    assert!(!root.contains_inode(4));
    assert!(!root.contains_inode(0));
    assert_eq!(root.get_by_inode(1).unwrap().inode, 1);
    let second = root.get_by_inode(3).unwrap();
    assert_eq!(second.name, "p2");
    assert_eq!(second.parent, Some(1));
    assert_eq!(second.node, FsNode::Partition { name: "p2".to_string(), start: 16384, len: 16384 });
    assert_eq!(second.getattr(1000, 100), file_attr(3, 8388608, 16384, FileKind::RegularFile));
    assert_eq!(second.listed_kind(), FileKind::BlockDevice);
    assert_eq!(second.readdir(), Err(FsError::InvalidArgument));
    assert!(!second.contains_inode(2));
    assert_eq!(root.get_by_inode(4), None);
    assert_eq!(root.readdir().unwrap().len(), 2);
    assert_eq!(root.listed_kind(), FileKind::Directory);
    assert_eq!(fs.entry(2).unwrap().name, "p1");
    assert!(fs.entry(7).is_none());
}

fn leaf(inode: u64, name: &str) -> DirItem {
    DirItem {
        parent: None,
        name: name.to_string(),
        inode,
        node: FsNode::Partition { name: name.to_string(), start: 0, len: 1 },
        mtime: MOUNTED,
        sector_size: 512,
    }
}

fn dir(inode: u64, children: Vec<DirItem>) -> DirItem {
    DirItem {
        parent: None,
        name: format!("d{}", inode),
        inode,
        node: FsNode::Dir(children),
        mtime: MOUNTED,
        sector_size: 512,
    }
}

#[test]
fn inodes_are_found_at_any_depth() {
    let tree = dir(1, vec![leaf(2, "a"), dir(3, vec![leaf(4, "b"), dir(5, vec![leaf(6, "c")])]), leaf(7, "d")]);
    for inode in 1..=7 {
        assert!(tree.contains_inode(inode));
        assert_eq!(tree.get_by_inode(inode).unwrap().inode, inode);
    }
    assert!(!tree.contains_inode(8));
    assert_eq!(tree.get_by_inode(8), None);
    assert_eq!(tree.get_by_inode(6).unwrap().name, "c");
}

#[test]
fn the_first_entry_with_an_inode_wins() {
    let tree = dir(1, vec![dir(2, vec![leaf(9, "deep")]), leaf(9, "shallow"), leaf(1, "shadowed")]);
    assert_eq!(tree.get_by_inode(9).unwrap().name, "deep");
    assert_eq!(tree.get_by_inode(1).unwrap().name, "d1");
}

#[test]
fn statistics_are_all_zero() {
    assert_eq!(
        two_halves().statfs(),
        StatFs { blocks: 0, bfree: 0, bavail: 0, files: 0, ffree: 0, bsize: 0, namelen: 0, frsize: 0 }
    );
}
