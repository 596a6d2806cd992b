//! The partition-exposing filesystem: every partition of the backing disk
//! appears as one file under a single root directory.
//!
//! This module holds the directory tree and the rules of each operation. It
//! turns a request into attributes, directory entries or a byte range of the
//! backing disk; moving the bytes is the caller's part.

use crate::error::BuildError;
use crate::paths::str_eq;
use vstd::prelude::*;

verus! {

/// A point in time: seconds and nanoseconds since the Unix epoch.
#[derive(Debug, Clone, Copy, PartialEq, Eq, Structural)]
pub struct Timestamp {
    pub secs: u64,
    pub nanos: u32,
}

/// What kind of file an entry is reported as.
#[derive(Debug, Clone, Copy, PartialEq, Eq, Structural)]
pub enum FileKind {
    Directory,
    RegularFile,
    BlockDevice,
}

/// Why an operation of the filesystem is refused.
#[derive(Debug, Clone, Copy, PartialEq, Eq, Structural)]
pub enum FsError {
    /// No such entry.
    NotFound,
    /// The entry is not of the kind that the operation needs.
    InvalidArgument,
}

/// What an entry is: a directory with its children, or the file that stands
/// for one partition.
#[derive(Debug, PartialEq, Eq)]
pub enum FsNode {
    Dir(Vec<DirItem>),
    Partition {
        name: String,
        /// The partition's first sector.
        start: u64,
        /// The partition's length in sectors.
        len: u64,
    },
}

/// One entry of the tree.
#[derive(Debug, PartialEq, Eq)]
pub struct DirItem {
    /// The inode of the directory that holds this entry; none for the root.
    pub parent: Option<u64>,
    pub name: String,
    pub inode: u64,
    pub node: FsNode,
    /// When the filesystem was mounted.
    pub mtime: Timestamp,
    /// The sector size of the backing disk, in bytes.
    pub sector_size: u64,
}

impl DirItem {
    /// The children of a directory; none for a partition file.
    pub open spec fn children(self) -> Seq<DirItem> {
        match self.node {
            FsNode::Dir(children) => children@,
            FsNode::Partition { .. } => Seq::empty(),
        }
    }

    /// The first entry with the given inode among this entry and everything
    /// below it, taking an entry before its children and children in order.
    pub open spec fn find(self, inode: u64) -> Option<DirItem>
        decreases self, self.children().len() + 1,
    {
        if self.inode == inode {
            Some(self)
        } else {
            self.find_below(inode, self.children().len() as int)
        }
    }

    /// The first entry with the given inode in the subtrees of the first `n`
    /// children.
    pub open spec fn find_below(self, inode: u64, n: int) -> Option<DirItem>
        decreases self, n,
    {
        if n <= 0 || n > self.children().len() {
            None
        } else {
            match self.find_below(inode, n - 1) {
                Some(item) => Some(item),
                None => match self.node {
                    FsNode::Dir(children) => children[n - 1].find(inode),
                    FsNode::Partition { .. } => None,
                },
            }
        }
    }

    /// Whether this entry or one below it has the given inode.
    pub fn contains_inode(&self, inode: u64) -> (r: bool)
        ensures
            r == self.find(inode) is Some,
        decreases self,
    {
        if self.inode == inode {
            return true;
        }
        match &self.node {
            FsNode::Dir(dir) => {
                let mut i: usize = 0;
                while i < dir.len()
                    invariant
                        i <= dir.len(),
                        self.node == FsNode::Dir(*dir),
                        self.find_below(inode, i as int) is None,
                    decreases dir.len() - i,
                {
                    if dir[i].contains_inode(inode) {
                        assert(self.find_below(inode, i + 1) is Some);
                        proof {
                            self.lemma_find_below_stays(inode, i + 1, dir.len() as int);
                        }
                        return true;
                    }
                    i += 1;
                }
                false
            },
            FsNode::Partition { .. } => false,
        }
    }

    /// The first entry with the given inode among this entry and everything
    /// below it.
    pub fn get_by_inode(&self, inode: u64) -> (r: Option<&DirItem>)
        ensures
            match r {
                Some(item) => self.find(inode) == Some(*item),
                None => self.find(inode) is None,
            },
        decreases self,
    {
        if self.inode == inode {
            return Some(self);
        }
        match &self.node {
            FsNode::Dir(dir) => {
                let mut i: usize = 0;
                while i < dir.len()
                    invariant
                        i <= dir.len(),
                        self.node == FsNode::Dir(*dir),
                        self.inode != inode,
                        self.find_below(inode, i as int) is None,
                    decreases dir.len() - i,
                {
                    match dir[i].get_by_inode(inode) {
                        Some(item) => {
                            assert(self.find_below(inode, i + 1) == Some(*item));
                            proof {
                                self.lemma_find_below_stays(inode, i + 1, dir.len() as int);
                            }
                            return Some(item);
                        },
                        None => {},
                    }
                    i += 1;
                }
                None
            },
            FsNode::Partition { .. } => None,
        }
    }

    /// Once an entry is found among the first `n` children, it stays the one
    /// found among the first `m >= n`.
    pub proof fn lemma_find_below_stays(self, inode: u64, n: int, m: int)
        requires
            0 <= n <= m <= self.children().len(),
            self.find_below(inode, n) is Some,
        ensures
            self.find_below(inode, m) == self.find_below(inode, n),
        decreases m - n,
    {
        if n < m {
            self.lemma_find_below_stays(inode, n, m - 1);
        }
    }
}

/// The attributes of an entry before they are tied to an inode and an owner.
#[derive(Debug, Clone, Copy, PartialEq, Eq, Structural)]
pub struct Attrs {
    pub mtime: Timestamp,
    /// Size in bytes.
    pub size: u64,
    pub block_size: u64,
    pub kind: FileKind,
    /// Permission bits.
    pub perm: u16,
}

/// The attributes that an attribute query reports.
#[derive(Debug, Clone, Copy, PartialEq, Eq, Structural)]
pub struct FileAttr {
    pub ino: u64,
    pub size: u64,
    pub blocks: u64,
    pub atime: Timestamp,
    pub mtime: Timestamp,
    pub ctime: Timestamp,
    pub crtime: Timestamp,
    pub kind: FileKind,
    pub perm: u16,
    pub nlink: u32,
    pub uid: u32,
    pub gid: u32,
    pub rdev: u32,
    pub blksize: u32,
    pub flags: u32,
}

/// The permission bits of every entry.
pub const PERMISSIONS: u16 = 0o744;

/// For how many seconds a reply may be cached.
pub const TTL_SECS: u64 = 1;

impl Attrs {
    /// The full attributes of the entry with the given inode and owner: all
    /// four times are the entry's time, the block count is the size in blocks
    /// of at least one byte, and the reported block size is the low 32 bits of
    /// the true one.
    pub open spec fn file_attr(self, inode: u64, uid: u32, gid: u32) -> FileAttr {
        FileAttr {
            ino: inode,
            size: self.size,
            blocks: if self.block_size == 0 {
                self.size
            } else {
                (self.size / self.block_size) as u64
            },
            atime: self.mtime,
            mtime: self.mtime,
            ctime: self.mtime,
            crtime: self.mtime,
            kind: self.kind,
            perm: self.perm,
            nlink: 1,
            uid,
            gid,
            rdev: 0,
            blksize: (self.block_size % 0x1_0000_0000) as u32,
            flags: 0,
        }
    }

    /// The attributes of a directory: empty, owned like everything else.
    pub open spec fn dir_attrs(mtime: Timestamp, block_size: u64) -> Attrs {
        Attrs { mtime, size: 0, block_size, kind: FileKind::Directory, perm: PERMISSIONS }
    }

    /// Ties the attributes to an inode and an owner.
    pub fn into_fileattrs(self, inode: u64, uid: u32, gid: u32) -> (r: FileAttr)
        ensures
            r == self.file_attr(inode, uid, gid),
    {
        let blocks = if self.block_size == 0 {
            self.size
        } else {
            self.size / self.block_size
        };
        FileAttr {
            ino: inode,
            size: self.size,
            blocks,
            atime: self.mtime,
            mtime: self.mtime,
            ctime: self.mtime,
            crtime: self.mtime,
            kind: self.kind,
            perm: self.perm,
            nlink: 1,
            uid,
            gid,
            rdev: 0,
            blksize: (self.block_size % 0x1_0000_0000) as u32,
            flags: 0,
        }
    }

    /// The attributes of a directory.
    pub fn dir(mtime: Timestamp, block_size: u64) -> (r: Self)
        ensures
            r == Self::dir_attrs(mtime, block_size),
    {
        Attrs { mtime, size: 0, block_size, kind: FileKind::Directory, perm: PERMISSIONS }
    }
}

impl DirItem {
    /// The attributes of this entry before they are tied to an inode: a
    /// partition file is a regular file of as many bytes as its sectors hold.
    pub open spec fn attrs(self) -> Attrs {
        match self.node {
            FsNode::Dir(_) => Attrs::dir_attrs(self.mtime, self.sector_size),
            FsNode::Partition { name, start, len } => Attrs {
                mtime: self.mtime,
                size: (len * self.sector_size) as u64,
                block_size: self.sector_size,
                kind: FileKind::RegularFile,
                perm: PERMISSIONS,
            },
        }
    }

    /// Whether the size of this entry in bytes fits 64 bits.
    pub open spec fn size_fits(self) -> bool {
        match self.node {
            FsNode::Dir(_) => true,
            FsNode::Partition { name, start, len } => len * self.sector_size <= u64::MAX,
        }
    }

    /// The attributes of this entry for the given owner.
    pub fn getattr(&self, uid: u32, gid: u32) -> (r: FileAttr)
        requires
            self.size_fits(),
        ensures
            r == self.attrs().file_attr(self.inode, uid, gid),
    {
        let attrs = match &self.node {
            FsNode::Dir(_) => Attrs::dir(self.mtime, self.sector_size),
            FsNode::Partition { name, start, len } => Attrs {
                mtime: self.mtime,
                size: *len * self.sector_size,
                block_size: self.sector_size,
                kind: FileKind::RegularFile,
                perm: PERMISSIONS,
            },
        };
        attrs.into_fileattrs(self.inode, uid, gid)
    }

    /// The children of a directory. A partition file has none to list: that is
    /// an invalid argument.
    pub fn readdir(&self) -> (r: Result<&Vec<DirItem>, FsError>)
        ensures
            match r {
                Ok(children) => self.node == FsNode::Dir(*children),
                Err(e) => self.node is Partition && e == FsError::InvalidArgument,
            },
    {
        match &self.node {
            FsNode::Dir(children) => Ok(children),
            FsNode::Partition { .. } => Err(FsError::InvalidArgument),
        }
    }

    /// The kind under which a directory listing reports this entry: a
    /// partition file is listed as a block device.
    pub fn listed_kind(&self) -> (r: FileKind)
        ensures
            r == match self.node {
                FsNode::Dir(_) => FileKind::Directory,
                FsNode::Partition { .. } => FileKind::BlockDevice,
            },
    {
        match &self.node {
            FsNode::Dir(_) => FileKind::Directory,
            FsNode::Partition { .. } => FileKind::BlockDevice,
        }
    }
}

/// One partition as the partition table reports it. An unnamed one gets no
/// file.
#[derive(Debug, Clone, PartialEq, Eq)]
pub struct PartitionRecord {
    pub name: Option<String>,
    /// The first sector.
    pub start: u64,
    /// The length in sectors.
    pub length: u64,
}

/// One partition file: its name and the sectors that it stands for.
pub struct PartitionFileView {
    pub name: Seq<char>,
    pub start: u64,
    pub len: u64,
}

impl PartitionFileView {
    /// Whether the file ends within what 64 bits can address in bytes.
    pub open spec fn fits(self, sector_size: u64) -> bool {
        (self.start + self.len) * sector_size <= u64::MAX
    }
}

/// The files that the first `n` records of a partition table give: one per
/// named partition, in table order.
pub open spec fn named_files(records: Seq<PartitionRecord>, n: int) -> Seq<PartitionFileView>
    decreases n,
{
    if n <= 0 {
        Seq::empty()
    } else {
        match records[n - 1].name {
            Some(name) => named_files(records, n - 1).push(
                PartitionFileView {
                    name: name@,
                    start: records[n - 1].start,
                    len: records[n - 1].length,
                },
            ),
            None => named_files(records, n - 1),
        }
    }
}

/// The largest number of partition files that one filesystem exposes; it keeps
/// every inode and directory offset within 64 signed bits.
pub const MAX_FILES: u64 = 0x7fff_ffff_ffff_fff0;

/// A byte range of the backing disk.
#[derive(Debug, Clone, Copy, PartialEq, Eq, Structural)]
pub struct IoRequest {
    /// Where the range begins, in bytes from the start of the disk.
    pub position: u64,
    /// How many bytes it holds.
    pub length: u64,
}

/// One line of a directory listing.
#[derive(Debug, Clone, PartialEq, Eq)]
pub struct DirEntry {
    pub inode: u64,
    /// The offset from which a listing goes on behind this entry.
    pub next_offset: i64,
    pub kind: FileKind,
    pub name: String,
}

pub struct DirEntryView {
    pub inode: u64,
    pub next_offset: i64,
    pub kind: FileKind,
    pub name: Seq<char>,
}

impl View for DirEntry {
    type V = DirEntryView;

    open spec fn view(&self) -> DirEntryView {
        DirEntryView {
            inode: self.inode,
            next_offset: self.next_offset,
            kind: self.kind,
            name: self.name@,
        }
    }
}

/// The views of a run of directory entries, in order.
pub open spec fn entry_views(entries: Seq<DirEntry>) -> Seq<DirEntryView> {
    Seq::new(entries.len(), |i: int| entries[i]@)
}

/// The reply to a lookup or an attribute query.
#[derive(Debug, Clone, Copy, PartialEq, Eq, Structural)]
pub struct EntryReply {
    pub attr: FileAttr,
    /// For how many seconds the reply may be cached.
    pub ttl_secs: u64,
    pub generation: u64,
}

/// The reply to a filesystem statistics query.
#[derive(Debug, Clone, Copy, PartialEq, Eq, Structural)]
pub struct StatFs {
    pub blocks: u64,
    pub bfree: u64,
    pub bavail: u64,
    pub files: u64,
    pub ffree: u64,
    pub bsize: u32,
    pub namelen: u32,
    pub frsize: u32,
}

/// The inode of the root directory.
pub const ROOT_INODE: u64 = 1;

/// A mounted partition-exposing filesystem as a mathematical value.
pub struct PartitionFSView {
    /// The sector size of the backing disk, in bytes.
    pub sector_size: u64,
    pub mount_time: Timestamp,
    /// The user and group that own every entry.
    pub uid: u32,
    pub gid: u32,
    /// The partition files, in partition order. The file at index `i` has
    /// inode `i + 2`.
    pub files: Seq<PartitionFileView>,
    /// The inode behind each file handle given out so far. Handle `h` is at
    /// index `h - 1`.
    pub handles: Seq<u64>,
}

impl PartitionFSView {
    /// Whether every extent can be addressed in bytes with 64 bits, and the
    /// files are few enough to number.
    pub open spec fn valid(self) -> bool {
        &&& self.files.len() <= MAX_FILES
        &&& forall|i: int|
            0 <= i < self.files.len() ==> (#[trigger] self.files[i]).fits(self.sector_size)
    }

    /// Whether an inode is that of a partition file.
    pub open spec fn is_file(self, inode: u64) -> bool {
        2 <= inode < 2 + self.files.len()
    }

    /// The partition file with the given inode.
    pub open spec fn file(self, inode: u64) -> PartitionFileView
        recommends
            self.is_file(inode),
    {
        self.files[inode - 2]
    }

    /// The size of a partition file in bytes.
    pub open spec fn size(self, inode: u64) -> int
        recommends
            self.is_file(inode),
    {
        self.file(inode).len * self.sector_size
    }

    /// The attributes of the root directory.
    pub open spec fn root_attr(self) -> FileAttr {
        Attrs::dir_attrs(self.mount_time, self.sector_size).file_attr(
            ROOT_INODE,
            self.uid,
            self.gid,
        )
    }

    /// The attributes of a partition file.
    pub open spec fn file_attr(self, inode: u64) -> FileAttr
        recommends
            self.is_file(inode),
    {
        Attrs {
            mtime: self.mount_time,
            size: self.size(inode) as u64,
            block_size: self.sector_size,
            kind: FileKind::RegularFile,
            perm: PERMISSIONS,
        }.file_attr(inode, self.uid, self.gid)
    }

    /// How many bytes a transfer of `wanted` bytes at `offset` is cut down to:
    /// what is left of the file behind the offset, and nothing beyond the end.
    pub open spec fn clamped(self, inode: u64, offset: u64, wanted: u64) -> int
        recommends
            self.is_file(inode),
    {
        let left = if self.size(inode) - offset > 0 {
            self.size(inode) - offset
        } else {
            0
        };
        if wanted <= left {
            wanted as int
        } else {
            left
        }
    }

    /// The byte range of the backing disk behind a transfer of `wanted` bytes
    /// at `offset` of a partition file. It begins at the file's first byte
    /// plus the offset, or at the file's end if the offset lies beyond it.
    pub open spec fn range(self, inode: u64, offset: u64, wanted: u64) -> IoRequest
        recommends
            self.is_file(inode),
    {
        let within = if offset <= self.size(inode) {
            offset as int
        } else {
            self.size(inode)
        };
        IoRequest {
            position: (self.file(inode).start * self.sector_size + within) as u64,
            length: self.clamped(inode, offset, wanted) as u64,
        }
    }

    /// What a transfer is answered with: the byte range for a partition file,
    /// `NotFound` for the root directory and `InvalidArgument` for an inode
    /// that does not exist.
    pub open spec fn transfer(self, inode: u64, offset: u64, wanted: u64) -> Result<
        IoRequest,
        FsError,
    > {
        if self.is_file(inode) {
            Ok(self.range(inode, offset, wanted))
        } else if inode == ROOT_INODE {
            Err(FsError::NotFound)
        } else {
            Err(FsError::InvalidArgument)
        }
    }

    /// Whether the file at index `i` is the first one with the given name.
    pub open spec fn first_named(self, name: Seq<char>, i: int) -> bool {
        &&& 0 <= i < self.files.len()
        &&& self.files[i].name == name
        &&& forall|j: int| 0 <= j < i ==> self.files[j].name != name
    }

    /// Where a listing that is asked to go on from `offset` begins: a negative
    /// offset, like one beyond the end, leaves nothing to list.
    pub open spec fn listing_start(self, offset: i64) -> int {
        if 0 <= offset <= self.files.len() {
            offset as int
        } else {
            self.files.len() as int
        }
    }

    /// The listing of the root directory from `offset` on: for the file at
    /// index `i` its inode, the offset `i + 3`, the kind block device and its
    /// name.
    pub open spec fn listing(self, offset: i64) -> Seq<DirEntryView> {
        let start = self.listing_start(offset);
        Seq::new(
            (self.files.len() - start) as nat,
            |k: int|
                DirEntryView {
                    inode: (start + k + 2) as u64,
                    next_offset: (start + k + 3) as i64,
                    kind: FileKind::BlockDevice,
                    name: self.files[start + k].name,
                },
        )
    }
}

/// The directory tree of one mounted disk. It never changes after the mount.
#[derive(Debug)]
struct Tree {
    mount_time: Timestamp,
    sector_size: u64,
    root: DirItem,
}

/// The partition-exposing filesystem of one mounted disk.
#[derive(Debug)]
pub struct PartitionFS {
    tree: Tree,
    handles: Vec<u64>,
    uid: u32,
    gid: u32,
}

impl View for PartitionFS {
    type V = PartitionFSView;

    closed spec fn view(&self) -> PartitionFSView {
        PartitionFSView {
            sector_size: self.tree.sector_size,
            mount_time: self.tree.mount_time,
            uid: self.uid,
            gid: self.gid,
            files: Seq::new(
                self.tree.root.children().len(),
                |i: int| file_view(self.tree.root.children()[i]),
            ),
            handles: self.handles@,
        }
    }
}

/// The partition file that an entry stands for.
pub open spec fn file_view(item: DirItem) -> PartitionFileView {
    match item.node {
        FsNode::Partition { name, start, len } => PartitionFileView {
            name: item.name@,
            start,
            len,
        },
        FsNode::Dir(_) => PartitionFileView { name: item.name@, start: 0, len: 0 },
    }
}

/// Whether `item` is the entry of the partition file at index `i` of a
/// filesystem with the given sector size and mount time.
pub open spec fn is_file_entry(
    item: DirItem,
    i: int,
    sector_size: u64,
    mount_time: Timestamp,
) -> bool {
    &&& item.inode == i + 2
    &&& item.parent == Some(ROOT_INODE)
    &&& item.sector_size == sector_size
    &&& item.mtime == mount_time
    &&& item.node matches FsNode::Partition { name, start, len } && name@ == item.name@ && (start
        + len) * sector_size <= u64::MAX
}

/// Whether `root` is the root directory of a filesystem with the given sector
/// size and mount time: inode 1, without a parent or a name, holding nothing
/// but partition files numbered from 2.
pub open spec fn is_root_entry(root: DirItem, sector_size: u64, mount_time: Timestamp) -> bool {
    &&& root.inode == ROOT_INODE
    &&& root.parent is None
    &&& root.name@ == Seq::<char>::empty()
    &&& root.sector_size == sector_size
    &&& root.mtime == mount_time
    &&& root.node is Dir
    &&& root.children().len() <= MAX_FILES
    &&& forall|i: int|
        0 <= i < root.children().len() ==> is_file_entry(
            #[trigger] root.children()[i],
            i,
            sector_size,
            mount_time,
        )
}

impl Tree {
    #[verifier::type_invariant]
    spec fn well_formed(self) -> bool {
        is_root_entry(self.root, self.sector_size, self.mount_time)
    }
}

/// The files of a shorter run of records come first among those of a longer
/// one.
pub proof fn lemma_named_files_grow(records: Seq<PartitionRecord>, n: int, m: int)
    requires
        0 <= n <= m,
    ensures
        named_files(records, n).len() <= named_files(records, m).len(),
        named_files(records, m).take(named_files(records, n).len() as int) == named_files(
            records,
            n,
        ),
    decreases m - n,
{
    if n < m {
        lemma_named_files_grow(records, n, m - 1);
        let shorter = named_files(records, n);
        let before = named_files(records, m - 1);
        assert(named_files(records, m).take(shorter.len() as int) =~= before.take(
            shorter.len() as int,
        ));
    } else {
        assert(named_files(records, m).take(named_files(records, n).len() as int)
            =~= named_files(records, n));
    }
}

/// In a root directory that holds nothing but partition files numbered from 2,
/// an inode is found where its number says: 1 is the root, `i + 2` the file at
/// index `i`, and nothing else exists.
pub proof fn lemma_find_in_root(root: DirItem, sector_size: u64, mount_time: Timestamp, inode: u64)
    requires
        is_root_entry(root, sector_size, mount_time),
    ensures
        root.find(inode) == if inode == ROOT_INODE {
            Some(root)
        } else if 2 <= inode < 2 + root.children().len() {
            Some(root.children()[inode - 2])
        } else {
            None
        },
{
    if inode != ROOT_INODE {
        lemma_find_among_files(
            root,
            sector_size,
            mount_time,
            inode,
            root.children().len() as int,
        );
    }
}

proof fn lemma_find_among_files(
    root: DirItem,
    sector_size: u64,
    mount_time: Timestamp,
    inode: u64,
    n: int,
)
    requires
        is_root_entry(root, sector_size, mount_time),
        0 <= n <= root.children().len(),
    ensures
        root.find_below(inode, n) == if 2 <= inode < 2 + n {
            Some(root.children()[inode - 2])
        } else {
            None
        },
    decreases n,
{
    if n > 0 {
        lemma_find_among_files(root, sector_size, mount_time, inode, n - 1);
        let child = root.children()[n - 1];
        assert(is_file_entry(child, n - 1, sector_size, mount_time));
        assert(child.children().len() == 0);
        assert(child.find_below(inode, 0) is None);
        assert(child.find(inode) == if child.inode == inode {
            Some(child)
        } else {
            None
        });
        assert(root.find_below(inode, n) == match root.find_below(inode, n - 1) {
            Some(item) => Some(item),
            None => child.find(inode),
        });
    }
}

impl PartitionFS {
    /// The filesystem of a disk with the given partition table, mounted at the
    /// given time for the given owner, with no file handle given out.
    ///
    /// Fails with `FuseError` exactly when the named partitions are too many to
    /// number or one of them ends beyond what 64 bits can address in bytes.
    pub fn new(
        records: &Vec<PartitionRecord>,
        sector_size: u64,
        mount_time: Timestamp,
        uid: u32,
        gid: u32,
    ) -> (r: Result<Self, BuildError>)
        ensures
            match r {
                Ok(fs) => {
                    &&& fs@.valid()
                    &&& fs@ == (PartitionFSView {
                        sector_size,
                        mount_time,
                        uid,
                        gid,
                        files: named_files(records@, records@.len() as int),
                        handles: Seq::empty(),
                    })
                },
                Err(e) => {
                    &&& e == BuildError::FuseError
                    &&& !(PartitionFSView {
                        sector_size,
                        mount_time,
                        uid,
                        gid,
                        files: named_files(records@, records@.len() as int),
                        handles: Seq::empty(),
                    }).valid()
                },
            },
    {
        let ghost all = named_files(records@, records@.len() as int);
        let mut children: Vec<DirItem> = Vec::new();
        let mut i: usize = 0;
        while i < records.len()
            invariant
                i <= records.len(),
                all == named_files(records@, records@.len() as int),
                children.len() <= MAX_FILES,
                children.len() == named_files(records@, i as int).len(),
                forall|k: int|
                    0 <= k < children.len() ==> is_file_entry(
                        #[trigger] children@[k],
                        k,
                        sector_size,
                        mount_time,
                    ),
                forall|k: int|
                    0 <= k < children.len() ==> file_view(#[trigger] children@[k]) == named_files(
                        records@,
                        i as int,
                    )[k],
            decreases records.len() - i,
        {
            let record = &records[i];
            proof {
                lemma_named_files_grow(records@, i + 1, records@.len() as int);
            }
            match &record.name {
                Some(name) => {
                    let ghost index = children.len() as int;
                    let ghost file = PartitionFileView {
                        name: name@,
                        start: record.start,
                        len: record.length,
                    };
                    assert(named_files(records@, i + 1) == named_files(records@, i as int).push(
                        file,
                    ));
                    assert(all.take(index + 1)[index] == file);
                    assert(all[index] == file);
                    if children.len() as u64 >= MAX_FILES {
                        assert(all.len() > MAX_FILES);
                        return Err(BuildError::FuseError);
                    }
                    if !extent_fits(record.start, record.length, sector_size) {
                        assert(!all[index].fits(sector_size));
                        return Err(BuildError::FuseError);
                    }
                    let inode: u64 = children.len() as u64 + 2;
                    children.push(
                        DirItem {
                            parent: Some(ROOT_INODE),
                            name: name.clone(),
                            inode,
                            node: FsNode::Partition {
                                name: name.clone(),
                                start: record.start,
                                len: record.length,
                            },
                            mtime: mount_time,
                            sector_size,
                        },
                    );
                },
                None => {},
            }
            i += 1;
        }
        let root = DirItem {
            parent: None,
            name: String::new(),
            inode: ROOT_INODE,
            node: FsNode::Dir(children),
            mtime: mount_time,
            sector_size,
        };
        let fs = PartitionFS {
            tree: Tree { mount_time, sector_size, root },
            handles: Vec::new(),
            uid,
            gid,
        };
        assert(fs@.files =~= all);
        assert(fs@.handles =~= Seq::<u64>::empty());
        assert forall|k: int| 0 <= k < all.len() implies (#[trigger] all[k]).fits(
            sector_size,
        ) by {
            assert(is_file_entry(fs.tree.root.children()[k], k, sector_size, mount_time));
        }
        Ok(fs)
    }

    /// The sector size of the backing disk, in bytes.
    pub fn sector_size(&self) -> (r: u64)
        ensures
            r == self@.sector_size,
    {
        self.tree.sector_size
    }

    /// How many partition files there are.
    pub fn file_count(&self) -> (r: usize)
        ensures
            r == self@.files.len(),
    {
        match &self.tree.root.node {
            FsNode::Dir(children) => children.len(),
            FsNode::Partition { .. } => 0,
        }
    }

    /// How many file handles were given out.
    pub fn open_count(&self) -> (r: usize)
        ensures
            r == self@.handles.len(),
    {
        self.handles.len()
    }

    /// The root directory: inode 1, holding one entry per partition file.
    pub fn root(&self) -> (r: &DirItem)
        ensures
            is_root_entry(*r, self@.sector_size, self@.mount_time),
            r.children().len() == self@.files.len(),
            forall|i: int|
                0 <= i < self@.files.len() ==> file_view(#[trigger] r.children()[i])
                    == self@.files[i],
    {
        proof {
            use_type_invariant(&self.tree);
        }
        &self.tree.root
    }

    /// The entry with the given inode, if there is one: the root for 1, the
    /// partition file at index `i` for `i + 2`.
    pub fn entry(&self, inode: u64) -> (r: Option<&DirItem>)
        ensures
            self@.valid(),
            match r {
                Some(item) => {
                    &&& item.inode == inode
                    &&& inode == ROOT_INODE ==> is_root_entry(
                        *item,
                        self@.sector_size,
                        self@.mount_time,
                    ) && item.children().len() == self@.files.len() && (forall|i: int|
                        0 <= i < self@.files.len() ==> file_view(#[trigger] item.children()[i])
                            == self@.files[i])
                    &&& inode != ROOT_INODE ==> self@.is_file(inode) && is_file_entry(
                        *item,
                        inode - 2,
                        self@.sector_size,
                        self@.mount_time,
                    ) && file_view(*item) == self@.file(inode)
                },
                None => inode != ROOT_INODE && !self@.is_file(inode),
            },
    {
        proof {
            use_type_invariant(&self.tree);
            lemma_find_in_root(self.tree.root, self.tree.sector_size, self.tree.mount_time, inode);
            assert forall|k: int| 0 <= k < self@.files.len() implies (
            #[trigger] self@.files[k]).fits(self@.sector_size) by {
                assert(is_file_entry(
                    self.tree.root.children()[k],
                    k,
                    self.tree.sector_size,
                    self.tree.mount_time,
                ));
            }
        }
        self.tree.root.get_by_inode(inode)
    }

    /// Answers an attribute query: the root is an empty directory, a partition
    /// file a regular file of as many bytes as its sectors hold. Every time is
    /// the mount time, every entry has permission bits `0o744` and the owner
    /// given at mount time, and the reply may be cached for one second.
    pub fn getattr(&self, inode: u64) -> (r: Result<EntryReply, FsError>)
        ensures
            r == if inode == ROOT_INODE {
                Ok::<EntryReply, FsError>(
                    EntryReply { attr: self@.root_attr(), ttl_secs: TTL_SECS, generation: 0 },
                )
            } else if self@.is_file(inode) {
                Ok(EntryReply { attr: self@.file_attr(inode), ttl_secs: TTL_SECS, generation: 0 })
            } else {
                Err(FsError::NotFound)
            },
    {
        match self.entry(inode) {
            Some(item) => {
                proof {
                    if inode != ROOT_INODE {
                        lemma_extent(
                            self@.file(inode).start,
                            self@.file(inode).len,
                            self@.sector_size,
                        );
                    }
                }
                Ok(
                    EntryReply {
                        attr: item.getattr(self.uid, self.gid),
                        ttl_secs: TTL_SECS,
                        generation: 0,
                    },
                )
            },
            None => Err(FsError::NotFound),
        }
    }

    /// Looks a name up in a directory. Only the root has children: the reply
    /// holds the attributes of the first partition file with that name, and may
    /// be cached for one second. Anything else is `NotFound`.
    pub fn lookup(&self, parent: u64, name: &str) -> (r: Result<EntryReply, FsError>)
        ensures
            match r {
                Ok(reply) => parent == ROOT_INODE && exists|i: int|
                    #![trigger self@.files[i]]
                    self@.first_named(name@, i) && reply == (EntryReply {
                        attr: self@.file_attr((i + 2) as u64),
                        ttl_secs: TTL_SECS,
                        generation: 0,
                    }),
                Err(e) => e == FsError::NotFound && (parent != ROOT_INODE || forall|i: int|
                    0 <= i < self@.files.len() ==> (#[trigger] self@.files[i]).name != name@),
            },
    {
        match self.entry(parent) {
            Some(item) => {
                match &item.node {
                    FsNode::Dir(children) => {
                        let mut i: usize = 0;
                        while i < children.len()
                            invariant
                                i <= children.len(),
                                parent == ROOT_INODE,
                                self@.valid(),
                                children@ == item.children(),
                                children@.len() == self@.files.len(),
                                is_root_entry(*item, self@.sector_size, self@.mount_time),
                                forall|k: int|
                                    0 <= k < self@.files.len() ==> file_view(
                                        #[trigger] item.children()[k],
                                    ) == self@.files[k],
                                forall|j: int|
                                    0 <= j < i ==> (#[trigger] self@.files[j]).name != name@,
                            decreases children.len() - i,
                        {
                            let child = &children[i];
                            assert(is_file_entry(
                                item.children()[i as int],
                                i as int,
                                self@.sector_size,
                                self@.mount_time,
                            ));
                            assert(file_view(item.children()[i as int]) == self@.files[i as int]);
                            if str_eq(child.name.as_str(), name) {
                                proof {
                                    lemma_extent(
                                        self@.files[i as int].start,
                                        self@.files[i as int].len,
                                        self@.sector_size,
                                    );
                                    assert(self@.first_named(name@, i as int));
                                }
                                return Ok(
                                    EntryReply {
                                        attr: child.getattr(self.uid, self.gid),
                                        ttl_secs: TTL_SECS,
                                        generation: 0,
                                    },
                                );
                            }
                            i += 1;
                        }
                        Err(FsError::NotFound)
                    },
                    FsNode::Partition { .. } => Err(FsError::NotFound),
                }
            },
            None => Err(FsError::NotFound),
        }
    }

    /// Opens an entry: gives out the next file handle, one above the last, and
    /// records which inode it stands for.
    pub fn open(&mut self, inode: u64) -> (handle: u64)
        requires
            old(self)@.handles.len() < u64::MAX,
        ensures
            handle == old(self)@.handles.len() + 1,
            final(self)@ == (PartitionFSView {
                handles: old(self)@.handles.push(inode),
                ..old(self)@
            }),
    {
        let handle: u64 = self.handles.len() as u64 + 1;
        self.handles.push(inode);
        assert(self@.files =~= old(self)@.files);
        handle
    }

    /// The inode that a file handle stands for, if the handle was given out.
    pub fn inode_of(&self, handle: u64) -> (r: Option<u64>)
        ensures
            r == if 1 <= handle <= self@.handles.len() {
                Some(self@.handles[handle - 1])
            } else {
                None
            },
    {
        if handle >= 1 && handle - 1 < self.handles.len() as u64 {
            Some(self.handles[(handle - 1) as usize])
        } else {
            None
        }
    }

    /// Turns a read of `size` bytes at `offset` of an entry into the byte range
    /// of the backing disk to read. The range never leaves the partition: a
    /// read that reaches beyond the end is cut short, and one that begins
    /// beyond it is empty.
    pub fn read_partition(&self, inode: u64, offset: u64, size: u64) -> (r: Result<
        IoRequest,
        FsError,
    >)
        ensures
            self@.valid(),
            r == self@.transfer(inode, offset, size),
    {
        self.locate(inode, offset, size)
    }

    /// Turns a write of `size` bytes at `offset` of an entry into the byte
    /// range of the backing disk to overwrite, cut down like a read.
    pub fn write_partition(&self, inode: u64, offset: u64, size: u64) -> (r: Result<
        IoRequest,
        FsError,
    >)
        ensures
            self@.valid(),
            r == self@.transfer(inode, offset, size),
    {
        self.locate(inode, offset, size)
    }

    fn locate(&self, inode: u64, offset: u64, wanted: u64) -> (r: Result<IoRequest, FsError>)
        ensures
            self@.valid(),
            r == self@.transfer(inode, offset, wanted),
    {
        match self.entry(inode) {
            Some(item) => {
                match &item.node {
                    FsNode::Partition { name, start, len } => {
                        proof {
                            lemma_extent(*start, *len, self.tree.sector_size);
                        }
                        let size: u64 = *len * self.tree.sector_size;
                        let base: u64 = *start * self.tree.sector_size;
                        let within: u64 = if offset <= size {
                            offset
                        } else {
                            size
                        };
                        let left: u64 = size - within;
                        let length: u64 = if wanted <= left {
                            wanted
                        } else {
                            left
                        };
                        Ok(IoRequest { position: base + within, length })
                    },
                    FsNode::Dir(_) => Err(FsError::NotFound),
                }
            },
            None => Err(FsError::InvalidArgument),
        }
    }

    /// Lists a directory from `offset` on. Only the root can be listed; a
    /// partition file is an invalid argument, and any other inode is not
    /// found.
    pub fn readdir(&self, inode: u64, offset: i64) -> (r: Result<Vec<DirEntry>, FsError>)
        ensures
            match r {
                Ok(entries) => inode == ROOT_INODE && entry_views(entries@) == self@.listing(
                    offset,
                ),
                Err(e) => inode != ROOT_INODE && e == if self@.is_file(inode) {
                    FsError::InvalidArgument
                } else {
                    FsError::NotFound
                },
            },
    {
        match self.entry(inode) {
            Some(parent) => {
                match parent.readdir() {
                    Ok(children) => {
                        let count = children.len();
                        let start: usize = if offset < 0 || offset as u64 > count as u64 {
                            count
                        } else {
                            offset as usize
                        };
                        let mut entries: Vec<DirEntry> = Vec::new();
                        let mut i: usize = start;
                        while i < count
                            invariant
                                start <= i <= count,
                                count == children@.len(),
                                count == self@.files.len(),
                                count <= MAX_FILES,
                                start == self@.listing_start(offset),
                                children@ == parent.children(),
                                is_root_entry(*parent, self@.sector_size, self@.mount_time),
                                forall|k: int|
                                    0 <= k < self@.files.len() ==> file_view(
                                        #[trigger] parent.children()[k],
                                    ) == self@.files[k],
                                entries.len() == i - start,
                                forall|k: int|
                                    0 <= k < entries.len() ==> (#[trigger] entries@[k])@
                                        == self@.listing(offset)[k],
                            decreases count - i,
                        {
                            let child = &children[i];
                            assert(is_file_entry(
                                parent.children()[i as int],
                                i as int,
                                self@.sector_size,
                                self@.mount_time,
                            ));
                            assert(file_view(parent.children()[i as int]) == self@.files[i as int]);
                            entries.push(
                                DirEntry {
                                    inode: child.inode,
                                    next_offset: (i as u64 + 3) as i64,
                                    kind: child.listed_kind(),
                                    name: child.name.clone(),
                                },
                            );
                            i += 1;
                        }
                        assert(entry_views(entries@) =~= self@.listing(offset));
                        Ok(entries)
                    },
                    Err(e) => Err(e),
                }
            },
            None => Err(FsError::NotFound),
        }
    }

    /// Answers a statistics query: every figure is zero.
    pub fn statfs(&self) -> (r: StatFs)
        ensures
            r == (StatFs {
                blocks: 0,
                bfree: 0,
                bavail: 0,
                files: 0,
                ffree: 0,
                bsize: 0,
                namelen: 0,
                frsize: 0,
            }),
    {
        StatFs {
            blocks: 0,
            bfree: 0,
            bavail: 0,
            files: 0,
            ffree: 0,
            bsize: 0,
            namelen: 0,
            frsize: 0,
        }
    }
}

/// Whether the extent of `len` sectors from sector `start` ends within what 64
/// bits can address in bytes.
pub fn extent_fits(start: u64, len: u64, sector_size: u64) -> (r: bool)
    ensures
        r == ((start + len) * sector_size <= u64::MAX),
{
    if sector_size == 0 {
        assert((start + len) * 0 == 0);
        return true;
    }
    let sectors: u128 = start as u128 + len as u128;
    if sectors > u64::MAX as u128 {
        assert((start + len) * sector_size > u64::MAX) by (nonlinear_arith)
            requires
                start + len > u64::MAX,
                sector_size >= 1,
        ;
        return false;
    }
    assert(sectors * sector_size <= u64::MAX * u64::MAX) by (nonlinear_arith)
        requires
            0 <= sectors <= u64::MAX,
            0 <= sector_size <= u64::MAX,
    ;
    let bytes: u128 = sectors * (sector_size as u128);
    bytes <= u64::MAX as u128
}

/// An extent that ends within 64 bits also begins within them, and has a size
/// that fits them.
pub proof fn lemma_extent(start: u64, len: u64, sector_size: u64)
    requires
        (start + len) * sector_size <= u64::MAX,
    ensures
        start * sector_size + len * sector_size == (start + len) * sector_size,
        0 <= start * sector_size <= u64::MAX,
        0 <= len * sector_size <= u64::MAX,
{
    assert(start * sector_size + len * sector_size == (start + len) * sector_size)
        by (nonlinear_arith);
    assert(0 <= start * sector_size) by (nonlinear_arith);
    assert(0 <= len * sector_size) by (nonlinear_arith);
}

/// The bytes of a disk within a range, as far as the disk reaches.
pub open spec fn stored(disk: Seq<u8>, range: IoRequest) -> Seq<u8> {
    let from = if range.position <= disk.len() {
        range.position as int
    } else {
        disk.len() as int
    };
    let to = if range.position + range.length <= disk.len() {
        range.position + range.length
    } else {
        disk.len() as int
    };
    disk.subrange(from, to)
}

/// The disk after `data` was written over a range, as far as the range, the
/// data and the disk reach.
pub open spec fn overwritten(disk: Seq<u8>, range: IoRequest, data: Seq<u8>) -> Seq<u8> {
    Seq::new(
        disk.len(),
        |i: int|
            if range.position <= i < range.position + range.length && i - range.position
                < data.len() {
                data[i - range.position]
            } else {
                disk[i]
            },
    )
}

/// How many bytes of a write over a range reach the disk.
pub open spec fn landed(disk: Seq<u8>, range: IoRequest, data: Seq<u8>) -> int {
    let wanted = if data.len() <= range.length {
        data.len() as int
    } else {
        range.length as int
    };
    if range.position >= disk.len() {
        0
    } else if range.position + wanted <= disk.len() {
        wanted
    } else {
        disk.len() - range.position
    }
}

/// Round trip: what is written through a partition file is what is read back
/// from the same place, through this filesystem or any other over the same
/// partition table, as far as the write was not cut short by the end of the
/// partition.
pub proof fn lemma_round_trip(
    fs: PartitionFSView,
    disk: Seq<u8>,
    inode: u64,
    offset: u64,
    data: Seq<u8>,
)
    requires
        fs.valid(),
        fs.is_file(inode),
        data.len() <= u64::MAX,
        (fs.file(inode).start + fs.file(inode).len) * fs.sector_size <= disk.len(),
    ensures
        ({
            let range = fs.range(inode, offset, data.len() as u64);
            &&& range.length == fs.clamped(inode, offset, data.len() as u64)
            &&& stored(overwritten(disk, range, data), range) == data.take(range.length as int)
        }),
{
    let file = fs.file(inode);
    assert(fs.files[inode - 2].fits(fs.sector_size));
    lemma_extent(file.start, file.len, fs.sector_size);
    let range = fs.range(inode, offset, data.len() as u64);
    assert(stored(overwritten(disk, range, data), range) =~= data.take(range.length as int));
}

/// Isolation: a write through one partition file leaves what another
/// partition file reads unchanged, where the two partitions do not overlap.
pub proof fn lemma_isolation(
    fs: PartitionFSView,
    disk: Seq<u8>,
    written: u64,
    offset: u64,
    data: Seq<u8>,
    read: u64,
    from: u64,
    size: u64,
)
    requires
        fs.valid(),
        fs.is_file(written),
        fs.is_file(read),
        data.len() <= u64::MAX,
        fs.file(written).start + fs.file(written).len <= fs.file(read).start || fs.file(
            read,
        ).start + fs.file(read).len <= fs.file(written).start,
    ensures
        stored(
            overwritten(disk, fs.range(written, offset, data.len() as u64), data),
            fs.range(read, from, size),
        ) == stored(disk, fs.range(read, from, size)),
{
    let a = fs.file(written);
    let b = fs.file(read);
    assert(fs.files[written - 2].fits(fs.sector_size));
    assert(fs.files[read - 2].fits(fs.sector_size));
    lemma_extent(a.start, a.len, fs.sector_size);
    lemma_extent(b.start, b.len, fs.sector_size);
    let ss = fs.sector_size as int;
    if a.start + a.len <= b.start {
        assert((a.start + a.len) * ss <= b.start * ss) by (nonlinear_arith)
            requires
                a.start + a.len <= b.start,
                ss >= 0,
        ;
    } else {
        assert((b.start + b.len) * ss <= a.start * ss) by (nonlinear_arith)
            requires
                b.start + b.len <= a.start,
                ss >= 0,
        ;
    }
    assert(stored(
        overwritten(disk, fs.range(written, offset, data.len() as u64), data),
        fs.range(read, from, size),
    ) =~= stored(disk, fs.range(read, from, size)));
}

impl PartitionFS {
    /// Reads through a partition file from a disk that is held in memory: the
    /// bytes of the range that [`PartitionFS::read_partition`] gives, as far as
    /// the disk reaches.
    pub fn read_from(&self, disk: &Vec<u8>, inode: u64, offset: u64, size: u64) -> (r: Result<
        Vec<u8>,
        FsError,
    >)
        ensures
            match self@.transfer(inode, offset, size) {
                Ok(range) => r is Ok && r->Ok_0@ == stored(disk@, range),
                Err(e) => r == Err::<Vec<u8>, FsError>(e),
            },
    {
        match self.read_partition(inode, offset, size) {
            Ok(range) => {
                let len = disk.len() as u64;
                let from: u64 = if range.position <= len {
                    range.position
                } else {
                    len
                };
                let to: u64 = if range.length <= len - from {
                    from + range.length
                } else {
                    len
                };
                let mut bytes: Vec<u8> = Vec::new();
                let mut i: u64 = from;
                while i < to
                    invariant
                        from <= i <= to <= disk.len(),
                        bytes@ == disk@.subrange(from as int, i as int),
                    decreases to - i,
                {
                    bytes.push(disk[i as usize]);
                    assert(bytes@ =~= disk@.subrange(from as int, i + 1));
                    i += 1;
                }
                assert(bytes@ =~= stored(disk@, range));
                Ok(bytes)
            },
            Err(e) => Err(e),
        }
    }

    /// Writes through a partition file to a disk that is held in memory: over
    /// the range that [`PartitionFS::write_partition`] gives, as far as the
    /// disk reaches. The result is the number of bytes written.
    pub fn write_to(&self, disk: &mut Vec<u8>, inode: u64, offset: u64, data: &Vec<u8>) -> (r:
        Result<usize, FsError>)
        ensures
            match self@.transfer(inode, offset, data@.len() as u64) {
                Ok(range) => r == Ok::<usize, FsError>(landed(old(disk)@, range, data@) as usize)
                    && final(disk)@ == overwritten(old(disk)@, range, data@),
                Err(e) => r == Err::<usize, FsError>(e) && final(disk)@ == old(disk)@,
            },
    {
        match self.write_partition(inode, offset, data.len() as u64) {
            Ok(range) => {
                let len = disk.len() as u64;
                if range.position >= len {
                    assert(disk@ =~= overwritten(old(disk)@, range, data@));
                    return Ok(0);
                }
                let room: u64 = len - range.position;
                let count: u64 = if range.length <= room {
                    range.length
                } else {
                    room
                };
                let base: usize = range.position as usize;
                let mut i: usize = 0;
                while i < count as usize
                    invariant
                        i <= count,
                        count <= range.length <= data@.len(),
                        base == range.position,
                        base + count <= disk.len(),
                        disk@.len() == old(disk)@.len(),
                        forall|j: int|
                            0 <= j < disk@.len() ==> disk@[j] == if base <= j < base + i {
                                data@[j - base]
                            } else {
                                old(disk)@[j]
                            },
                    decreases count - i,
                {
                    disk.set(base + i, data[i]);
                    i += 1;
                }
                assert(disk@ =~= overwritten(old(disk)@, range, data@));
                Ok(count as usize)
            },
            Err(e) => Err(e),
        }
    }
}

} // verus!
