//! The plain disk backend: the backing file is the image.

use crate::error::BuildError;
use crate::geometry::MEBIBYTE;
use crate::qemu::action_views;
use crate::qemu::DiskAction;
use crate::qemu::DiskActionView;
use vstd::prelude::*;

verus! {

/// The size in bytes of an image of `size` mebibytes, if it has one: the size
/// is not negative and the bytes can be counted with 64 bits.
pub open spec fn image_bytes(size: int) -> Option<u64> {
    if 0 <= size && size * MEBIBYTE <= u64::MAX {
        Some((size * MEBIBYTE) as u64)
    } else {
        None
    }
}

/// What a plain backend is made of.
pub struct RawView {
    /// The path of the backing file.
    pub backing: Seq<char>,
    /// The image size in mebibytes.
    pub size: int,
}

/// The disk backend for images that are plain files.
#[derive(Debug, Clone, PartialEq, Eq)]
pub struct Raw {
    backing: String,
    size: i64,
}

impl View for Raw {
    type V = RawView;

    closed spec fn view(&self) -> RawView {
        RawView { backing: self.backing@, size: self.size as int }
    }
}

impl Raw {
    /// A backend for the image at `backing`, and the action that allocates the
    /// backing file at its full length.
    ///
    /// Fails with `FailedToCreateImage` exactly when the image has no size in
    /// bytes.
    pub fn create_disk(backing: String, size: i64) -> (r: Result<
        (Self, Vec<DiskAction>),
        BuildError,
    >)
        ensures
            match (r, image_bytes(size as int)) {
                (Ok((disk, actions)), Some(bytes)) => {
                    &&& disk@ == (RawView { backing: backing@, size: size as int })
                    &&& action_views(actions@) == seq![
                        DiskActionView::Allocate { path: backing@, bytes },
                    ]
                },
                (Err(e), None) => e == BuildError::FailedToCreateImage,
                _ => false,
            },
    {
        if size < 0 || size as u64 > u64::MAX / MEBIBYTE {
            assert(image_bytes(size as int) is None) by {
                if size >= 0 {
                    assert(size as int >= 17592186044416);
                }
            }
            return Err(BuildError::FailedToCreateImage);
        }
        let bytes: u64 = size as u64 * MEBIBYTE;
        let mut actions: Vec<DiskAction> = Vec::new();
        actions.push(DiskAction::Allocate { path: backing.clone(), bytes });
        assert(action_views(actions@) =~= seq![DiskActionView::Allocate { path: backing@, bytes }]);
        Ok((Raw { backing, size }, actions))
    }

    /// The path of the backing file.
    pub fn backing(&self) -> (r: String)
        ensures
            r@ == self@.backing,
    {
        self.backing.clone()
    }

    /// Makes the image usable. A plain file is usable as it is: there is
    /// nothing to do.
    pub fn mount(&mut self) -> (r: Vec<DiskAction>)
        ensures
            final(self)@ == old(self)@,
            r@.len() == 0,
    {
        Vec::new()
    }

    /// Releases the image. There is nothing to do.
    pub fn unmount(&mut self) -> (r: Vec<DiskAction>)
        ensures
            final(self)@ == old(self)@,
            r@.len() == 0,
    {
        Vec::new()
    }
}

} // verus!
