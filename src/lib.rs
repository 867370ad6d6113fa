use vstd::prelude::*;

pub mod clock;
pub mod directory;
pub mod error;
pub mod flags;
pub mod handle;
pub mod inode;
pub mod vfs;

pub use clock::Timespec;
pub use directory::{Directory, File};
pub use error::FsError;
pub use flags::FileFlags;
pub use handle::{FileHandle, Whence};
pub use inode::{Inode, InodeId};
pub use vfs::{FileDescriptor, Vfs};

verus! {

} // verus!
