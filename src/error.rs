use vstd::prelude::*;

verus! {

/// The ways an operation of the filesystem can fail.
#[derive(Clone, Copy, Debug, PartialEq, Eq, Structural)]
pub enum FsError {
    /// The path or the descriptor does not name anything.
    NotFound,
    /// The path names a directory where a data file is needed.
    IsDirectory,
    /// Every descriptor of the pool is in use.
    NoDescriptors,
    /// The operation is not supported, or its arguments make no sense
    /// (a seek to before the start of the file).
    InvalidArgument,
    /// A read would go past the end of the file.
    OutOfBounds,
}

} // verus!
