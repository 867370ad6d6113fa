use vstd::prelude::*;

verus! {

/// The flags that `open` takes. They are independent bits of a `u32` and
/// combine with `|`.
pub struct FileFlags;

impl FileFlags {
    pub const O_RDONLY: u32 = 0b00000001;
    pub const O_WRONLY: u32 = 0b00000010;
    pub const O_RDWR: u32 = 0b00000100;
    pub const O_NONBLOCK: u32 = 0b00001000;
    pub const O_APPEND: u32 = 0b00010000;
    pub const O_CREAT: u32 = 0b00100000;
}

/// The create flag is among `flags`.
pub open spec fn creates(flags: u32) -> bool {
    flags & FileFlags::O_CREAT == FileFlags::O_CREAT
}

} // verus!
