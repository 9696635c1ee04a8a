//! The error conditions reported by the engine.

use vstd::prelude::*;

verus! {

/// Why an operation was refused. No operation changes its arguments when it
/// returns one of these.
#[derive(Debug, Clone, Copy, PartialEq, Eq, Structural)]
pub enum FsError {
    /// A size of zero, a buffer whose length is not the block size, or a
    /// geometry in which a bitmap or the inode table does not fit.
    InvalidArgument,
    /// A bit, block or inode number outside the range it addresses.
    OutOfRange,
    /// Block 0 does not begin with the filesystem's magic number.
    BadMagic,
    /// A superblock record that is too short or whose fields contradict
    /// one another.
    CorruptSuperblock,
    /// A unit was released whose bit was already clear.
    DoubleFree,
    /// A free counter disagrees with what the bitmap shows.
    CounterMismatch,
}

} // verus!
