//! A minimal on-disk filesystem engine over a flat disk image.
//!
//! The crate holds the volume's layout, the superblock and inode records with
//! their byte encodings, the allocation bitmaps, and the allocator that keeps
//! a bitmap and the superblock's free counters in step. Everything here works
//! on plain values in memory; moving blocks to and from the image file is the
//! caller's part.

pub mod error;
pub mod layout;
pub mod bitmap;
pub mod codec;
pub mod clock;
pub mod superblock;
pub mod inode;
pub mod allocator;
pub mod disk;
pub mod volume;
