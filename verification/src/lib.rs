//! A read-only driver for FAT32 volumes.
//!
//! The crate decodes the volume boot record, follows cluster chains through
//! the file allocation table, decodes 32-byte directory records and resolves
//! slash-separated paths, so that directories can be listed and files read.
//! Storage is reached through the [`BlockDevice`] trait, which callers
//! implement for whatever holds the volume image.
//!
//! The crate is verified with Verus: no function panics or overflows.
//! Nothing is assumed of what a device returns. A function that takes data
//! as an argument states its result exactly, over the models defined beside
//! it. A function that reads a device states what holds of its result
//! whatever was read, and the inputs on which its result is owed without a
//! read; the decisions it makes on the data are those of the functions that
//! take the data. Two calls into the standard library are taken on trust,
//! the one that reads bytes as UTF-8 text and the one that trims
//! whitespace; their contracts stand in [`directory`].

use vstd::prelude::*;

pub mod bytes;
pub mod error;
pub mod boot_sector;
pub mod directory;
pub mod fat_table;
pub mod filesystem;
pub mod listing;
pub mod path;

pub use crate::error::Fat32Error;
pub use crate::boot_sector::BootSector;
pub use crate::directory::{DirectoryEntry, FileAttributes};
pub use crate::fat_table::FatTable;
pub use crate::filesystem::Fat32FileSystem;

verus! {

/// A sector-addressable storage device holding a volume image.
///
/// The driver assumes nothing about what an implementation returns: every
/// function that reads from a device states what holds for any outcome of
/// the read, and leaves the interpretation of the bytes to functions that
/// take them as arguments.
pub trait BlockDevice {
    /// Fills `buffer` with the contents of the zero-based `sector`.
    ///
    /// The contract states only what the type of `buffer` guarantees of
    /// every implementation: a slice keeps its length.
    fn read_sector(&mut self, sector: u32, buffer: &mut [u8]) -> (result: Result<(), Fat32Error>)
        ensures
            final(buffer)@.len() == old(buffer)@.len(),
    ;

    /// Stores `buffer` as the contents of the zero-based `sector`.
    fn write_sector(&mut self, sector: u32, buffer: &[u8]) -> Result<(), Fat32Error>;

    /// The device's fixed sector size in bytes.
    fn sector_size(&self) -> usize;
}

} // verus!
