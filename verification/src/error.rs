//! Error conditions reportable during block decoding, and the handler
//! capability through which they are reported.

use vstd::prelude::*;

verus! {

/// Error conditions reportable during block decoding.
#[derive(Clone, Copy, PartialEq, Eq, Structural, Debug)]
#[allow(inconsistent_fields)]
pub enum BlockDecoderError {
    /// A block was not exactly header plus data sized.
    InvalidBlockLength { actual: usize },
    /// A first block claimed an image longer than the supported maximum.
    InvalidImageLength { actual: u32 },
    /// A block's index is not below the image's block count.
    InvalidBlockIndex { actual: u16, max: u16 },
    /// A first block's block count does not fit its image length.
    InvalidBlockCount { actual: u16, expected: u16 },
    /// A block's version differs from the first block's.
    InconsistentVersion { actual: u32, expected: u32, index: u16 },
    /// A block's checksum field differs from the first block's.
    InconsistentChecksum { actual: u32, expected: u32, index: u16 },
    /// A block's image length differs from the first block's.
    InconsistentImageLength { actual: u32, expected: u32, index: u16 },
    /// A block's block count differs from the first block's.
    InconsistentBlockCount { actual: u16, expected: u16, index: u16 },
    /// The assembled image's checksum differs from the recorded one.
    ChecksumMismatch { actual: u32, expected: u32 },
    /// A block arrived whose position had been written already.
    DuplicateBlock { index: u16 },
    /// At finalization, the block at `index` had never arrived.
    MissingBlock { index: u16 },
}

/// Receives each structured event as it is found.
///
/// The returned value is the handler's signal: `Ok(())` to continue,
/// `Err(())` to make the caller stop promptly and report an aborted run.
pub trait Handler<E> {
    fn on(&mut self, event: &E) -> Result<(), ()>;
}

} // verus!
