//! Per-block metadata: the fixed 16-byte header, its parsing from the wire,
//! and the validation rules a block must pass before its data is accepted.

use vstd::prelude::*;

verus! {

use vstd::arithmetic::div_mod::lemma_fundamental_div_mod;
use vstd::arithmetic::div_mod::lemma_fundamental_div_mod_converse;
use vstd::slice::slice_subrange;
use vstd::slice::slice_to_vec;
use crate::bytes::be16;
use crate::bytes::be32;
use crate::bytes::read_u16;
use crate::bytes::read_u32;
use crate::error::BlockDecoderError;
use crate::error::Handler;

/// Raw block header length in bytes.
pub const BLOCK_HEAD_LEN: usize = 16;

/// Raw block data length in bytes.
pub const BLOCK_DATA_LEN: usize = 256;

/// Length in bytes of a whole block once 7-bit-encoded.
pub const BLOCK_7BIT_LEN: usize = 311;

/// Maximum image size in bytes.
pub const IMAGE_MAX_BYTES: u32 = 2 * 1024 * 1024;

/// Maximum count of blocks in an image.
pub const IMAGE_MAX_BLOCKS: u16 = 8192;

/// Metadata describing a bootloader/OS update block.
#[derive(Clone, Copy, PartialEq, Eq, Structural, Debug)]
pub struct BlockHeader {
    /// Version of the firmware in the image.
    pub version: u32,
    /// Expected additive checksum of the image.
    pub checksum: u32,
    /// Length of the image in bytes.
    pub length: u32,
    /// Count of 256-byte blocks in the image.
    pub block_count: u16,
    /// 0-based index of the block.
    pub block_index: u16,
}

/// A portion of an OS/bootloader update image: a header and its 256 data
/// bytes.
#[derive(Clone, Debug)]
pub struct Block {
    /// Metadata header.
    pub header: BlockHeader,
    /// Data payload.
    pub data: Vec<u8>,
}

/// The header laid out big-endian in the first 16 bytes of `s`.
pub open spec fn spec_header(s: Seq<u8>) -> BlockHeader {
    BlockHeader {
        version: be32(s, 0) as u32,
        checksum: be32(s, 4) as u32,
        length: be32(s, 8) as u32,
        block_count: be16(s, 12) as u16,
        block_index: be16(s, 14) as u16,
    }
}

/// The block count an image of `length` bytes needs: `length / 256`,
/// rounded up.
pub open spec fn spec_block_count_for(length: int) -> int {
    (length + 255) / 256
}

/// Number of 256-byte blocks needed for an image of `length` bytes: the
/// ceiling of `length / 256`, and `0` exactly for an empty image.
pub fn block_count_for(length: u32) -> (r: u16)
    requires
        length <= IMAGE_MAX_BYTES,
    ensures
        r == spec_block_count_for(length as int),
        256 * r >= length,
        r > 0 ==> 256 * (r - 1) < length,
        r == 0 <==> length == 0,
        r <= IMAGE_MAX_BLOCKS,
{
    if length == 0 {
        0
    } else {
        let before: u32 = length - 1;
        let shifted = before >> 8;
        proof {
            assert(shifted == before / 256 && shifted < 0x2000) by (bit_vector)
                requires
                    shifted == before >> 8 && before < 0x200000,
            ;
            lemma_fundamental_div_mod(before as int, 256);
            lemma_fundamental_div_mod_converse(
                length + 255,
                256,
                shifted as int + 1,
                before as int % 256,
            );
        }
        1 + (shifted as u16)
    }
}

/// An all-zero buffer able to hold `count` blocks of data.
pub fn block_buffer(count: usize) -> (r: Vec<u8>)
    requires
        count <= IMAGE_MAX_BLOCKS as usize,
    ensures
        r@.len() == count * 256,
        forall|i: int| 0 <= i < r@.len() ==> r@[i] == 0u8,
{
    let size: usize = count * 256;
    let mut buffer: Vec<u8> = Vec::new();
    while buffer.len() < size
        invariant
            buffer@.len() <= size,
            forall|i: int| 0 <= i < buffer@.len() ==> buffer@[i] == 0u8,
        decreases size - buffer@.len(),
    {
        buffer.push(0);
    }
    buffer
}

/// The half-open range of image offsets covered by the block at `index`:
/// start and end.
pub fn block_range(index: u16) -> (r: (usize, usize))
    ensures
        r.0 == index * 256,
        r.1 == index * 256 + 256,
{
    let start: usize = (index as usize) * 256;
    (start, start + 256)
}

impl Block {
    /// Creates a `Block` from the given `bytes`, reporting problems to the
    /// given `handler`.
    ///
    /// Exactly block-sized input parses directly. Any other size is reported
    /// as `InvalidBlockLength`; if the handler says stop, the result is
    /// `Err(false)`. Otherwise too-short input yields `Err(true)` (more input
    /// may complete it) and too-long input is truncated and parsed.
    pub fn from_bytes<H: Handler<BlockDecoderError>>(bytes: &[u8], handler: &mut H) -> (r: Result<
        Block,
        bool,
    >)
        ensures
            bytes@.len() == BLOCK_HEAD_LEN + BLOCK_DATA_LEN ==> r is Ok,
            bytes@.len() < BLOCK_HEAD_LEN + BLOCK_DATA_LEN ==> !(r is Ok),
            match r {
                Ok(block) => {
                    &&& block.header == spec_header(bytes@)
                    &&& block.data@ == bytes@.subrange(
                        BLOCK_HEAD_LEN as int,
                        (BLOCK_HEAD_LEN + BLOCK_DATA_LEN) as int,
                    )
                },
                Err(more) => {
                    &&& bytes@.len() != BLOCK_HEAD_LEN + BLOCK_DATA_LEN
                    &&& (more ==> bytes@.len() < BLOCK_HEAD_LEN + BLOCK_DATA_LEN)
                },
            },
    {
        let total = BLOCK_HEAD_LEN + BLOCK_DATA_LEN;
        if bytes.len() != total {
            if handler.on(&BlockDecoderError::InvalidBlockLength { actual: bytes.len() }).is_err() {
                return Err(false);
            }
            if bytes.len() < total {
                return Err(true);
            }
        }
        let header = BlockHeader {
            version: read_u32(bytes, 0),
            checksum: read_u32(bytes, 4),
            length: read_u32(bytes, 8),
            block_count: read_u16(bytes, 12),
            block_index: read_u16(bytes, 14),
        };
        let data = slice_to_vec(slice_subrange(bytes, BLOCK_HEAD_LEN, total));
        Ok(Block { header, data })
    }
}

impl BlockHeader {
    /// The outcome `check_len` owes: the first invalid property of the
    /// header's image length and block count, if any.
    pub open spec fn spec_check_len(self) -> Result<(), BlockDecoderError> {
        if self.length > IMAGE_MAX_BYTES {
            Err(BlockDecoderError::InvalidImageLength { actual: self.length })
        } else if self.block_count != spec_block_count_for(self.length as int) {
            Err(
                BlockDecoderError::InvalidBlockCount {
                    actual: self.block_count,
                    expected: spec_block_count_for(self.length as int) as u16,
                },
            )
        } else {
            Ok(())
        }
    }

    /// Verifies that the header specifies a valid image length and block
    /// count.
    pub fn check_len(&self) -> (r: Result<(), BlockDecoderError>)
        ensures
            r == self.spec_check_len(),
    {
        if self.length > IMAGE_MAX_BYTES {
            return Err(BlockDecoderError::InvalidImageLength { actual: self.length });
        }
        let expected = block_count_for(self.length);
        if self.block_count != expected {
            return Err(
                BlockDecoderError::InvalidBlockCount { actual: self.block_count, expected },
            );
        }
        Ok(())
    }

    /// True iff every field other than `block_index` matches `other`.
    pub open spec fn spec_matches(self, other: BlockHeader) -> bool {
        &&& self.version == other.version
        &&& self.checksum == other.checksum
        &&& self.length == other.length
        &&& self.block_count == other.block_count
    }

    /// The mismatch events `check_match` owes, in field order: version,
    /// checksum, image length, block count.
    pub open spec fn spec_mismatches(self, other: BlockHeader) -> Seq<BlockDecoderError> {
        (if self.version != other.version {
            seq![
                BlockDecoderError::InconsistentVersion {
                    actual: self.version,
                    expected: other.version,
                    index: self.block_index,
                },
            ]
        } else {
            Seq::empty()
        }) + (if self.checksum != other.checksum {
            seq![
                BlockDecoderError::InconsistentChecksum {
                    actual: self.checksum,
                    expected: other.checksum,
                    index: self.block_index,
                },
            ]
        } else {
            Seq::empty()
        }) + (if self.length != other.length {
            seq![
                BlockDecoderError::InconsistentImageLength {
                    actual: self.length,
                    expected: other.length,
                    index: self.block_index,
                },
            ]
        } else {
            Seq::empty()
        }) + (if self.block_count != other.block_count {
            seq![
                BlockDecoderError::InconsistentBlockCount {
                    actual: self.block_count,
                    expected: other.block_count,
                    index: self.block_index,
                },
            ]
        } else {
            Seq::empty()
        })
    }

    /// Compares the header's fields (except `block_index`) against the given
    /// reference header and returns one event per differing field, in field
    /// order. The result is empty iff the headers match.
    pub fn check_match(&self, other: &BlockHeader) -> (errs: Vec<BlockDecoderError>)
        ensures
            errs@ == self.spec_mismatches(*other),
            errs@.len() == 0 <==> self.spec_matches(*other),
    {
        let mut errs: Vec<BlockDecoderError> = Vec::new();
        if self.version != other.version {
            errs.push(
                BlockDecoderError::InconsistentVersion {
                    actual: self.version,
                    expected: other.version,
                    index: self.block_index,
                },
            );
        }
        if self.checksum != other.checksum {
            errs.push(
                BlockDecoderError::InconsistentChecksum {
                    actual: self.checksum,
                    expected: other.checksum,
                    index: self.block_index,
                },
            );
        }
        if self.length != other.length {
            errs.push(
                BlockDecoderError::InconsistentImageLength {
                    actual: self.length,
                    expected: other.length,
                    index: self.block_index,
                },
            );
        }
        if self.block_count != other.block_count {
            errs.push(
                BlockDecoderError::InconsistentBlockCount {
                    actual: self.block_count,
                    expected: other.block_count,
                    index: self.block_index,
                },
            );
        }
        proof {
            assert(errs@ =~= self.spec_mismatches(*other));
        }
        errs
    }

    /// The outcome `check_block_index` owes: an `InvalidBlockIndex` event
    /// exactly when the index is not below the block count, with `max`
    /// saturating to 0 for an empty image.
    pub open spec fn spec_check_block_index(self) -> Result<(), BlockDecoderError> {
        if self.block_index >= self.block_count {
            Err(
                BlockDecoderError::InvalidBlockIndex {
                    actual: self.block_index,
                    max: if self.block_count == 0 {
                        0
                    } else {
                        (self.block_count - 1) as u16
                    },
                },
            )
        } else {
            Ok(())
        }
    }

    /// Verifies that the header specifies a valid block index.
    pub fn check_block_index(&self) -> (r: Result<(), BlockDecoderError>)
        ensures
            r == self.spec_check_block_index(),
            r is Ok <==> self.block_index < self.block_count,
    {
        if self.block_index >= self.block_count {
            let max = if self.block_count == 0 {
                0
            } else {
                self.block_count - 1
            };
            return Err(BlockDecoderError::InvalidBlockIndex { actual: self.block_index, max });
        }
        Ok(())
    }
}

} // verus!
