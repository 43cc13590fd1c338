//! Constructs a binary image from OS/bootloader update blocks.
//!
//! The decoder is a sink: each call hands it one block's bytes. The first
//! accepted block fixes the image's metadata; every later block must match
//! it. Block data is written at the block's indexed position; finalization
//! checks completeness and the additive checksum.

use vstd::prelude::*;

verus! {

use vstd::arithmetic::div_mod::lemma_fundamental_div_mod;
use vstd::arithmetic::div_mod::lemma_fundamental_div_mod_converse;
use vstd::arithmetic::div_mod::lemma_add_mod_noop;
use vstd::arithmetic::div_mod::lemma_small_mod;
use vstd::slice::slice_subrange;
use vstd::slice::slice_to_vec;
use crate::bitmap::BoolArray;
use crate::block::Block;
use crate::block::BlockHeader;
use crate::block::BLOCK_DATA_LEN;
use crate::block::BLOCK_HEAD_LEN;
use crate::block::IMAGE_MAX_BLOCKS;
use crate::block::IMAGE_MAX_BYTES;
use crate::block::block_range;
use crate::block::block_buffer;
use crate::block::spec_header;
use crate::error::BlockDecoderError;
use crate::error::Handler;

/// The sum of the byte values of `s`.
pub open spec fn sum_bytes(s: Seq<u8>) -> int
    decreases s.len(),
{
    if s.len() == 0 {
        0
    } else {
        sum_bytes(s.drop_last()) + s.last()
    }
}

/// The additive checksum of `s`: its byte values summed modulo 2^32.
pub open spec fn spec_checksum(s: Seq<u8>) -> u32 {
    (sum_bytes(s) % 0x1_0000_0000) as u32
}

/// The unsigned 32-bit wrap-around sum of the given bytes.
pub fn checksum(bytes: &[u8]) -> (r: u32)
    ensures
        r == spec_checksum(bytes@),
{
    let mut sum: u32 = 0;
    let mut i: usize = 0;
    proof {
        lemma_small_mod(0, 0x1_0000_0000);
        assert(bytes@.take(0) =~= Seq::<u8>::empty());
    }
    while i < bytes.len()
        invariant
            i <= bytes@.len(),
            sum == sum_bytes(bytes@.take(i as int)) % 0x1_0000_0000,
        decreases bytes@.len() - i,
    {
        let b = bytes[i];
        proof {
            let prefix = bytes@.take(i as int);
            let prior = sum_bytes(prefix);
            assert(bytes@.take(i + 1).drop_last() =~= prefix);
            assert(sum_bytes(bytes@.take(i + 1)) == prior + b);
            lemma_small_mod(b as nat, 0x1_0000_0000);
            lemma_add_mod_noop(prior, b as int, 0x1_0000_0000);
            let t = sum + b as int;
            if t > u32::MAX {
                lemma_fundamental_div_mod_converse(t, 0x1_0000_0000, 1, t - 0x1_0000_0000);
            } else {
                lemma_small_mod(t as nat, 0x1_0000_0000);
            }
        }
        sum = sum.wrapping_add(b as u32);
        i = i + 1;
    }
    proof {
        assert(bytes@.take(bytes@.len() as int) =~= bytes@);
    }
    sum
}

/// The assembly state retained between blocks: the reference metadata taken
/// from the first accepted block, the map of written blocks, and the image
/// buffer in progress.
#[derive(Clone)]
pub struct BlockDecoderState {
    /// First accepted block's metadata; its `block_index` is not meaningful.
    pub header: BlockHeader,
    /// Bit `i` is set iff block `i` has been written.
    pub blocks_done: BoolArray,
    /// Buffer for the image in progress, one 256-byte slot per block.
    pub image: Vec<u8>,
}

impl BlockDecoderState {
    /// Structural soundness: the done map and the buffer are sized to the
    /// header's block count, which can hold the header's image length.
    pub open spec fn wf(self) -> bool {
        &&& self.blocks_done.wf()
        &&& self.blocks_done@.len() == self.header.block_count
        &&& self.image@.len() == self.header.block_count * 256
        &&& self.header.length <= self.header.block_count * 256
        &&& self.header.block_count <= IMAGE_MAX_BLOCKS
    }

    /// Creates the assembly state for an image described by `header`, with
    /// no block written yet.
    pub fn new(header: BlockHeader) -> (r: BlockDecoderState)
        requires
            header.spec_check_len() is Ok,
        ensures
            r.wf(),
            r.header == header,
            forall|i: int| 0 <= i < r.blocks_done@.len() ==> !r.blocks_done@[i],
            forall|i: int| 0 <= i < r.image@.len() ==> r.image@[i] == 0u8,
    {
        proof {
            lemma_fundamental_div_mod(header.length + 255, 256);
        }
        let n = header.block_count as usize;
        BlockDecoderState { header, blocks_done: BoolArray::new(n), image: block_buffer(n) }
    }

    /// The image assembled so far: the buffer truncated to the header's
    /// image length.
    pub fn image(&self) -> (r: &[u8])
        requires
            self.wf(),
        ensures
            r@ == self.image@.take(self.header.length as int),
    {
        let r = slice_subrange(self.image.as_slice(), 0, self.header.length as usize);
        proof {
            assert(r@ =~= self.image@.take(self.header.length as int));
        }
        r
    }

    /// True iff the block at `index` has been written.
    pub fn has_block(&self, index: u16) -> (r: bool)
        requires
            self.wf(),
            index < self.header.block_count,
        ensures
            r == self.blocks_done@[index as int],
    {
        self.blocks_done.get(index as usize)
    }

    /// The least index whose block has not been written, if any.
    pub fn first_missing_block(&self) -> (r: Option<u16>)
        requires
            self.wf(),
        ensures
            match r {
                Some(i) => {
                    &&& i < self.header.block_count
                    &&& !self.blocks_done@[i as int]
                    &&& forall|j: int| 0 <= j < i ==> self.blocks_done@[j]
                },
                None => forall|j: int|
                    0 <= j < self.blocks_done@.len() ==> self.blocks_done@[j],
            },
    {
        match self.blocks_done.first_false() {
            Some(i) => Some(i as u16),
            None => None,
        }
    }

    /// Writes the given block `data` at the given block `index` and marks it
    /// done. Returns `true` if the block had been written already.
    pub fn write_block(&mut self, index: u16, data: &[u8]) -> (dup: bool)
        requires
            old(self).wf(),
            index < old(self).header.block_count,
            data@.len() == BLOCK_DATA_LEN,
        ensures
            final(self).wf(),
            final(self).header == old(self).header,
            final(self).blocks_done@ == old(self).blocks_done@.update(index as int, true),
            final(self).image@.len() == old(self).image@.len(),
            forall|i: int|
                0 <= i < final(self).image@.len() ==> final(self).image@[i] == (if index * 256 <= i
                    < index * 256 + 256 {
                    data@[i - index * 256]
                } else {
                    old(self).image@[i]
                }),
            dup == old(self).blocks_done@[index as int],
    {
        let (start, end) = block_range(index);
        let mut k: usize = 0;
        while k < BLOCK_DATA_LEN
            invariant
                k <= BLOCK_DATA_LEN,
                start == index * 256,
                end == start + 256,
                end <= self.image@.len(),
                data@.len() == BLOCK_DATA_LEN,
                index < self.header.block_count,
                self.wf(),
                self.header == old(self).header,
                self.blocks_done@ == old(self).blocks_done@,
                self.image@.len() == old(self).image@.len(),
                forall|i: int|
                    0 <= i < self.image@.len() ==> self.image@[i] == (if start <= i < start + k {
                        data@[i - start]
                    } else {
                        old(self).image@[i]
                    }),
            decreases BLOCK_DATA_LEN - k,
        {
            self.image[start + k] = data[k];
            k = k + 1;
        }
        self.blocks_done.set(index as usize)
    }
}

/// Constructs a binary image from OS/bootloader update blocks, reporting
/// every structural anomaly to the given handler.
pub struct BlockDecoder<H: Handler<BlockDecoderError>> {
    /// Current assembly state, populated on the first accepted block.
    pub state: Option<BlockDecoderState>,
    /// Maximum image size accepted by this decoder.
    pub capacity: u32,
    /// Handler for error conditions.
    pub handler: H,
}

/// True iff the decoder would accept a block with header `h` on top of the
/// assembly state `state`: a first block must carry consistent metadata, a
/// later block must match the recorded metadata, and either way the block's
/// index must be below the block count.
pub open spec fn spec_accepts(state: Option<BlockDecoderState>, h: BlockHeader) -> bool {
    match state {
        None => h.spec_check_len() is Ok && h.block_index < h.block_count,
        Some(s0) => h.spec_matches(s0.header) && h.block_index < s0.header.block_count,
    }
}

/// True iff accepting a block with header `h` would write a position not
/// written before.
pub open spec fn spec_fresh(state: Option<BlockDecoderState>, h: BlockHeader) -> bool {
    match state {
        None => true,
        Some(s0) => !s0.blocks_done@[h.block_index as int],
    }
}

/// Describes the assembly state after a block with header `h` and payload
/// `data` has been accepted on top of `state`: the reference header is kept
/// (or set, for a first block), the block's done bit is set, and `data`
/// occupies the block's 256-byte slot of the image buffer.
pub open spec fn spec_written(
    state: Option<BlockDecoderState>,
    result: Option<BlockDecoderState>,
    h: BlockHeader,
    data: Seq<u8>,
) -> bool {
    &&& result is Some
    &&& {
        let st = result.unwrap();
        match state {
            None => {
                &&& st.header == h
                &&& st.blocks_done@ == Seq::new(
                    h.block_count as nat,
                    |i: int| i == h.block_index,
                )
                &&& st.image@.len() == h.block_count * 256
                &&& forall|i: int|
                    0 <= i < st.image@.len() ==> st.image@[i] == (if h.block_index * 256 <= i
                        < h.block_index * 256 + 256 {
                        data[i - h.block_index * 256]
                    } else {
                        0u8
                    })
            },
            Some(s0) => {
                &&& st.header == s0.header
                &&& st.blocks_done@ == s0.blocks_done@.update(h.block_index as int, true)
                &&& st.image@.len() == s0.image@.len()
                &&& forall|i: int|
                    0 <= i < st.image@.len() ==> st.image@[i] == (if h.block_index * 256 <= i
                        < h.block_index * 256 + 256 {
                        data[i - h.block_index * 256]
                    } else {
                        s0.image@[i]
                    })
            },
        }
    }
}

impl<H: Handler<BlockDecoderError>> BlockDecoder<H> {
    /// Soundness carried between calls.
    pub open spec fn wf(self) -> bool {
        match self.state {
            None => true,
            Some(st) => st.wf(),
        }
    }

    /// Creates a `BlockDecoder` with the given `capacity` and `handler`.
    pub fn new(capacity: u32, handler: H) -> (r: BlockDecoder<H>)
        requires
            capacity <= IMAGE_MAX_BYTES,
        ensures
            r.wf(),
            r.state is None,
            r.capacity == capacity,
            r.handler == handler,
    {
        BlockDecoder { state: None, capacity, handler }
    }

    /// Decodes the given `block`, adding its data to the image in progress.
    ///
    /// A block of exactly header-plus-data size that passes validation is
    /// always written; a duplicate position is overwritten (last writer
    /// wins) after a `DuplicateBlock` event. Every anomaly is reported to
    /// the handler, and `Err(())` is returned exactly when the handler asks
    /// to stop.
    #[verifier::loop_isolation(false)]
    pub fn decode_block(&mut self, block: &[u8]) -> (r: Result<(), ()>)
        requires
            old(self).wf(),
        ensures
            final(self).wf(),
            final(self).capacity == old(self).capacity,
            final(self).state == old(self).state || (block@.len() >= BLOCK_HEAD_LEN
                + BLOCK_DATA_LEN && spec_accepts(old(self).state, spec_header(block@))
                && spec_written(
                old(self).state,
                final(self).state,
                spec_header(block@),
                block@.subrange(
                    BLOCK_HEAD_LEN as int,
                    (BLOCK_HEAD_LEN + BLOCK_DATA_LEN) as int,
                ),
            )),
            block@.len() == BLOCK_HEAD_LEN + BLOCK_DATA_LEN && spec_accepts(
                old(self).state,
                spec_header(block@),
            ) ==> spec_written(
                old(self).state,
                final(self).state,
                spec_header(block@),
                block@.subrange(
                    BLOCK_HEAD_LEN as int,
                    (BLOCK_HEAD_LEN + BLOCK_DATA_LEN) as int,
                ),
            ),
            block@.len() == BLOCK_HEAD_LEN + BLOCK_DATA_LEN && spec_accepts(
                old(self).state,
                spec_header(block@),
            ) && spec_fresh(old(self).state, spec_header(block@)) ==> r is Ok,
            block@.len() == BLOCK_HEAD_LEN + BLOCK_DATA_LEN && !spec_accepts(
                old(self).state,
                spec_header(block@),
            ) ==> final(self).state == old(self).state,
    {
        let parsed = match Block::from_bytes(block, &mut self.handler) {
            Ok(b) => b,
            Err(true) => {
                return Ok(());
            },
            Err(false) => {
                return Err(());
            },
        };
        if self.state.is_none() {
            // First block: its own metadata must be consistent.
            if let Err(e) = parsed.header.check_len() {
                if self.handler.on(&e).is_err() {
                    return Err(());
                }
                return Ok(());
            }
            if let Err(e) = parsed.header.check_block_index() {
                if self.handler.on(&e).is_err() {
                    return Err(());
                }
                return Ok(());
            }
            let mut st = BlockDecoderState::new(parsed.header);
            st.write_block(parsed.header.block_index, parsed.data.as_slice());
            proof {
                assert(st.blocks_done@ =~= Seq::new(
                    parsed.header.block_count as nat,
                    |i: int| i == parsed.header.block_index,
                ));
            }
            self.state = Some(st);
            return Ok(());
        }
        // Later block: its metadata must match the first block's.
        let st_header = match &self.state {
            Some(st) => st.header,
            None => unreached(),
        };
        let mismatches = parsed.header.check_match(&st_header);
        if mismatches.len() > 0 {
            let mut k: usize = 0;
            while k < mismatches.len()
                invariant
                    k <= mismatches@.len(),
                    self.wf(),
                    self.state == old(self).state,
                    self.capacity == old(self).capacity,
                decreases mismatches@.len() - k,
            {
                if self.handler.on(&mismatches[k]).is_err() {
                    return Err(());
                }
                k = k + 1;
            }
            return Ok(());
        }
        if let Err(e) = parsed.header.check_block_index() {
            if self.handler.on(&e).is_err() {
                return Err(());
            }
            return Ok(());
        }
        let mut st = match self.state.take() {
            Some(st) => st,
            None => unreached(),
        };
        let duplicate = st.write_block(parsed.header.block_index, parsed.data.as_slice());
        self.state = Some(st);
        if duplicate {
            if self.handler.on(
                &BlockDecoderError::DuplicateBlock { index: parsed.header.block_index },
            ).is_err() {
                return Err(());
            }
        }
        Ok(())
    }

    /// Validates and returns the decoded image.
    ///
    /// With no block ever accepted, a `MissingBlock` at index 0 is reported
    /// and the image is empty. Otherwise the first unwritten index, if any,
    /// is reported as `MissingBlock`, a wrong additive checksum as
    /// `ChecksumMismatch`, and the image (the buffer truncated to the
    /// recorded length) is returned regardless — unless the handler asked to
    /// stop, which yields `Err(())`.
    pub fn image(&mut self) -> (r: Result<Vec<u8>, ()>)
        requires
            old(self).wf(),
        ensures
            final(self).wf(),
            final(self).state == old(self).state,
            final(self).capacity == old(self).capacity,
            match old(self).state {
                None => (r matches Ok(v) ==> v@ == Seq::<u8>::empty()),
                Some(st) => {
                    &&& (r matches Ok(v) ==> v@ == st.image@.take(st.header.length as int))
                    &&& ((forall|j: int| 0 <= j < st.blocks_done@.len() ==> st.blocks_done@[j])
                        && spec_checksum(st.image@.take(st.header.length as int))
                        == st.header.checksum ==> r is Ok)
                },
            },
    {
        let outcome: Option<(Option<u16>, Vec<u8>, u32, u32)> = match &self.state {
            None => None,
            Some(st) => {
                let missing = st.first_missing_block();
                let image = st.image();
                let sum = checksum(image);
                Some((missing, slice_to_vec(image), sum, st.header.checksum))
            },
        };
        match outcome {
            None => {
                if self.handler.on(&BlockDecoderError::MissingBlock { index: 0 }).is_err() {
                    return Err(());
                }
                Ok(Vec::new())
            },
            Some((missing, image, sum, expected)) => {
                if let Some(n) = missing {
                    if self.handler.on(&BlockDecoderError::MissingBlock { index: n }).is_err() {
                        return Err(());
                    }
                }
                if sum != expected {
                    if self.handler.on(
                        &BlockDecoderError::ChecksumMismatch { actual: sum, expected },
                    ).is_err() {
                        return Err(());
                    }
                }
                Ok(image)
            },
        }
    }
}

/// Finalization reports a missing block exactly when the done map's count
/// of set bits falls short of the block count: for a block stream whose
/// blocks all matched the first block's metadata, `image` finds a first
/// missing index iff `count_ones` of the done map is below
/// `header.block_count`, and emits no `MissingBlock` iff they are equal.
pub proof fn lemma_complete_iff_count_full(st: BlockDecoderState)
    requires
        st.wf(),
    ensures
        crate::bitmap::count_ones(st.blocks_done@) == st.header.block_count <==> (forall|j: int|
            0 <= j < st.blocks_done@.len() ==> st.blocks_done@[j]),
{
    crate::bitmap::lemma_count_ones_full(st.blocks_done@);
}

} // verus!
