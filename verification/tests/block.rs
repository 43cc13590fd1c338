use a6_tools::block::{block_count_for, block_range, Block, BlockHeader};
use a6_tools::error::{BlockDecoderError, Handler};

struct Panicker;

impl Handler<BlockDecoderError> for Panicker {
    fn on(&mut self, event: &BlockDecoderError) -> Result<(), ()> {
        panic!("Unexpected event: {:?}", event)
    }
}

/// A scripted handler: each reported event must appear in the script, and
/// the scripted signal is returned.
struct Script(Vec<(BlockDecoderError, Result<(), ()>)>);

impl Handler<BlockDecoderError> for Script {
    fn on(&mut self, event: &BlockDecoderError) -> Result<(), ()> {
        match self.0.iter().find(|(e, _)| e == event) {
            Some(&(_, result)) => result,
            None => panic!("Unexpected event: {:?}", event),
        }
    }
}

#[test]
fn block_from_bytes_ok() {
    let bytes = (0..0x010)        // header
        .chain(0..0x100)          // data
        .map(|x| x as u8)
        .collect::<Vec<_>>();

    let block = Block::from_bytes(&bytes[..], &mut Panicker).unwrap();

    assert_eq!(block.header.version, 0x00010203);
    assert_eq!(block.header.checksum, 0x04050607);
    assert_eq!(block.header.length, 0x08090A0B);
    assert_eq!(block.header.block_count, 0x0C0D);
    assert_eq!(block.header.block_index, 0x0E0F);
}

#[test]
fn block_from_bytes_too_few_continue() {
    let bytes = vec![0; 42];

    let mut handler = Script(vec![
        (BlockDecoderError::InvalidBlockLength { actual: bytes.len() }, Ok(())),
    ]);

    let result = Block::from_bytes(&bytes[..], &mut handler);

    assert_eq!(result.unwrap_err(), true);
}

#[test]
fn block_from_bytes_too_few_abort() {
    let bytes = vec![0; 42];

    let mut handler = Script(vec![
        (BlockDecoderError::InvalidBlockLength { actual: bytes.len() }, Err(())),
    ]);

    let result = Block::from_bytes(&bytes[..], &mut handler);

    assert_eq!(result.unwrap_err(), false);
}

#[test]
fn block_from_bytes_too_many_continue() {
    let bytes = (0..0x010)        // header
        .chain(0..0x100)          // data
        .chain(0..1)              // extra byte
        .map(|x| x as u8)
        .collect::<Vec<_>>();

    let mut handler = Script(vec![
        (BlockDecoderError::InvalidBlockLength { actual: bytes.len() }, Ok(())),
    ]);

    let block = Block::from_bytes(&bytes[..], &mut handler).unwrap();

    assert_eq!(block.header.version, 0x00010203);
    assert_eq!(block.header.checksum, 0x04050607);
    assert_eq!(block.header.length, 0x08090A0B);
    assert_eq!(block.header.block_count, 0x0C0D);
    assert_eq!(block.header.block_index, 0x0E0F);
}

#[test]
fn block_from_bytes_too_many_abort() {
    let bytes = (0..0x010)        // header
        .chain(0..0x100)          // data
        .chain(0..1)              // extra byte
        .map(|x| x as u8)
        .collect::<Vec<_>>();

    let mut handler = Script(vec![
        (BlockDecoderError::InvalidBlockLength { actual: bytes.len() }, Err(())),
    ]);

    let result = Block::from_bytes(&bytes[..], &mut handler);

    assert_eq!(result.unwrap_err(), false);
}

#[test]
fn block_range_fn() {
    assert_eq!(block_range(0), (0, 256));
    assert_eq!(block_range(3), (768, 1024));
    assert_eq!(block_range(65535), (16776960, 16777216));
}

#[test]
fn block_count_for_is_ceiling() {
    assert_eq!(block_count_for(0), 0);
    assert_eq!(block_count_for(1), 1);
    assert_eq!(block_count_for(255), 1);
    assert_eq!(block_count_for(256), 1);
    assert_eq!(block_count_for(257), 2);
    assert_eq!(block_count_for(1000), 4);
    assert_eq!(block_count_for(0x100000), 4096);
    assert_eq!(block_count_for(2 * 1024 * 1024), 8192);
}

#[test]
fn check_len_accepts_consistent_header() {
    let header = BlockHeader {
        version: 1,
        checksum: 2,
        length: 1000,
        block_count: 4,
        block_index: 0,
    };

    assert_eq!(header.check_len(), Ok(()));
}

#[test]
fn check_len_rejects_overlong_image() {
    let header = BlockHeader {
        version: 1,
        checksum: 2,
        length: 3 * 1024 * 1024,
        block_count: 4,
        block_index: 0,
    };

    assert_eq!(
        header.check_len(),
        Err(BlockDecoderError::InvalidImageLength { actual: 3 * 1024 * 1024 })
    );
}

#[test]
fn check_len_rejects_wrong_block_count() {
    let header = BlockHeader {
        version: 1,
        checksum: 2,
        length: 1000,
        block_count: 5,
        block_index: 0,
    };

    assert_eq!(
        header.check_len(),
        Err(BlockDecoderError::InvalidBlockCount { actual: 5, expected: 4 })
    );
}

#[test]
fn check_match_reports_each_field_in_order() {
    let reference = BlockHeader {
        version: 1,
        checksum: 2,
        length: 1000,
        block_count: 4,
        block_index: 0,
    };
    let other = BlockHeader {
        version: 9,
        checksum: 8,
        length: 512,
        block_count: 2,
        block_index: 3,
    };

    let errs = other.check_match(&reference);

    assert_eq!(errs.len(), 4);
    assert_eq!(
        errs[0],
        BlockDecoderError::InconsistentVersion { actual: 9, expected: 1, index: 3 }
    );
    assert_eq!(
        errs[1],
        BlockDecoderError::InconsistentChecksum { actual: 8, expected: 2, index: 3 }
    );
    assert_eq!(
        errs[2],
        BlockDecoderError::InconsistentImageLength { actual: 512, expected: 1000, index: 3 }
    );
    assert_eq!(
        errs[3],
        BlockDecoderError::InconsistentBlockCount { actual: 2, expected: 4, index: 3 }
    );
}

#[test]
fn check_match_accepts_equal_metadata() {
    let reference = BlockHeader {
        version: 1,
        checksum: 2,
        length: 1000,
        block_count: 4,
        block_index: 0,
    };
    let same = BlockHeader { block_index: 3, ..reference };

    assert_eq!(same.check_match(&reference).len(), 0);
}

#[test]
fn check_block_index_bounds() {
    let header = BlockHeader {
        version: 1,
        checksum: 2,
        length: 1000,
        block_count: 4,
        block_index: 4,
    };

    assert_eq!(
        header.check_block_index(),
        Err(BlockDecoderError::InvalidBlockIndex { actual: 4, max: 3 })
    );

    let inside = BlockHeader { block_index: 3, ..header };
    assert_eq!(inside.check_block_index(), Ok(()));
}
