//! The hash-chained store's writer and validators, and the block-stream
//! arithmetic.

use bc_hash::chain::{validate_all, validate_block_at, validate_pair, ChainWriter};
use bc_hash::error::ErrorKind;
use bc_hash::stream::{
    block_count, block_offset, block_offset_signed, buffer_blocks, check_block_size,
    position_to_block, StreamFrom,
};

fn three_block_chain() -> Vec<Vec<u8>> {
    let mut writer = ChainWriter::new(11).unwrap();
    let mut blocks: Vec<Vec<u8>> = Vec::new();
    for data in [b"hello world", b"thisxxxxxxx", b"isxxxxxxxxx"] {
        blocks.push(writer.append(data).unwrap());
    }
    blocks
}

#[test]
fn three_appends_validate() {
    let blocks = three_block_chain();
    assert_eq!(blocks.len(), 3);
    for b in &blocks {
        assert_eq!(b.len(), 43);
    }
    // The genesis header is all zeros.
    assert!(blocks[0][..32].iter().all(|b| *b == 0));
    assert_eq!(&blocks[0][32..], b"hello world");
    assert!(validate_all(&blocks).is_ok());
    for k in 0..3u64 {
        assert!(validate_block_at(&blocks, k).is_ok());
    }
}

#[test]
fn writer_state_is_the_hash_of_the_last_block() {
    let mut writer = ChainWriter::new(11).unwrap();
    let zero = writer.state();
    assert_eq!(
        zero.to_hex(),
        "0000000000000000000000000000000000000000000000000000000000000000"
    );
    let block = writer.append(b"hello world").unwrap();
    assert_eq!(writer.count(), 1);
    // Reopening from the written block reproduces the register.
    let reopened = ChainWriter::open_with_last(11, 1, &block).unwrap();
    assert!(reopened.state() == writer.state());
}

#[test]
fn append_rejects_bad_input() {
    let mut writer = ChainWriter::new(11).unwrap();
    let err = writer.append(b"short").unwrap_err();
    assert_eq!(err.kind(), ErrorKind::InvalidDataLength);
    assert_eq!(writer.count(), 0);
    assert_eq!(ChainWriter::new(0).unwrap_err().kind(), ErrorKind::InvalidDataLength);
}

#[test]
fn open_with_last_rejects_an_empty_store() {
    let err = ChainWriter::open_with_last(11, 0, &[0u8; 43]).unwrap_err();
    assert_eq!(err.kind(), ErrorKind::FileIsEmpty);
}

#[test]
fn header_mutation_is_detected_at_its_block() {
    let mut blocks = three_block_chain();
    blocks[1][3] ^= 0x01;
    let err = validate_block_at(&blocks, 1).unwrap_err();
    assert_eq!(err.kind(), ErrorKind::InvalidBlockHash(1));
    let err = validate_all(&blocks).unwrap_err();
    assert_eq!(err.kind(), ErrorKind::InvalidBlockHash(1));
}

#[test]
fn data_mutation_is_detected_at_the_next_block() {
    let mut blocks = three_block_chain();
    blocks[1][40] ^= 0x01;
    // The header of block 1 still matches block 0, so block 1 itself passes;
    // the hash of the changed block no longer matches block 2's header.
    assert!(validate_block_at(&blocks, 1).is_ok());
    let err = validate_block_at(&blocks, 2).unwrap_err();
    assert_eq!(err.kind(), ErrorKind::InvalidBlockHash(2));
    let err = validate_all(&blocks).unwrap_err();
    assert_eq!(err.kind(), ErrorKind::InvalidBlockHash(2));
}

#[test]
fn missing_blocks_are_reported() {
    let blocks = three_block_chain();
    let err = validate_block_at(&blocks, 7).unwrap_err();
    assert_eq!(err.kind(), ErrorKind::BlockNumDoesNotExist);
}

#[test]
fn validate_pair_checks_one_link() {
    let blocks = three_block_chain();
    assert!(validate_pair(&blocks[0], &blocks[1]));
    assert!(!validate_pair(&blocks[1], &blocks[1]));
}

#[test]
fn block_sizes_are_checked() {
    assert!(check_block_size(1).is_ok());
    assert!(check_block_size(65535).is_ok());
    assert_eq!(check_block_size(0).unwrap_err().kind(), ErrorKind::ZeroBlockSize);
    assert_eq!(check_block_size(65536).unwrap_err().kind(), ErrorKind::BlockSizeTooBig);
}

#[test]
fn offsets_multiply_and_check_for_overflow() {
    assert_eq!(block_offset(6, 11).unwrap(), 66);
    assert_eq!(
        block_offset(u64::MAX / 2, 11).unwrap_err().kind(),
        ErrorKind::IntegerOverflow
    );
    assert_eq!(block_offset_signed(-2, 11).unwrap(), -22);
    assert_eq!(
        block_offset_signed(i64::MIN / 4, 11).unwrap_err().kind(),
        ErrorKind::IntegerOverflow
    );
}

#[test]
fn positions_must_be_block_aligned() {
    assert_eq!(position_to_block(44, 11).unwrap(), 4);
    assert_eq!(
        position_to_block(45, 11).unwrap_err().kind(),
        ErrorKind::BadStreamPosition(45)
    );
}

#[test]
fn file_and_buffer_sizes_must_be_whole_blocks() {
    assert_eq!(block_count(66, 11).unwrap(), 6);
    assert_eq!(block_count(0, 11).unwrap(), 0);
    assert_eq!(block_count(67, 11).unwrap_err().kind(), ErrorKind::InvalidFileSize);
    assert_eq!(buffer_blocks(22, 11).unwrap(), 2);
    assert_eq!(
        buffer_blocks(23, 11).unwrap_err().kind(),
        ErrorKind::InvalidSliceLength
    );
}

#[test]
fn seek_round_trips_for_every_block_index() {
    // Seeking to a block and reading the position back returns the index.
    for i in [0u64, 1, 4, 5, 1000, 123456] {
        let off = block_offset(i, 11).unwrap();
        assert_eq!(position_to_block(off, 11).unwrap(), i);
    }
    let target = StreamFrom::Start(4);
    assert_eq!(target, StreamFrom::Start(4));
}
