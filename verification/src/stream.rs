//! The arithmetic discipline of a block-oriented stream: a file is an exact
//! multiple of a block size, positioning is by block index, and every byte
//! offset is an overflow-checked multiple of the block size.
//!
//! The functions here are the decision layer of a block reader or writer; an
//! I/O shell performs the seeks and transfers and hands positions and sizes
//! back to them.

use vstd::prelude::*;
use crate::error::{Error, ErrorKind};

verus! {

/// The largest admissible block size in bytes.
pub const MAX_BLOCK_SIZE: usize = 65535;

/// A seek target measured in whole blocks from one of the three origins.
#[derive(Debug, Clone, Copy, PartialEq, Eq, Structural)]
pub enum StreamFrom {
    Start(u64),
    End(i64),
    Current(i64),
}

/// Accept exactly the block sizes the stream supports.
pub fn check_block_size(block_size: usize) -> (r: Result<(), Error>)
    ensures
        match r {
            Ok(()) => 0 < block_size <= MAX_BLOCK_SIZE,
            Err(e) => {
                &&& !(0 < block_size <= MAX_BLOCK_SIZE)
                &&& e.kind == (if block_size == 0 {
                    ErrorKind::ZeroBlockSize
                } else {
                    ErrorKind::BlockSizeTooBig
                })
            },
        },
{
    if block_size == 0 {
        Err(Error::new(ErrorKind::ZeroBlockSize, "block size must not be zero"))
    } else if block_size > MAX_BLOCK_SIZE {
        Err(Error::new(ErrorKind::BlockSizeTooBig, "block size is too big"))
    } else {
        Ok(())
    }
}

/// The byte offset of block `index` from the start: `index * block_size`,
/// overflow-checked.
pub fn block_offset(index: u64, block_size: usize) -> (r: Result<u64, Error>)
    requires
        block_size <= MAX_BLOCK_SIZE,
    ensures
        match r {
            Ok(o) => o == index * block_size && index * block_size <= u64::MAX,
            Err(e) => index * block_size > u64::MAX && e.kind == ErrorKind::IntegerOverflow,
        },
{
    match index.checked_mul(block_size as u64) {
        Some(o) => Ok(o),
        None => Err(Error::new(ErrorKind::IntegerOverflow, "block offset does not fit in a u64")),
    }
}

/// The signed byte offset of a block displacement from the end or the
/// current position: `index * block_size`, overflow-checked.
pub fn block_offset_signed(index: i64, block_size: usize) -> (r: Result<i64, Error>)
    requires
        block_size <= MAX_BLOCK_SIZE,
    ensures
        match r {
            Ok(o) => o == index * block_size && i64::MIN <= index * block_size <= i64::MAX,
            Err(e) => !(i64::MIN <= index * block_size <= i64::MAX) && e.kind
                == ErrorKind::IntegerOverflow,
        },
{
    match index.checked_mul(block_size as i64) {
        Some(o) => Ok(o),
        None => Err(Error::new(ErrorKind::IntegerOverflow, "block offset does not fit in an i64")),
    }
}

/// The block index of a byte position, which must be block-aligned, else
/// `BadStreamPosition` carrying the offending position.
pub fn position_to_block(pos: u64, block_size: usize) -> (r: Result<u64, Error>)
    requires
        0 < block_size,
    ensures
        match r {
            Ok(b) => pos % (block_size as u64) == 0 && b == pos / (block_size as u64),
            Err(e) => pos % (block_size as u64) != 0 && e.kind == ErrorKind::BadStreamPosition(
                pos,
            ),
        },
{
    if pos % (block_size as u64) != 0 {
        Err(Error::new(ErrorKind::BadStreamPosition(pos), "position is not block-aligned"))
    } else {
        Ok(pos / (block_size as u64))
    }
}

/// The number of blocks in a file, whose size must be an exact multiple of
/// the block size, else `InvalidFileSize`.
pub fn block_count(file_size: u64, block_size: usize) -> (r: Result<u64, Error>)
    requires
        0 < block_size,
    ensures
        match r {
            Ok(c) => file_size % (block_size as u64) == 0 && c == file_size / (block_size as u64),
            Err(e) => file_size % (block_size as u64) != 0 && e.kind == ErrorKind::InvalidFileSize,
        },
{
    if file_size % (block_size as u64) != 0 {
        Err(Error::new(ErrorKind::InvalidFileSize, "file size is not a multiple of the block size"))
    } else {
        Ok(file_size / (block_size as u64))
    }
}

/// The number of blocks a transfer buffer covers; its length must be an
/// exact multiple of the block size, else `InvalidSliceLength`.
pub fn buffer_blocks(len: usize, block_size: usize) -> (r: Result<usize, Error>)
    requires
        0 < block_size,
    ensures
        match r {
            Ok(c) => len % block_size == 0 && c == len / block_size,
            Err(e) => len % block_size != 0 && e.kind == ErrorKind::InvalidSliceLength,
        },
{
    if len % block_size != 0 {
        Err(
            Error::new(
                ErrorKind::InvalidSliceLength,
                "buffer length is not a multiple of the block size",
            ),
        )
    } else {
        Ok(len / block_size)
    }
}

/// Seeking to block `index` from the start and reading the position back as
/// a block index round-trips: the byte offset is block-aligned and divides
/// back to `index`.
pub proof fn lemma_seek_round_trip(index: u64, block_size: usize)
    requires
        0 < block_size,
        index * block_size <= u64::MAX,
    ensures
        (index * block_size) as u64 % (block_size as u64) == 0,
        (index * block_size) as u64 / (block_size as u64) == index,
{
    vstd::arithmetic::div_mod::lemma_mod_multiples_basic(index as int, block_size as int);
    vstd::arithmetic::div_mod::lemma_div_by_multiple(index as int, block_size as int);
}

} // verus!
