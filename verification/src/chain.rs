//! The hash-chained block store: each record's header is the SHA-256 of the
//! whole previous block, the genesis header is all zeros.
//!
//! `ChainWriter` is the writer's state machine: it keeps the prev-hash
//! register and builds each new block; an I/O shell appends the returned
//! bytes to the file. The validators check the chain discipline over blocks
//! read back from storage.

use vstd::prelude::*;
use crate::OneWayHasher;
use crate::digest::Digest;
use crate::error::{Error, ErrorKind};
use crate::sha2::Sha256;
use crate::sha2::sha256_spec;

verus! {

/// The width of the chain's digests in bytes.
pub const DIGEST_SIZE: usize = 32;

/// The all-zero header of the genesis block.
pub open spec fn zero_hash() -> Seq<u8> {
    Seq::new(32, |i: int| 0u8)
}

/// What the prev-hash register must hold over a block history: all zeros on
/// an empty chain, else the SHA-256 of the last block.
pub open spec fn chain_register(blocks: Seq<Seq<u8>>) -> Seq<u8> {
    if blocks.len() == 0 {
        zero_hash()
    } else {
        sha256_spec(blocks.last())
    }
}

/// The header of block `i` matches the hash of its predecessor.
pub open spec fn header_ok(blocks: Seq<Seq<u8>>, i: int) -> bool
    recommends
        1 <= i < blocks.len(),
{
    blocks[i].take(32) == sha256_spec(blocks[i - 1])
}

/// The blocks that successive appends of `datas` leave behind `blocks`.
pub open spec fn appended(blocks: Seq<Seq<u8>>, datas: Seq<Seq<u8>>) -> Seq<Seq<u8>>
    decreases datas.len(),
{
    if datas.len() == 0 {
        blocks
    } else {
        let prev = appended(blocks, datas.drop_last());
        prev.push(chain_register(prev) + datas.last())
    }
}

/// The writer over a hash-chained block store. It holds the prev-hash
/// register and the block count; the file itself lives with the caller.
#[derive(Debug, Clone)]
pub struct ChainWriter {
    prev_hash: [u8; 32],
    count: u64,
    data_size: usize,
}

impl ChainWriter {
    /// The prev-hash register.
    pub closed spec fn register(self) -> Seq<u8> {
        self.prev_hash@
    }

    /// The number of blocks in the chain.
    pub closed spec fn spec_count(self) -> u64 {
        self.count
    }

    /// The data payload width; a block is `DIGEST_SIZE + data_size` bytes.
    pub closed spec fn spec_data_size(self) -> int {
        self.data_size as int
    }

    /// The configured sizes are admissible.
    pub closed spec fn wf(self) -> bool {
        0 < self.data_size && 32 + self.data_size <= u32::MAX
    }

    /// Open a fresh, empty chain: the register starts all zero.
    pub fn new(data_size: usize) -> (r: Result<Self, Error>)
        ensures
            match r {
                Ok(w) => {
                    &&& 0 < data_size && 32 + data_size <= u32::MAX
                    &&& w.wf()
                    &&& w.spec_data_size() == data_size
                    &&& w.spec_count() == 0
                    &&& w.register() == zero_hash()
                },
                Err(e) => {
                    &&& !(0 < data_size && 32 + data_size <= u32::MAX)
                    &&& e.kind == (if data_size == 0 {
                        ErrorKind::InvalidDataLength
                    } else {
                        ErrorKind::InvalidBlockSize
                    })
                },
            },
    {
        if data_size == 0 {
            Err(Error::new(ErrorKind::InvalidDataLength, "data size must not be zero"))
        } else if data_size > (u32::MAX as usize) - 32 {
            Err(Error::new(ErrorKind::InvalidBlockSize, "block size does not fit in a u32"))
        } else {
            let w = ChainWriter { prev_hash: [0u8; 32], count: 0u64, data_size };
            proof {
                assert(w.prev_hash@ =~= zero_hash());
            }
            Ok(w)
        }
    }

    /// Resume over an existing store of `count` blocks whose last block was
    /// read back: the register becomes the hash of that block.
    pub fn open_with_last(data_size: usize, count: u64, last_block: &[u8]) -> (r: Result<
        Self,
        Error,
    >)
        ensures
            match r {
                Ok(w) => {
                    &&& 0 < data_size && 32 + data_size <= u32::MAX
                    &&& count > 0
                    &&& last_block@.len() == 32 + data_size
                    &&& w.wf()
                    &&& w.spec_data_size() == data_size
                    &&& w.spec_count() == count
                    &&& w.register() == sha256_spec(last_block@)
                },
                Err(e) => {
                    &&& !(0 < data_size && 32 + data_size <= u32::MAX && count > 0
                        && last_block@.len() == 32 + data_size)
                    &&& e.kind == (if !(0 < data_size && 32 + data_size <= u32::MAX) {
                        if data_size == 0 {
                            ErrorKind::InvalidDataLength
                        } else {
                            ErrorKind::InvalidBlockSize
                        }
                    } else if count == 0 {
                        ErrorKind::FileIsEmpty
                    } else {
                        ErrorKind::InvalidBlockSize
                    })
                },
            },
    {
        if data_size == 0 {
            return Err(Error::new(ErrorKind::InvalidDataLength, "data size must not be zero"));
        }
        if data_size > (u32::MAX as usize) - 32 {
            return Err(Error::new(ErrorKind::InvalidBlockSize, "block size does not fit in a u32"));
        }
        if count == 0 {
            return Err(Error::new(ErrorKind::FileIsEmpty, "an empty store has no last block"));
        }
        if last_block.len() != 32 + data_size {
            return Err(Error::new(ErrorKind::InvalidBlockSize, "last block has the wrong size"));
        }
        let mut hasher = Sha256::init();
        hasher.update(last_block);
        let mut digest = [0u8; 32];
        hasher.finish(&mut digest);
        proof {
            assert(Seq::<u8>::empty() + last_block@ =~= last_block@);
        }
        Ok(ChainWriter { prev_hash: digest, count, data_size })
    }

    /// The number of blocks appended so far.
    pub fn count(&self) -> (c: u64)
        ensures
            c == self.spec_count(),
    {
        self.count
    }

    /// The state of the chain: the prev-hash register as a digest.
    pub fn state(&self) -> (d: Digest<32>)
        ensures
            d.0@ == self.register(),
    {
        Digest(self.prev_hash)
    }

    /// Append one record: the new block is the register followed by the
    /// data, and the register advances to the hash of that block. The caller
    /// writes the returned block to storage; the register is only advanced
    /// after the block bytes exist, so a caller that fails to write can
    /// discard the writer and reopen from the true last block.
    pub fn append(&mut self, data: &[u8]) -> (r: Result<Vec<u8>, Error>)
        requires
            old(self).wf(),
        ensures
            final(self).wf(),
            final(self).spec_data_size() == old(self).spec_data_size(),
            match r {
                Ok(block) => {
                    &&& data@.len() == old(self).spec_data_size()
                    &&& old(self).spec_count() < u64::MAX
                    &&& block@ == old(self).register() + data@
                    &&& block@.len() == 32 + old(self).spec_data_size()
                    &&& final(self).register() == sha256_spec(block@)
                    &&& final(self).spec_count() == old(self).spec_count() + 1
                },
                Err(e) => {
                    &&& *final(self) == *old(self)
                    &&& e.kind == (if data@.len() != old(self).spec_data_size() {
                        ErrorKind::InvalidDataLength
                    } else {
                        ErrorKind::IntegerOverflow
                    })
                    &&& (data@.len() == old(self).spec_data_size() ==> old(self).spec_count()
                        == u64::MAX)
                },
            },
    {
        if data.len() != self.data_size {
            return Err(
                Error::new(ErrorKind::InvalidDataLength, "record does not match the data size"),
            );
        }
        if self.count == u64::MAX {
            return Err(Error::new(ErrorKind::IntegerOverflow, "block count is saturated"));
        }
        let mut block: Vec<u8> = Vec::new();
        let mut i: usize = 0;
        while i < 32
            invariant
                i <= 32,
                block@ =~= self.prev_hash@.take(i as int),
                *self == *old(self),
            decreases 32 - i,
        {
            block.push(self.prev_hash[i]);
            i += 1;
        }
        let mut j: usize = 0;
        while j < data.len()
            invariant
                j <= data@.len(),
                block@ =~= self.prev_hash@ + data@.take(j as int),
                *self == *old(self),
            decreases data@.len() - j,
        {
            block.push(data[j]);
            j += 1;
        }
        proof {
            assert(self.prev_hash@.take(32) =~= self.prev_hash@);
            assert(block@ =~= self.prev_hash@ + data@);
        }
        let mut hasher = Sha256::init();
        hasher.update(block.as_slice());
        let mut digest = [0u8; 32];
        hasher.finish(&mut digest);
        proof {
            assert(Seq::<u8>::empty() + block@ =~= block@);
        }
        self.prev_hash = digest;
        self.count = self.count + 1;
        Ok(block)
    }
}

/// Check one link of the chain: whether `block`'s header is the SHA-256 of
/// the whole previous block.
pub fn validate_pair(prev: &Vec<u8>, block: &Vec<u8>) -> (r: bool)
    requires
        prev@.len() < 0x2000000000000000,
        block@.len() >= 32,
    ensures
        r == (block@.take(32) == sha256_spec(prev@)),
{
    let mut hasher = Sha256::init();
    hasher.update(prev.as_slice());
    let mut digest = [0u8; 32];
    hasher.finish(&mut digest);
    proof {
        assert(Seq::<u8>::empty() + prev@ =~= prev@);
    }
    let mut i: usize = 0;
    while i < 32
        invariant
            i <= 32,
            block@.len() >= 32,
            digest@ == sha256_spec(prev@),
            forall|m: int| 0 <= m < i ==> block@[m] == digest@[m],
        decreases 32 - i,
    {
        if block[i] != digest[i] {
            proof {
                assert(block@.take(32)[i as int] != sha256_spec(prev@)[i as int]);
            }
            return false;
        }
        i += 1;
    }
    proof {
        assert(block@.take(32) =~= digest@);
    }
    true
}

/// Validate the block at `index` against its predecessor: the genesis is
/// always valid, an index beyond the chain is `BlockNumDoesNotExist`, and a
/// header that does not hash-match its predecessor is
/// `InvalidBlockHash(index)`.
pub fn validate_block_at(blocks: &Vec<Vec<u8>>, index: u64) -> (r: Result<(), Error>)
    requires
        forall|i: int|
            0 <= i < blocks@.len() ==> 32 <= (#[trigger] blocks@[i])@.len()
                < 0x2000000000000000,
    ensures
        match r {
            Ok(()) => index == 0 || (index < blocks@.len() && header_ok(
                Seq::new(blocks@.len(), |i: int| blocks@[i]@),
                index as int,
            )),
            Err(e) => {
                &&& index > 0
                &&& e.kind == (if index >= blocks@.len() {
                    ErrorKind::BlockNumDoesNotExist
                } else {
                    ErrorKind::InvalidBlockHash(index)
                })
                &&& (index < blocks@.len() ==> !header_ok(
                    Seq::new(blocks@.len(), |i: int| blocks@[i]@),
                    index as int,
                ))
            },
        },
{
    if index == 0 {
        return Ok(());
    }
    if index >= (blocks.len() as u64) {
        return Err(Error::new(ErrorKind::BlockNumDoesNotExist, "block index is out of range"));
    }
    let i = index as usize;
    if validate_pair(&blocks[i - 1], &blocks[i]) {
        Ok(())
    } else {
        Err(Error::new(ErrorKind::InvalidBlockHash(index), "stored header does not match"))
    }
}

/// Validate the whole chain in one linear pass: `Ok` exactly when every
/// block's header hash-matches its predecessor; otherwise
/// `InvalidBlockHash(b)` for the first block `b` that fails.
pub fn validate_all(blocks: &Vec<Vec<u8>>) -> (r: Result<(), Error>)
    requires
        forall|i: int|
            0 <= i < blocks@.len() ==> 32 <= (#[trigger] blocks@[i])@.len()
                < 0x2000000000000000,
    ensures
        ({
            let views = Seq::new(blocks@.len(), |i: int| blocks@[i]@);
            match r {
                Ok(()) => forall|b: int| 1 <= b < views.len() ==> header_ok(views, b),
                Err(e) => exists|b: int|
                    1 <= b < views.len() && e.kind == ErrorKind::InvalidBlockHash(b as u64)
                        && !header_ok(views, b) && (forall|j: int|
                        1 <= j < b ==> header_ok(views, j)),
            }
        }),
{
    let ghost views = Seq::new(blocks@.len(), |i: int| blocks@[i]@);
    let n = blocks.len();
    if n == 0 {
        return Ok(());
    }
    let mut b: usize = 1;
    while b < n
        invariant
            1 <= b,
            n == blocks@.len(),
            views == Seq::new(blocks@.len(), |i: int| blocks@[i]@),
            forall|i: int|
                0 <= i < blocks@.len() ==> 32 <= (#[trigger] blocks@[i])@.len()
                    < 0x2000000000000000,
            forall|j: int| 1 <= j < b ==> header_ok(views, j),
        decreases n - b,
    {
        if !validate_pair(&blocks[b - 1], &blocks[b]) {
            proof {
                assert(!header_ok(views, b as int));
            }
            return Err(
                Error::new(ErrorKind::InvalidBlockHash(b as u64), "stored header does not match"),
            );
        }
        b += 1;
    }
    Ok(())
}

/// Blocks produced by successive appends on an empty chain always validate:
/// the genesis header is all zeros and every later header is the hash of its
/// predecessor, so `validate_all` reports no `InvalidBlockHash`.
pub proof fn lemma_appends_validate(datas: Seq<Seq<u8>>)
    ensures
        appended(Seq::<Seq<u8>>::empty(), datas).len() == datas.len(),
        datas.len() > 0 ==> appended(Seq::<Seq<u8>>::empty(), datas)[0].take(32) == zero_hash(),
        forall|b: int|
            1 <= b < datas.len() ==> header_ok(appended(Seq::<Seq<u8>>::empty(), datas), b),
    decreases datas.len(),
{
    crate::sha2::lemma_absorb32_len(
        crate::sha2::INITIAL_VALUES_256@,
        Seq::<u8>::empty(),
    );
    if datas.len() > 0 {
        lemma_appends_validate(datas.drop_last());
        let prev = appended(Seq::<Seq<u8>>::empty(), datas.drop_last());
        let blocks = appended(Seq::<Seq<u8>>::empty(), datas);
        let reg = chain_register(prev);
        assert(reg.len() == 32) by {
            if prev.len() > 0 {
                lemma_sha256_len(prev.last());
            }
        }
        assert(blocks == prev.push(reg + datas.last()));
        assert((reg + datas.last()).take(32) =~= reg);
        assert forall|b: int| 1 <= b < blocks.len() implies header_ok(blocks, b) by {
            if b < prev.len() {
                assert(header_ok(prev, b));
                assert(blocks[b] == prev[b]);
                assert(blocks[b - 1] == prev[b - 1]);
            } else {
                assert(b == prev.len());
                assert(prev.len() > 0);
                assert(blocks[b] == reg + datas.last());
                assert(blocks[b - 1] == prev[prev.len() - 1]);
                assert(reg == sha256_spec(prev.last()));
                assert(blocks[b].take(32) == reg);
            }
        }
    }
}

/// The SHA-256 digest is 32 bytes wide.
pub proof fn lemma_sha256_len(msg: Seq<u8>)
    ensures
        sha256_spec(msg).len() == 32,
{
    crate::sha2::lemma_absorb32_len(
        crate::sha2::INITIAL_VALUES_256@,
        msg + crate::sha2::padding256(msg.len()),
    );
}

/// A single-byte change inside the stored prev-hash header of block `k`
/// breaks the chain exactly at `k`: the mutated header no longer matches the
/// hash of the unchanged predecessor, so `validate_block_at(k)` reports
/// `InvalidBlockHash(k)`. A change in the data portion of `k` leaves the
/// header of `k` intact and is caught, if at all, at `k + 1`.
pub proof fn lemma_header_mutation_detected(
    blocks: Seq<Seq<u8>>,
    mutated: Seq<Seq<u8>>,
    k: int,
    pos: int,
)
    requires
        1 <= k < blocks.len(),
        header_ok(blocks, k),
        mutated.len() == blocks.len(),
        forall|j: int| 0 <= j < blocks.len() && j != k ==> mutated[j] == blocks[j],
        mutated[k].len() == blocks[k].len(),
        blocks[k].len() >= 32,
        0 <= pos < 32,
        mutated[k][pos] != blocks[k][pos],
    ensures
        !header_ok(mutated, k),
{
    assert(mutated[k - 1] == blocks[k - 1]);
    assert(mutated[k].take(32)[pos] == mutated[k][pos]);
    assert(blocks[k].take(32)[pos] == blocks[k][pos]);
    assert(mutated[k].take(32) != blocks[k].take(32));
}

} // verus!
