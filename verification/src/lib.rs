//! Cryptographic hashing and content-integrity toolkit: SHA-2 and SHA-3
//! streaming hashers, Merkle-tree roots and inclusion proofs over fixed-width
//! digests, and the pure logic of an append-only, hash-chained block store.

use vstd::prelude::*;

pub mod cache;
pub mod chain;
pub mod digest;
pub mod error;
pub mod heap;
pub mod merkle;
pub mod sha2;
pub mod sha3;
pub mod stream;

verus! {

/// A streaming one-way hash function producing digests of `MDLEN` bytes.
///
/// The abstract state of a hasher is the sequence of message bytes absorbed
/// so far; `hash_spec` gives the digest of a whole message.
pub trait OneWayHasher<const MDLEN: usize>: Sized {
    /// The message bytes absorbed since the last `init`/`reset`.
    spec fn message(&self) -> Seq<u8>;

    /// Well-formedness of the internal state; holds after `init`/`reset`
    /// and is preserved by `update`.
    spec fn inv(&self) -> bool;

    /// The digest this algorithm assigns to a complete message.
    spec fn hash_spec(msg: Seq<u8>) -> Seq<u8>;

    /// Every digest is exactly `MDLEN` bytes.
    proof fn hash_spec_len(msg: Seq<u8>)
        ensures
            Self::hash_spec(msg).len() == MDLEN,
    ;

    fn init() -> (r: Self)
        ensures
            r.inv(),
            r.message() == Seq::<u8>::empty(),
    ;

    fn reset(&mut self)
        ensures
            final(self).inv(),
            final(self).message() == Seq::<u8>::empty(),
    ;

    fn update(&mut self, data: &[u8])
        requires
            old(self).inv(),
            old(self).message().len() + data@.len() < 0x2000000000000000,
        ensures
            final(self).inv(),
            final(self).message() == old(self).message() + data@,
    ;

    /// Writes the digest of the absorbed message into `digest`. The hasher
    /// state afterwards is unspecified: call `reset` before hashing again.
    fn finish(&mut self, digest: &mut [u8; MDLEN])
        requires
            old(self).inv(),
        ensures
            final(digest)@ == Self::hash_spec(old(self).message()),
    ;
}

/// A hash with extendable output: after the message has been absorbed, any
/// number of output bytes can be squeezed out.
pub trait FinishXOF: Sized {
    /// The message bytes absorbed since the last `init`/`reset`.
    spec fn xof_message(&self) -> Seq<u8>;

    /// Well-formedness of the internal state while absorbing.
    spec fn xof_inv(&self) -> bool;

    /// The `n`-byte output this algorithm assigns to a complete message.
    spec fn xof_spec(msg: Seq<u8>, n: nat) -> Seq<u8>;

    /// The output is as long as requested.
    proof fn xof_spec_len(msg: Seq<u8>, n: nat)
        ensures
            Self::xof_spec(msg, n).len() == n,
    ;

    /// Overwrites `digest`, whose length picks the output length, with the
    /// extendable output of the absorbed message. The state afterwards is
    /// unspecified: call `reset` before hashing again.
    fn finish_xof(&mut self, digest: &mut Vec<u8>)
        requires
            old(self).xof_inv(),
        ensures
            final(digest)@ == Self::xof_spec(
                old(self).xof_message(),
                old(digest)@.len() as nat,
            ),
    ;
}

/// Absorbing a message in any two pieces leaves the same abstract message,
/// and therefore the same digest, as absorbing it whole: chunking is
/// invisible to every hasher, because `update` promises exactly
/// concatenation of the absorbed bytes and `finish` depends on nothing else.
pub proof fn lemma_chunked_absorption<const MDLEN: usize, H: OneWayHasher<MDLEN>>(
    msg: Seq<u8>,
    split: int,
)
    requires
        0 <= split <= msg.len(),
    ensures
        H::hash_spec(msg.take(split) + msg.skip(split)) == H::hash_spec(msg),
{
    assert(msg.take(split) + msg.skip(split) =~= msg);
}

/// A record that can live in a hash-chained store: it can hash itself, hand
/// out the hash of its predecessor, and convert to and from its on-disk
/// bytes.
pub trait Block<const DIGEST_SIZE: usize, const BLOCK_SIZE: usize, H>: Sized where
    H: OneWayHasher<DIGEST_SIZE>,
 {
    /// The hash of the encoded record.
    fn calc_hash(&self) -> error::Result<digest::Digest<DIGEST_SIZE>>;

    /// The hash of the previous block, as carried in this record's header.
    fn prev_hash(&self) -> error::Result<digest::Digest<DIGEST_SIZE>>;

    /// The record as its `BLOCK_SIZE` on-disk bytes.
    fn encode(&self) -> error::Result<Vec<u8>>;

    /// A record read back from its on-disk bytes.
    fn decode(buf: &[u8]) -> error::Result<Self>;

    /// The size of an encoded block in bytes.
    fn size() -> (s: usize)
        ensures
            s == BLOCK_SIZE,
    {
        BLOCK_SIZE
    }

    /// The size of a digest in bytes.
    fn digest_size() -> (s: usize)
        ensures
            s == DIGEST_SIZE,
    {
        DIGEST_SIZE
    }
}

/// A store of hash-chained blocks: counted, validatable over a range,
/// append-only, and able to prove membership of a record in a block.
pub trait BlockChainDB<const DIGEST_SIZE: usize, const BLOCK_SIZE: usize, H, T>: Sized where
    T: Block<DIGEST_SIZE, BLOCK_SIZE, H>,
    H: OneWayHasher<DIGEST_SIZE>,
 {
    /// The current block count.
    fn count(&self) -> u64;

    /// Validate the chain discipline over a range of block indices.
    fn validate(&self, first: usize, last: usize) -> error::Result<()>;

    /// Append a collection of pending blocks to the end of the chain.
    fn append(&mut self) -> error::Result<()>;

    /// The state of the chain: the hash digest of its last block.
    fn state(&self) -> error::Result<digest::Digest<DIGEST_SIZE>>;

    /// An inclusion proof for the record at `index` in block `block`.
    fn prove(&self, block: usize, index: usize) -> error::Result<merkle::Proof<DIGEST_SIZE>>;

    /// The raw bytes of one block.
    fn get(&self, block_num: u64) -> error::Result<Vec<u8>>;
}

} // verus!
