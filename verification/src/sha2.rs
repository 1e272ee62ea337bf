//! Streaming SHA-2 hashers: SHA-224, SHA-256, SHA-384, SHA-512, SHA-512/224
//! and SHA-512/256.
//!
//! The digest of each algorithm is pinned down by a spec-level functional
//! rendition of FIPS 180-4: a message schedule, sixty-four (or eighty)
//! compression rounds per chunk, strengthened Merkle-Damgard padding, and
//! big-endian serialization of the chaining state.

use vstd::prelude::*;
use crate::OneWayHasher;

verus! {

/// Round constants: the first 32 bits of the fractional parts of the cube
/// roots of the first 64 primes.
pub const CONSTANTS_256: [u32; 64] = [
    0x428a2f98, 0x71374491, 0xb5c0fbcf, 0xe9b5dba5, 0x3956c25b, 0x59f111f1, 0x923f82a4, 0xab1c5ed5,
    0xd807aa98, 0x12835b01, 0x243185be, 0x550c7dc3, 0x72be5d74, 0x80deb1fe, 0x9bdc06a7, 0xc19bf174,
    0xe49b69c1, 0xefbe4786, 0x0fc19dc6, 0x240ca1cc, 0x2de92c6f, 0x4a7484aa, 0x5cb0a9dc, 0x76f988da,
    0x983e5152, 0xa831c66d, 0xb00327c8, 0xbf597fc7, 0xc6e00bf3, 0xd5a79147, 0x06ca6351, 0x14292967,
    0x27b70a85, 0x2e1b2138, 0x4d2c6dfc, 0x53380d13, 0x650a7354, 0x766a0abb, 0x81c2c92e, 0x92722c85,
    0xa2bfe8a1, 0xa81a664b, 0xc24b8b70, 0xc76c51a3, 0xd192e819, 0xd6990624, 0xf40e3585, 0x106aa070,
    0x19a4c116, 0x1e376c08, 0x2748774c, 0x34b0bcb5, 0x391c0cb3, 0x4ed8aa4a, 0x5b9cca4f, 0x682e6ff3,
    0x748f82ee, 0x78a5636f, 0x84c87814, 0x8cc70208, 0x90befffa, 0xa4506ceb, 0xbef9a3f7, 0xc67178f2,
];

/// Initial chaining values for SHA-224.
pub const INITIAL_VALUES_224: [u32; 8] = [
    0xc1059ed8, 0x367cd507, 0x3070dd17, 0xf70e5939, 0xffc00b31, 0x68581511, 0x64f98fa7, 0xbefa4fa4,
];

/// Initial chaining values for SHA-256.
pub const INITIAL_VALUES_256: [u32; 8] = [
    0x6a09e667, 0xbb67ae85, 0x3c6ef372, 0xa54ff53a, 0x510e527f, 0x9b05688c, 0x1f83d9ab, 0x5be0cd19,
];

/// Right rotation of a 32-bit word.
pub open spec fn rotr32(x: u32, n: u32) -> u32 {
    (x >> n) | (x << ((32 - n) as u32))
}

/// The sigma-0 message-schedule function of the 256-bit family.
pub open spec fn ssig0_32(x: u32) -> u32 {
    rotr32(x, 7) ^ rotr32(x, 18) ^ (x >> 3u32)
}

/// The sigma-1 message-schedule function of the 256-bit family.
pub open spec fn ssig1_32(x: u32) -> u32 {
    rotr32(x, 17) ^ rotr32(x, 19) ^ (x >> 10u32)
}

/// The Sigma-0 round function of the 256-bit family.
pub open spec fn bsig0_32(x: u32) -> u32 {
    rotr32(x, 2) ^ rotr32(x, 13) ^ rotr32(x, 22)
}

/// The Sigma-1 round function of the 256-bit family.
pub open spec fn bsig1_32(x: u32) -> u32 {
    rotr32(x, 6) ^ rotr32(x, 11) ^ rotr32(x, 25)
}

/// The choice function: for each bit, pick from `f` where `e` is set, else
/// from `g`.
pub open spec fn ch32(e: u32, f: u32, g: u32) -> u32 {
    (e & f) ^ ((e ^ 0xffffffffu32) & g)
}

/// The majority function over three words.
pub open spec fn maj32(a: u32, b: u32, c: u32) -> u32 {
    (a & b) ^ (a & c) ^ (b & c)
}

/// Word `i` of a chunk read as a big-endian 32-bit integer.
pub open spec fn be_word32(blk: Seq<u8>, i: int) -> u32
    recommends
        0 <= i,
        4 * i + 3 < blk.len(),
{
    ((blk[4 * i] as u32) << 24u32) | ((blk[4 * i + 1] as u32) << 16u32) | ((blk[4 * i + 2] as u32)
        << 8u32) | (blk[4 * i + 3] as u32)
}

/// Word `i` of the fully extended message schedule of a 64-byte chunk.
pub open spec fn sched32(blk: Seq<u8>, i: int) -> u32
    decreases i,
{
    if i < 16 {
        be_word32(blk, i)
    } else {
        sched32(blk, i - 16).wrapping_add(
            ssig0_32(sched32(blk, i - 15)).wrapping_add(
                sched32(blk, i - 7).wrapping_add(ssig1_32(sched32(blk, i - 2))),
            ),
        )
    }
}

/// One compression round applied to the eight working variables.
pub open spec fn round_step32(blk: Seq<u8>, v: Seq<u32>, i: int) -> Seq<u32>
    recommends
        v.len() == 8,
        0 <= i < 64,
{
    let t1 = v[7].wrapping_add(
        bsig1_32(v[4]).wrapping_add(
            ch32(v[4], v[5], v[6]).wrapping_add(CONSTANTS_256[i].wrapping_add(sched32(blk, i))),
        ),
    );
    let t2 = bsig0_32(v[0]).wrapping_add(maj32(v[0], v[1], v[2]));
    seq![
        t1.wrapping_add(t2),
        v[0],
        v[1],
        v[2],
        v[3].wrapping_add(t1),
        v[4],
        v[5],
        v[6],
    ]
}

/// The working variables after the first `n` compression rounds.
pub open spec fn rounds32(blk: Seq<u8>, st: Seq<u32>, n: int) -> Seq<u32>
    decreases n,
{
    if n <= 0 {
        st
    } else {
        round_step32(blk, rounds32(blk, st, n - 1), n - 1)
    }
}

/// The compression function over one 64-byte chunk.
pub open spec fn compress32(st: Seq<u32>, blk: Seq<u8>) -> Seq<u32>
    recommends
        st.len() == 8,
        blk.len() == 64,
{
    let v = rounds32(blk, st, 64);
    Seq::new(8, |i: int| st[i].wrapping_add(v[i]))
}

/// Absorb a whole sequence of 64-byte chunks into the chaining state.
pub open spec fn absorb32(st: Seq<u32>, msg: Seq<u8>) -> Seq<u32>
    decreases msg.len(),
{
    if msg.len() < 64 {
        st
    } else {
        absorb32(compress32(st, msg.take(64)), msg.skip(64))
    }
}

/// The count of zero bytes in the padding of a message of `len` bytes.
pub open spec fn pad_zeros256(len: nat) -> nat {
    ((64 - ((len + 9) % 64)) % 64) as nat
}

/// A 64-bit integer as eight big-endian bytes.
pub open spec fn be_bytes64(x: u64) -> Seq<u8> {
    Seq::new(8, |i: int| ((x >> ((56 - 8 * i) as u64)) & 0xff) as u8)
}

/// The strengthened Merkle-Damgard padding of the 256-bit family: 0x80, then
/// zeros, then the message length in bits as a big-endian 64-bit integer.
pub open spec fn padding256(len: nat) -> Seq<u8>
    recommends
        len * 8 <= u64::MAX,
{
    seq![0x80u8] + Seq::new(pad_zeros256(len), |i: int| 0u8) + be_bytes64((len * 8) as u64)
}

/// The eight final chaining words of the 256-bit family over a whole message.
pub open spec fn sha2_words32(iv: Seq<u32>, msg: Seq<u8>) -> Seq<u32> {
    absorb32(iv, msg + padding256(msg.len()))
}

/// A sequence of 32-bit words serialized as big-endian bytes.
pub open spec fn be_bytes_of_words32(ws: Seq<u32>) -> Seq<u8> {
    Seq::new(ws.len() * 4, |i: int| ((ws[i / 4] >> ((24 - 8 * (i % 4)) as u32)) & 0xff) as u8)
}

/// The SHA-256 digest of a message.
pub open spec fn sha256_spec(msg: Seq<u8>) -> Seq<u8> {
    be_bytes_of_words32(sha2_words32(INITIAL_VALUES_256@, msg)).take(32)
}

/// The SHA-224 digest of a message.
pub open spec fn sha224_spec(msg: Seq<u8>) -> Seq<u8> {
    be_bytes_of_words32(sha2_words32(INITIAL_VALUES_224@, msg)).take(28)
}

/// Absorbing a block-aligned prefix then the rest equals absorbing the whole.
pub proof fn lemma_absorb32_append(st: Seq<u32>, a: Seq<u8>, b: Seq<u8>)
    requires
        a.len() % 64 == 0,
    ensures
        absorb32(st, a + b) == absorb32(absorb32(st, a), b),
    decreases a.len(),
{
    if a.len() == 0 {
        assert(a + b =~= b);
    } else {
        assert((a + b).take(64) =~= a.take(64));
        assert((a + b).skip(64) =~= a.skip(64) + b);
        assert(a.skip(64).len() % 64 == 0);
        lemma_absorb32_append(compress32(st, a.take(64)), a.skip(64), b);
    }
}

/// `absorb32` keeps the chaining state eight wide.
pub proof fn lemma_absorb32_len(st: Seq<u32>, msg: Seq<u8>)
    requires
        st.len() == 8,
    ensures
        absorb32(st, msg).len() == 8,
    decreases msg.len(),
{
    if msg.len() >= 64 {
        lemma_absorb32_len(compress32(st, msg.take(64)), msg.skip(64));
    }
}

fn rotr32_e(x: u32, n: u32) -> (r: u32)
    requires
        0 < n < 32,
    ensures
        r == rotr32(x, n),
{
    (x >> n) | (x << (32 - n))
}

fn ssig0_32_e(x: u32) -> (r: u32)
    ensures
        r == ssig0_32(x),
{
    rotr32_e(x, 7) ^ rotr32_e(x, 18) ^ (x >> 3u32)
}

fn ssig1_32_e(x: u32) -> (r: u32)
    ensures
        r == ssig1_32(x),
{
    rotr32_e(x, 17) ^ rotr32_e(x, 19) ^ (x >> 10u32)
}

fn bsig0_32_e(x: u32) -> (r: u32)
    ensures
        r == bsig0_32(x),
{
    rotr32_e(x, 2) ^ rotr32_e(x, 13) ^ rotr32_e(x, 22)
}

fn bsig1_32_e(x: u32) -> (r: u32)
    ensures
        r == bsig1_32(x),
{
    rotr32_e(x, 6) ^ rotr32_e(x, 11) ^ rotr32_e(x, 25)
}

/// Run the compression function over one full 64-byte chunk.
fn compress32_e(st: [u32; 8], blk: &[u8; 64]) -> (r: [u32; 8])
    ensures
        r@ == compress32(st@, blk@),
{
    let mut w: [u32; 64] = [0u32; 64];
    let mut i: usize = 0;
    while i < 16
        invariant
            i <= 16,
            forall|j: int| 0 <= j < i ==> w@[j] == sched32(blk@, j),
        decreases 16 - i,
    {
        w[i] = ((blk[4 * i] as u32) << 24u32) | ((blk[4 * i + 1] as u32) << 16u32) | ((blk[4 * i
            + 2] as u32) << 8u32) | (blk[4 * i + 3] as u32);
        i += 1;
    }
    while i < 64
        invariant
            16 <= i <= 64,
            forall|j: int| 0 <= j < i ==> w@[j] == sched32(blk@, j),
        decreases 64 - i,
    {
        let s0 = ssig0_32_e(w[i - 15]);
        let s1 = ssig1_32_e(w[i - 2]);
        w[i] = w[i - 16].wrapping_add(s0.wrapping_add(w[i - 7].wrapping_add(s1)));
        i += 1;
    }
    let mut a = st[0];
    let mut b = st[1];
    let mut c = st[2];
    let mut d = st[3];
    let mut e = st[4];
    let mut f = st[5];
    let mut g = st[6];
    let mut h = st[7];
    let mut i: usize = 0;
    while i < 64
        invariant
            i <= 64,
            forall|j: int| 0 <= j < 64 ==> w@[j] == sched32(blk@, j),
            seq![a, b, c, d, e, f, g, h] =~= rounds32(blk@, st@, i as int),
        decreases 64 - i,
    {
        let ghost prev = seq![a, b, c, d, e, f, g, h];
        let s1 = bsig1_32_e(e);
        let ch = (e & f) ^ ((e ^ 0xffffffffu32) & g);
        let t1 = h.wrapping_add(s1.wrapping_add(ch.wrapping_add(CONSTANTS_256[i].wrapping_add(w[i]))));
        let s0 = bsig0_32_e(a);
        let mj = (a & b) ^ (a & c) ^ (b & c);
        let t2 = s0.wrapping_add(mj);
        h = g;
        g = f;
        f = e;
        e = d.wrapping_add(t1);
        d = c;
        c = b;
        b = a;
        a = t1.wrapping_add(t2);
        i += 1;
        proof {
            assert(seq![a, b, c, d, e, f, g, h] =~= round_step32(blk@, prev, i - 1));
        }
    }
    let r: [u32; 8] = [
        st[0].wrapping_add(a),
        st[1].wrapping_add(b),
        st[2].wrapping_add(c),
        st[3].wrapping_add(d),
        st[4].wrapping_add(e),
        st[5].wrapping_add(f),
        st[6].wrapping_add(g),
        st[7].wrapping_add(h),
    ];
    proof {
        assert(r@ =~= compress32(st@, blk@));
    }
    r
}

/// The initial chaining value of the 256-bit family with digest width `s`.
pub open spec fn iv32(s: int) -> Seq<u32> {
    if s == 28 {
        INITIAL_VALUES_224@
    } else {
        INITIAL_VALUES_256@
    }
}

/// Streaming context of the 256-bit family; `S` is the digest width in bytes
/// (28 for SHA-224, 32 for SHA-256).
pub struct Context<const S: usize> {
    st: [u32; 8],
    buf: [u8; 64],
    buffered: usize,
    length: u64,
    processed: Ghost<Seq<u8>>,
}

impl<const S: usize> Context<S> {
    /// Internal well-formedness: the chaining state is the absorption of the
    /// block-aligned processed prefix, and the residual buffer is short.
    pub closed spec fn wf(self) -> bool {
        &&& self.buffered < 64
        &&& self.processed@.len() % 64 == 0
        &&& self.length == self.processed@.len() + self.buffered
        &&& self.length <= 0x2000000000000200
        &&& self.st@ == absorb32(iv32(S as int), self.processed@)
    }

    /// The message absorbed so far.
    pub closed spec fn msg(self) -> Seq<u8> {
        self.processed@ + self.buf@.take(self.buffered as int)
    }

    fn init_ctx() -> (r: Self)
        ensures
            r.wf(),
            r.msg() == Seq::<u8>::empty(),
    {
        let st: [u32; 8] = if S == 28 {
            INITIAL_VALUES_224
        } else {
            INITIAL_VALUES_256
        };
        let r = Context { st, buf: [0u8; 64], buffered: 0usize, length: 0u64, processed: Ghost(Seq::empty()) };
        proof {
            assert(r.msg() =~= Seq::<u8>::empty());
        }
        r
    }

    fn absorb(&mut self, data: &[u8])
        requires
            old(self).wf(),
            old(self).msg().len() + data@.len() <= 0x2000000000000200,
        ensures
            final(self).wf(),
            final(self).msg() == old(self).msg() + data@,
    {
        let ghost orig = self.msg();
        let mut copied: usize = 0;
        while copied < data.len()
            invariant
                self.wf(),
                copied <= data@.len(),
                orig.len() + data@.len() <= 0x2000000000000200,
                self.msg() =~= orig + data@.take(copied as int),
            decreases data@.len() - copied,
        {
            let remaining = data.len() - copied;
            let room = 64 - self.buffered;
            let take = if remaining < room {
                remaining
            } else {
                room
            };
            let ghost pre = *self;
            let mut j: usize = 0;
            while j < take
                invariant
                    j <= take,
                    copied + take <= data@.len(),
                    data@.len() <= usize::MAX,
                    pre.buffered + take <= 64,
                    self.st == pre.st,
                    self.processed == pre.processed,
                    self.buffered == pre.buffered,
                    self.length == pre.length,
                    forall|k: int| 0 <= k < pre.buffered ==> #[trigger] self.buf@[k] == pre.buf@[k],
                    forall|k: int|
                        pre.buffered <= k < pre.buffered + j ==> #[trigger] self.buf@[k] == data@[
                            k - pre.buffered + copied
                        ],
                decreases take - j,
            {
                self.buf[self.buffered + j] = data[copied + j];
                j += 1;
            }
            proof {
                assert(self.buf@.take((pre.buffered + take) as int) =~= pre.buf@.take(
                    pre.buffered as int,
                ) + data@.subrange(copied as int, (copied + take) as int));
            }
            let ghost copied0 = copied;
            self.buffered = self.buffered + take;
            self.length = self.length + take as u64;
            if self.buffered == 64 {
                self.st = compress32_e(self.st, &self.buf);
                proof {
                    let st0 = absorb32(iv32(S as int), pre.processed@);
                    lemma_absorb32_append(iv32(S as int), pre.processed@, self.buf@);
                    assert(self.buf@.take(64) =~= self.buf@);
                    assert(self.buf@.skip(64) =~= Seq::<u8>::empty());
                    assert(absorb32(compress32(st0, self.buf@.take(64)), self.buf@.skip(64))
                        == compress32(st0, self.buf@.take(64)));
                    assert(absorb32(st0, self.buf@) == compress32(st0, self.buf@));
                }
                self.processed = Ghost(self.processed@ + self.buf@);
                self.buffered = 0;
            }
            copied = copied + take;
            proof {
                assert(self.msg() =~= (pre.msg() + data@.subrange(
                    copied0 as int,
                    (copied0 + take) as int,
                )));
                assert(orig + data@.take(copied0 as int) + data@.subrange(
                    copied0 as int,
                    (copied0 + take) as int,
                ) =~= orig + data@.take(copied as int));
            }
        }
        proof {
            assert(data@.take(copied as int) =~= data@);
        }
    }

    fn finish_into(&mut self, digest: &mut [u8; S])
        requires
            old(self).wf(),
            old(self).msg().len() < 0x2000000000000000,
            S <= 32,
        ensures
            final(digest)@ == be_bytes_of_words32(
                sha2_words32(iv32(S as int), old(self).msg()),
            ).take(S as int),
    {
        let ghost msg = self.msg();
        let bits: u64 = self.length * 8;
        let z: usize = (64 - ((self.buffered + 9) % 64)) % 64;
        proof {
            assert(msg.len() % 64 == self.buffered % 64) by {
                vstd::arithmetic::div_mod::lemma_add_mod_noop(
                    self.processed@.len() as int,
                    self.buffered as int,
                    64,
                );
            }
            assert((msg.len() + 9) % 64 == (self.buffered + 9) % 64) by {
                vstd::arithmetic::div_mod::lemma_add_mod_noop(msg.len() as int, 9, 64);
                vstd::arithmetic::div_mod::lemma_add_mod_noop(self.buffered as int, 9, 64);
            }
            assert(z == pad_zeros256(msg.len()));
        }
        let mut pad: Vec<u8> = Vec::new();
        pad.push(0x80u8);
        let mut j: usize = 0;
        while j < z
            invariant
                j <= z,
                pad@.len() == 1 + j,
                pad@[0] == 0x80u8,
                forall|k: int| 1 <= k < pad@.len() ==> pad@[k] == 0u8,
            decreases z - j,
        {
            pad.push(0u8);
            j += 1;
        }
        let mut k: usize = 0;
        while k < 8
            invariant
                k <= 8,
                pad@.len() == 1 + z + k,
                pad@[0] == 0x80u8,
                forall|m: int| 1 <= m < 1 + z ==> pad@[m] == 0u8,
                forall|m: int| 0 <= m < k ==> pad@[1 + z + m] == be_bytes64(bits)[m],
            decreases 8 - k,
        {
            let sh: u64 = 56 - 8 * (k as u64);
            pad.push(((bits >> sh) & 0xff) as u8);
            k += 1;
        }
        proof {
            assert(pad@ =~= padding256(msg.len()));
        }
        self.absorb(pad.as_slice());
        proof {
            assert((msg.len() + 9 + z) % 64 == 0) by {
                vstd::arithmetic::div_mod::lemma_add_mod_noop(
                    (msg.len() + 9) as int,
                    z as int,
                    64,
                );
                vstd::arithmetic::div_mod::lemma_mod_twice((msg.len() + 9) as int, 64);
            }
            assert(self.msg().len() == msg.len() + 9 + z);
            assert(self.msg().len() % 64 == 0);
            assert(self.buffered % 64 == 0) by {
                vstd::arithmetic::div_mod::lemma_add_mod_noop(
                    self.processed@.len() as int,
                    self.buffered as int,
                    64,
                );
            }
            assert(self.buffered == 0);
            assert(self.processed@ =~= self.msg());
            assert(self.processed@ =~= msg + padding256(msg.len()));
            assert(self.st@ == sha2_words32(iv32(S as int), msg));
            lemma_absorb32_len(iv32(S as int), msg + padding256(msg.len()));
        }
        let mut i: usize = 0;
        while i < S
            invariant
                i <= S,
                S <= 32,
                self.st@ == sha2_words32(iv32(S as int), msg),
                self.st@.len() == 8,
                digest@.len() == S,
                forall|m: int| 0 <= m < i ==> digest@[m] == be_bytes_of_words32(self.st@)[m],
            decreases S - i,
        {
            let word = self.st[i / 4];
            let sh: u32 = 24 - 8 * ((i % 4) as u32);
            digest[i] = ((word >> sh) & 0xff) as u8;
            i += 1;
        }
        proof {
            assert(digest@ =~= be_bytes_of_words32(sha2_words32(iv32(S as int), msg)).take(
                S as int,
            ));
        }
    }
}

/// SHA-224: the 256-bit compression family truncated to 28 bytes.
pub type Sha224 = Context<28>;

/// SHA-256.
pub type Sha256 = Context<32>;

impl OneWayHasher<28> for Context<28> {
    open spec fn message(&self) -> Seq<u8> {
        self.msg()
    }

    open spec fn inv(&self) -> bool {
        self.wf() && self.msg().len() < 0x2000000000000000
    }

    open spec fn hash_spec(msg: Seq<u8>) -> Seq<u8> {
        sha224_spec(msg)
    }

    proof fn hash_spec_len(msg: Seq<u8>) {
        lemma_absorb32_len(INITIAL_VALUES_224@, msg + padding256(msg.len()));
    }

    fn init() -> (r: Self) {
        Context::init_ctx()
    }

    fn reset(&mut self) {
        *self = Context::init_ctx();
    }

    fn update(&mut self, data: &[u8]) {
        self.absorb(data);
    }

    fn finish(&mut self, digest: &mut [u8; 28]) {
        self.finish_into(digest);
    }
}

impl OneWayHasher<32> for Context<32> {
    open spec fn message(&self) -> Seq<u8> {
        self.msg()
    }

    open spec fn inv(&self) -> bool {
        self.wf() && self.msg().len() < 0x2000000000000000
    }

    open spec fn hash_spec(msg: Seq<u8>) -> Seq<u8> {
        sha256_spec(msg)
    }

    proof fn hash_spec_len(msg: Seq<u8>) {
        lemma_absorb32_len(INITIAL_VALUES_256@, msg + padding256(msg.len()));
    }

    fn init() -> (r: Self) {
        Context::init_ctx()
    }

    fn reset(&mut self) {
        *self = Context::init_ctx();
    }

    fn update(&mut self, data: &[u8]) {
        self.absorb(data);
    }

    fn finish(&mut self, digest: &mut [u8; 32]) {
        self.finish_into(digest);
    }
}

/// Round constants of the 512-bit family: the first 64 bits of the
/// fractional parts of the cube roots of the first 80 primes.
pub const CONSTANTS_512: [u64; 80] = [
    0x428a2f98d728ae22, 0x7137449123ef65cd, 0xb5c0fbcfec4d3b2f, 0xe9b5dba58189dbbc,
    0x3956c25bf348b538, 0x59f111f1b605d019, 0x923f82a4af194f9b, 0xab1c5ed5da6d8118,
    0xd807aa98a3030242, 0x12835b0145706fbe, 0x243185be4ee4b28c, 0x550c7dc3d5ffb4e2,
    0x72be5d74f27b896f, 0x80deb1fe3b1696b1, 0x9bdc06a725c71235, 0xc19bf174cf692694,
    0xe49b69c19ef14ad2, 0xefbe4786384f25e3, 0x0fc19dc68b8cd5b5, 0x240ca1cc77ac9c65,
    0x2de92c6f592b0275, 0x4a7484aa6ea6e483, 0x5cb0a9dcbd41fbd4, 0x76f988da831153b5,
    0x983e5152ee66dfab, 0xa831c66d2db43210, 0xb00327c898fb213f, 0xbf597fc7beef0ee4,
    0xc6e00bf33da88fc2, 0xd5a79147930aa725, 0x06ca6351e003826f, 0x142929670a0e6e70,
    0x27b70a8546d22ffc, 0x2e1b21385c26c926, 0x4d2c6dfc5ac42aed, 0x53380d139d95b3df,
    0x650a73548baf63de, 0x766a0abb3c77b2a8, 0x81c2c92e47edaee6, 0x92722c851482353b,
    0xa2bfe8a14cf10364, 0xa81a664bbc423001, 0xc24b8b70d0f89791, 0xc76c51a30654be30,
    0xd192e819d6ef5218, 0xd69906245565a910, 0xf40e35855771202a, 0x106aa07032bbd1b8,
    0x19a4c116b8d2d0c8, 0x1e376c085141ab53, 0x2748774cdf8eeb99, 0x34b0bcb5e19b48a8,
    0x391c0cb3c5c95a63, 0x4ed8aa4ae3418acb, 0x5b9cca4f7763e373, 0x682e6ff3d6b2b8a3,
    0x748f82ee5defb2fc, 0x78a5636f43172f60, 0x84c87814a1f0ab72, 0x8cc702081a6439ec,
    0x90befffa23631e28, 0xa4506cebde82bde9, 0xbef9a3f7b2c67915, 0xc67178f2e372532b,
    0xca273eceea26619c, 0xd186b8c721c0c207, 0xeada7dd6cde0eb1e, 0xf57d4f7fee6ed178,
    0x06f067aa72176fba, 0x0a637dc5a2c898a6, 0x113f9804bef90dae, 0x1b710b35131c471b,
    0x28db77f523047d84, 0x32caab7b40c72493, 0x3c9ebe0a15c9bebc, 0x431d67c49c100d4c,
    0x4cc5d4becb3e42b6, 0x597f299cfc657e2a, 0x5fcb6fab3ad6faec, 0x6c44198c4a475817,
];

/// Initial chaining values for SHA-384.
pub const INITIAL_VALUES_384: [u64; 8] = [
    0xcbbb9d5dc1059ed8, 0x629a292a367cd507, 0x9159015a3070dd17, 0x152fecd8f70e5939,
    0x67332667ffc00b31, 0x8eb44a8768581511, 0xdb0c2e0d64f98fa7, 0x47b5481dbefa4fa4,
];

/// Initial chaining values for SHA-512.
pub const INITIAL_VALUES_512: [u64; 8] = [
    0x6a09e667f3bcc908, 0xbb67ae8584caa73b, 0x3c6ef372fe94f82b, 0xa54ff53a5f1d36f1,
    0x510e527fade682d1, 0x9b05688c2b3e6c1f, 0x1f83d9abfb41bd6b, 0x5be0cd19137e2179,
];

/// Initial chaining values for SHA-512/224.
pub const INITIAL_VALUES_512_224: [u64; 8] = [
    0x8c3d37c819544da2, 0x73e1996689dcd4d6, 0x1dfab7ae32ff9c82, 0x679dd514582f9fcf,
    0x0f6d2b697bd44da8, 0x77e36f7304c48942, 0x3f9d85a86a1d36c8, 0x1112e6ad91d692a1,
];

/// Initial chaining values for SHA-512/256.
pub const INITIAL_VALUES_512_256: [u64; 8] = [
    0x22312194fc2bf72c, 0x9f555fa3c84c64c2, 0x2393b86b6f53b151, 0x963877195940eabd,
    0x96283ee2a88effe3, 0xbe5e1e2553863992, 0x2b0199fc2c85b8aa, 0x0eb72ddc81c52ca2,
];

/// Right rotation of a 64-bit word.
pub open spec fn rotr64(x: u64, n: u64) -> u64 {
    (x >> n) | (x << ((64 - n) as u64))
}

/// The sigma-0 message-schedule function of the 512-bit family.
pub open spec fn ssig0_64(x: u64) -> u64 {
    rotr64(x, 1) ^ rotr64(x, 8) ^ (x >> 7u64)
}

/// The sigma-1 message-schedule function of the 512-bit family.
pub open spec fn ssig1_64(x: u64) -> u64 {
    rotr64(x, 19) ^ rotr64(x, 61) ^ (x >> 6u64)
}

/// The Sigma-0 round function of the 512-bit family.
pub open spec fn bsig0_64(x: u64) -> u64 {
    rotr64(x, 28) ^ rotr64(x, 34) ^ rotr64(x, 39)
}

/// The Sigma-1 round function of the 512-bit family.
pub open spec fn bsig1_64(x: u64) -> u64 {
    rotr64(x, 14) ^ rotr64(x, 18) ^ rotr64(x, 41)
}

/// The choice function over 64-bit words.
pub open spec fn ch64(e: u64, f: u64, g: u64) -> u64 {
    (e & f) ^ ((e ^ 0xffffffffffffffffu64) & g)
}

/// The majority function over 64-bit words.
pub open spec fn maj64(a: u64, b: u64, c: u64) -> u64 {
    (a & b) ^ (a & c) ^ (b & c)
}

/// Word `i` of a chunk read as a big-endian 64-bit integer.
pub open spec fn be_word64(blk: Seq<u8>, i: int) -> u64
    recommends
        0 <= i,
        8 * i + 7 < blk.len(),
{
    ((blk[8 * i] as u64) << 56u64) | ((blk[8 * i + 1] as u64) << 48u64) | ((blk[8 * i + 2] as u64)
        << 40u64) | ((blk[8 * i + 3] as u64) << 32u64) | ((blk[8 * i + 4] as u64) << 24u64) | ((
    blk[8 * i + 5] as u64) << 16u64) | ((blk[8 * i + 6] as u64) << 8u64) | (blk[8 * i + 7] as u64)
}

/// Word `i` of the fully extended message schedule of a 128-byte chunk.
pub open spec fn sched64(blk: Seq<u8>, i: int) -> u64
    decreases i,
{
    if i < 16 {
        be_word64(blk, i)
    } else {
        sched64(blk, i - 16).wrapping_add(
            ssig0_64(sched64(blk, i - 15)).wrapping_add(
                sched64(blk, i - 7).wrapping_add(ssig1_64(sched64(blk, i - 2))),
            ),
        )
    }
}

/// One compression round of the 512-bit family.
pub open spec fn round_step64(blk: Seq<u8>, v: Seq<u64>, i: int) -> Seq<u64>
    recommends
        v.len() == 8,
        0 <= i < 80,
{
    let t1 = v[7].wrapping_add(
        bsig1_64(v[4]).wrapping_add(
            ch64(v[4], v[5], v[6]).wrapping_add(CONSTANTS_512[i].wrapping_add(sched64(blk, i))),
        ),
    );
    let t2 = bsig0_64(v[0]).wrapping_add(maj64(v[0], v[1], v[2]));
    seq![
        t1.wrapping_add(t2),
        v[0],
        v[1],
        v[2],
        v[3].wrapping_add(t1),
        v[4],
        v[5],
        v[6],
    ]
}

/// The working variables after the first `n` rounds of the 512-bit family.
pub open spec fn rounds64(blk: Seq<u8>, st: Seq<u64>, n: int) -> Seq<u64>
    decreases n,
{
    if n <= 0 {
        st
    } else {
        round_step64(blk, rounds64(blk, st, n - 1), n - 1)
    }
}

/// The compression function over one 128-byte chunk.
pub open spec fn compress64(st: Seq<u64>, blk: Seq<u8>) -> Seq<u64>
    recommends
        st.len() == 8,
        blk.len() == 128,
{
    let v = rounds64(blk, st, 80);
    Seq::new(8, |i: int| st[i].wrapping_add(v[i]))
}

/// Absorb a whole sequence of 128-byte chunks into the chaining state.
pub open spec fn absorb64(st: Seq<u64>, msg: Seq<u8>) -> Seq<u64>
    decreases msg.len(),
{
    if msg.len() < 128 {
        st
    } else {
        absorb64(compress64(st, msg.take(128)), msg.skip(128))
    }
}

/// The count of zero bytes in the padding of the 512-bit family, the eight
/// high bytes of the 128-bit length field included.
pub open spec fn pad_zeros512(len: nat) -> nat {
    (((128 - ((len + 17) % 128)) % 128) + 8) as nat
}

/// The padding of the 512-bit family: 0x80, then zeros, then the message
/// length in bits as a big-endian 128-bit integer whose high half is zero
/// for any message this library can absorb.
pub open spec fn padding512(len: nat) -> Seq<u8>
    recommends
        len * 8 <= u64::MAX,
{
    seq![0x80u8] + Seq::new(pad_zeros512(len), |i: int| 0u8) + be_bytes64((len * 8) as u64)
}

/// The eight final chaining words of the 512-bit family over a whole message.
pub open spec fn sha2_words64(iv: Seq<u64>, msg: Seq<u8>) -> Seq<u64> {
    absorb64(iv, msg + padding512(msg.len()))
}

/// A sequence of 64-bit words serialized as big-endian bytes.
pub open spec fn be_bytes_of_words64(ws: Seq<u64>) -> Seq<u8> {
    Seq::new(ws.len() * 8, |i: int| ((ws[i / 8] >> ((56 - 8 * (i % 8)) as u64)) & 0xff) as u8)
}

/// The initial chaining value of the 512-bit family with digest width `s`.
pub open spec fn iv64(s: int) -> Seq<u64> {
    if s == 48 {
        INITIAL_VALUES_384@
    } else if s == 64 {
        INITIAL_VALUES_512@
    } else if s == 28 {
        INITIAL_VALUES_512_224@
    } else {
        INITIAL_VALUES_512_256@
    }
}

/// The SHA-384 digest of a message.
pub open spec fn sha384_spec(msg: Seq<u8>) -> Seq<u8> {
    be_bytes_of_words64(sha2_words64(INITIAL_VALUES_384@, msg)).take(48)
}

/// The SHA-512 digest of a message.
pub open spec fn sha512_spec(msg: Seq<u8>) -> Seq<u8> {
    be_bytes_of_words64(sha2_words64(INITIAL_VALUES_512@, msg)).take(64)
}

/// The SHA-512/224 digest of a message.
pub open spec fn sha512_224_spec(msg: Seq<u8>) -> Seq<u8> {
    be_bytes_of_words64(sha2_words64(INITIAL_VALUES_512_224@, msg)).take(28)
}

/// The SHA-512/256 digest of a message.
pub open spec fn sha512_256_spec(msg: Seq<u8>) -> Seq<u8> {
    be_bytes_of_words64(sha2_words64(INITIAL_VALUES_512_256@, msg)).take(32)
}

/// Absorbing a block-aligned prefix then the rest equals absorbing the whole.
pub proof fn lemma_absorb64_append(st: Seq<u64>, a: Seq<u8>, b: Seq<u8>)
    requires
        a.len() % 128 == 0,
    ensures
        absorb64(st, a + b) == absorb64(absorb64(st, a), b),
    decreases a.len(),
{
    if a.len() == 0 {
        assert(a + b =~= b);
    } else {
        assert((a + b).take(128) =~= a.take(128));
        assert((a + b).skip(128) =~= a.skip(128) + b);
        assert(a.skip(128).len() % 128 == 0);
        lemma_absorb64_append(compress64(st, a.take(128)), a.skip(128), b);
    }
}

/// `absorb64` keeps the chaining state eight wide.
pub proof fn lemma_absorb64_len(st: Seq<u64>, msg: Seq<u8>)
    requires
        st.len() == 8,
    ensures
        absorb64(st, msg).len() == 8,
    decreases msg.len(),
{
    if msg.len() >= 128 {
        lemma_absorb64_len(compress64(st, msg.take(128)), msg.skip(128));
    }
}

fn rotr64_e(x: u64, n: u64) -> (r: u64)
    requires
        0 < n < 64,
    ensures
        r == rotr64(x, n),
{
    (x >> n) | (x << (64 - n))
}

fn ssig0_64_e(x: u64) -> (r: u64)
    ensures
        r == ssig0_64(x),
{
    rotr64_e(x, 1) ^ rotr64_e(x, 8) ^ (x >> 7u64)
}

fn ssig1_64_e(x: u64) -> (r: u64)
    ensures
        r == ssig1_64(x),
{
    rotr64_e(x, 19) ^ rotr64_e(x, 61) ^ (x >> 6u64)
}

fn bsig0_64_e(x: u64) -> (r: u64)
    ensures
        r == bsig0_64(x),
{
    rotr64_e(x, 28) ^ rotr64_e(x, 34) ^ rotr64_e(x, 39)
}

fn bsig1_64_e(x: u64) -> (r: u64)
    ensures
        r == bsig1_64(x),
{
    rotr64_e(x, 14) ^ rotr64_e(x, 18) ^ rotr64_e(x, 41)
}

/// Run the 512-bit-family compression function over one 128-byte chunk.
fn compress64_e(st: [u64; 8], blk: &[u8; 128]) -> (r: [u64; 8])
    ensures
        r@ == compress64(st@, blk@),
{
    let mut w: [u64; 80] = [0u64; 80];
    let mut i: usize = 0;
    while i < 16
        invariant
            i <= 16,
            forall|j: int| 0 <= j < i ==> w@[j] == sched64(blk@, j),
        decreases 16 - i,
    {
        w[i] = ((blk[8 * i] as u64) << 56u64) | ((blk[8 * i + 1] as u64) << 48u64) | ((blk[8 * i
            + 2] as u64) << 40u64) | ((blk[8 * i + 3] as u64) << 32u64) | ((blk[8 * i
            + 4] as u64) << 24u64) | ((blk[8 * i + 5] as u64) << 16u64) | ((blk[8 * i
            + 6] as u64) << 8u64) | (blk[8 * i + 7] as u64);
        i += 1;
    }
    while i < 80
        invariant
            16 <= i <= 80,
            forall|j: int| 0 <= j < i ==> w@[j] == sched64(blk@, j),
        decreases 80 - i,
    {
        let s0 = ssig0_64_e(w[i - 15]);
        let s1 = ssig1_64_e(w[i - 2]);
        w[i] = w[i - 16].wrapping_add(s0.wrapping_add(w[i - 7].wrapping_add(s1)));
        i += 1;
    }
    let mut a = st[0];
    let mut b = st[1];
    let mut c = st[2];
    let mut d = st[3];
    let mut e = st[4];
    let mut f = st[5];
    let mut g = st[6];
    let mut h = st[7];
    let mut i: usize = 0;
    while i < 80
        invariant
            i <= 80,
            forall|j: int| 0 <= j < 80 ==> w@[j] == sched64(blk@, j),
            seq![a, b, c, d, e, f, g, h] =~= rounds64(blk@, st@, i as int),
        decreases 80 - i,
    {
        let ghost prev = seq![a, b, c, d, e, f, g, h];
        let s1 = bsig1_64_e(e);
        let ch = (e & f) ^ ((e ^ 0xffffffffffffffffu64) & g);
        let t1 = h.wrapping_add(s1.wrapping_add(ch.wrapping_add(CONSTANTS_512[i].wrapping_add(w[i]))));
        let s0 = bsig0_64_e(a);
        let mj = (a & b) ^ (a & c) ^ (b & c);
        let t2 = s0.wrapping_add(mj);
        h = g;
        g = f;
        f = e;
        e = d.wrapping_add(t1);
        d = c;
        c = b;
        b = a;
        a = t1.wrapping_add(t2);
        i += 1;
        proof {
            assert(seq![a, b, c, d, e, f, g, h] =~= round_step64(blk@, prev, i - 1));
        }
    }
    let r: [u64; 8] = [
        st[0].wrapping_add(a),
        st[1].wrapping_add(b),
        st[2].wrapping_add(c),
        st[3].wrapping_add(d),
        st[4].wrapping_add(e),
        st[5].wrapping_add(f),
        st[6].wrapping_add(g),
        st[7].wrapping_add(h),
    ];
    proof {
        assert(r@ =~= compress64(st@, blk@));
    }
    r
}

/// Streaming context of the 512-bit family; `S` is the digest width in bytes
/// (48 for SHA-384, 64 for SHA-512, 28 for SHA-512/224, 32 for SHA-512/256).
pub struct Context64<const S: usize> {
    st: [u64; 8],
    buf: [u8; 128],
    buffered: usize,
    length: u64,
    processed: Ghost<Seq<u8>>,
}

impl<const S: usize> Context64<S> {
    /// Internal well-formedness: the chaining state is the absorption of the
    /// block-aligned processed prefix, and the residual buffer is short.
    pub closed spec fn wf(self) -> bool {
        &&& self.buffered < 128
        &&& self.processed@.len() % 128 == 0
        &&& self.length == self.processed@.len() + self.buffered
        &&& self.length <= 0x2000000000000200
        &&& self.st@ == absorb64(iv64(S as int), self.processed@)
    }

    /// The message absorbed so far.
    pub closed spec fn msg(self) -> Seq<u8> {
        self.processed@ + self.buf@.take(self.buffered as int)
    }

    fn init_ctx() -> (r: Self)
        ensures
            r.wf(),
            r.msg() == Seq::<u8>::empty(),
    {
        let st: [u64; 8] = if S == 48 {
            INITIAL_VALUES_384
        } else if S == 64 {
            INITIAL_VALUES_512
        } else if S == 28 {
            INITIAL_VALUES_512_224
        } else {
            INITIAL_VALUES_512_256
        };
        let r = Context64 {
            st,
            buf: [0u8; 128],
            buffered: 0usize,
            length: 0u64,
            processed: Ghost(Seq::empty()),
        };
        proof {
            assert(r.msg() =~= Seq::<u8>::empty());
        }
        r
    }

    fn absorb(&mut self, data: &[u8])
        requires
            old(self).wf(),
            old(self).msg().len() + data@.len() <= 0x2000000000000200,
        ensures
            final(self).wf(),
            final(self).msg() == old(self).msg() + data@,
    {
        let ghost orig = self.msg();
        let mut copied: usize = 0;
        while copied < data.len()
            invariant
                self.wf(),
                copied <= data@.len(),
                orig.len() + data@.len() <= 0x2000000000000200,
                self.msg() =~= orig + data@.take(copied as int),
            decreases data@.len() - copied,
        {
            let remaining = data.len() - copied;
            let room = 128 - self.buffered;
            let take = if remaining < room {
                remaining
            } else {
                room
            };
            let ghost pre = *self;
            let mut j: usize = 0;
            while j < take
                invariant
                    j <= take,
                    copied + take <= data@.len(),
                    data@.len() <= usize::MAX,
                    pre.buffered + take <= 128,
                    self.st == pre.st,
                    self.processed == pre.processed,
                    self.buffered == pre.buffered,
                    self.length == pre.length,
                    forall|k: int| 0 <= k < pre.buffered ==> #[trigger] self.buf@[k] == pre.buf@[k],
                    forall|k: int|
                        pre.buffered <= k < pre.buffered + j ==> #[trigger] self.buf@[k] == data@[
                            k - pre.buffered + copied
                        ],
                decreases take - j,
            {
                self.buf[self.buffered + j] = data[copied + j];
                j += 1;
            }
            proof {
                assert(self.buf@.take((pre.buffered + take) as int) =~= pre.buf@.take(
                    pre.buffered as int,
                ) + data@.subrange(copied as int, (copied + take) as int));
            }
            let ghost copied0 = copied;
            self.buffered = self.buffered + take;
            self.length = self.length + take as u64;
            if self.buffered == 128 {
                self.st = compress64_e(self.st, &self.buf);
                proof {
                    let st0 = absorb64(iv64(S as int), pre.processed@);
                    lemma_absorb64_append(iv64(S as int), pre.processed@, self.buf@);
                    assert(self.buf@.take(128) =~= self.buf@);
                    assert(self.buf@.skip(128) =~= Seq::<u8>::empty());
                    assert(absorb64(compress64(st0, self.buf@.take(128)), self.buf@.skip(128))
                        == compress64(st0, self.buf@.take(128)));
                    assert(absorb64(st0, self.buf@) == compress64(st0, self.buf@));
                }
                self.processed = Ghost(self.processed@ + self.buf@);
                self.buffered = 0;
            }
            copied = copied + take;
            proof {
                assert(self.msg() =~= (pre.msg() + data@.subrange(
                    copied0 as int,
                    (copied0 + take) as int,
                )));
                assert(orig + data@.take(copied0 as int) + data@.subrange(
                    copied0 as int,
                    (copied0 + take) as int,
                ) =~= orig + data@.take(copied as int));
            }
        }
        proof {
            assert(data@.take(copied as int) =~= data@);
        }
    }

    fn finish_into(&mut self, digest: &mut [u8; S])
        requires
            old(self).wf(),
            old(self).msg().len() < 0x2000000000000000,
            S <= 64,
        ensures
            final(digest)@ == be_bytes_of_words64(
                sha2_words64(iv64(S as int), old(self).msg()),
            ).take(S as int),
    {
        let ghost msg = self.msg();
        let bits: u64 = self.length * 8;
        let z: usize = ((128 - ((self.buffered + 17) % 128)) % 128) + 8;
        proof {
            assert(msg.len() % 128 == self.buffered % 128) by {
                vstd::arithmetic::div_mod::lemma_add_mod_noop(
                    self.processed@.len() as int,
                    self.buffered as int,
                    128,
                );
            }
            assert((msg.len() + 17) % 128 == (self.buffered + 17) % 128) by {
                vstd::arithmetic::div_mod::lemma_add_mod_noop(msg.len() as int, 17, 128);
                vstd::arithmetic::div_mod::lemma_add_mod_noop(self.buffered as int, 17, 128);
            }
            assert(z == pad_zeros512(msg.len()));
        }
        let mut pad: Vec<u8> = Vec::new();
        pad.push(0x80u8);
        let mut j: usize = 0;
        while j < z
            invariant
                j <= z,
                pad@.len() == 1 + j,
                pad@[0] == 0x80u8,
                forall|k: int| 1 <= k < pad@.len() ==> pad@[k] == 0u8,
            decreases z - j,
        {
            pad.push(0u8);
            j += 1;
        }
        let mut k: usize = 0;
        while k < 8
            invariant
                k <= 8,
                pad@.len() == 1 + z + k,
                pad@[0] == 0x80u8,
                forall|m: int| 1 <= m < 1 + z ==> pad@[m] == 0u8,
                forall|m: int| 0 <= m < k ==> pad@[1 + z + m] == be_bytes64(bits)[m],
            decreases 8 - k,
        {
            let sh: u64 = 56 - 8 * (k as u64);
            pad.push(((bits >> sh) & 0xff) as u8);
            k += 1;
        }
        proof {
            assert(pad@ =~= padding512(msg.len()));
        }
        self.absorb(pad.as_slice());
        proof {
            assert((msg.len() + 9 + z) % 128 == 0) by {
                vstd::arithmetic::div_mod::lemma_add_mod_noop(
                    (msg.len() + 17) as int,
                    (z - 8) as int,
                    128,
                );
                vstd::arithmetic::div_mod::lemma_mod_twice((msg.len() + 17) as int, 128);
            }
            assert(self.msg().len() == msg.len() + 9 + z);
            assert(self.msg().len() % 128 == 0);
            assert(self.buffered % 128 == 0) by {
                vstd::arithmetic::div_mod::lemma_add_mod_noop(
                    self.processed@.len() as int,
                    self.buffered as int,
                    128,
                );
            }
            assert(self.buffered == 0);
            assert(self.processed@ =~= self.msg());
            assert(self.processed@ =~= msg + padding512(msg.len()));
            assert(self.st@ == sha2_words64(iv64(S as int), msg));
            lemma_absorb64_len(iv64(S as int), msg + padding512(msg.len()));
        }
        let mut i: usize = 0;
        while i < S
            invariant
                i <= S,
                S <= 64,
                self.st@ == sha2_words64(iv64(S as int), msg),
                self.st@.len() == 8,
                digest@.len() == S,
                forall|m: int| 0 <= m < i ==> digest@[m] == be_bytes_of_words64(self.st@)[m],
            decreases S - i,
        {
            let word = self.st[i / 8];
            let sh: u64 = 56 - 8 * ((i % 8) as u64);
            digest[i] = ((word >> sh) & 0xff) as u8;
            i += 1;
        }
        proof {
            assert(digest@ =~= be_bytes_of_words64(sha2_words64(iv64(S as int), msg)).take(
                S as int,
            ));
        }
    }
}

/// SHA-384.
pub type Sha384 = Context64<48>;

/// SHA-512.
pub type Sha512 = Context64<64>;

/// SHA-512/224.
pub type Sha512_224 = Context64<28>;

/// SHA-512/256.
pub type Sha512_256 = Context64<32>;

impl OneWayHasher<48> for Context64<48> {
    open spec fn message(&self) -> Seq<u8> {
        self.msg()
    }

    open spec fn inv(&self) -> bool {
        self.wf() && self.msg().len() < 0x2000000000000000
    }

    open spec fn hash_spec(msg: Seq<u8>) -> Seq<u8> {
        sha384_spec(msg)
    }

    proof fn hash_spec_len(msg: Seq<u8>) {
        lemma_absorb64_len(INITIAL_VALUES_384@, msg + padding512(msg.len()));
    }

    fn init() -> (r: Self) {
        Context64::init_ctx()
    }

    fn reset(&mut self) {
        *self = Context64::init_ctx();
    }

    fn update(&mut self, data: &[u8]) {
        self.absorb(data);
    }

    fn finish(&mut self, digest: &mut [u8; 48]) {
        self.finish_into(digest);
    }
}

impl OneWayHasher<64> for Context64<64> {
    open spec fn message(&self) -> Seq<u8> {
        self.msg()
    }

    open spec fn inv(&self) -> bool {
        self.wf() && self.msg().len() < 0x2000000000000000
    }

    open spec fn hash_spec(msg: Seq<u8>) -> Seq<u8> {
        sha512_spec(msg)
    }

    proof fn hash_spec_len(msg: Seq<u8>) {
        lemma_absorb64_len(INITIAL_VALUES_512@, msg + padding512(msg.len()));
    }

    fn init() -> (r: Self) {
        Context64::init_ctx()
    }

    fn reset(&mut self) {
        *self = Context64::init_ctx();
    }

    fn update(&mut self, data: &[u8]) {
        self.absorb(data);
    }

    fn finish(&mut self, digest: &mut [u8; 64]) {
        self.finish_into(digest);
    }
}

impl OneWayHasher<28> for Context64<28> {
    open spec fn message(&self) -> Seq<u8> {
        self.msg()
    }

    open spec fn inv(&self) -> bool {
        self.wf() && self.msg().len() < 0x2000000000000000
    }

    open spec fn hash_spec(msg: Seq<u8>) -> Seq<u8> {
        sha512_224_spec(msg)
    }

    proof fn hash_spec_len(msg: Seq<u8>) {
        lemma_absorb64_len(INITIAL_VALUES_512_224@, msg + padding512(msg.len()));
    }

    fn init() -> (r: Self) {
        Context64::init_ctx()
    }

    fn reset(&mut self) {
        *self = Context64::init_ctx();
    }

    fn update(&mut self, data: &[u8]) {
        self.absorb(data);
    }

    fn finish(&mut self, digest: &mut [u8; 28]) {
        self.finish_into(digest);
    }
}

impl OneWayHasher<32> for Context64<32> {
    open spec fn message(&self) -> Seq<u8> {
        self.msg()
    }

    open spec fn inv(&self) -> bool {
        self.wf() && self.msg().len() < 0x2000000000000000
    }

    open spec fn hash_spec(msg: Seq<u8>) -> Seq<u8> {
        sha512_256_spec(msg)
    }

    proof fn hash_spec_len(msg: Seq<u8>) {
        lemma_absorb64_len(INITIAL_VALUES_512_256@, msg + padding512(msg.len()));
    }

    fn init() -> (r: Self) {
        Context64::init_ctx()
    }

    fn reset(&mut self) {
        *self = Context64::init_ctx();
    }

    fn update(&mut self, data: &[u8]) {
        self.absorb(data);
    }

    fn finish(&mut self, digest: &mut [u8; 32]) {
        self.finish_into(digest);
    }
}

} // verus!
