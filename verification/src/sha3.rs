//! Streaming SHA-3 hashers and SHAKE extendable-output functions.
//!
//! The sponge state is 25 little-endian 64-bit lanes; absorption XORs one
//! message byte at a time into the state and runs the Keccak-f[1600]
//! permutation each time the rate is reached, exactly as in FIPS 202.

use vstd::prelude::*;
use crate::OneWayHasher;
use crate::FinishXOF;

verus! {

/// Keccak-f round constants.
pub const KECCAKF_RNDC: [u64; 24] = [
    0x0000000000000001, 0x0000000000008082, 0x800000000000808a, 0x8000000080008000,
    0x000000000000808b, 0x0000000080000001, 0x8000000080008081, 0x8000000000008009,
    0x000000000000008a, 0x0000000000000088, 0x0000000080008009, 0x000000008000000a,
    0x000000008000808b, 0x800000000000008b, 0x8000000000008089, 0x8000000000008003,
    0x8000000000008002, 0x8000000000000080, 0x000000000000800a, 0x800000008000000a,
    0x8000000080008081, 0x8000000000008080, 0x0000000080000001, 0x8000000080008008,
];

/// Keccak-f rotation offsets of the rho step.
pub const KECCAKF_ROTC: [u64; 24] = [
    1, 3, 6, 10, 15, 21, 28, 36, 45, 55, 2, 14, 27, 41, 56, 8, 25, 43, 62, 18, 39, 61, 20, 44,
];

/// Keccak-f lane permutation indices of the pi step.
pub const KECCAKF_PILN: [usize; 24] = [
    10, 7, 11, 17, 18, 3, 5, 16, 8, 21, 24, 4, 15, 23, 19, 13, 12, 2, 20, 14, 22, 9, 6, 1,
];

/// Left rotation of a 64-bit lane.
pub open spec fn rotl64(x: u64, n: u64) -> u64 {
    (x << n) | (x >> ((64 - n) as u64))
}

/// The column parity of the theta step.
pub open spec fn theta_bc(st: Seq<u64>, i: int) -> u64 {
    st[i] ^ st[i + 5] ^ st[i + 10] ^ st[i + 15] ^ st[i + 20]
}

/// The per-column theta adjustment.
pub open spec fn theta_t(st: Seq<u64>, i: int) -> u64 {
    theta_bc(st, (i + 4) % 5) ^ rotl64(theta_bc(st, (i + 1) % 5), 1)
}

/// The theta step of a Keccak-f round.
pub open spec fn theta(st: Seq<u64>) -> Seq<u64> {
    Seq::new(25, |k: int| st[k] ^ theta_t(st, k % 5))
}

/// The combined rho-pi walk: one sequential pass carrying the displaced lane.
pub open spec fn rho_pi_loop(st: Seq<u64>, t: u64, i: int) -> Seq<u64>
    decreases 24 - i,
{
    if i >= 24 {
        st
    } else {
        rho_pi_loop(
            st.update(KECCAKF_PILN[i] as int, rotl64(t, KECCAKF_ROTC[i])),
            st[KECCAKF_PILN[i] as int],
            i + 1,
        )
    }
}

/// The rho and pi steps of a Keccak-f round.
pub open spec fn rho_pi(st: Seq<u64>) -> Seq<u64> {
    rho_pi_loop(st, st[1], 0)
}

/// The chi step of a Keccak-f round.
pub open spec fn chi(st: Seq<u64>) -> Seq<u64> {
    Seq::new(
        25,
        |k: int|
            st[k] ^ ((st[(k / 5) * 5 + ((k % 5) + 1) % 5] ^ 0xffffffffffffffffu64) & st[(k / 5) * 5
                + ((k % 5) + 2) % 5]),
    )
}

/// One full Keccak-f round: theta, rho-pi, chi, iota.
pub open spec fn keccak_round(st: Seq<u64>, r: int) -> Seq<u64> {
    let c = chi(rho_pi(theta(st)));
    c.update(0, c[0] ^ KECCAKF_RNDC[r])
}

/// The state after the first `n` Keccak-f rounds.
pub open spec fn keccak_rounds(st: Seq<u64>, n: int) -> Seq<u64>
    decreases n,
{
    if n <= 0 {
        st
    } else {
        keccak_round(keccak_rounds(st, n - 1), n - 1)
    }
}

/// The Keccak-f[1600] permutation: 24 rounds.
pub open spec fn keccak_f(st: Seq<u64>) -> Seq<u64> {
    keccak_rounds(st, 24)
}

fn rotl64_e(x: u64, n: u64) -> (r: u64)
    requires
        0 < n < 64,
    ensures
        r == rotl64(x, n),
{
    (x << n) | (x >> (64 - n))
}

/// Run the Keccak-f[1600] permutation.
fn keccak_f_e(st0: [u64; 25]) -> (r: [u64; 25])
    ensures
        r@ == keccak_f(st0@),
{
    let mut st = st0;
    let mut r: usize = 0;
    while r < 24
        invariant
            r <= 24,
            st@.len() == 25,
            st@ == keccak_rounds(st0@, r as int),
        decreases 24 - r,
    {
        let ghost entry = st@;
        // Theta
        let mut bc: [u64; 5] = [0u64; 5];
        let mut i: usize = 0;
        while i < 5
            invariant
                i <= 5,
                st@ == entry,
                forall|k: int| 0 <= k < i ==> bc@[k] == theta_bc(entry, k),
            decreases 5 - i,
        {
            bc[i] = st[i] ^ st[i + 5] ^ st[i + 10] ^ st[i + 15] ^ st[i + 20];
            i += 1;
        }
        let mut i: usize = 0;
        while i < 5
            invariant
                i <= 5,
                st@.len() == 25,
                forall|k: int| 0 <= k < 5 ==> bc@[k] == theta_bc(entry, k),
                forall|k: int|
                    0 <= k < 25 && k % 5 < i ==> #[trigger] st@[k] == entry[k] ^ theta_t(
                        entry,
                        k % 5,
                    ),
                forall|k: int| 0 <= k < 25 && k % 5 >= i ==> #[trigger] st@[k] == entry[k],
            decreases 5 - i,
        {
            let t: u64 = bc[(i + 4) % 5] ^ rotl64_e(bc[(i + 1) % 5], 1);
            let mut jj: usize = 0;
            while jj < 5
                invariant
                    jj <= 5,
                    i < 5,
                    st@.len() == 25,
                    t == theta_t(entry, i as int),
                    forall|k: int|
                        0 <= k < 25 && k % 5 < i ==> #[trigger] st@[k] == entry[k] ^ theta_t(
                            entry,
                            k % 5,
                        ),
                    forall|k: int|
                        0 <= k < 25 && k % 5 == i && k / 5 < jj ==> #[trigger] st@[k] == entry[k]
                            ^ theta_t(entry, k % 5),
                    forall|k: int|
                        0 <= k < 25 && k % 5 == i && k / 5 >= jj ==> #[trigger] st@[k] == entry[k],
                    forall|k: int| 0 <= k < 25 && k % 5 > i ==> #[trigger] st@[k] == entry[k],
                decreases 5 - jj,
            {
                let idx = jj * 5 + i;
                st[idx] = st[idx] ^ t;
                jj += 1;
            }
            i += 1;
        }
        proof {
            assert(st@ =~= theta(entry));
        }
        // Rho Pi
        let ghost th = st@;
        let mut t: u64 = st[1];
        let mut i: usize = 0;
        while i < 24
            invariant
                i <= 24,
                st@.len() == 25,
                rho_pi_loop(th, th[1], 0) == rho_pi_loop(st@, t, i as int),
            decreases 24 - i,
        {
            let j: usize = KECCAKF_PILN[i];
            let rot: u64 = KECCAKF_ROTC[i];
            assert(j < 25 && 0 < rot < 64) by {
                assert(KECCAKF_PILN[i as int] < 25 && 0 < KECCAKF_ROTC[i as int] < 64);
            }
            let b0: u64 = st[j];
            st[j] = rotl64_e(t, rot);
            t = b0;
            i += 1;
        }
        proof {
            assert(st@ == rho_pi(th));
        }
        // Chi
        let ghost rp = st@;
        let mut j: usize = 0;
        while j < 25
            invariant
                j <= 25,
                j % 5 == 0,
                st@.len() == 25,
                forall|k: int| 0 <= k < j ==> #[trigger] st@[k] == chi(rp)[k],
                forall|k: int| j <= k < 25 ==> #[trigger] st@[k] == rp[k],
            decreases 25 - j,
        {
            let mut bc: [u64; 5] = [0u64; 5];
            let mut i: usize = 0;
            while i < 5
                invariant
                    i <= 5,
                    j + 5 <= 25,
                    st@.len() == 25,
                    forall|k: int| 0 <= k < j ==> #[trigger] st@[k] == chi(rp)[k],
                    forall|k: int| j <= k < 25 ==> #[trigger] st@[k] == rp[k],
                    forall|k: int| 0 <= k < i ==> bc@[k] == rp[j + k],
                decreases 5 - i,
            {
                bc[i] = st[j + i];
                i += 1;
            }
            let mut i: usize = 0;
            while i < 5
                invariant
                    i <= 5,
                    j + 5 <= 25,
                    j % 5 == 0,
                    st@.len() == 25,
                    forall|k: int| 0 <= k < 5 ==> bc@[k] == rp[j + k],
                    forall|k: int| 0 <= k < j ==> #[trigger] st@[k] == chi(rp)[k],
                    forall|k: int| j + i <= k < 25 ==> #[trigger] st@[k] == rp[k],
                    forall|k: int| j <= k < j + i ==> #[trigger] st@[k] == chi(rp)[k],
                decreases 5 - i,
            {
                let idx = j + i;
                st[idx] = st[idx] ^ ((bc[(i + 1) % 5] ^ 0xffffffffffffffffu64) & bc[(i + 2) % 5]);
                proof {
                    assert((idx as int) / 5 == (j as int) / 5 && (idx as int) % 5 == i as int);
                    assert(st@[idx as int] == chi(rp)[idx as int]);
                }
                i += 1;
            }
            j += 5;
        }
        proof {
            assert(st@ =~= chi(rp));
        }
        // Iota
        st[0] = st[0] ^ KECCAKF_RNDC[r];
        r += 1;
        proof {
            assert(st@ =~= keccak_round(entry, r - 1));
        }
    }
    st
}

/// The abstract sponge while absorbing: 25 lanes plus the byte position
/// within the current rate-sized block.
pub struct SpongeState {
    pub lanes: Seq<u64>,
    pub pt: int,
}

/// The all-zero initial lane array.
pub open spec fn zero_lanes() -> Seq<u64> {
    Seq::new(25, |i: int| 0u64)
}

/// XOR a byte into the state at byte position `pos`, lanes little-endian.
pub open spec fn xor_byte(lanes: Seq<u64>, pos: int, b: u8) -> Seq<u64> {
    lanes.update(pos / 8, lanes[pos / 8] ^ ((b as u64) << ((8 * (pos % 8)) as u64)))
}

/// Absorb one message byte: XOR it in, and permute when the rate is reached.
pub open spec fn absorb_byte(s: SpongeState, b: u8, rate: int) -> SpongeState {
    let l = xor_byte(s.lanes, s.pt, b);
    if s.pt + 1 == rate {
        SpongeState { lanes: keccak_f(l), pt: 0 }
    } else {
        SpongeState { lanes: l, pt: s.pt + 1 }
    }
}

/// The sponge state after absorbing a whole message.
pub open spec fn absorb3(msg: Seq<u8>, rate: int) -> SpongeState
    decreases msg.len(),
{
    if msg.len() == 0 {
        SpongeState { lanes: zero_lanes(), pt: 0 }
    } else {
        absorb_byte(absorb3(msg.drop_last(), rate), msg.last(), rate)
    }
}

/// Byte `i` of the lane array in little-endian lane order.
pub open spec fn state_byte(lanes: Seq<u64>, i: int) -> u8 {
    ((lanes[i / 8] >> ((8 * (i % 8)) as u64)) & 0xff) as u8
}

/// Apply the domain-separation tag and the final pad bit, then permute.
pub open spec fn finalize_sponge(s: SpongeState, rate: int, domain: u8) -> Seq<u64> {
    keccak_f(xor_byte(xor_byte(s.lanes, s.pt, domain), rate - 1, 0x80))
}

/// The fixed-width SHA-3 digest: absorb, finalize with tag 0x06, copy out.
pub open spec fn sha3_digest(msg: Seq<u8>, rate: int, d: nat) -> Seq<u8> {
    let lanes = finalize_sponge(absorb3(msg, rate), rate, 0x06);
    Seq::new(d, |i: int| state_byte(lanes, i))
}

/// Squeeze `n` bytes out of the sponge, permuting at each rate boundary.
pub open spec fn squeeze(s: SpongeState, n: nat, rate: int) -> Seq<u8>
    decreases n,
{
    if n == 0 {
        Seq::<u8>::empty()
    } else {
        let l = if s.pt >= rate {
            keccak_f(s.lanes)
        } else {
            s.lanes
        };
        let p: int = if s.pt >= rate {
            0
        } else {
            s.pt
        };
        seq![state_byte(l, p)] + squeeze(SpongeState { lanes: l, pt: p + 1 }, (n - 1) as nat, rate)
    }
}

/// The sponge state left behind after squeezing `n` bytes.
pub open spec fn squeeze_state(s: SpongeState, n: nat, rate: int) -> SpongeState
    decreases n,
{
    if n == 0 {
        s
    } else {
        let l = if s.pt >= rate {
            keccak_f(s.lanes)
        } else {
            s.lanes
        };
        let p: int = if s.pt >= rate {
            0
        } else {
            s.pt
        };
        squeeze_state(SpongeState { lanes: l, pt: p + 1 }, (n - 1) as nat, rate)
    }
}

/// Squeezing in two pieces yields the bytes of one squeeze of the combined
/// length: the second piece continues from the state the first leaves behind,
/// so the output depends only on the sponge state and the total byte count.
pub proof fn lemma_squeeze_chain(s: SpongeState, a: nat, b: nat, rate: int)
    ensures
        squeeze(s, a + b, rate) == squeeze(s, a, rate) + squeeze(
            squeeze_state(s, a, rate),
            b,
            rate,
        ),
    decreases a,
{
    if a == 0 {
        assert(squeeze(s, 0, rate) + squeeze(s, b, rate) =~= squeeze(s, b, rate));
    } else {
        let l = if s.pt >= rate {
            keccak_f(s.lanes)
        } else {
            s.lanes
        };
        let p: int = if s.pt >= rate {
            0
        } else {
            s.pt
        };
        let s2 = SpongeState { lanes: l, pt: p + 1 };
        lemma_squeeze_chain(s2, (a - 1) as nat, b, rate);
        assert((a + b - 1) as nat == (a - 1) as nat + b);
        assert(seq![state_byte(l, p)] + (squeeze(s2, (a - 1) as nat, rate) + squeeze(
            squeeze_state(s2, (a - 1) as nat, rate),
            b,
            rate,
        )) =~= (seq![state_byte(l, p)] + squeeze(s2, (a - 1) as nat, rate)) + squeeze(
            squeeze_state(s2, (a - 1) as nat, rate),
            b,
            rate,
        ));
    }
}

/// The SHAKE output: absorb, finalize with tag 0x1f, squeeze `n` bytes.
pub open spec fn shake_digest(msg: Seq<u8>, rate: int, n: nat) -> Seq<u8> {
    let lanes = finalize_sponge(absorb3(msg, rate), rate, 0x1f);
    squeeze(SpongeState { lanes, pt: 0 }, n, rate)
}

/// The SHA3-224 digest of a message.
pub open spec fn sha3_224_spec(msg: Seq<u8>) -> Seq<u8> {
    sha3_digest(msg, 144, 28)
}

/// The SHA3-256 digest of a message.
pub open spec fn sha3_256_spec(msg: Seq<u8>) -> Seq<u8> {
    sha3_digest(msg, 136, 32)
}

/// The SHA3-384 digest of a message.
pub open spec fn sha3_384_spec(msg: Seq<u8>) -> Seq<u8> {
    sha3_digest(msg, 104, 48)
}

/// The SHA3-512 digest of a message.
pub open spec fn sha3_512_spec(msg: Seq<u8>) -> Seq<u8> {
    sha3_digest(msg, 72, 64)
}

/// The SHAKE128 output of `n` bytes.
pub open spec fn shake128_spec(msg: Seq<u8>, n: nat) -> Seq<u8> {
    shake_digest(msg, 168, n)
}

/// The SHAKE256 output of `n` bytes.
pub open spec fn shake256_spec(msg: Seq<u8>, n: nat) -> Seq<u8> {
    shake_digest(msg, 136, n)
}

/// The squeeze output is as long as requested.
pub proof fn lemma_squeeze_len(s: SpongeState, n: nat, rate: int)
    ensures
        squeeze(s, n, rate).len() == n,
    decreases n,
{
    if n > 0 {
        let l = if s.pt >= rate {
            keccak_f(s.lanes)
        } else {
            s.lanes
        };
        let p: int = if s.pt >= rate {
            0
        } else {
            s.pt
        };
        lemma_squeeze_len(SpongeState { lanes: l, pt: p + 1 }, (n - 1) as nat, rate);
    }
}

/// Streaming Keccak sponge context; `B` is the capacity parameter (the rate
/// in bytes is 200 - 2B) and `D` the digest width in bytes.
pub struct Context<const B: usize, const D: usize> {
    st: [u64; 25],
    pt: usize,
    rsiz: usize,
    absorbed: Ghost<Seq<u8>>,
}

impl<const B: usize, const D: usize> Context<B, D> {
    /// The rate in bytes.
    pub open spec fn spec_rate() -> int {
        200 - 2 * (B as int)
    }

    /// Internal well-formedness while absorbing: the concrete state is the
    /// spec-level absorption of the message so far.
    pub closed spec fn wf(self) -> bool {
        &&& 0 < B
        &&& 2 * B < 200
        &&& self.rsiz == 200 - 2 * B
        &&& self.pt < self.rsiz
        &&& SpongeState { lanes: self.st@, pt: self.pt as int } == absorb3(
            self.absorbed@,
            Self::spec_rate(),
        )
    }

    /// The message absorbed so far.
    pub closed spec fn msg(self) -> Seq<u8> {
        self.absorbed@
    }

    fn init_ctx() -> (r: Self)
        requires
            0 < B,
            2 * B < 200,
        ensures
            r.wf(),
            r.msg() == Seq::<u8>::empty(),
    {
        let r = Context {
            st: [0u64; 25],
            pt: 0usize,
            rsiz: 200 - 2 * B,
            absorbed: Ghost(Seq::empty()),
        };
        proof {
            assert(r.st@ =~= zero_lanes());
        }
        r
    }

    fn absorb_data(&mut self, data: &[u8])
        requires
            old(self).wf(),
        ensures
            final(self).wf(),
            final(self).msg() == old(self).msg() + data@,
    {
        let ghost orig = self.absorbed@;
        let mut i: usize = 0;
        while i < data.len()
            invariant
                self.wf(),
                i <= data@.len(),
                self.absorbed@ =~= orig + data@.take(i as int),
            decreases data@.len() - i,
        {
            let ghost pre = *self;
            let b = data[i];
            let lane = self.pt / 8;
            let sh: u64 = 8 * ((self.pt % 8) as u64);
            self.st[lane] = self.st[lane] ^ ((b as u64) << sh);
            self.pt = self.pt + 1;
            proof {
                assert(self.st@ =~= xor_byte(pre.st@, pre.pt as int, b));
            }
            if self.pt == self.rsiz {
                self.st = keccak_f_e(self.st);
                self.pt = 0;
            }
            proof {
                assert(SpongeState { lanes: self.st@, pt: self.pt as int } == absorb_byte(
                    SpongeState { lanes: pre.st@, pt: pre.pt as int },
                    b,
                    Self::spec_rate(),
                ));
                let m = orig + data@.take(i as int);
                assert((m.push(b)).drop_last() =~= m);
                assert((m.push(b)).last() == b);
                assert(absorb3(m.push(b), Self::spec_rate()) == absorb_byte(
                    absorb3(m, Self::spec_rate()),
                    b,
                    Self::spec_rate(),
                ));
                assert(orig + data@.take(i + 1) =~= m.push(b));
            }
            self.absorbed = Ghost(self.absorbed@.push(b));
            i += 1;
        }
        proof {
            assert(data@.take(i as int) =~= data@);
        }
    }

    /// Finalize as a fixed-width SHA-3 digest with domain tag 0x06.
    fn finish_sha3(&mut self, digest: &mut [u8; D])
        requires
            old(self).wf(),
            D <= 200,
        ensures
            final(digest)@ == sha3_digest(old(self).msg(), Self::spec_rate(), D as nat),
    {
        let ghost msg = self.absorbed@;
        let ghost s0 = SpongeState { lanes: self.st@, pt: self.pt as int };
        let lane = self.pt / 8;
        let sh: u64 = 8 * ((self.pt % 8) as u64);
        self.st[lane] = self.st[lane] ^ ((0x06u8 as u64) << sh);
        proof {
            assert(self.st@ =~= xor_byte(s0.lanes, s0.pt, 0x06));
        }
        let ghost s1 = self.st@;
        let p2 = self.rsiz - 1;
        let lane2 = p2 / 8;
        let sh2: u64 = 8 * ((p2 % 8) as u64);
        self.st[lane2] = self.st[lane2] ^ ((0x80u8 as u64) << sh2);
        proof {
            assert(self.st@ =~= xor_byte(s1, Self::spec_rate() - 1, 0x80));
        }
        self.st = keccak_f_e(self.st);
        proof {
            assert(self.st@ == finalize_sponge(absorb3(msg, Self::spec_rate()), Self::spec_rate(), 0x06));
        }
        let mut i: usize = 0;
        while i < D
            invariant
                i <= D,
                D <= 200,
                self.st@ == finalize_sponge(
                    absorb3(msg, Self::spec_rate()),
                    Self::spec_rate(),
                    0x06,
                ),
                self.st@.len() == 25,
                digest@.len() == D,
                forall|m: int| 0 <= m < i ==> digest@[m] == state_byte(self.st@, m),
            decreases D - i,
        {
            digest[i] = ((self.st[i / 8] >> (8 * ((i % 8) as u64))) & 0xff) as u8;
            i += 1;
        }
        proof {
            assert(digest@ =~= sha3_digest(msg, Self::spec_rate(), D as nat));
        }
    }

    /// Finalize for squeezing with the SHAKE domain tag 0x1f.
    fn shake_xof(&mut self)
        requires
            old(self).wf(),
        ensures
            final(self).st@ == finalize_sponge(
                absorb3(old(self).msg(), Self::spec_rate()),
                Self::spec_rate(),
                0x1f,
            ),
            final(self).pt == 0,
            final(self).rsiz == 200 - 2 * B,
            0 < B,
            2 * B < 200,
    {
        let ghost s0 = SpongeState { lanes: self.st@, pt: self.pt as int };
        let lane = self.pt / 8;
        let sh: u64 = 8 * ((self.pt % 8) as u64);
        self.st[lane] = self.st[lane] ^ ((0x1fu8 as u64) << sh);
        proof {
            assert(self.st@ =~= xor_byte(s0.lanes, s0.pt, 0x1f));
        }
        let ghost s1 = self.st@;
        let p2 = self.rsiz - 1;
        let lane2 = p2 / 8;
        let sh2: u64 = 8 * ((p2 % 8) as u64);
        self.st[lane2] = self.st[lane2] ^ ((0x80u8 as u64) << sh2);
        proof {
            assert(self.st@ =~= xor_byte(s1, Self::spec_rate() - 1, 0x80));
        }
        self.st = keccak_f_e(self.st);
        self.pt = 0;
    }

    /// Squeeze bytes out of the finalized sponge, one per output position.
    fn shake_out(&mut self, digest: &mut Vec<u8>)
        requires
            old(self).rsiz == 200 - 2 * B,
            0 < B,
            2 * B < 200,
            old(self).pt <= old(self).rsiz,
        ensures
            final(digest)@ == squeeze(
                SpongeState { lanes: old(self).st@, pt: old(self).pt as int },
                old(digest)@.len() as nat,
                Self::spec_rate(),
            ),
            final(digest)@.len() == old(digest)@.len(),
            final(self).rsiz == old(self).rsiz,
            final(self).pt <= final(self).rsiz,
            (SpongeState { lanes: final(self).st@, pt: final(self).pt as int }) == squeeze_state(
                SpongeState { lanes: old(self).st@, pt: old(self).pt as int },
                old(digest)@.len() as nat,
                Self::spec_rate(),
            ),
    {
        let ghost s0 = SpongeState { lanes: self.st@, pt: self.pt as int };
        let n = digest.len();
        let mut i: usize = 0;
        while i < n
            invariant
                i <= n,
                digest@.len() == n,
                self.rsiz == 200 - 2 * B,
                0 < B,
                2 * B < 200,
                self.pt <= self.rsiz,
                squeeze(s0, n as nat, Self::spec_rate()) =~= digest@.take(i as int) + squeeze(
                    SpongeState { lanes: self.st@, pt: self.pt as int },
                    (n - i) as nat,
                    Self::spec_rate(),
                ),
                squeeze_state(s0, n as nat, Self::spec_rate()) == squeeze_state(
                    (SpongeState { lanes: self.st@, pt: self.pt as int }),
                    (n - i) as nat,
                    Self::spec_rate(),
                ),
            decreases n - i,
        {
            let ghost cur = SpongeState { lanes: self.st@, pt: self.pt as int };
            if self.pt >= self.rsiz {
                self.st = keccak_f_e(self.st);
                self.pt = 0;
            }
            let b = ((self.st[self.pt / 8] >> (8 * ((self.pt % 8) as u64))) & 0xff) as u8;
            digest.set(i, b);
            self.pt = self.pt + 1;
            proof {
                assert(squeeze(cur, (n - i) as nat, Self::spec_rate()) == seq![b] + squeeze(
                    SpongeState { lanes: self.st@, pt: self.pt as int },
                    (n - i - 1) as nat,
                    Self::spec_rate(),
                ));
                assert(squeeze_state(cur, (n - i) as nat, Self::spec_rate()) == squeeze_state(
                    SpongeState { lanes: self.st@, pt: self.pt as int },
                    (n - i - 1) as nat,
                    Self::spec_rate(),
                ));
                assert(digest@.take(i + 1) =~= digest@.take(i as int).push(b));
                assert(squeeze(s0, n as nat, Self::spec_rate()) =~= digest@.take(i + 1) + squeeze(
                    SpongeState { lanes: self.st@, pt: self.pt as int },
                    (n - i - 1) as nat,
                    Self::spec_rate(),
                ));
            }
            i += 1;
        }
        proof {
            assert(digest@.take(n as int) =~= digest@);
        }
    }
}

/// SHA3-224.
pub type Sha3_224 = Context<28, 28>;

/// SHA3-256.
pub type Sha3_256 = Context<32, 32>;

/// SHA3-384.
pub type Sha3_384 = Context<48, 48>;

/// SHA3-512.
pub type Sha3_512 = Context<64, 64>;

impl OneWayHasher<28> for Context<28, 28> {
    open spec fn message(&self) -> Seq<u8> {
        self.msg()
    }

    open spec fn inv(&self) -> bool {
        self.wf()
    }

    open spec fn hash_spec(msg: Seq<u8>) -> Seq<u8> {
        sha3_224_spec(msg)
    }

    proof fn hash_spec_len(msg: Seq<u8>) {
    }

    fn init() -> (r: Self) {
        Context::init_ctx()
    }

    fn reset(&mut self) {
        *self = Context::init_ctx();
    }

    fn update(&mut self, data: &[u8]) {
        self.absorb_data(data);
    }

    fn finish(&mut self, digest: &mut [u8; 28]) {
        self.finish_sha3(digest);
    }
}

impl OneWayHasher<32> for Context<32, 32> {
    open spec fn message(&self) -> Seq<u8> {
        self.msg()
    }

    open spec fn inv(&self) -> bool {
        self.wf()
    }

    open spec fn hash_spec(msg: Seq<u8>) -> Seq<u8> {
        sha3_256_spec(msg)
    }

    proof fn hash_spec_len(msg: Seq<u8>) {
    }

    fn init() -> (r: Self) {
        Context::init_ctx()
    }

    fn reset(&mut self) {
        *self = Context::init_ctx();
    }

    fn update(&mut self, data: &[u8]) {
        self.absorb_data(data);
    }

    fn finish(&mut self, digest: &mut [u8; 32]) {
        self.finish_sha3(digest);
    }
}

impl OneWayHasher<48> for Context<48, 48> {
    open spec fn message(&self) -> Seq<u8> {
        self.msg()
    }

    open spec fn inv(&self) -> bool {
        self.wf()
    }

    open spec fn hash_spec(msg: Seq<u8>) -> Seq<u8> {
        sha3_384_spec(msg)
    }

    proof fn hash_spec_len(msg: Seq<u8>) {
    }

    fn init() -> (r: Self) {
        Context::init_ctx()
    }

    fn reset(&mut self) {
        *self = Context::init_ctx();
    }

    fn update(&mut self, data: &[u8]) {
        self.absorb_data(data);
    }

    fn finish(&mut self, digest: &mut [u8; 48]) {
        self.finish_sha3(digest);
    }
}

impl OneWayHasher<64> for Context<64, 64> {
    open spec fn message(&self) -> Seq<u8> {
        self.msg()
    }

    open spec fn inv(&self) -> bool {
        self.wf()
    }

    open spec fn hash_spec(msg: Seq<u8>) -> Seq<u8> {
        sha3_512_spec(msg)
    }

    proof fn hash_spec_len(msg: Seq<u8>) {
    }

    fn init() -> (r: Self) {
        Context::init_ctx()
    }

    fn reset(&mut self) {
        *self = Context::init_ctx();
    }

    fn update(&mut self, data: &[u8]) {
        self.absorb_data(data);
    }

    fn finish(&mut self, digest: &mut [u8; 64]) {
        self.finish_sha3(digest);
    }
}

/// SHAKE128 with a fixed default output width of `MDLEN` bytes; arbitrary
/// output lengths come from `FinishXOF`.
pub struct Shake128<const MDLEN: usize> {
    ctx: Context<16, MDLEN>,
}

/// SHAKE256 with a fixed default output width of `MDLEN` bytes; arbitrary
/// output lengths come from `FinishXOF`.
pub struct Shake256<const MDLEN: usize> {
    ctx: Context<32, MDLEN>,
}

impl<const MDLEN: usize> Shake128<MDLEN> {
    /// One well-formedness governs both capabilities: a context fit for
    /// `update` and `finish` is exactly one fit for `finish_xof`, and the
    /// absorbed message is the same under either trait.
    pub proof fn lemma_inv_is_xof_inv(&self)
        ensures
            self.inv() <==> self.xof_inv(),
            self.message() == self.xof_message(),
    {
    }
}

impl<const MDLEN: usize> Shake256<MDLEN> {
    /// One well-formedness governs both capabilities: a context fit for
    /// `update` and `finish` is exactly one fit for `finish_xof`, and the
    /// absorbed message is the same under either trait.
    pub proof fn lemma_inv_is_xof_inv(&self)
        ensures
            self.inv() <==> self.xof_inv(),
            self.message() == self.xof_message(),
    {
    }
}

impl<const MDLEN: usize> OneWayHasher<MDLEN> for Shake128<MDLEN> {
    closed spec fn message(&self) -> Seq<u8> {
        self.ctx.msg()
    }

    closed spec fn inv(&self) -> bool {
        self.ctx.wf()
    }

    open spec fn hash_spec(msg: Seq<u8>) -> Seq<u8> {
        shake128_spec(msg, MDLEN as nat)
    }

    proof fn hash_spec_len(msg: Seq<u8>) {
        let lanes = finalize_sponge(absorb3(msg, 168), 168, 0x1f);
        lemma_squeeze_len(SpongeState { lanes, pt: 0 }, MDLEN as nat, 168);
    }

    fn init() -> (r: Self) {
        Shake128 { ctx: Context::init_ctx() }
    }

    fn reset(&mut self) {
        self.ctx = Context::init_ctx();
    }

    fn update(&mut self, data: &[u8]) {
        self.ctx.absorb_data(data);
    }

    fn finish(&mut self, digest: &mut [u8; MDLEN]) {
        self.ctx.shake_xof();
        let mut out: Vec<u8> = vec![0u8; MDLEN];
        self.ctx.shake_out(&mut out);
        let mut i: usize = 0;
        while i < MDLEN
            invariant
                i <= MDLEN,
                out@.len() == MDLEN,
                digest@.len() == MDLEN,
                forall|m: int| 0 <= m < i ==> digest@[m] == out@[m],
            decreases MDLEN - i,
        {
            digest[i] = out[i];
            i += 1;
        }
        proof {
            assert(digest@ =~= out@);
        }
    }
}

impl<const MDLEN: usize> FinishXOF for Shake128<MDLEN> {
    closed spec fn xof_message(&self) -> Seq<u8> {
        self.ctx.msg()
    }

    closed spec fn xof_inv(&self) -> bool {
        self.ctx.wf()
    }

    open spec fn xof_spec(msg: Seq<u8>, n: nat) -> Seq<u8> {
        shake128_spec(msg, n)
    }

    proof fn xof_spec_len(msg: Seq<u8>, n: nat) {
        let lanes = finalize_sponge(absorb3(msg, 168), 168, 0x1f);
        lemma_squeeze_len(SpongeState { lanes, pt: 0 }, n, 168);
    }

    fn finish_xof(&mut self, digest: &mut Vec<u8>) {
        self.ctx.shake_xof();
        self.ctx.shake_out(digest);
    }
}

impl<const MDLEN: usize> OneWayHasher<MDLEN> for Shake256<MDLEN> {
    closed spec fn message(&self) -> Seq<u8> {
        self.ctx.msg()
    }

    closed spec fn inv(&self) -> bool {
        self.ctx.wf()
    }

    open spec fn hash_spec(msg: Seq<u8>) -> Seq<u8> {
        shake256_spec(msg, MDLEN as nat)
    }

    proof fn hash_spec_len(msg: Seq<u8>) {
        let lanes = finalize_sponge(absorb3(msg, 136), 136, 0x1f);
        lemma_squeeze_len(SpongeState { lanes, pt: 0 }, MDLEN as nat, 136);
    }

    fn init() -> (r: Self) {
        Shake256 { ctx: Context::init_ctx() }
    }

    fn reset(&mut self) {
        self.ctx = Context::init_ctx();
    }

    fn update(&mut self, data: &[u8]) {
        self.ctx.absorb_data(data);
    }

    fn finish(&mut self, digest: &mut [u8; MDLEN]) {
        self.ctx.shake_xof();
        let mut out: Vec<u8> = vec![0u8; MDLEN];
        self.ctx.shake_out(&mut out);
        let mut i: usize = 0;
        while i < MDLEN
            invariant
                i <= MDLEN,
                out@.len() == MDLEN,
                digest@.len() == MDLEN,
                forall|m: int| 0 <= m < i ==> digest@[m] == out@[m],
            decreases MDLEN - i,
        {
            digest[i] = out[i];
            i += 1;
        }
        proof {
            assert(digest@ =~= out@);
        }
    }
}

impl<const MDLEN: usize> FinishXOF for Shake256<MDLEN> {
    closed spec fn xof_message(&self) -> Seq<u8> {
        self.ctx.msg()
    }

    closed spec fn xof_inv(&self) -> bool {
        self.ctx.wf()
    }

    open spec fn xof_spec(msg: Seq<u8>, n: nat) -> Seq<u8> {
        shake256_spec(msg, n)
    }

    proof fn xof_spec_len(msg: Seq<u8>, n: nat) {
        let lanes = finalize_sponge(absorb3(msg, 136), 136, 0x1f);
        lemma_squeeze_len(SpongeState { lanes, pt: 0 }, n, 136);
    }

    fn finish_xof(&mut self, digest: &mut Vec<u8>) {
        self.ctx.shake_xof();
        self.ctx.shake_out(digest);
    }
}

} // verus!
