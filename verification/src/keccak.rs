//! The Keccak-f[1600] permutation and the generic sponge it drives.
//!
//! The state is 25 lanes of 64 bits. Every step function is verified
//! against a specification-level copy of its defining formula, so
//! `permute` is proved to compute exactly 24 rounds of theta, rho, pi,
//! chi and iota, and `absorb` / `squeeze` are proved to implement the
//! FIPS 202 sponge over that permutation.

use vstd::prelude::*;

verus! {

/// Left rotation of a 64-bit lane.
pub open spec fn rotl_spec(x: u64, n: u64) -> u64
    recommends
        0 < n < 64,
{
    (x << n) | (x >> ((64 - n) as u64))
}

fn rotl64(x: u64, n: u64) -> (r: u64)
    requires
        0 < n < 64,
    ensures
        r == rotl_spec(x, n),
{
    (x << n) | (x >> (64 - n))
}

/// XOR of the five lanes of one column.
pub open spec fn col_xor(s: Seq<u64>, j: int) -> u64
    recommends
        s.len() == 25,
        0 <= j < 5,
{
    s[j] ^ s[j + 5] ^ s[j + 10] ^ s[j + 15] ^ s[j + 20]
}

/// The value theta XORs into every lane of column `j`.
pub open spec fn theta_d(s: Seq<u64>, j: int) -> u64
    recommends
        s.len() == 25,
        0 <= j < 5,
{
    col_xor(s, (j + 4) % 5) ^ rotl_spec(col_xor(s, (j + 1) % 5), 1)
}

/// Theta: each lane absorbs the parities of the two neighbouring columns.
pub open spec fn theta_spec(s: Seq<u64>) -> Seq<u64>
    recommends
        s.len() == 25,
{
    Seq::new(25, |i: int| s[i] ^ theta_d(s, i % 5))
}

/// Source lane feeding position `i` under the combined rho-pi step.
pub open spec fn rho_pi_src(i: int) -> int {
    if i == 1 { 6 } else if i == 2 { 12 } else if i == 3 { 18 } else if i == 4 { 24 }
    else if i == 5 { 3 } else if i == 6 { 9 } else if i == 7 { 10 } else if i == 8 { 16 }
    else if i == 9 { 22 } else if i == 10 { 1 } else if i == 11 { 7 } else if i == 12 { 13 }
    else if i == 13 { 19 } else if i == 14 { 20 } else if i == 15 { 4 } else if i == 16 { 5 }
    else if i == 17 { 11 } else if i == 18 { 17 } else if i == 19 { 23 } else if i == 20 { 2 }
    else if i == 21 { 8 } else if i == 22 { 14 } else if i == 23 { 15 } else if i == 24 { 21 }
    else { 0 }
}

/// Rotation applied to the lane arriving at position `i` under rho-pi.
pub open spec fn rho_pi_rot(i: int) -> u64 {
    if i == 1 { 44 } else if i == 2 { 43 } else if i == 3 { 21 } else if i == 4 { 14 }
    else if i == 5 { 28 } else if i == 6 { 20 } else if i == 7 { 3 } else if i == 8 { 45 }
    else if i == 9 { 61 } else if i == 10 { 1 } else if i == 11 { 6 } else if i == 12 { 25 }
    else if i == 13 { 8 } else if i == 14 { 18 } else if i == 15 { 27 } else if i == 16 { 36 }
    else if i == 17 { 10 } else if i == 18 { 15 } else if i == 19 { 56 } else if i == 20 { 62 }
    else if i == 21 { 55 } else if i == 22 { 39 } else if i == 23 { 41 } else if i == 24 { 2 }
    else { 0 }
}

/// Rho then pi: every lane moves to a fixed position, rotated by a fixed
/// triangular-number offset.
pub open spec fn rho_pi_spec(s: Seq<u64>) -> Seq<u64>
    recommends
        s.len() == 25,
{
    Seq::new(
        25,
        |i: int|
            if i == 0 {
                s[0]
            } else {
                rotl_spec(s[rho_pi_src(i)], rho_pi_rot(i))
            },
    )
}

/// Chi: bitwise nonlinear mix along each row of five lanes.
pub open spec fn chi_spec(s: Seq<u64>) -> Seq<u64>
    recommends
        s.len() == 25,
{
    Seq::new(
        25,
        |i: int| s[i] ^ (!s[(i / 5) * 5 + (i % 5 + 1) % 5] & s[(i / 5) * 5 + (i % 5 + 2) % 5]),
    )
}

/// Iota: the round constant lands in lane 0.
pub open spec fn iota_spec(s: Seq<u64>, rc: u64) -> Seq<u64>
    recommends
        s.len() == 25,
{
    s.update(0, s[0] ^ rc)
}

/// The FIPS 202 round constant of round `i`.
pub open spec fn rc_spec(i: int) -> u64 {
    if i == 0 { 0x0000000000000001 } else if i == 1 { 0x0000000000008082 }
    else if i == 2 { 0x800000000000808a } else if i == 3 { 0x8000000080008000 }
    else if i == 4 { 0x000000000000808b } else if i == 5 { 0x0000000080000001 }
    else if i == 6 { 0x8000000080008081 } else if i == 7 { 0x8000000000008009 }
    else if i == 8 { 0x000000000000008a } else if i == 9 { 0x0000000000000088 }
    else if i == 10 { 0x0000000080008009 } else if i == 11 { 0x000000008000000a }
    else if i == 12 { 0x000000008000808b } else if i == 13 { 0x800000000000008b }
    else if i == 14 { 0x8000000000008089 } else if i == 15 { 0x8000000000008003 }
    else if i == 16 { 0x8000000000008002 } else if i == 17 { 0x8000000000000080 }
    else if i == 18 { 0x000000000000800a } else if i == 19 { 0x800000008000000a }
    else if i == 20 { 0x8000000080008081 } else if i == 21 { 0x8000000000008080 }
    else if i == 22 { 0x0000000080000001 } else { 0x8000000080008008 }
}

/// One full round of the permutation.
pub open spec fn round_spec(s: Seq<u64>, rc: u64) -> Seq<u64>
    recommends
        s.len() == 25,
{
    iota_spec(chi_spec(rho_pi_spec(theta_spec(s))), rc)
}

/// `n` rounds of the permutation, starting from round 0.
pub open spec fn rounds_spec(s: Seq<u64>, n: int) -> Seq<u64>
    recommends
        s.len() == 25,
        0 <= n <= 24,
    decreases n,
{
    if n <= 0 {
        s
    } else {
        round_spec(rounds_spec(s, n - 1), rc_spec(n - 1))
    }
}

/// The complete Keccak-f[1600] permutation: 24 rounds.
pub open spec fn keccak_f_spec(s: Seq<u64>) -> Seq<u64>
    recommends
        s.len() == 25,
{
    rounds_spec(s, 24)
}

fn round_constant(i: usize) -> (r: u64)
    requires
        i < 24,
    ensures
        r == rc_spec(i as int),
{
    match i {
        0 => 0x0000000000000001,
        1 => 0x0000000000008082,
        2 => 0x800000000000808a,
        3 => 0x8000000080008000,
        4 => 0x000000000000808b,
        5 => 0x0000000080000001,
        6 => 0x8000000080008081,
        7 => 0x8000000000008009,
        8 => 0x000000000000008a,
        9 => 0x0000000000000088,
        10 => 0x0000000080008009,
        11 => 0x000000008000000a,
        12 => 0x000000008000808b,
        13 => 0x800000000000008b,
        14 => 0x8000000000008089,
        15 => 0x8000000000008003,
        16 => 0x8000000000008002,
        17 => 0x8000000000000080,
        18 => 0x000000000000800a,
        19 => 0x800000008000000a,
        20 => 0x8000000080008081,
        21 => 0x8000000000008080,
        22 => 0x0000000080000001,
        _ => 0x8000000080008008,
    }
}

/// A Keccak-f[1600] sponge state: 25 lanes plus a flag recording whether
/// the lanes have been used since the last reset.
pub struct Keccak1600 {
    lanes: [u64; 25],
    dirty: bool,
}

/// The all-zero state that every absorption starts from.
pub open spec fn zero_lanes() -> Seq<u64> {
    Seq::new(25, |i: int| 0u64)
}

impl Keccak1600 {
    pub closed spec fn lanes_view(&self) -> Seq<u64> {
        self.lanes@
    }

    pub closed spec fn is_dirty(&self) -> bool {
        self.dirty
    }

    /// A clean state is really clean: when the flag is clear the lanes
    /// are all zero, so `reset` may skip the wipe.
    pub closed spec fn wf(&self) -> bool {
        !self.dirty ==> self.lanes@ == zero_lanes()
    }

    pub fn new() -> (r: Keccak1600)
        ensures
            r.wf(),
            r.lanes_view() == zero_lanes(),
            !r.is_dirty(),
    {
        let r = Keccak1600 { lanes: [0u64; 25], dirty: false };
        proof {
            assert(r.lanes@ =~= zero_lanes());
        }
        r
    }

    /// A state with the given lanes, marked used.
    pub fn from_lanes(lanes: [u64; 25]) -> (r: Keccak1600)
        ensures
            r.lanes_view() == lanes@,
            r.is_dirty(),
            r.wf(),
    {
        Keccak1600 { lanes, dirty: true }
    }

    /// A copy of the 25 lanes.
    pub fn lanes(&self) -> (r: [u64; 25])
        ensures
            r@ == self.lanes_view(),
    {
        self.lanes
    }

    /// Zero the lanes if they have been used, and mark them used.
    pub fn reset(&mut self)
        requires
            old(self).wf(),
        ensures
            final(self).lanes_view() == zero_lanes(),
            final(self).is_dirty(),
            final(self).wf(),
    {
        if self.dirty {
            self.lanes = [0u64; 25];
        }
        self.dirty = true;
        proof {
            assert(self.lanes@ =~= zero_lanes());
        }
    }

    fn theta(&mut self)
        requires
            old(self).lanes_view().len() == 25,
        ensures
            final(self).lanes_view() == theta_spec(old(self).lanes_view()),
            final(self).is_dirty() == old(self).is_dirty(),
    {
        let ghost s = self.lanes@;
        let mut p: [u64; 5] = [0u64; 5];
        for j in 0..5
            invariant
                self.lanes@ == s,
                forall|k: int| 0 <= k < j ==> p@[k] == col_xor(s, k),
        {
            p[j] = self.lanes[j] ^ self.lanes[j + 5] ^ self.lanes[j + 10] ^ self.lanes[j + 15]
                ^ self.lanes[j + 20];
        }
        let mut d: [u64; 5] = [0u64; 5];
        for j in 0..5
            invariant
                self.lanes@ == s,
                forall|k: int| 0 <= k < 5 ==> p@[k] == col_xor(s, k),
                forall|k: int| 0 <= k < j ==> d@[k] == theta_d(s, k),
        {
            d[j] = p[(j + 4) % 5] ^ rotl64(p[(j + 1) % 5], 1);
        }
        let mut out: [u64; 25] = [0u64; 25];
        for i in 0..25
            invariant
                self.lanes@ == s,
                forall|k: int| 0 <= k < 5 ==> d@[k] == theta_d(s, k),
                forall|k: int| 0 <= k < i ==> out@[k] == s[k] ^ theta_d(s, k % 5),
        {
            out[i] = self.lanes[i] ^ d[i % 5];
        }
        self.lanes = out;
        proof {
            assert(self.lanes@ =~= theta_spec(s));
        }
    }

    fn rho_pi(&mut self)
        requires
            old(self).lanes_view().len() == 25,
        ensures
            final(self).lanes_view() == rho_pi_spec(old(self).lanes_view()),
            final(self).is_dirty() == old(self).is_dirty(),
    {
        let ghost s = self.lanes@;
        let mut out: [u64; 25] = [0u64; 25];
        out[0] = self.lanes[0];
        out[1] = rotl64(self.lanes[6], 44);
        out[2] = rotl64(self.lanes[12], 43);
        out[3] = rotl64(self.lanes[18], 21);
        out[4] = rotl64(self.lanes[24], 14);
        out[5] = rotl64(self.lanes[3], 28);
        out[6] = rotl64(self.lanes[9], 20);
        out[7] = rotl64(self.lanes[10], 3);
        out[8] = rotl64(self.lanes[16], 45);
        out[9] = rotl64(self.lanes[22], 61);
        out[10] = rotl64(self.lanes[1], 1);
        out[11] = rotl64(self.lanes[7], 6);
        out[12] = rotl64(self.lanes[13], 25);
        out[13] = rotl64(self.lanes[19], 8);
        out[14] = rotl64(self.lanes[20], 18);
        out[15] = rotl64(self.lanes[4], 27);
        out[16] = rotl64(self.lanes[5], 36);
        out[17] = rotl64(self.lanes[11], 10);
        out[18] = rotl64(self.lanes[17], 15);
        out[19] = rotl64(self.lanes[23], 56);
        out[20] = rotl64(self.lanes[2], 62);
        out[21] = rotl64(self.lanes[8], 55);
        out[22] = rotl64(self.lanes[14], 39);
        out[23] = rotl64(self.lanes[15], 41);
        out[24] = rotl64(self.lanes[21], 2);
        self.lanes = out;
        proof {
            assert(self.lanes@ =~= rho_pi_spec(s));
        }
    }

    fn chi(&mut self)
        requires
            old(self).lanes_view().len() == 25,
        ensures
            final(self).lanes_view() == chi_spec(old(self).lanes_view()),
            final(self).is_dirty() == old(self).is_dirty(),
    {
        let ghost s = self.lanes@;
        let mut out: [u64; 25] = [0u64; 25];
        for i in 0..25
            invariant
                self.lanes@ == s,
                forall|k: int|
                    0 <= k < i ==> out@[k] == (s[k] ^ (!s[(k / 5) * 5 + (k % 5 + 1) % 5] & s[(k / 5)
                        * 5 + (k % 5 + 2) % 5])),
        {
            let row = i / 5;
            let c = i % 5;
            out[i] = self.lanes[i] ^ (!self.lanes[row * 5 + (c + 1) % 5] & self.lanes[row * 5 + (c
                + 2) % 5]);
        }
        self.lanes = out;
        proof {
            assert(self.lanes@ =~= chi_spec(s));
        }
    }

    fn iota(&mut self, rc: u64)
        requires
            old(self).lanes_view().len() == 25,
        ensures
            final(self).lanes_view() == iota_spec(old(self).lanes_view(), rc),
            final(self).is_dirty() == old(self).is_dirty(),
    {
        let ghost s = self.lanes@;
        self.lanes[0] = self.lanes[0] ^ rc;
        proof {
            assert(self.lanes@ =~= iota_spec(s, rc));
        }
    }

    /// Apply all 24 rounds of Keccak-f[1600] to the state.
    pub fn permute(&mut self)
        ensures
            final(self).lanes_view() == keccak_f_spec(old(self).lanes_view()),
            final(self).is_dirty() == old(self).is_dirty(),
    {
        let ghost s0 = self.lanes@;
        for i in 0..24
            invariant
                self.lanes@ == rounds_spec(s0, i as int),
                self.dirty == old(self).dirty,
                s0.len() == 25,
        {
            let rc = round_constant(i);
            self.theta();
            self.rho_pi();
            self.chi();
            self.iota(rc);
        }
    }

    fn xor_block(&mut self, bytes: &[u8], off: usize, rate_lanes: usize)
        requires
            1 <= rate_lanes <= 25,
            off + 8 * rate_lanes <= bytes@.len(),
        ensures
            final(self).lanes_view() == xor_lanes(
                old(self).lanes_view(),
                bytes@.subrange(off as int, off + 8 * rate_lanes),
                rate_lanes as int,
            ),
            final(self).is_dirty() == old(self).is_dirty(),
    {
        let ghost s0 = self.lanes@;
        let blen: usize = bytes.len();
        for j in 0..rate_lanes
            invariant
                1 <= rate_lanes <= 25,
                off + 8 * rate_lanes <= blen,
                blen == bytes@.len(),
                s0.len() == 25,
                self.dirty == old(self).dirty,
                self.lanes@.len() == 25,
                forall|k: int| 0 <= k < j ==> self.lanes@[k] == (s0[k] ^ le64_at(bytes@, off + 8 * k)),
                forall|k: int| j <= k < 25 ==> self.lanes@[k] == s0[k],
        {
            let v = load_lane(bytes, off + 8 * j);
            self.lanes[j] = self.lanes[j] ^ v;
        }
        proof {
            assert(self.lanes@ =~= xor_lanes(
                s0,
                bytes@.subrange(off as int, off + 8 * rate_lanes),
                rate_lanes as int,
            ));
        }
    }

    /// Absorb a full message: reset, XOR rate-sized blocks into the state
    /// with a permutation after each, then the padded final block with the
    /// domain separator and the closing bit.
    pub fn absorb(&mut self, data: &[u8], rate_lanes: usize, delim: u8)
        requires
            old(self).wf(),
            1 <= rate_lanes <= 25,
        ensures
            final(self).lanes_view() == absorb_spec(data@, rate_lanes as int, delim),
            final(self).is_dirty(),
            final(self).wf(),
    {
        let ghost rl = rate_lanes as int;
        self.reset();
        let rb: usize = rate_lanes * 8;
        let mut off: usize = 0;
        proof {
            assert(data@.skip(0) =~= data@);
        }
        while data.len() - off >= rb
            invariant
                old(self).wf(),
                1 <= rate_lanes <= 25,
                rb == rate_lanes * 8,
                off <= data@.len(),
                self.dirty,
                self.lanes@.len() == 25,
                absorb_loop(self.lanes@, data@.skip(off as int), rl, delim) == absorb_spec(
                    data@,
                    rl,
                    delim,
                ),
                rl == rate_lanes as int,
            decreases data@.len() - off,
        {
            let ghost s_pre = self.lanes@;
            let ghost rest = data@.skip(off as int);
            self.xor_block(data, off, rate_lanes);
            proof {
                assert(data@.subrange(off as int, off + 8 * rl) =~= rest.take(8 * rl));
            }
            self.permute();
            proof {
                assert(data@.skip(off + rb) =~= rest.skip(8 * rl));
            }
            off = off + rb;
        }
        let ghost s_pre = self.lanes@;
        let ghost rest = data@.skip(off as int);
        let rem: usize = data.len() - off;
        let dlen: usize = data.len();
        let mut buf = [0u8; 200];
        for i in 0..rem
            invariant
                rem == data@.len() - off,
                off + rem <= dlen,
                dlen == data@.len(),
                rem < rb <= 200,
                buf@.len() == 200,
                forall|k: int| 0 <= k < i ==> buf@[k] == data@[off + k],
                forall|k: int| i <= k < 200 ==> buf@[k] == 0u8,
        {
            buf[i] = data[off + i];
        }
        buf[rem] = delim;
        let ghost s_mid = self.lanes@;
        self.xor_block(buf.as_slice(), 0, rate_lanes);
        proof {
            assert(buf@.subrange(0, 8 * rl) =~= pad_block(rest, rl, delim));
        }
        self.lanes[rate_lanes - 1] = self.lanes[rate_lanes - 1] ^ 0x8000000000000000u64;
        proof {
            assert(self.lanes@ =~= finalize_spec(
                xor_lanes(s_mid, pad_block(rest, rl, delim), rl),
                rl,
            ));
        }
    }

    /// Fill `out` with sponge output: before each rate-sized block of
    /// output bytes the state is permuted once.
    pub fn squeeze(&mut self, out: &mut [u8], rate_lanes: usize)
        requires
            1 <= rate_lanes <= 25,
            old(self).is_dirty(),
        ensures
            final(out)@ == squeeze_out(
                old(self).lanes_view(),
                old(out)@.len() as int,
                rate_lanes as int,
            ),
            final(out)@.len() == old(out)@.len(),
            final(self).lanes_view() == squeeze_state(
                old(self).lanes_view(),
                old(out)@.len() as int,
                rate_lanes as int,
            ),
            final(self).is_dirty(),
            final(self).wf(),
    {
        let ghost rl = rate_lanes as int;
        let ghost s0 = self.lanes@;
        let ghost n = out@.len() as int;
        let rb: usize = rate_lanes * 8;
        let total: usize = out.len();
        let mut off: usize = 0;
        while off < total
            invariant
                1 <= rate_lanes <= 25,
                rb == rate_lanes * 8,
                rl == rate_lanes as int,
                out@.len() == n,
                total == n,
                off <= total,
                self.dirty,
                self.lanes@.len() == 25,
                out@.take(off as int) + squeeze_out(self.lanes@, n - off, rl) == squeeze_out(
                    s0,
                    n,
                    rl,
                ),
                squeeze_state(self.lanes@, n - off, rl) == squeeze_state(s0, n, rl),
            decreases total - off,
        {
            let ghost s_pre = self.lanes@;
            let ghost prefix_done = out@.take(off as int);
            self.permute();
            let m: usize = if total - off < rb {
                total - off
            } else {
                rb
            };
            let ghost s1 = self.lanes@;
            for i in 0..m
                invariant
                    off + m <= total,
                    out@.len() == n,
                    total == n,
                    m <= rb,
                    rb == rate_lanes * 8,
                    rate_lanes <= 25,
                    self.lanes@ == s1,
                    self.dirty,
                    s1.len() == 25,
                    out@.take(off as int) == prefix_done,
                    forall|k: int| 0 <= k < i ==> out@[off + k] == state_byte(s1, k),
            {
                let sh: usize = 8 * (i % 8);
                let b: u8 = #[verifier::truncate] (((self.lanes[i / 8] >> sh) & 0xff) as u8);
                out[off + i] = b;
                proof {
                    assert(out@.take(off as int) =~= prefix_done);
                }
            }
            proof {
                assert(out@.subrange(off as int, off + m) =~= state_prefix_bytes(s1, m as int));
                assert(out@.take(off + m) =~= prefix_done + state_prefix_bytes(s1, m as int));
                if n - off > 8 * rl {
                    assert(out@.take(off + m) + squeeze_out(s1, n - (off + m), rl) =~= prefix_done
                        + (state_prefix_bytes(s1, 8 * rl) + squeeze_out(s1, n - off - 8 * rl, rl)));
                } else {
                    assert(squeeze_out(s1, n - (off + m), rl) =~= Seq::<u8>::empty());
                    assert(out@.take(off + m) + squeeze_out(s1, n - (off + m), rl) =~= out@.take(
                        off + m,
                    ));
                }
            }
            off = off + m;
        }
        proof {
            assert(final(out)@ =~= out@.take(n));
        }
    }
}

/// The eight bytes starting at `off`, combined little-endian into a lane.
pub open spec fn le64_at(b: Seq<u8>, off: int) -> u64
    recommends
        0 <= off,
        off + 8 <= b.len(),
{
    (b[off] as u64) | ((b[off + 1] as u64) << 8) | ((b[off + 2] as u64) << 16) | ((b[off + 3]
        as u64) << 24) | ((b[off + 4] as u64) << 32) | ((b[off + 5] as u64) << 40) | ((b[off + 6]
        as u64) << 48) | ((b[off + 7] as u64) << 56)
}

fn load_lane(bytes: &[u8], off: usize) -> (r: u64)
    requires
        off + 8 <= bytes@.len(),
    ensures
        r == le64_at(bytes@, off as int),
{
    (bytes[off] as u64) | ((bytes[off + 1] as u64) << 8) | ((bytes[off + 2] as u64) << 16) | ((
    bytes[off + 3] as u64) << 24) | ((bytes[off + 4] as u64) << 32) | ((bytes[off + 5] as u64)
        << 40) | ((bytes[off + 6] as u64) << 48) | ((bytes[off + 7] as u64) << 56)
}

/// XOR one rate-sized block of bytes into the first `rl` lanes.
pub open spec fn xor_lanes(s: Seq<u64>, block: Seq<u8>, rl: int) -> Seq<u64>
    recommends
        s.len() == 25,
        block.len() == 8 * rl,
        1 <= rl <= 25,
{
    Seq::new(
        25,
        |i: int|
            if i < rl {
                s[i] ^ le64_at(block, 8 * i)
            } else {
                s[i]
            },
    )
}

/// The final, possibly empty, piece of the message extended to a full
/// block: the data, then the domain separator, then zeros.
pub open spec fn pad_block(rem: Seq<u8>, rl: int, delim: u8) -> Seq<u8>
    recommends
        rem.len() < 8 * rl,
{
    Seq::new(
        (8 * rl) as nat,
        |i: int|
            if i < rem.len() {
                rem[i]
            } else if i == rem.len() {
                delim
            } else {
                0u8
            },
    )
}

/// XOR of the closing pad bit into the top bit of the last rate lane.
pub open spec fn finalize_spec(s: Seq<u64>, rl: int) -> Seq<u64>
    recommends
        s.len() == 25,
        1 <= rl <= 25,
{
    s.update(rl - 1, s[rl - 1] ^ 0x8000000000000000u64)
}

/// The state an absorption starting from `s` reaches after consuming
/// `data`: full blocks each followed by a permutation, then the padded
/// final block.
pub open spec fn absorb_loop(s: Seq<u64>, data: Seq<u8>, rl: int, delim: u8) -> Seq<u64>
    recommends
        s.len() == 25,
        1 <= rl <= 25,
    decreases data.len(),
{
    if rl >= 1 && data.len() >= 8 * rl {
        absorb_loop(keccak_f_spec(xor_lanes(s, data.take(8 * rl), rl)), data.skip(8 * rl), rl, delim)
    } else {
        finalize_spec(xor_lanes(s, pad_block(data, rl, delim), rl), rl)
    }
}

/// The sponge state after absorbing `data` into a fresh state.
pub open spec fn absorb_spec(data: Seq<u8>, rl: int, delim: u8) -> Seq<u64> {
    absorb_loop(zero_lanes(), data, rl, delim)
}

/// Byte `k` of the state read in little-endian lane order.
pub open spec fn state_byte(s: Seq<u64>, k: int) -> u8
    recommends
        s.len() == 25,
        0 <= k < 200,
{
    ((s[k / 8] >> ((8 * (k % 8)) as u64)) & 0xff) as u8
}

/// The first `n` output bytes of the state.
pub open spec fn state_prefix_bytes(s: Seq<u64>, n: int) -> Seq<u8>
    recommends
        s.len() == 25,
        0 <= n <= 200,
{
    Seq::new(if n >= 0 { n as nat } else { 0 }, |i: int| state_byte(s, i))
}

/// The bytes produced by squeezing `n` bytes at rate `rl` from state `s`.
pub open spec fn squeeze_out(s: Seq<u64>, n: int, rl: int) -> Seq<u8>
    recommends
        s.len() == 25,
        1 <= rl <= 25,
    decreases n,
{
    if n <= 0 || rl < 1 {
        Seq::empty()
    } else {
        if n <= 8 * rl {
            state_prefix_bytes(keccak_f_spec(s), n)
        } else {
            state_prefix_bytes(keccak_f_spec(s), 8 * rl) + squeeze_out(
                keccak_f_spec(s),
                n - 8 * rl,
                rl,
            )
        }
    }
}

/// The state left behind after squeezing `n` bytes at rate `rl`.
pub open spec fn squeeze_state(s: Seq<u64>, n: int, rl: int) -> Seq<u64>
    recommends
        s.len() == 25,
        1 <= rl <= 25,
    decreases n,
{
    if n <= 0 || rl < 1 {
        s
    } else {
        if n <= 8 * rl {
            keccak_f_spec(s)
        } else {
            squeeze_state(keccak_f_spec(s), n - 8 * rl, rl)
        }
    }
}

} // verus!
