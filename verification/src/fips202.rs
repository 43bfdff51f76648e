//! The four FIPS 202 sponge modes used by the CRYSTALS schemes, each a
//! thin shell around the verified Keccak-f[1600] sponge with its own rate
//! and domain separator, plus the specialized seed-and-nonce absorptions
//! that Kyber's XOF and PRF perform.

use crate::keccak::{absorb_spec, squeeze_out, squeeze_state, zero_lanes, Keccak1600};
use vstd::prelude::*;

verus! {

/// Rate in lanes and bytes, and domain separator, of each mode.
pub const SHA3_256_RATE_LANES: usize = 17;

pub const SHA3_256_RATE_BYTES: usize = 136;

pub const SHA3_512_RATE_LANES: usize = 9;

pub const SHA3_512_RATE_BYTES: usize = 72;

pub const SHAKE128_RATE_LANES: usize = 21;

pub const SHAKE128_RATE_BYTES: usize = 168;

pub const SHAKE256_RATE_LANES: usize = 17;

pub const SHAKE256_RATE_BYTES: usize = 136;

pub const SHA3_DELIM: u8 = 0x06;

pub const SHAKE_DELIM: u8 = 0x1f;

/// The rate and domain separator of one sponge mode.
pub trait KeccakParams {
    spec fn spec_rate_lanes() -> u8;

    spec fn spec_delim() -> u8;

    fn rate_lanes() -> (r: u8)
        ensures
            r == Self::spec_rate_lanes(),
    ;

    fn rate_bytes() -> (r: usize)
        ensures
            r == 8 * Self::spec_rate_lanes(),
    ;

    fn delim() -> (r: u8)
        ensures
            r == Self::spec_delim(),
    ;
}

/// The SHA3-256 mode parameters: rate 17 lanes, separator 0x06.
pub struct Sha3_256Params {}

impl KeccakParams for Sha3_256Params {
    open spec fn spec_rate_lanes() -> u8 {
        17
    }

    open spec fn spec_delim() -> u8 {
        0x06
    }

    fn rate_lanes() -> u8 {
        17
    }

    fn rate_bytes() -> usize {
        136
    }

    fn delim() -> u8 {
        0x06
    }
}

/// The SHA3-512 mode parameters: rate 9 lanes, separator 0x06.
pub struct Sha3_512Params {}

impl KeccakParams for Sha3_512Params {
    open spec fn spec_rate_lanes() -> u8 {
        9
    }

    open spec fn spec_delim() -> u8 {
        0x06
    }

    fn rate_lanes() -> u8 {
        9
    }

    fn rate_bytes() -> usize {
        72
    }

    fn delim() -> u8 {
        0x06
    }
}

/// The SHAKE128 mode parameters: rate 21 lanes, separator 0x1f.
pub struct Shake128Params {}

impl KeccakParams for Shake128Params {
    open spec fn spec_rate_lanes() -> u8 {
        21
    }

    open spec fn spec_delim() -> u8 {
        0x1f
    }

    fn rate_lanes() -> u8 {
        21
    }

    fn rate_bytes() -> usize {
        168
    }

    fn delim() -> u8 {
        0x1f
    }
}

/// The SHAKE256 mode parameters: rate 17 lanes, separator 0x1f.
pub struct Shake256Params {}

impl KeccakParams for Shake256Params {
    open spec fn spec_rate_lanes() -> u8 {
        17
    }

    open spec fn spec_delim() -> u8 {
        0x1f
    }

    fn rate_lanes() -> u8 {
        17
    }

    fn rate_bytes() -> usize {
        136
    }

    fn delim() -> u8 {
        0x1f
    }
}

/// The SHA3-256 digest of a message.
pub open spec fn sha3_256_spec(data: Seq<u8>) -> Seq<u8> {
    squeeze_out(absorb_spec(data, 17, 0x06), 32, 17)
}

/// The SHA3-512 digest of a message.
pub open spec fn sha3_512_spec(data: Seq<u8>) -> Seq<u8> {
    squeeze_out(absorb_spec(data, 9, 0x06), 64, 9)
}

/// The first `n` bytes of SHAKE128 output for a message.
pub open spec fn shake128_spec(data: Seq<u8>, n: int) -> Seq<u8> {
    squeeze_out(absorb_spec(data, 21, 0x1f), n, 21)
}

/// The first `n` bytes of SHAKE256 output for a message.
pub open spec fn shake256_spec(data: Seq<u8>, n: int) -> Seq<u8> {
    squeeze_out(absorb_spec(data, 17, 0x1f), n, 17)
}

/// The sponge output of one mode is a function of the absorbed message
/// alone: two fresh sponges fed equal input yield equal output.
pub proof fn lemma_sponge_deterministic(d1: Seq<u8>, d2: Seq<u8>, n: int, rl: int, delim: u8)
    requires
        d1 == d2,
    ensures
        absorb_spec(d1, rl, delim) == absorb_spec(d2, rl, delim),
        squeeze_out(absorb_spec(d1, rl, delim), n, rl) == squeeze_out(
            absorb_spec(d2, rl, delim),
            n,
            rl,
        ),
{
}

/// SHA3-256: rate 136 bytes, 32-byte digest.
pub struct Sha3_256 {
    k: Keccak1600,
}

impl Sha3_256 {
    pub closed spec fn state(&self) -> Seq<u64> {
        self.k.lanes_view()
    }

    pub closed spec fn wf(&self) -> bool {
        self.k.wf()
    }

    pub closed spec fn is_dirty(&self) -> bool {
        self.k.is_dirty()
    }

    pub fn new() -> (r: Sha3_256)
        ensures
            r.wf(),
            !r.is_dirty(),
    {
        Sha3_256 { k: Keccak1600::new() }
    }

    pub fn absorb(&mut self, data: &[u8])
        requires
            old(self).wf(),
        ensures
            final(self).state() == absorb_spec(data@, 17, 0x06),
            final(self).wf(),
            final(self).is_dirty(),
    {
        self.k.absorb(data, SHA3_256_RATE_LANES, SHA3_DELIM);
    }

    pub fn squeeze(&mut self, out: &mut [u8])
        requires
            old(self).wf(),
            old(self).is_dirty(),
        ensures
            final(out)@ == squeeze_out(old(self).state(), old(out)@.len() as int, 17),
            final(out)@.len() == old(out)@.len(),
            final(self).state() == squeeze_state(old(self).state(), old(out)@.len() as int, 17),
            final(self).wf(),
            final(self).is_dirty(),
    {
        self.k.squeeze(out, SHA3_256_RATE_LANES);
    }

    /// Hash `data`; `out` must hold exactly the 32 digest bytes.
    pub fn digest(&mut self, data: &[u8], out: &mut [u8])
        requires
            old(self).wf(),
            old(out)@.len() == 32,
        ensures
            final(out)@ == sha3_256_spec(data@),
            final(self).wf(),
    {
        self.absorb(data);
        self.squeeze(out);
    }
}

impl Default for Sha3_256 {
    fn default() -> (r: Sha3_256)
        ensures
            r.wf(),
            !r.is_dirty(),
    {
        Sha3_256::new()
    }
}

/// SHA3-512: rate 72 bytes, 64-byte digest.
pub struct Sha3_512 {
    k: Keccak1600,
}

impl Sha3_512 {
    pub closed spec fn state(&self) -> Seq<u64> {
        self.k.lanes_view()
    }

    pub closed spec fn wf(&self) -> bool {
        self.k.wf()
    }

    pub closed spec fn is_dirty(&self) -> bool {
        self.k.is_dirty()
    }

    pub fn new() -> (r: Sha3_512)
        ensures
            r.wf(),
            !r.is_dirty(),
    {
        Sha3_512 { k: Keccak1600::new() }
    }

    pub fn absorb(&mut self, data: &[u8])
        requires
            old(self).wf(),
        ensures
            final(self).state() == absorb_spec(data@, 9, 0x06),
            final(self).wf(),
            final(self).is_dirty(),
    {
        self.k.absorb(data, SHA3_512_RATE_LANES, SHA3_DELIM);
    }

    pub fn squeeze(&mut self, out: &mut [u8])
        requires
            old(self).wf(),
            old(self).is_dirty(),
        ensures
            final(out)@ == squeeze_out(old(self).state(), old(out)@.len() as int, 9),
            final(out)@.len() == old(out)@.len(),
            final(self).state() == squeeze_state(old(self).state(), old(out)@.len() as int, 9),
            final(self).wf(),
            final(self).is_dirty(),
    {
        self.k.squeeze(out, SHA3_512_RATE_LANES);
    }

    /// Hash `data`; `out` must hold exactly the 64 digest bytes.
    pub fn digest(&mut self, data: &[u8], out: &mut [u8])
        requires
            old(self).wf(),
            old(out)@.len() == 64,
        ensures
            final(out)@ == sha3_512_spec(data@),
            final(self).wf(),
    {
        self.absorb(data);
        self.squeeze(out);
    }
}

impl Default for Sha3_512 {
    fn default() -> (r: Sha3_512)
        ensures
            r.wf(),
            !r.is_dirty(),
    {
        Sha3_512::new()
    }
}

/// SHAKE128: rate 168 bytes, arbitrary-length output; Kyber's matrix XOF.
pub struct Shake128 {
    k: Keccak1600,
}

impl Shake128 {
    pub closed spec fn state(&self) -> Seq<u64> {
        self.k.lanes_view()
    }

    pub closed spec fn wf(&self) -> bool {
        self.k.wf()
    }

    pub closed spec fn is_dirty(&self) -> bool {
        self.k.is_dirty()
    }

    pub fn new() -> (r: Shake128)
        ensures
            r.wf(),
            !r.is_dirty(),
    {
        Shake128 { k: Keccak1600::new() }
    }

    pub fn absorb(&mut self, data: &[u8])
        requires
            old(self).wf(),
        ensures
            final(self).state() == absorb_spec(data@, 21, 0x1f),
            final(self).wf(),
            final(self).is_dirty(),
    {
        self.k.absorb(data, SHAKE128_RATE_LANES, SHAKE_DELIM);
    }

    /// The CRYSTALS XOF absorption: the 32-byte seed followed by the two
    /// matrix-position nonces.
    pub fn absorb_xof_with_nonces(&mut self, seed: &[u8], n1: u8, n2: u8)
        requires
            old(self).wf(),
            seed@.len() == 32,
        ensures
            final(self).state() == absorb_spec(seed@ + seq![n1, n2], 21, 0x1f),
            final(self).wf(),
            final(self).is_dirty(),
    {
        let mut buf = [0u8; 34];
        for i in 0..32
            invariant
                seed@.len() == 32,
                buf@.len() == 34,
                forall|k: int| 0 <= k < i ==> buf@[k] == seed@[k],
        {
            buf[i] = seed[i];
        }
        buf[32] = n1;
        buf[33] = n2;
        proof {
            assert(buf@ =~= seed@ + seq![n1, n2]);
        }
        self.k.absorb(buf.as_slice(), SHAKE128_RATE_LANES, SHAKE_DELIM);
    }

    pub fn squeeze(&mut self, out: &mut [u8])
        requires
            old(self).wf(),
            old(self).is_dirty(),
        ensures
            final(out)@ == squeeze_out(old(self).state(), old(out)@.len() as int, 21),
            final(out)@.len() == old(out)@.len(),
            final(self).state() == squeeze_state(old(self).state(), old(out)@.len() as int, 21),
            final(self).wf(),
            final(self).is_dirty(),
    {
        self.k.squeeze(out, SHAKE128_RATE_LANES);
    }

    /// One full rate-sized block of output.
    pub fn squeezed_block(&mut self) -> (out: [u8; 168])
        requires
            old(self).wf(),
            old(self).is_dirty(),
        ensures
            out@ == squeeze_out(old(self).state(), 168, 21),
            final(self).state() == squeeze_state(old(self).state(), 168, 21),
            final(self).wf(),
            final(self).is_dirty(),
    {
        let mut out = [0u8; 168];
        self.k.squeeze(vstd::array::ref_mut_array_unsizing_coercion(&mut out), SHAKE128_RATE_LANES);
        out
    }
}

impl Default for Shake128 {
    fn default() -> (r: Shake128)
        ensures
            r.wf(),
            !r.is_dirty(),
    {
        Shake128::new()
    }
}

/// SHAKE256: rate 136 bytes, arbitrary-length output; Kyber's noise PRF.
pub struct Shake256 {
    k: Keccak1600,
}

impl Shake256 {
    pub closed spec fn state(&self) -> Seq<u64> {
        self.k.lanes_view()
    }

    pub closed spec fn wf(&self) -> bool {
        self.k.wf()
    }

    pub closed spec fn is_dirty(&self) -> bool {
        self.k.is_dirty()
    }

    pub fn new() -> (r: Shake256)
        ensures
            r.wf(),
            !r.is_dirty(),
    {
        Shake256 { k: Keccak1600::new() }
    }

    pub fn absorb(&mut self, data: &[u8])
        requires
            old(self).wf(),
        ensures
            final(self).state() == absorb_spec(data@, 17, 0x1f),
            final(self).wf(),
            final(self).is_dirty(),
    {
        self.k.absorb(data, SHAKE256_RATE_LANES, SHAKE_DELIM);
    }

    /// The CRYSTALS PRF absorption: the 32-byte seed followed by the
    /// one-byte nonce.
    pub fn absorb_prf(&mut self, seed: &[u8], nonce: u8)
        requires
            old(self).wf(),
            seed@.len() == 32,
        ensures
            final(self).state() == absorb_spec(seed@ + seq![nonce], 17, 0x1f),
            final(self).wf(),
            final(self).is_dirty(),
    {
        let mut buf = [0u8; 33];
        for i in 0..32
            invariant
                seed@.len() == 32,
                buf@.len() == 33,
                forall|k: int| 0 <= k < i ==> buf@[k] == seed@[k],
        {
            buf[i] = seed[i];
        }
        buf[32] = nonce;
        proof {
            assert(buf@ =~= seed@ + seq![nonce]);
        }
        self.k.absorb(buf.as_slice(), SHAKE256_RATE_LANES, SHAKE_DELIM);
    }

    pub fn squeeze(&mut self, out: &mut [u8])
        requires
            old(self).wf(),
            old(self).is_dirty(),
        ensures
            final(out)@ == squeeze_out(old(self).state(), old(out)@.len() as int, 17),
            final(out)@.len() == old(out)@.len(),
            final(self).state() == squeeze_state(old(self).state(), old(out)@.len() as int, 17),
            final(self).wf(),
            final(self).is_dirty(),
    {
        self.k.squeeze(out, SHAKE256_RATE_LANES);
    }
}

impl Default for Shake256 {
    fn default() -> (r: Shake256)
        ensures
            r.wf(),
            !r.is_dirty(),
    {
        Shake256::new()
    }
}

} // verus!
