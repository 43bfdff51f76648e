//! Little-endian bit-field packing: the byte codec shared by polynomial
//! serialization (12-bit fields), ciphertext compression (4, 5, 10 and
//! 11-bit fields) and message encoding (1-bit fields).
//!
//! A sequence of `d`-bit values is laid out as one contiguous bit stream,
//! least significant bit first, and the stream is cut into bytes.

use vstd::prelude::*;

verus! {

/// Bit `i` of a byte sequence read least-significant-bit first.
pub open spec fn bit_of(bytes: Seq<u8>, i: int) -> u8
    recommends
        0 <= i,
        i < 8 * bytes.len(),
{
    (bytes[i / 8] >> ((i % 8) as u8)) & 1
}

/// Bit `i` of the stream formed by the `d`-bit fields of `vals`.
pub open spec fn stream_bit(vals: Seq<u16>, d: int, i: int) -> u16
    recommends
        1 <= d,
        0 <= i,
        i < d * vals.len(),
{
    (vals[i / d] >> ((i % d) as u16)) & 1
}

/// The first `u` bits of byte `b` of the packed stream, weighted
/// little-endian.
pub open spec fn stream_weight(vals: Seq<u16>, d: int, b: int, u: int) -> u16
    recommends
        1 <= d,
        0 <= u <= 8,
    decreases u,
{
    if u <= 0 {
        0
    } else {
        (stream_weight(vals, d, b, u - 1) + stream_bit(vals, d, 8 * b + (u - 1)) * (1u16 << ((u
            - 1) as u16))) as u16
    }
}

/// Byte `b` of the packed stream: its eight bits weighted.
pub open spec fn packed_byte(vals: Seq<u16>, d: int, b: int) -> u16
    recommends
        1 <= d,
        0 <= b,
        8 * b + 8 <= d * vals.len(),
{
    stream_weight(vals, d, b, 8)
}

/// The packed byte stream of `n` bytes.
pub open spec fn pack_spec(vals: Seq<u16>, d: int, n: int) -> Seq<u8>
    recommends
        1 <= d,
        8 * n == d * vals.len(),
{
    Seq::new(if n >= 0 { n as nat } else { 0 }, |b: int| packed_byte(vals, d, b) as u8)
}

/// The first `v` bits of field `j`, weighted little-endian.
pub open spec fn field_prefix(bytes: Seq<u8>, d: int, j: int, v: int) -> u16
    recommends
        1 <= d <= 12,
        0 <= v <= d,
    decreases v,
{
    if v <= 0 {
        0
    } else {
        (field_prefix(bytes, d, j, v - 1) + (bit_of(bytes, d * j + (v - 1)) as u16) * (1u16 << ((v
            - 1) as u16))) as u16
    }
}

/// Field `j` of the stream: its `d` bits recombined into a value.
pub open spec fn unpacked_field(bytes: Seq<u8>, d: int, j: int) -> u16
    recommends
        1 <= d <= 12,
        d * (j + 1) <= 8 * bytes.len(),
{
    field_prefix(bytes, d, j, d)
}

/// All `n` fields of the stream.
pub open spec fn unpack_spec(bytes: Seq<u8>, d: int, n: int) -> Seq<u16>
    recommends
        1 <= d <= 12,
        d * n <= 8 * bytes.len(),
{
    Seq::new(if n >= 0 { n as nat } else { 0 }, |j: int| unpacked_field(bytes, d, j))
}

/// Pack the `d`-bit values `vals` into `out` as a little-endian bit
/// stream; every value must fit in `d` bits for the stream to be
/// invertible, but the packing itself simply drops higher bits.
pub fn pack_fields(vals: &[u16], d: usize, out: &mut [u8])
    requires
        1 <= d <= 12,
        8 * old(out)@.len() == d * vals@.len(),
        vals@.len() <= 4096,
    ensures
        final(out)@ == pack_spec(vals@, d as int, old(out)@.len() as int),
        final(out)@.len() == old(out)@.len(),
{
    let n = out.len();
    let nv = vals.len();
    proof {
        assert(n <= 6144) by (nonlinear_arith)
            requires
                8 * n == d * nv,
                d <= 12,
                nv <= 4096,
        ;
    }
    for b in 0..n
        invariant
            1 <= d <= 12,
            8 * n == d * nv,
            n == out@.len(),
            n <= 6144,
            nv == vals@.len(),
            nv <= 4096,
            forall|k: int| 0 <= k < b ==> out@[k] == packed_byte(vals@, d as int, k) as u8,
    {
        let mut acc: u16 = 0;
        proof {
            assert(1u16 << 0u16 == 1) by (bit_vector);
        }
        for u in 0..8
            invariant
                1 <= d <= 12,
                8 * n == d * nv,
                b < n,
                n <= 6144,
                nv == vals@.len(),
                nv <= 4096,
                acc == stream_weight(vals@, d as int, b as int, u as int),
                acc < (1u16 << (u as u16)),
        {
            let i: usize = 8 * b + u;
            proof {
                assert(i < d * nv && i / d < nv && i % d < d) by (nonlinear_arith)
                    requires
                        i == 8 * b + u,
                        b < n,
                        u < 8,
                        8 * n == d * nv,
                        1 <= d,
                ;
            }
            let tv: u16 = vals[i / d];
            let sh: u16 = (i % d) as u16;
            let bit: u16 = (tv >> sh) & 1;
            proof {
                assert(((tv >> sh) & 1) <= 1) by (bit_vector);
                assert((acc + (bit << (u as u16))) < (1u16 << ((u + 1) as u16)) && (1u16 << ((u
                    + 1) as u16)) <= 256 && (bit << (u as u16)) == bit * (1u16 << (u as u16)))
                    by (bit_vector)
                    requires
                        u < 8usize,
                        bit <= 1,
                        acc < (1u16 << (u as u16)),
                ;
            }
            acc = acc + (bit << (u as u16));
        }
        proof {
            assert(acc < 256) by (bit_vector)
                requires
                    acc < (1u16 << 8u16),
            ;
        }
        out[b] = acc as u8;
    }
    proof {
        assert(final(out)@ =~= pack_spec(vals@, d as int, n as int));
    }
}

/// Unpack the little-endian bit stream in `bytes` into `d`-bit values.
pub fn unpack_fields(bytes: &[u8], d: usize, out: &mut [u16])
    requires
        1 <= d <= 12,
        8 * bytes@.len() == d * old(out)@.len(),
        old(out)@.len() <= 4096,
    ensures
        final(out)@ == unpack_spec(bytes@, d as int, old(out)@.len() as int),
        final(out)@.len() == old(out)@.len(),
        forall|j: int|
            0 <= j < old(out)@.len() ==> (#[trigger] final(out)@[j]) < (1u16 << (d as u16)),
{
    let n = out.len();
    let nb = bytes.len();
    proof {
        assert(nb <= 6144) by (nonlinear_arith)
            requires
                8 * nb == d * n,
                d <= 12,
                n <= 4096,
        ;
    }
    for j in 0..n
        invariant
            1 <= d <= 12,
            8 * nb == d * n,
            n == out@.len(),
            nb == bytes@.len(),
            nb <= 6144,
            n <= 4096,
            forall|k: int| 0 <= k < j ==> out@[k] == unpacked_field(bytes@, d as int, k),
            forall|k: int| 0 <= k < j ==> (#[trigger] out@[k]) < (1u16 << (d as u16)),
    {
        let mut acc: u16 = 0;
        proof {
            assert(1u16 << 0u16 == 1) by (bit_vector);
        }
        for v in 0..d
            invariant
                1 <= d <= 12,
                8 * nb == d * n,
                j < n,
                n <= 4096,
                nb == bytes@.len(),
                acc == field_prefix(bytes@, d as int, j as int, v as int),
                acc < (1u16 << (v as u16)),
        {
            proof {
                assert(d * j + v <= 12 * 4096) by (nonlinear_arith)
                    requires
                        d <= 12,
                        j < 4096,
                        v < d,
                ;
            }
            let i: usize = d * j + v;
            proof {
                assert(i < d * n && i / 8 < nb && i % 8 < 8) by (nonlinear_arith)
                    requires
                        i == d * j + v,
                        j < n,
                        v < d,
                        8 * nb == d * n,
                        1 <= d,
                ;
            }
            let tb: u8 = bytes[i / 8];
            let shb: u8 = (i % 8) as u8;
            let bit: u8 = (tb >> shb) & 1;
            proof {
                assert(((tb >> shb) & 1) <= 1) by (bit_vector);
                assert((acc + ((bit as u16) << (v as u16))) < (1u16 << ((v + 1) as u16)) && (1u16
                    << ((v + 1) as u16)) <= (1u16 << (d as u16)) && ((bit as u16) << (v as u16))
                    == (bit as u16) * (1u16 << (v as u16)) && (1u16 << (d as u16)) <= 4096)
                    by (bit_vector)
                    requires
                        bit <= 1,
                        v < d <= 12usize,
                        acc < (1u16 << (v as u16)),
                ;
            }
            acc = acc + ((bit as u16) << (v as u16));
        }
        out[j] = acc;
    }
    proof {
        assert(final(out)@ =~= unpack_spec(bytes@, d as int, n as int));
    }
}


proof fn lemma_bit_append(w: u16, bit: u16, u: u16, t: u16)
    by (bit_vector)
    requires
        u < 8,
        t < 8,
        bit <= 1,
        w < (1u16 << u),
    ensures
        t < u ==> ((((w + (bit << u)) as u16) >> t) & 1) == ((w >> t) & 1),
        t == u ==> ((((w + (bit << u)) as u16) >> t) & 1) == bit,
        ((w + (bit << u)) as u16) < (1u16 << ((u + 1) as u16)),
        w + (bit << u) < 65536,
{
}

/// Every bit of a packed partial byte is the stream bit it was built from.
proof fn lemma_stream_weight_bits(vals: Seq<u16>, d: int, b: int, u: int)
    requires
        1 <= d,
        0 <= u <= 8,
    ensures
        stream_weight(vals, d, b, u) < (1u16 << (u as u16)),
        forall|t: int|
            0 <= t < u ==> ((stream_weight(vals, d, b, u) >> (t as u16)) & 1) == #[trigger] stream_bit(
                vals,
                d,
                8 * b + t,
            ),
    decreases u,
{
    if u <= 0 {
        assert((1u16 << 0u16) == 1) by (bit_vector);
    } else {
        lemma_stream_weight_bits(vals, d, b, u - 1);
        let w = stream_weight(vals, d, b, u - 1);
        let tv = vals[(8 * b + (u - 1)) / d];
        let sh = ((8 * b + (u - 1)) % d) as u16;
        let bit = stream_bit(vals, d, 8 * b + (u - 1));
        let us: u16 = (u - 1) as u16;
        assert(((tv >> sh) & 1) <= 1) by (bit_vector);
        assert((bit << us) == bit * (1u16 << us)) by (bit_vector)
            requires
                bit <= 1,
                us < 8,
        ;
        assert forall|t: int| 0 <= t < u implies ((stream_weight(vals, d, b, u) >> (t as u16)) & 1)
            == #[trigger] stream_bit(vals, d, 8 * b + t) by {
            lemma_bit_append(w, bit, us, t as u16);
        }
        lemma_bit_append(w, bit, us, 0);
    }
}

proof fn lemma_byte_bit(w: u16, s: u16)
    by (bit_vector)
    requires
        w < 256,
        s < 8,
    ensures
        (((w as u8) >> (s as u8)) & 1) as u16 == ((w >> s) & 1),
{
}

/// Bit `i` of the packed stream is bit `i % d` of field `i / d`.
proof fn lemma_packed_stream_bit(vals: Seq<u16>, d: int, n: int, i: int)
    requires
        1 <= d <= 12,
        8 * n == d * vals.len(),
        0 <= i < 8 * n,
    ensures
        bit_of(pack_spec(vals, d, n), i) as u16 == stream_bit(vals, d, i),
{
    let b = i / 8;
    let t = i % 8;
    vstd::arithmetic::div_mod::lemma_fundamental_div_mod(i, 8);
    lemma_stream_weight_bits(vals, d, b, 8);
    let w = stream_weight(vals, d, b, 8);
    assert(w < 256) by (bit_vector)
        requires
            w < (1u16 << 8u16),
    ;
    lemma_byte_bit(w, t as u16);
}

proof fn lemma_mod_pow2_step(x: u16, v: u16)
    by (bit_vector)
    requires
        1 <= v <= 12,
    ensures
        (x % (1u16 << v)) == (x % (1u16 << ((v - 1) as u16))) + (((x >> ((v - 1) as u16)) & 1)
            << ((v - 1) as u16)),
        ((x >> ((v - 1) as u16)) & 1) <= 1,
        (((x >> ((v - 1) as u16)) & 1) << ((v - 1) as u16)) == ((x >> ((v - 1) as u16)) & 1) * (
        1u16 << ((v - 1) as u16)),
        (x % (1u16 << ((v - 1) as u16))) <= x % (1u16 << v),
        x % (1u16 << v) < (1u16 << v),
{
}

/// A field rebuilt from bits equal to the bits of `x` is `x` modulo the
/// field width.
proof fn lemma_field_prefix_value(bytes: Seq<u8>, d: int, j: int, v: int, x: u16)
    requires
        1 <= d <= 12,
        0 <= v <= d,
        forall|t: int|
            0 <= t < d ==> ((#[trigger] bit_of(bytes, d * j + t)) as u16) == ((x >> (t as u16))
                & 1),
    ensures
        field_prefix(bytes, d, j, v) == x % (1u16 << (v as u16)),
    decreases v,
{
    if v <= 0 {
        assert(x % (1u16 << 0u16) == 0) by (bit_vector);
    } else {
        lemma_field_prefix_value(bytes, d, j, v - 1, x);
        lemma_mod_pow2_step(x, v as u16);
    }
}

/// Unpacking inverts packing: with every value within its field width,
/// the fields of the packed stream are exactly the original values.
pub proof fn lemma_pack_unpack_round_trip(vals: Seq<u16>, d: int, n: int)
    requires
        1 <= d <= 12,
        8 * n == d * vals.len(),
        forall|j: int| 0 <= j < vals.len() ==> (#[trigger] vals[j]) < (1u16 << (d as u16)),
    ensures
        unpack_spec(pack_spec(vals, d, n), d, vals.len() as int) =~= vals,
{
    let packed = pack_spec(vals, d, n);
    assert forall|j: int| 0 <= j < vals.len() implies unpacked_field(packed, d, j) == vals[j] by {
        assert forall|t: int| 0 <= t < d implies ((#[trigger] bit_of(packed, d * j + t)) as u16)
            == ((vals[j] >> (t as u16)) & 1) by {
            assert(0 <= d * j + t < 8 * n && (d * j + t) / d == j && (d * j + t) % d == t)
                by (nonlinear_arith)
                requires
                    0 <= j < vals.len(),
                    0 <= t < d,
                    8 * n == d * vals.len(),
                    1 <= d,
            ;
            lemma_packed_stream_bit(vals, d, n, d * j + t);
        }
        lemma_field_prefix_value(packed, d, j, d, vals[j]);
        let xv = vals[j];
        let du: u16 = d as u16;
        assert(xv % (1u16 << du) == xv) by (bit_vector)
            requires
                xv < (1u16 << du),
                1 <= du <= 12,
        ;
    }
}

} // verus!
