//! FIPS 202 sponge tests: fixed digests from the standard's test vectors
//! and randomized cross-checks against an independent implementation.

use crystals::fips202::{Sha3_256, Sha3_512, Shake128, Shake256};
use crystals::keccak::Keccak1600;
use rand::RngCore;
use digest::{Digest, ExtendableOutput, Update, XofReader};

const SHAKE128_RATE_BYTES: usize = 168;

fn sha3_256_of(data: &[u8]) -> [u8; 32] {
    let mut h = Sha3_256::new();
    let mut out = [0u8; 32];
    h.digest(data, &mut out);
    out
}

fn sha3_512_of(data: &[u8]) -> [u8; 64] {
    let mut h = Sha3_512::new();
    let mut out = [0u8; 64];
    h.digest(data, &mut out);
    out
}

#[test]
fn keccak_sha3_256_simple() {
    let digest = sha3_256_of(&[]);
    assert_eq!(
        &digest,
        b"\
            \xa7\xff\xc6\xf8\xbf\x1e\xd7\x66\x51\xc1\x47\x56\xa0\x61\xd6\x62\
            \xf5\x80\xff\x4d\xe4\x3b\x49\xfa\x82\xd8\x0a\x4b\x80\xf8\x43\x4a\
        "
    );

    let digest = sha3_256_of(b"hello");
    assert_eq!(
        &digest,
        b"\
            \x33\x38\xbe\x69\x4f\x50\xc5\xf3\x38\x81\x49\x86\xcd\xf0\x68\x64\
            \x53\xa8\x88\xb8\x4f\x42\x4d\x79\x2a\xf4\xb9\x20\x23\x98\xf3\x92\
        "
    );
}

#[test]
fn fips202_sha3_256_simple() {
    let mut sha3 = Sha3_256::default();
    let mut digest = [0u8; 32];
    sha3.digest(&[], &mut digest);
    assert_eq!(
        &digest,
        b"\
            \xa7\xff\xc6\xf8\xbf\x1e\xd7\x66\x51\xc1\x47\x56\xa0\x61\xd6\x62\
            \xf5\x80\xff\x4d\xe4\x3b\x49\xfa\x82\xd8\x0a\x4b\x80\xf8\x43\x4a\
        "
    );

    let mut sha3 = Sha3_256::default();
    sha3.digest(b"hello", &mut digest);
    assert_eq!(
        &digest,
        b"\
            \x33\x38\xbe\x69\x4f\x50\xc5\xf3\x38\x81\x49\x86\xcd\xf0\x68\x64\
            \x53\xa8\x88\xb8\x4f\x42\x4d\x79\x2a\xf4\xb9\x20\x23\x98\xf3\x92\
        "
    );
}

#[test]
fn keccak_sha3_256_rand() {
    let mut rng = rand::thread_rng();
    const MAX_LEN: usize = 300;
    for n in 0..=MAX_LEN {
        let mut data = vec![0u8; n];
        for _ in 0..=n / 8 {
            rng.fill_bytes(&mut data);
            let digest = sha3_256_of(&data);
            let mut another_sha3 = sha3::Sha3_256::default();
            Digest::update(&mut another_sha3, &data);
            let golden_digest = another_sha3.finalize_reset();
            assert_eq!(golden_digest.as_slice(), &digest[..]);
        }
    }
}

#[test]
fn fips202_sha3_256_rand() {
    let mut rng = rand::thread_rng();
    const MAX_LEN: usize = 300;
    for n in 0..=MAX_LEN {
        let mut data = vec![0u8; n];
        for _ in 0..=n / 8 {
            rng.fill_bytes(&mut data);
            let digest = sha3_256_of(&data);
            let mut another_sha3 = sha3::Sha3_256::default();
            Digest::update(&mut another_sha3, &data);
            let golden_digest = another_sha3.finalize_reset();
            assert_eq!(golden_digest.as_slice(), &digest[..]);
        }
    }
}

#[test]
fn keccak_sha3_512_rand() {
    let mut rng = rand::thread_rng();
    const MAX_LEN: usize = 300;
    for n in 0..=MAX_LEN {
        let mut data = vec![0u8; n];
        for _ in 0..=n / 8 {
            rng.fill_bytes(&mut data);
            let digest = sha3_512_of(&data);
            let mut another_sha3 = sha3::Sha3_512::default();
            Digest::update(&mut another_sha3, &data);
            let golden_digest = another_sha3.finalize_reset();
            assert_eq!(golden_digest.as_slice(), &digest[..]);
        }
    }
}

#[test]
fn fips202_sha3_512_rand() {
    let mut rng = rand::thread_rng();
    const MAX_LEN: usize = 300;
    for n in 0..=MAX_LEN {
        let mut data = vec![0u8; n];
        for _ in 0..=n / 8 {
            rng.fill_bytes(&mut data);
            let digest = sha3_512_of(&data);
            let mut another_sha3 = sha3::Sha3_512::default();
            Digest::update(&mut another_sha3, &data);
            let golden_digest = another_sha3.finalize_reset();
            assert_eq!(golden_digest.as_slice(), &digest[..]);
        }
    }
}

const LOREM: &[u8] = b"Lorem ipsum dolor sit amet, consectetur adipiscing elit, sed do eiusmod tempor incididunt ut labore et dolore magna aliqua. Ut enim ad minim veniam, quis nostrud exercitation ullamco laboris nisi ut aliquip ex ea commodo consequat. Duis aute irure dolor in reprehenderit in voluptate velit esse cillum dolore eu fugiat nulla pariatur. Excepteur sint occaecat cupidatat non proident, sunt in culpa qui officia deserunt mollit anim id est laborum.";

const LOREM_SHA3_512: &[u8; 64] = b"\
    \xf3\x2a\x94\x23\x55\x13\x51\xdf\x0a\x07\xc0\xb8\xc2\x0e\xb9\x72\
    \x36\x7c\x39\x8d\x61\x06\x60\x38\xe1\x69\x86\x44\x8e\xbf\xbc\x3d\
    \x15\xed\xe0\xed\x36\x93\xe3\x90\x5e\x9a\x8c\x60\x1d\x9d\x00\x2a\
    \x06\x85\x3b\x97\x97\xef\x9a\xb1\x0c\xbd\xe1\x00\x9c\x7d\x0f\x09\
";

#[test]
fn keccak_sha3_512() {
    let digest = sha3_512_of(LOREM);
    assert_eq!(&digest, LOREM_SHA3_512);
}

#[test]
fn fips202_sha3_512() {
    let mut sha3 = Sha3_512::default();
    let mut digest = [0u8; 64];
    sha3.digest(LOREM, &mut digest);
    assert_eq!(&digest, LOREM_SHA3_512);
}

#[test]
fn keccak_shake128() {
    let mut shake = Shake128::default();
    let mut golden_xof_out = [0u8; SHAKE128_RATE_BYTES];
    let mut rng = rand::thread_rng();
    const MAX_LEN: usize = 666;
    for n in 0..MAX_LEN {
        let mut data = vec![0u8; n];
        rng.fill_bytes(&mut data);
        shake.absorb(&data);
        let xof_out = shake.squeezed_block();

        let mut another_shake = sha3::Shake128::default();
        another_shake.update(&data);
        let mut reader = another_shake.finalize_xof();
        reader.read(&mut golden_xof_out);

        assert_eq!(&golden_xof_out, &xof_out);
    }
}

#[test]
fn fips202_shake128() {
    let mut shake = Shake128::default();
    let mut golden_xof_out = [0u8; SHAKE128_RATE_BYTES];
    let mut rng = rand::thread_rng();
    const MAX_LEN: usize = 666;
    let mut xof_out = [0u8; SHAKE128_RATE_BYTES];
    for n in 0..MAX_LEN {
        let mut data = vec![0u8; n];
        rng.fill_bytes(&mut data);
        shake.absorb(&data);
        shake.squeeze(&mut xof_out);

        let mut another_shake = sha3::Shake128::default();
        another_shake.update(&data);
        let mut reader = another_shake.finalize_xof();
        reader.read(&mut golden_xof_out);

        assert_eq!(&golden_xof_out, &xof_out);
    }
}

#[test]
fn keccak_shake128_absorb_crystals() {
    let mut shake = Shake128::default();
    let mut golden_xof_out = [0u8; SHAKE128_RATE_BYTES];
    let mut rng = rand::thread_rng();
    const N_TESTS: usize = 666;
    let mut data = [0u8; 32];
    let mut data_aug = [0u8; 32 + 2];
    for _ in 0..N_TESTS {
        let n1 = rand::random::<u8>();
        let n2 = rand::random::<u8>();
        rng.fill_bytes(&mut data);

        data_aug[..32].copy_from_slice(&data);
        data_aug[32] = n1;
        data_aug[33] = n2;

        shake.absorb_xof_with_nonces(&data, n1, n2);
        let xof_out = shake.squeezed_block();
        assert_eq!(xof_out.len(), SHAKE128_RATE_BYTES);

        {
            let mut another_shake = sha3::Shake128::default();
            another_shake.update(&data_aug);
            let mut reader = another_shake.finalize_xof();
            reader.read(&mut golden_xof_out);
        }

        assert_eq!(&golden_xof_out, &xof_out);
    }
}

#[test]
fn fips202_shake128_absorb_crystals() {
    let mut shake = Shake128::default();
    let mut golden_xof_out = [0u8; SHAKE128_RATE_BYTES];
    let mut rng = rand::thread_rng();
    const N_TESTS: usize = 666;
    let mut data = [0u8; 32];
    let mut data_aug = [0u8; 32 + 2];
    let mut xof_out = [0u8; SHAKE128_RATE_BYTES];
    for _ in 0..N_TESTS {
        let n1 = rand::random::<u8>();
        let n2 = rand::random::<u8>();
        rng.fill_bytes(&mut data);

        data_aug[..32].copy_from_slice(&data);
        data_aug[32] = n1;
        data_aug[33] = n2;

        shake.absorb_xof_with_nonces(&data, n1, n2);
        shake.squeeze(&mut xof_out);
        assert_eq!(xof_out.len(), SHAKE128_RATE_BYTES);

        {
            let mut another_shake = sha3::Shake128::default();
            another_shake.update(&data_aug);
            let mut reader = another_shake.finalize_xof();
            reader.read(&mut golden_xof_out);
        }

        assert_eq!(&golden_xof_out, &xof_out);
    }
}

#[test]
fn shake256_prf_absorb_matches_plain_absorb() {
    let mut rng = rand::thread_rng();
    let mut seed = [0u8; 32];
    for _ in 0..64 {
        rng.fill_bytes(&mut seed);
        let nonce = rand::random::<u8>();

        let mut a = Shake256::new();
        a.absorb_prf(&seed, nonce);
        let mut out_a = [0u8; 136];
        a.squeeze(&mut out_a);

        let mut concat = [0u8; 33];
        concat[..32].copy_from_slice(&seed);
        concat[32] = nonce;
        let mut b = Shake256::new();
        b.absorb(&concat);
        let mut out_b = [0u8; 136];
        b.squeeze(&mut out_b);

        assert_eq!(out_a, out_b);
    }
}

#[test]
fn sponge_output_is_deterministic() {
    let msg = b"the same message absorbed twice";
    let mut first = Shake128::new();
    first.absorb(msg);
    let out1 = first.squeezed_block();
    let mut second = Shake128::new();
    second.absorb(msg);
    let out2 = second.squeezed_block();
    assert_eq!(out1[..], out2[..]);
}

#[test]
fn keccak_permutation_known_state() {
    // The permutation of the all-zero state is the first block of
    // SHAKE128(""), shifted by the padding; instead check through the
    // public API: absorbing an empty message must match the independent
    // implementation byte for byte over several blocks.
    let mut shake = Shake128::new();
    shake.absorb(&[]);
    let mut mine = [0u8; 504];
    shake.squeeze(&mut mine);

    let mut other = sha3::Shake128::default();
    other.update(&[]);
    let mut reader = other.finalize_xof();
    let mut golden = [0u8; 504];
    reader.read(&mut golden);
    assert_eq!(mine[..], golden[..]);
}

#[test]
fn keccak_f1600_known_answer() {
    // The published intermediate states of Keccak-f[1600]: permuting the
    // all-zero state, and permuting the result once more.
    let after_one: [u64; 25] = [
        0xF1258F7940E1DDE7,
        0x84D5CCF933C0478A,
        0xD598261EA65AA9EE,
        0xBD1547306F80494D,
        0x8B284E056253D057,
        0xFF97A42D7F8E6FD4,
        0x90FEE5A0A44647C4,
        0x8C5BDA0CD6192E76,
        0xAD30A6F71B19059C,
        0x30935AB7D08FFC64,
        0xEB5AA93F2317D635,
        0xA9A6E6260D712103,
        0x81A57C16DBCF555F,
        0x43B831CD0347C826,
        0x01F22F1A11A5569F,
        0x05E5635A21D9AE61,
        0x64BEFEF28CC970F2,
        0x613670957BC46611,
        0xB87C5A554FD00ECB,
        0x8C3EE88A1CCF32C8,
        0x940C7922AE3A2614,
        0x1841F924A2C509E4,
        0x16F53526E70465C2,
        0x75F644E97F30A13B,
        0xEAF1FF7B5CECA249,
    ];
    let after_two: [u64; 25] = [
        0x2D5C954DF96ECB3C,
        0x6A332CD07057B56D,
        0x093D8D1270D76B6C,
        0x8A20D9B25569D094,
        0x4F9C4F99E5E7F156,
        0xF957B9A2DA65FB38,
        0x85773DAE1275AF0D,
        0xFAF4F247C3D810F7,
        0x1F1B9EE6F79A8759,
        0xE4FECC0FEE98B425,
        0x68CE61B6B9CE68A1,
        0xDEEA66C4BA8F974F,
        0x33C43D836EAFB1F5,
        0xE00654042719DBD9,
        0x7CF8A9F009831265,
        0xFD5449A6BF174743,
        0x97DDAD33D8994B40,
        0x48EAD5FC5D0BE774,
        0xE3B8C8EE55B7B03C,
        0x91A0226E649E42E9,
        0x900E3129E7BADD7B,
        0x202A9EC5FAA3CCE8,
        0x5B3402464E1C3DB6,
        0x609F4E62A44C1059,
        0x20D06CD26A8FBF5C,
    ];
    let mut k = Keccak1600::from_lanes([0u64; 25]);
    k.permute();
    assert_eq!(k.lanes(), after_one);
    k.permute();
    assert_eq!(k.lanes(), after_two);
}
