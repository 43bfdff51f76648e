//! Verified core of the CRYSTALS lattice-based schemes: field arithmetic for
//! the Kyber and Dilithium primes, the number-theoretic transform, the
//! Keccak-f[1600] permutation with its FIPS 202 sponge modes, polynomial
//! sampling and (de)serialization codecs, and the Kyber IND-CPA public-key
//! encryption built from them.

mod modular;

pub mod ciphertext;
pub mod codec;

pub mod fips202;
pub mod fq_dilithium;
pub mod fq_kyber;
pub mod keccak;
pub mod pke;
pub mod poly_dilithium;
pub mod poly_kyber;
pub mod polymat;
pub mod polyvec;
pub mod randombytes;
pub mod utils;

pub use fq_kyber::caddq;
pub use fq_kyber::fqmul;
pub use fq_kyber::KyberFq;
pub use fq_kyber::KYBER_Q;
