//! ChaCha20-Poly1305: authenticated encryption with associated data, as
//! RFC 7539 describes it.
//!
//! Sealing encrypts a buffer in place and gives a tag of sixteen bytes over
//! the associated data and the ciphertext. Opening gives the tag of the
//! ciphertext it finds and decrypts the buffer in place; whoever opens
//! compares that tag with the one received, in constant time, before the
//! plaintext is used. A nonce serves one sealing under a key, and at most
//! [`aead::MAX_INPUT_LEN`] bytes: neither is checked here.
//!
//! [`aead`] holds the construction and its descriptor, [`chacha`] the stream
//! cipher, [`poly1305`] the one-time authenticator, [`block`] their common
//! granule and [`endian`] the little-endian encoding of numbers.

pub mod aead;
pub mod block;
pub mod chacha;
pub mod endian;
pub mod error;
pub mod poly1305;
