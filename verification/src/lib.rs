//! Compile-time string literal obfuscation core.
//!
//! A literal is protected by XORing its code units with a keyed xorshift
//! stream; only the ciphertext and the 32-bit key are meant to be embedded in
//! a binary. The key for each literal is derived deterministically from a
//! build-wide seed and the literal's source location. Decoding replays the
//! identical key stream, and comparison checks a candidate against the
//! ciphertext without materializing the plaintext.

pub mod cipher;
pub mod mix;
pub mod obf;
pub mod wide;

pub use cipher::next_round;
pub use mix::derive_seed;
pub use mix::entropy;
pub use mix::hash;
pub use mix::splitmix;
pub use obf::ObfBuffer;
pub use obf::ObfString;
pub use wide::wide;
pub use wide::wide_len;
