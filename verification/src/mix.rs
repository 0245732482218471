//! Hash and entropy core: deterministic string hashing, 64-bit bit mixing,
//! and derivation of per-call-site entropy from source-location metadata.

use vstd::prelude::*;

verus! {

use vstd::string::StringSliceAdditionalSpecFns;
use vstd::wrapping::u32_specs;
use vstd::wrapping::u64_specs;

/// The SplitMix64-style finalizer: add a fixed odd constant, then two
/// xor-shift/multiply rounds and a final xor-shift. A single flipped input
/// bit flips about half of the output bits.
pub open spec fn spec_splitmix(seed: u64) -> u64 {
    let next = u64_specs::wrapping_add(seed, 0x9e3779b97f4a7c15);
    let z1 = u64_specs::wrapping_mul(next ^ (next >> 30), 0xbf58476d1ce4e5b9);
    let z2 = u64_specs::wrapping_mul(z1 ^ (z1 >> 27), 0x94d049bb133111eb);
    z2 ^ (z2 >> 31)
}

/// Bit mixer used to spread the entropy of an intermediate hash over all 64
/// bits of the result.
pub fn splitmix(seed: u64) -> (r: u64)
    ensures
        r == spec_splitmix(seed),
{
    let next = seed.wrapping_add(0x9e3779b97f4a7c15);
    let mut z = next;
    z = (z ^ (z >> 30)).wrapping_mul(0xbf58476d1ce4e5b9);
    z = (z ^ (z >> 27)).wrapping_mul(0x94d049bb133111eb);
    z ^ (z >> 31)
}

/// DJB2-style rolling hash of a byte sequence: start from a fixed odd value
/// and fold each byte in order with `h * 33 + byte`, wrapping at 32 bits.
pub open spec fn spec_hash(bytes: Seq<u8>) -> u32
    decreases bytes.len(),
{
    if bytes.len() == 0 {
        3581u32
    } else {
        u32_specs::wrapping_add(
            u32_specs::wrapping_mul(spec_hash(bytes.drop_last()), 33),
            bytes.last() as u32,
        )
    }
}

/// Deterministic string hash, sensitive to every byte and to byte order.
pub fn hash(s: &str) -> (r: u32)
    ensures
        r == spec_hash(s.spec_bytes()),
{
    let bytes = s.as_bytes();
    let mut result = 3581u32;
    let mut i = 0usize;
    while i < bytes.len()
        invariant
            i <= bytes@.len(),
            bytes@ == s.spec_bytes(),
            result == spec_hash(bytes@.take(i as int)),
        decreases bytes@.len() - i,
    {
        proof {
            assert(bytes@.take(i + 1).drop_last() =~= bytes@.take(i as int));
            assert(bytes@.take(i + 1).last() == bytes@[i as int]);
        }
        result = result.wrapping_mul(33).wrapping_add(bytes[i] as u32);
        i += 1;
    }
    proof {
        assert(bytes@.take(bytes@.len() as int) =~= bytes@);
    }
    result
}

/// Per-call-site entropy: the seed is folded with the hash of the file path,
/// then with the line and the column, with a full bit mix between each step.
pub open spec fn spec_entropy(seed: u64, file: Seq<u8>, line: u32, column: u32) -> u64 {
    spec_splitmix(
        spec_splitmix(spec_splitmix(seed ^ (spec_hash(file) as u64)) ^ (line as u64))
            ^ (column as u64),
    )
}

/// Produces pseudorandom entropy for one call site from the build seed and
/// the site's file, line and column. Deterministic: the same inputs always
/// give the same value.
pub fn entropy(seed: u64, file: &str, line: u32, column: u32) -> (r: u64)
    ensures
        r == spec_entropy(seed, file.spec_bytes(), line, column),
{
    splitmix(splitmix(splitmix(seed ^ (hash(file) as u64)) ^ (line as u64)) ^ (column as u64))
}

/// Derives the build-wide seed from a configuration string by hashing it and
/// mixing the result over all 64 bits.
pub fn derive_seed(config: &str) -> (r: u64)
    ensures
        r == spec_splitmix(spec_hash(config.spec_bytes()) as u64),
{
    splitmix(hash(config) as u64)
}

/// Narrows an entropy value to `u8` by truncating to the low 8 bits.
pub fn random_u8(e: u64) -> (r: u8)
    ensures
        r == e as u8,
{
    #[verifier::truncate]
    (e as u8)
}

/// Narrows an entropy value to `u16` by truncating to the low 16 bits.
pub fn random_u16(e: u64) -> (r: u16)
    ensures
        r == e as u16,
{
    #[verifier::truncate]
    (e as u16)
}

/// Narrows an entropy value to `u32` by truncating to the low 32 bits.
pub fn random_u32(e: u64) -> (r: u32)
    ensures
        r == e as u32,
{
    #[verifier::truncate]
    (e as u32)
}

/// Narrows an entropy value to `u64`: the full value, unchanged.
pub fn random_u64(e: u64) -> (r: u64)
    ensures
        r == e,
{
    e
}

/// Narrows an entropy value to `usize` by truncating to the pointer width.
pub fn random_usize(e: u64) -> (r: usize)
    ensures
        r == e as usize,
{
    #[verifier::truncate]
    (e as usize)
}

/// Narrows an entropy value to `i8`, reading the low 8 bits as
/// two's complement.
pub fn random_i8(e: u64) -> (r: i8)
    ensures
        r == e as i8,
{
    #[verifier::truncate]
    (e as i8)
}

/// Narrows an entropy value to `i16`, reading the low 16 bits as
/// two's complement.
pub fn random_i16(e: u64) -> (r: i16)
    ensures
        r == e as i16,
{
    #[verifier::truncate]
    (e as i16)
}

/// Narrows an entropy value to `i32`, reading the low 32 bits as
/// two's complement.
pub fn random_i32(e: u64) -> (r: i32)
    ensures
        r == e as i32,
{
    #[verifier::truncate]
    (e as i32)
}

/// Narrows an entropy value to `i64`, reading all 64 bits as
/// two's complement.
pub fn random_i64(e: u64) -> (r: i64)
    ensures
        r == e as i64,
{
    #[verifier::truncate]
    (e as i64)
}

/// Narrows an entropy value to `isize`, reading the low pointer-width bits
/// as two's complement.
pub fn random_isize(e: u64) -> (r: isize)
    ensures
        r == e as isize,
{
    #[verifier::truncate]
    (e as isize)
}

/// Narrows an entropy value to `bool`: true exactly when the value, read as
/// a signed 64-bit integer, is non-negative.
pub fn random_bool(e: u64) -> (r: bool)
    ensures
        r == (e as i64 >= 0),
{
    (#[verifier::truncate]
    (e as i64)) >= 0
}

} // verus!
