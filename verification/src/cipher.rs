//! Key-schedule cipher: a 32-bit xorshift round function generates the key
//! stream, and encoding XORs each code unit with the evolving key. XOR is its
//! own inverse, so decoding replays the identical schedule.

use vstd::prelude::*;

verus! {

/// One round of the key schedule: the three-step xorshift permutation of the
/// 32-bit space (`x ^= x << 13; x ^= x >> 17; x ^= x << 5`).
pub open spec fn spec_next_round(x: u32) -> u32 {
    let a = x ^ (x << 13);
    let b = a ^ (a >> 17);
    b ^ (b << 5)
}

/// Advances the key schedule by one round.
pub fn next_round(x: u32) -> (r: u32)
    ensures
        r == spec_next_round(x),
{
    let a = x ^ (x << 13);
    let b = a ^ (a >> 17);
    b ^ (b << 5)
}

/// The key used for the code unit at position `i`: the starting key advanced
/// `i + 1` rounds.
pub open spec fn round_key(key: u32, i: nat) -> u32
    decreases i,
{
    if i == 0 {
        spec_next_round(key)
    } else {
        spec_next_round(round_key(key, (i - 1) as nat))
    }
}

/// The keyed byte stream: unit `i` of the text XORed with the low byte of the
/// `i`-th round key. Applying it twice with the same key gives the text back.
pub open spec fn obf_bytes(key: u32, text: Seq<u8>) -> Seq<u8> {
    Seq::new(text.len(), |i: int| text[i] ^ (round_key(key, i as nat) as u8))
}

/// The keyed word stream for wide (16-bit) code units.
pub open spec fn obf_words(key: u32, text: Seq<u16>) -> Seq<u16> {
    Seq::new(text.len(), |i: int| text[i] ^ (round_key(key, i as nat) as u16))
}

/// Law: the byte cipher is an involution. Encoding and then decoding with the
/// same starting key recovers the original text exactly.
pub proof fn lemma_obf_bytes_involution(key: u32, text: Seq<u8>)
    ensures
        obf_bytes(key, obf_bytes(key, text)) =~= text,
{
    assert forall|i: int| 0 <= i < text.len() implies obf_bytes(key, obf_bytes(key, text))[i]
        == text[i] by {
        let k = round_key(key, i as nat) as u8;
        let b = text[i];
        assert((b ^ k) ^ k == b) by (bit_vector);
    }
}

/// Law: the word cipher is an involution, as the byte cipher is.
pub proof fn lemma_obf_words_involution(key: u32, text: Seq<u16>)
    ensures
        obf_words(key, obf_words(key, text)) =~= text,
{
    assert forall|i: int| 0 <= i < text.len() implies obf_words(key, obf_words(key, text))[i]
        == text[i] by {
        let k = round_key(key, i as nat) as u16;
        let w = text[i];
        assert((w ^ k) ^ k == w) by (bit_vector);
    }
}

/// Law: equality through the cipher is consistent with decoding. A candidate
/// equals the decoding of an encoded text exactly when it equals the text.
pub proof fn lemma_eq_consistency(key: u32, text: Seq<u8>, candidate: Seq<u8>)
    ensures
        (candidate == obf_bytes(key, obf_bytes(key, text))) <==> (candidate == text),
{
    lemma_obf_bytes_involution(key, text);
}

/// Law: equality through the wide cipher is consistent with decoding, as in
/// the byte case.
pub proof fn lemma_eq_consistency_wide(key: u32, text: Seq<u16>, candidate: Seq<u16>)
    ensures
        (candidate == obf_words(key, obf_words(key, text))) <==> (candidate == text),
{
    lemma_obf_words_involution(key, text);
}

} // verus!
