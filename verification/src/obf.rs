//! Literal builder and runtime decoder/comparator. An [`ObfString`] is the
//! immutable (key, ciphertext) pair sized exactly to the code-unit count of
//! the source text; only it is meant to reach a binary's constant data.
//! Decoding replays the key schedule into a fresh [`ObfBuffer`]; comparison
//! checks a candidate unit by unit without materializing the plaintext.
//!
//! The masking scalar `x` accepted by the decode and compare entry points
//! exists to obscure the address of the decode routine at its call site.
//! That address indirection is pointer arithmetic outside the verified core;
//! here the scalar has no effect on the result, which is what makes the
//! round-trip contracts independent of it.

use vstd::prelude::*;

verus! {

use crate::cipher::lemma_obf_bytes_involution;
use crate::cipher::lemma_obf_words_involution;
use crate::cipher::next_round;
use crate::cipher::obf_bytes;
use crate::cipher::obf_words;
use crate::cipher::round_key;
use crate::wide::lemma_utf16_decode_encode;
use crate::wide::utf16_decode;
use crate::wide::utf16_encode;
use crate::wide::wide;
use vstd::string::StringSliceAdditionalSpecFns;
use vstd::utf8::decode_utf8;
use vstd::utf8::encode_utf8;
use vstd::utf8::encode_utf8_decode_utf8;
use vstd::utf8::valid_utf8;

/// Obfuscated string constant data: the starting key and the ciphertext code
/// units. `data` holds one ciphertext unit per code unit of the source text.
pub struct ObfString<A> {
    pub key: u32,
    pub data: A,
}

/// Deobfuscated string buffer, exclusively owned by the call site that
/// decoded it.
pub struct ObfBuffer<A>(pub A);

/// Relies on core::str::from_utf8: it returns `Ok` exactly when the bytes are
/// well-formed UTF-8, and the returned string slice views those same bytes.
#[verifier::external_body]
fn try_bytes_as_str(v: &[u8]) -> (r: Option<&str>)
    ensures
        r is Some <==> valid_utf8(v@),
        r matches Some(t) ==> t.spec_bytes() == v@,
{
    core::str::from_utf8(v).ok()
}

/// Relies on char::from_u32: it returns the character with the given code
/// point value, and `None` exactly for surrogate values and for values
/// beyond the Unicode range.
#[verifier::external_body]
fn char_from_u32(u: u32) -> (r: Option<char>)
    ensures
        r is Some <==> (u < 0xD800 || (0xE000 <= u && u <= 0x10FFFF)),
        r matches Some(c) ==> c as u32 == u,
{
    char::from_u32(u)
}

/// Relies on String::push: it appends the given character to the end of the
/// string.
#[verifier::external_body]
fn push_char(s: &mut String, c: char)
    ensures
        final(s)@ == old(s)@.push(c),
{
    s.push(c);
}

impl ObfString<Vec<u8>> {
    /// Builds the narrow obfuscated literal: each byte of the text XORed with
    /// the evolving key stream. The ciphertext length equals the byte count
    /// of the text.
    pub fn obfuscate(key: u32, string: &str) -> (r: ObfString<Vec<u8>>)
        ensures
            r.key == key,
            r.data@ == obf_bytes(key, string.spec_bytes()),
            r.data@.len() == string.spec_bytes().len(),
    {
        let bytes = string.as_bytes();
        let mut data: Vec<u8> = Vec::new();
        let mut rk = key;
        let mut i = 0usize;
        while i < bytes.len()
            invariant
                i <= bytes@.len(),
                bytes@ == string.spec_bytes(),
                data@.len() == i,
                rk == if i == 0 {
                    key
                } else {
                    round_key(key, (i - 1) as nat)
                },
                forall|j: int| 0 <= j < i ==> data@[j] == bytes@[j] ^ (round_key(key, j as nat) as u8),
            decreases bytes@.len() - i,
        {
            rk = next_round(rk);
            proof {
                assert(rk == round_key(key, i as nat));
            }
            data.push(bytes[i] ^ (#[verifier::truncate] (rk as u8)));
            i += 1;
        }
        proof {
            assert(data@ =~= obf_bytes(key, bytes@));
        }
        ObfString { key, data }
    }

    /// Replays the key schedule against the ciphertext and returns the
    /// decoded buffer. The masking scalar does not change the result.
    pub fn deobfuscate(&self, _x: usize) -> (r: ObfBuffer<Vec<u8>>)
        ensures
            r.0@ == obf_bytes(self.key, self.data@),
    {
        let mut out: Vec<u8> = Vec::new();
        let mut rk = self.key;
        let mut i = 0usize;
        while i < self.data.len()
            invariant
                i <= self.data@.len(),
                out@.len() == i,
                rk == if i == 0 {
                    self.key
                } else {
                    round_key(self.key, (i - 1) as nat)
                },
                forall|j: int|
                    0 <= j < i ==> out@[j] == self.data@[j] ^ (round_key(self.key, j as nat) as u8),
            decreases self.data@.len() - i,
        {
            rk = next_round(rk);
            proof {
                assert(rk == round_key(self.key, i as nat));
            }
            out.push(self.data[i] ^ (#[verifier::truncate] (rk as u8)));
            i += 1;
        }
        proof {
            assert(out@ =~= obf_bytes(self.key, self.data@));
        }
        ObfBuffer(out)
    }

    /// Compares a candidate string against the ciphertext unit by unit,
    /// without building the plaintext: true exactly when the candidate equals
    /// the decoded text. Short-circuits on a length mismatch or on the first
    /// differing unit, so the comparison is not constant-time.
    pub fn eq(&self, s: &str, _x: usize) -> (r: bool)
        ensures
            r == (s.spec_bytes() == obf_bytes(self.key, self.data@)),
    {
        let bytes = s.as_bytes();
        if self.data.len() != bytes.len() {
            return false;
        }
        let mut rk = self.key;
        let mut i = 0usize;
        while i < self.data.len()
            invariant
                i <= self.data@.len(),
                bytes@.len() == self.data@.len(),
                bytes@ == s.spec_bytes(),
                rk == if i == 0 {
                    self.key
                } else {
                    round_key(self.key, (i - 1) as nat)
                },
                forall|j: int|
                    0 <= j < i ==> bytes@[j] == self.data@[j] ^ (round_key(
                        self.key,
                        j as nat,
                    ) as u8),
            decreases self.data@.len() - i,
        {
            rk = next_round(rk);
            proof {
                assert(rk == round_key(self.key, i as nat));
            }
            if bytes[i] != self.data[i] ^ (#[verifier::truncate] (rk as u8)) {
                proof {
                    assert(obf_bytes(self.key, self.data@)[i as int] != bytes@[i as int]);
                }
                return false;
            }
            i += 1;
        }
        proof {
            assert(bytes@ =~= obf_bytes(self.key, self.data@));
        }
        true
    }
}

impl ObfString<Vec<u16>> {
    /// Builds the wide obfuscated literal: the text's UTF-16 code units, each
    /// XORed with the evolving key stream. The ciphertext length equals the
    /// UTF-16 unit count of the text, counting surrogate pairs as two.
    pub fn obfuscate(key: u32, string: &str) -> (r: ObfString<Vec<u16>>)
        ensures
            r.key == key,
            r.data@ == obf_words(key, utf16_encode(string@)),
            r.data@.len() == utf16_encode(string@).len(),
    {
        let units = wide(string);
        let mut data: Vec<u16> = Vec::new();
        let mut rk = key;
        let mut i = 0usize;
        while i < units.len()
            invariant
                i <= units@.len(),
                units@ == utf16_encode(string@),
                data@.len() == i,
                rk == if i == 0 {
                    key
                } else {
                    round_key(key, (i - 1) as nat)
                },
                forall|j: int|
                    0 <= j < i ==> data@[j] == units@[j] ^ (round_key(key, j as nat) as u16),
            decreases units@.len() - i,
        {
            rk = next_round(rk);
            proof {
                assert(rk == round_key(key, i as nat));
            }
            data.push(units[i] ^ (#[verifier::truncate] (rk as u16)));
            i += 1;
        }
        proof {
            assert(data@ =~= obf_words(key, units@));
        }
        ObfString { key, data }
    }

    /// Replays the key schedule against the wide ciphertext and returns the
    /// decoded buffer. The masking scalar does not change the result.
    pub fn deobfuscate(&self, _x: usize) -> (r: ObfBuffer<Vec<u16>>)
        ensures
            r.0@ == obf_words(self.key, self.data@),
    {
        let mut out: Vec<u16> = Vec::new();
        let mut rk = self.key;
        let mut i = 0usize;
        while i < self.data.len()
            invariant
                i <= self.data@.len(),
                out@.len() == i,
                rk == if i == 0 {
                    self.key
                } else {
                    round_key(self.key, (i - 1) as nat)
                },
                forall|j: int|
                    0 <= j < i ==> out@[j] == self.data@[j] ^ (round_key(
                        self.key,
                        j as nat,
                    ) as u16),
            decreases self.data@.len() - i,
        {
            rk = next_round(rk);
            proof {
                assert(rk == round_key(self.key, i as nat));
            }
            out.push(self.data[i] ^ (#[verifier::truncate] (rk as u16)));
            i += 1;
        }
        proof {
            assert(out@ =~= obf_words(self.key, self.data@));
        }
        ObfBuffer(out)
    }

    /// Compares a candidate unit sequence against the wide ciphertext: true
    /// exactly when the candidate equals the decoded units. Short-circuits on
    /// a length mismatch or on the first differing unit.
    pub fn eq(&self, s: &[u16], _x: usize) -> (r: bool)
        ensures
            r == (s@ == obf_words(self.key, self.data@)),
    {
        if self.data.len() != s.len() {
            return false;
        }
        let mut rk = self.key;
        let mut i = 0usize;
        while i < self.data.len()
            invariant
                i <= self.data@.len(),
                s@.len() == self.data@.len(),
                rk == if i == 0 {
                    self.key
                } else {
                    round_key(self.key, (i - 1) as nat)
                },
                forall|j: int|
                    0 <= j < i ==> s@[j] == self.data@[j] ^ (round_key(self.key, j as nat) as u16),
            decreases self.data@.len() - i,
        {
            rk = next_round(rk);
            proof {
                assert(rk == round_key(self.key, i as nat));
            }
            if s[i] != self.data[i] ^ (#[verifier::truncate] (rk as u16)) {
                proof {
                    assert(obf_words(self.key, self.data@)[i as int] != s@[i as int]);
                }
                return false;
            }
            i += 1;
        }
        proof {
            assert(s@ =~= obf_words(self.key, self.data@));
        }
        true
    }
}

impl ObfBuffer<Vec<u8>> {
    /// The decoded bytes.
    pub fn as_slice(&self) -> (r: &[u8])
        ensures
            r@ == self.0@,
    {
        self.0.as_slice()
    }

    /// The decoded bytes as text. A buffer decoded from a literal that was
    /// built out of a string always holds well-formed UTF-8, which is what
    /// the precondition records.
    pub fn as_str(&self) -> (r: &str)
        requires
            valid_utf8(self.0@),
        ensures
            r.spec_bytes() == self.0@,
            r@ == decode_utf8(self.0@),
    {
        let r = match try_bytes_as_str(self.0.as_slice()) {
            Some(t) => t,
            None => vstd::pervasive::unreached(),
        };
        proof {
            encode_utf8_decode_utf8(r@);
        }
        r
    }
}

impl ObfBuffer<Vec<u16>> {
    /// The decoded UTF-16 code units.
    pub fn as_slice(&self) -> (r: &[u16])
        ensures
            r@ == self.0@,
    {
        self.0.as_slice()
    }

    /// The decoded units read back as text: each surrogate pair recombines
    /// into one code point, and any unpaired surrogate is replaced by
    /// `U+FFFD`. A buffer decoded from a wide literal that was built out of
    /// a string never contains an unpaired surrogate.
    pub fn to_text(&self) -> (r: String)
        ensures
            r@ == utf16_decode(self.0@),
    {
        let mut out = String::new();
        let mut i = 0usize;
        proof {
            assert(self.0@.skip(0) =~= self.0@);
        }
        while i < self.0.len()
            invariant
                i <= self.0@.len(),
                utf16_decode(self.0@) == out@ + utf16_decode(self.0@.skip(i as int)),
            decreases self.0@.len() - i,
        {
            let ghost pre = out@;
            let ghost rest = self.0@.skip(i as int);
            proof {
                assert(forall|j: int| 0 <= j < rest.len() ==> rest[j] == self.0@[i as int + j]);
            }
            let u0 = self.0[i];
            if 0xD800 <= u0 && u0 <= 0xDBFF && i + 1 < self.0.len() && 0xDC00 <= self.0[i + 1]
                && self.0[i + 1] <= 0xDFFF {
                let lo = self.0[i + 1];
                let cp = 0x10000u32 + ((u0 - 0xD800) as u32) * 0x400 + ((lo - 0xDC00) as u32);
                let c = match char_from_u32(cp) {
                    Some(c) => c,
                    None => vstd::pervasive::unreached(),
                };
                push_char(&mut out, c);
                proof {
                    assert(crate::wide::is_high_surrogate(rest[0]));
                    assert(rest.len() >= 2);
                    assert(crate::wide::is_low_surrogate(rest[1]));
                    assert(cp == crate::wide::combine_surrogates(rest[0], rest[1]));
                    vstd::utf8::char_u32_cast(c, cp);
                    assert(c == crate::wide::combine_surrogates(rest[0], rest[1]) as char);
                    assert(rest.skip(2) =~= self.0@.skip(i as int + 2));
                    assert(utf16_decode(rest) =~= seq![c] + utf16_decode(rest.skip(2)));
                    assert(out@ =~= pre + seq![c]);
                    assert((pre + seq![c]) + utf16_decode(rest.skip(2)) =~= pre + (seq![c]
                        + utf16_decode(rest.skip(2))));
                }
                i += 2;
            } else if 0xD800 <= u0 && u0 <= 0xDFFF {
                let c = '\u{FFFD}';
                push_char(&mut out, c);
                proof {
                    assert(crate::wide::is_high_surrogate(rest[0]) || crate::wide::is_low_surrogate(
                        rest[0],
                    ));
                    assert(!(crate::wide::is_high_surrogate(rest[0]) && rest.len() >= 2
                        && crate::wide::is_low_surrogate(rest[1])));
                    assert(rest.skip(1) =~= self.0@.skip(i as int + 1));
                    assert(utf16_decode(rest) =~= seq![c] + utf16_decode(rest.skip(1)));
                    assert(out@ =~= pre + seq![c]);
                    assert((pre + seq![c]) + utf16_decode(rest.skip(1)) =~= pre + (seq![c]
                        + utf16_decode(rest.skip(1))));
                }
                i += 1;
            } else {
                let c = match char_from_u32(u0 as u32) {
                    Some(c) => c,
                    None => vstd::pervasive::unreached(),
                };
                push_char(&mut out, c);
                proof {
                    assert(!crate::wide::is_high_surrogate(rest[0]) && !crate::wide::is_low_surrogate(
                        rest[0],
                    ));
                    vstd::utf8::char_u32_cast(c, u0 as u32);
                    assert(c == (rest[0] as u32) as char);
                    assert(rest.skip(1) =~= self.0@.skip(i as int + 1));
                    assert(utf16_decode(rest) =~= seq![c] + utf16_decode(rest.skip(1)));
                    assert(out@ =~= pre + seq![c]);
                    assert((pre + seq![c]) + utf16_decode(rest.skip(1)) =~= pre + (seq![c]
                        + utf16_decode(rest.skip(1))));
                }
                i += 1;
            }
        }
        proof {
            assert(self.0@.skip(self.0@.len() as int) =~= Seq::<u16>::empty());
            assert(out@ =~= utf16_decode(self.0@));
        }
        out
    }
}

/// The element shift the call-site obfuscation layer applies to a
/// ciphertext's address before embedding it: derived once per build from an
/// entropy value, and always in the range `[32, 64)` so the layer that
/// resolves the address can undo it.
pub fn xref_shift(e: u64) -> (r: usize)
    ensures
        r == (((e as u8) & 31) + 32) as usize,
        32 <= r < 64,
{
    let b = #[verifier::truncate]
    (e as u8);
    proof {
        assert((b & 31) <= 31) by (bit_vector);
    }
    ((b & 31) + 32) as usize
}

/// Law: the narrow round trip. Encoding a text's bytes and decoding them with
/// the same key gives back exactly the original bytes, and therefore the
/// original characters.
pub proof fn lemma_narrow_round_trip(key: u32, chars: Seq<char>)
    ensures
        obf_bytes(key, obf_bytes(key, encode_utf8(chars))) == encode_utf8(chars),
        decode_utf8(obf_bytes(key, obf_bytes(key, encode_utf8(chars)))) == chars,
{
    lemma_obf_bytes_involution(key, encode_utf8(chars));
    encode_utf8_decode_utf8(chars);
}

/// Law: the wide round trip. Encoding a text's UTF-16 units and decoding
/// them with the same key gives back exactly the original units, and reading
/// those units back recombines every surrogate pair into the original
/// characters.
pub proof fn lemma_wide_round_trip(key: u32, chars: Seq<char>)
    ensures
        obf_words(key, obf_words(key, utf16_encode(chars))) == utf16_encode(chars),
        utf16_decode(obf_words(key, obf_words(key, utf16_encode(chars)))) == chars,
{
    lemma_obf_words_involution(key, utf16_encode(chars));
    lemma_utf16_decode_encode(chars);
}

} // verus!
