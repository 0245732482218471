//! Wide-text converter: turns UTF-8 text into UTF-16 code units, emitting a
//! surrogate pair for every code point at or above `U+10000`. The decoder
//! walks the bytes one code point at a time, branching on the leading-byte
//! bit patterns `0xxxxxxx`, `110xxxxx`, `1110xxxx` and `11110xxx`.

use vstd::prelude::*;

verus! {

use vstd::string::StringSliceAdditionalSpecFns;
use vstd::utf8::char_is_scalar;
use vstd::utf8::encode_scalar;
use vstd::utf8::encode_utf8;
use vstd::utf8::has_width_1_encoding;
use vstd::utf8::has_width_2_encoding;
use vstd::utf8::has_width_3_encoding;
use vstd::utf8::is_scalar;
use vstd::utf8::last_continuation_byte;
use vstd::utf8::leading_byte_width_1;
use vstd::utf8::leading_byte_width_2;
use vstd::utf8::leading_byte_width_3;
use vstd::utf8::leading_byte_width_4;
use vstd::utf8::second_last_continuation_byte;
use vstd::utf8::third_last_continuation_byte;

/// The UTF-16 encoding of one character: a single unit below `U+10000`, and
/// a high/low surrogate pair built with the standard offset formula above.
pub open spec fn utf16_of_char(c: char) -> Seq<u16> {
    let u = c as u32;
    if u >= 0x10000 {
        seq![
            (0xD800 + ((u - 0x10000) / 0x400)) as u16,
            (0xDC00 + ((u - 0x10000) % 0x400)) as u16,
        ]
    } else {
        seq![u as u16]
    }
}

/// The UTF-16 encoding of a character sequence, in order.
pub open spec fn utf16_encode(chars: Seq<char>) -> Seq<u16>
    decreases chars.len(),
{
    if chars.len() == 0 {
        seq![]
    } else {
        utf16_of_char(chars[0]) + utf16_encode(chars.drop_first())
    }
}

proof fn lemma_utf16_encode_push(chars: Seq<char>, c: char)
    ensures
        utf16_encode(chars.push(c)) == utf16_encode(chars) + utf16_of_char(c),
    decreases chars.len(),
{
    if chars.len() == 0 {
        assert(chars.push(c)[0] == c);
        assert(chars.push(c).drop_first() =~= Seq::<char>::empty());
        assert(utf16_encode(chars.push(c)) == utf16_of_char(chars.push(c)[0]) + utf16_encode(
            chars.push(c).drop_first(),
        ));
        assert(utf16_encode(Seq::<char>::empty()) =~= Seq::<u16>::empty());
        assert(utf16_encode(chars.push(c)) =~= utf16_of_char(c));
        assert(utf16_encode(chars) + utf16_of_char(c) =~= utf16_of_char(c));
    } else {
        lemma_utf16_encode_push(chars.drop_first(), c);
        assert(chars.push(c)[0] == chars[0]);
        assert(chars.push(c).drop_first() =~= chars.drop_first().push(c));
        assert(utf16_encode(chars.push(c)) =~= utf16_of_char(chars[0]) + (utf16_encode(
            chars.drop_first(),
        ) + utf16_of_char(c)));
        assert(utf16_of_char(chars[0]) + (utf16_encode(chars.drop_first()) + utf16_of_char(c))
            =~= utf16_encode(chars) + utf16_of_char(c));
    }
}

proof fn lemma_scalar_width_1(u: u32)
    requires
        has_width_1_encoding(u),
    ensures
        ({
            let b0 = leading_byte_width_1(u);
            &&& b0 & 0x80 == 0x00
            &&& (b0 as u32) == u
        }),
{
    let b0 = leading_byte_width_1(u);
    assert(b0 & 0x80 == 0x00 && (b0 as u32) == u) by (bit_vector)
        requires
            b0 == (u & 0x7F) as u8,
            u <= 0x7F,
    ;
}

proof fn lemma_scalar_width_2(u: u32)
    requires
        has_width_2_encoding(u),
    ensures
        ({
            let b0 = leading_byte_width_2(u);
            let b1 = last_continuation_byte(u);
            &&& b0 & 0x80 == 0x80
            &&& b0 & 0xe0 == 0xc0
            &&& ((((b0 & 0x1f) as u32) << 6u32) | ((b1 & 0x3f) as u32)) == u
        }),
{
    let b0 = leading_byte_width_2(u);
    let b1 = last_continuation_byte(u);
    assert(b0 & 0x80 == 0x80 && b0 & 0xe0 == 0xc0 && ((((b0 & 0x1f) as u32) << 6u32) | ((b1
        & 0x3f) as u32)) == u) by (bit_vector)
        requires
            b0 == 0xC0u8 | (((u >> 6u32) & 0x1F) as u8),
            b1 == 0x80u8 | ((u & 0x3F) as u8),
            0x80 <= u && u <= 0x7FF,
    ;
}

proof fn lemma_scalar_width_3(u: u32)
    requires
        has_width_3_encoding(u),
    ensures
        ({
            let b0 = leading_byte_width_3(u);
            let b1 = second_last_continuation_byte(u);
            let b2 = last_continuation_byte(u);
            &&& b0 & 0x80 == 0x80
            &&& b0 & 0xe0 == 0xe0
            &&& b0 & 0xf0 == 0xe0
            &&& ((((b0 & 0x0f) as u32) << 12u32) | (((b1 & 0x3f) as u32) << 6u32) | ((b2
                & 0x3f) as u32)) == u
        }),
{
    let b0 = leading_byte_width_3(u);
    let b1 = second_last_continuation_byte(u);
    let b2 = last_continuation_byte(u);
    assert(b0 & 0x80 == 0x80 && b0 & 0xe0 == 0xe0 && b0 & 0xf0 == 0xe0 && ((((b0
        & 0x0f) as u32) << 12u32) | (((b1 & 0x3f) as u32) << 6u32) | ((b2 & 0x3f) as u32)) == u)
        by (bit_vector)
        requires
            b0 == 0xE0u8 | (((u >> 12u32) & 0x0F) as u8),
            b1 == 0x80u8 | (((u >> 6u32) & 0x3F) as u8),
            b2 == 0x80u8 | ((u & 0x3F) as u8),
            0x800 <= u && u <= 0xFFFF,
    ;
}

proof fn lemma_scalar_width_4(u: u32)
    requires
        0x10000 <= u <= 0x10FFFF,
    ensures
        ({
            let b0 = leading_byte_width_4(u);
            let b1 = third_last_continuation_byte(u);
            let b2 = second_last_continuation_byte(u);
            let b3 = last_continuation_byte(u);
            &&& b0 & 0x80 == 0x80
            &&& b0 & 0xe0 == 0xe0
            &&& b0 & 0xf0 == 0xf0
            &&& b0 & 0xf8 == 0xf0
            &&& ((((b0 & 0x07) as u32) << 18u32) | (((b1 & 0x3f) as u32) << 12u32) | (((b2
                & 0x3f) as u32) << 6u32) | ((b3 & 0x3f) as u32)) == u
        }),
{
    let b0 = leading_byte_width_4(u);
    let b1 = third_last_continuation_byte(u);
    let b2 = second_last_continuation_byte(u);
    let b3 = last_continuation_byte(u);
    assert(b0 & 0x80 == 0x80 && b0 & 0xe0 == 0xe0 && b0 & 0xf0 == 0xf0 && b0 & 0xf8 == 0xf0
        && ((((b0 & 0x07) as u32) << 18u32) | (((b1 & 0x3f) as u32) << 12u32) | (((b2
        & 0x3f) as u32) << 6u32) | ((b3 & 0x3f) as u32)) == u) by (bit_vector)
        requires
            b0 == 0xF0u8 | (((u >> 18u32) & 0x7) as u8),
            b1 == 0x80u8 | (((u >> 12u32) & 0x3F) as u8),
            b2 == 0x80u8 | (((u >> 6u32) & 0x3F) as u8),
            b3 == 0x80u8 | ((u & 0x3F) as u8),
            0x10000 <= u && u <= 0x10FFFF,
    ;
}

/// Everything the decoding loop needs to know about the first character of a
/// UTF-8 encoded text: how the leading byte identifies the sequence width,
/// how the masked bits recombine into the code point, and what remains.
proof fn lemma_first_char_bytes(text: Seq<char>, bytes: Seq<u8>)
    requires
        text.len() > 0,
        bytes == encode_utf8(text),
    ensures
        ({
            let u = text[0] as u32;
            let w = encode_scalar(u).len() as int;
            &&& is_scalar(u)
            &&& u <= 0x10FFFF
            &&& 1 <= w <= 4
            &&& w <= bytes.len()
            &&& bytes.skip(w) == encode_utf8(text.drop_first())
            &&& (w == 1 ==> bytes[0] & 0x80 == 0x00 && (bytes[0] as u32) == u)
            &&& (w == 2 ==> bytes[0] & 0x80 == 0x80 && bytes[0] & 0xe0 == 0xc0 && ((((bytes[0]
                & 0x1f) as u32) << 6u32) | ((bytes[1] & 0x3f) as u32)) == u)
            &&& (w == 3 ==> bytes[0] & 0x80 == 0x80 && bytes[0] & 0xe0 == 0xe0 && bytes[0] & 0xf0
                == 0xe0 && ((((bytes[0] & 0x0f) as u32) << 12u32) | (((bytes[1]
                & 0x3f) as u32) << 6u32) | ((bytes[2] & 0x3f) as u32)) == u)
            &&& (w == 4 ==> bytes[0] & 0x80 == 0x80 && bytes[0] & 0xe0 == 0xe0 && bytes[0] & 0xf0
                == 0xf0 && bytes[0] & 0xf8 == 0xf0 && ((((bytes[0] & 0x07) as u32) << 18u32)
                | (((bytes[1] & 0x3f) as u32) << 12u32) | (((bytes[2] & 0x3f) as u32) << 6u32)
                | ((bytes[3] & 0x3f) as u32)) == u)
            &&& (u >= 0x10000 <==> w == 4)
        }),
{
    char_is_scalar(text[0]);
    let u = text[0] as u32;
    let es = encode_scalar(u);
    let w = es.len() as int;
    assert(bytes == es + encode_utf8(text.drop_first()));
    assert(forall|j: int| 0 <= j < w ==> bytes[j] == es[j]);
    if has_width_1_encoding(u) {
        lemma_scalar_width_1(u);
        assert(es =~= seq![leading_byte_width_1(u)]);
    } else if has_width_2_encoding(u) {
        lemma_scalar_width_2(u);
        assert(es =~= seq![leading_byte_width_2(u), last_continuation_byte(u)]);
    } else if has_width_3_encoding(u) {
        lemma_scalar_width_3(u);
        assert(es =~= seq![
            leading_byte_width_3(u),
            second_last_continuation_byte(u),
            last_continuation_byte(u),
        ]);
    } else {
        lemma_scalar_width_4(u);
        assert(es =~= seq![
            leading_byte_width_4(u),
            third_last_continuation_byte(u),
            second_last_continuation_byte(u),
            last_continuation_byte(u),
        ]);
    }
    assert(bytes.skip(w) =~= encode_utf8(text.drop_first()));
}

/// Number of UTF-16 code units needed for the text: one per character, and
/// two for each character at or above `U+10000`. A first pass with this
/// function sizes the output of [`wide`] exactly.
pub fn wide_len(s: &str) -> (r: usize)
    ensures
        r == utf16_encode(s@).len(),
{
    let v = s.as_bytes();
    let mut len = 0usize;
    let mut i = 0usize;
    let ghost mut k: int = 0;
    proof {
        assert(v@.skip(0) =~= v@);
        assert(s@.skip(0) =~= s@);
        assert(s@.take(0) =~= Seq::<char>::empty());
    }
    while i < v.len()
        invariant
            i <= v@.len(),
            0 <= k <= s@.len(),
            v@ == s.spec_bytes(),
            v@.skip(i as int) == encode_utf8(s@.skip(k)),
            len == utf16_encode(s@.take(k)).len(),
            len <= i,
        decreases v@.len() - i,
    {
        proof {
            assert(encode_utf8(s@.skip(k)).len() > 0);
            assert(s@.skip(k).len() > 0);
            lemma_first_char_bytes(s@.skip(k), v@.skip(i as int));
            assert(s@.skip(k)[0] == s@[k]);
            assert(forall|j: int|
                0 <= j < v@.len() - i ==> v@.skip(i as int)[j] == v@[i as int + j]);
        }
        let ghost c = s@[k];
        let ghost u = c as u32;
        let ghost w = encode_scalar(u).len() as int;
        let b0 = v[i];
        let chr: u32;
        if b0 & 0x80 == 0x00 {
            proof {
                assert(w == 1);
            }
            chr = b0 as u32;
            i += 1;
        } else if b0 & 0xe0 == 0xc0 {
            proof {
                assert(w == 2);
            }
            chr = (((b0 & 0x1f) as u32) << 6u32) | ((v[i + 1] & 0x3f) as u32);
            i += 2;
        } else if b0 & 0xf0 == 0xe0 {
            proof {
                assert(w == 3);
            }
            chr = (((b0 & 0x0f) as u32) << 12u32) | (((v[i + 1] & 0x3f) as u32) << 6u32) | ((v[i
                + 2] & 0x3f) as u32);
            i += 3;
        } else if b0 & 0xf8 == 0xf0 {
            proof {
                assert(w == 4);
            }
            chr = (((b0 & 0x07) as u32) << 18u32) | (((v[i + 1] & 0x3f) as u32) << 12u32) | (((v[i
                + 2] & 0x3f) as u32) << 6u32) | ((v[i + 3] & 0x3f) as u32);
            i += 4;
        } else {
            proof {
                assert(false);
            }
            chr = vstd::pervasive::unreached();
            i += 1;
        }
        proof {
            assert(chr == u);
        }
        if chr >= 0x10000 {
            len += 2;
        } else {
            len += 1;
        }
        proof {
            assert(s@.take(k + 1) =~= s@.take(k).push(c));
            lemma_utf16_encode_push(s@.take(k), c);
            assert(v@.skip(i as int) =~= v@.skip(i as int - w).skip(w));
            assert(s@.skip(k).drop_first() =~= s@.skip(k + 1));
            k = k + 1;
        }
    }
    proof {
        assert(s@.skip(k).len() == 0);
        assert(s@.take(k) =~= s@);
    }
    len
}

/// The UTF-16 code units of the text, in order, each code point at or above
/// `U+10000` emitted as its high and low surrogates. The output length always
/// equals the count that [`wide_len`] computes.
pub fn wide(s: &str) -> (r: Vec<u16>)
    ensures
        r@ == utf16_encode(s@),
{
    let v = s.as_bytes();
    let mut data: Vec<u16> = Vec::new();
    let mut i = 0usize;
    let ghost mut k: int = 0;
    proof {
        assert(v@.skip(0) =~= v@);
        assert(s@.skip(0) =~= s@);
        assert(s@.take(0) =~= Seq::<char>::empty());
        assert(data@ =~= utf16_encode(s@.take(0)));
    }
    while i < v.len()
        invariant
            i <= v@.len(),
            0 <= k <= s@.len(),
            v@ == s.spec_bytes(),
            v@.skip(i as int) == encode_utf8(s@.skip(k)),
            data@ == utf16_encode(s@.take(k)),
        decreases v@.len() - i,
    {
        proof {
            assert(encode_utf8(s@.skip(k)).len() > 0);
            assert(s@.skip(k).len() > 0);
            lemma_first_char_bytes(s@.skip(k), v@.skip(i as int));
            assert(s@.skip(k)[0] == s@[k]);
            assert(forall|j: int|
                0 <= j < v@.len() - i ==> v@.skip(i as int)[j] == v@[i as int + j]);
        }
        let ghost c = s@[k];
        let ghost u = c as u32;
        let ghost w = encode_scalar(u).len() as int;
        let b0 = v[i];
        let chr: u32;
        if b0 & 0x80 == 0x00 {
            proof {
                assert(w == 1);
            }
            chr = b0 as u32;
            i += 1;
        } else if b0 & 0xe0 == 0xc0 {
            proof {
                assert(w == 2);
            }
            chr = (((b0 & 0x1f) as u32) << 6u32) | ((v[i + 1] & 0x3f) as u32);
            i += 2;
        } else if b0 & 0xf0 == 0xe0 {
            proof {
                assert(w == 3);
            }
            chr = (((b0 & 0x0f) as u32) << 12u32) | (((v[i + 1] & 0x3f) as u32) << 6u32) | ((v[i
                + 2] & 0x3f) as u32);
            i += 3;
        } else if b0 & 0xf8 == 0xf0 {
            proof {
                assert(w == 4);
            }
            chr = (((b0 & 0x07) as u32) << 18u32) | (((v[i + 1] & 0x3f) as u32) << 12u32) | (((v[i
                + 2] & 0x3f) as u32) << 6u32) | ((v[i + 3] & 0x3f) as u32);
            i += 4;
        } else {
            proof {
                assert(false);
            }
            chr = vstd::pervasive::unreached();
            i += 1;
        }
        proof {
            assert(chr == u);
        }
        if chr >= 0x10000 {
            data.push((0xD800 + (chr - 0x10000) / 0x400) as u16);
            data.push((0xDC00 + (chr - 0x10000) % 0x400) as u16);
        } else {
            data.push(chr as u16);
        }
        proof {
            assert(s@.take(k + 1) =~= s@.take(k).push(c));
            lemma_utf16_encode_push(s@.take(k), c);
            assert(data@ =~= utf16_encode(s@.take(k)) + utf16_of_char(c));
            assert(v@.skip(i as int) =~= v@.skip(i as int - w).skip(w));
            assert(s@.skip(k).drop_first() =~= s@.skip(k + 1));
            k = k + 1;
        }
    }
    proof {
        assert(s@.skip(k).len() == 0);
        assert(s@.take(k) =~= s@);
    }
    data
}

/// True when the unit is a high (leading) surrogate.
pub open spec fn is_high_surrogate(u: u16) -> bool {
    0xD800 <= u <= 0xDBFF
}

/// True when the unit is a low (trailing) surrogate.
pub open spec fn is_low_surrogate(u: u16) -> bool {
    0xDC00 <= u <= 0xDFFF
}

/// The code point encoded by a high/low surrogate pair.
pub open spec fn combine_surrogates(hi: u16, lo: u16) -> u32
    recommends
        is_high_surrogate(hi),
        is_low_surrogate(lo),
{
    (0x10000 + (hi - 0xD800) * 0x400 + (lo - 0xDC00)) as u32
}

/// The characters read back from a UTF-16 unit sequence: a high surrogate
/// followed by a low surrogate recombines into one code point, any unpaired
/// surrogate becomes the replacement character, and every other unit is a
/// character of its own.
pub open spec fn utf16_decode(units: Seq<u16>) -> Seq<char>
    decreases units.len(),
{
    if units.len() == 0 {
        seq![]
    } else if is_high_surrogate(units[0]) && units.len() >= 2 && is_low_surrogate(units[1]) {
        seq![combine_surrogates(units[0], units[1]) as char] + utf16_decode(units.skip(2))
    } else if is_high_surrogate(units[0]) || is_low_surrogate(units[0]) {
        seq!['\u{FFFD}'] + utf16_decode(units.skip(1))
    } else {
        seq![(units[0] as u32) as char] + utf16_decode(units.skip(1))
    }
}

/// Law: the wide converter round-trips. Reading the UTF-16 encoding of any
/// text back through surrogate-pair recombination gives exactly the original
/// characters.
pub proof fn lemma_utf16_decode_encode(chars: Seq<char>)
    ensures
        utf16_decode(utf16_encode(chars)) == chars,
    decreases chars.len(),
{
    if chars.len() == 0 {
        assert(utf16_decode(utf16_encode(chars)) =~= chars);
    } else {
        let c = chars[0];
        let u = c as u32;
        char_is_scalar(c);
        let units = utf16_encode(chars);
        let rest = utf16_encode(chars.drop_first());
        lemma_utf16_decode_encode(chars.drop_first());
        if u >= 0x10000 {
            lemma_surrogate_round_trip(c);
            let hi = utf16_of_char(c)[0];
            let lo = utf16_of_char(c)[1];
            assert(units[0] == hi && units[1] == lo && units.len() >= 2);
            assert(combine_surrogates(hi, lo) == u);
            vstd::utf8::char_u32_cast(c, u);
            assert(units.skip(2) =~= rest);
            assert(utf16_decode(units) =~= seq![c] + utf16_decode(rest));
            assert(seq![c] + chars.drop_first() =~= chars);
        } else {
            let w = utf16_of_char(c)[0];
            assert(w == u as u16);
            assert(w as u32 == u);
            assert(!is_high_surrogate(w) && !is_low_surrogate(w));
            vstd::utf8::char_u32_cast(c, u);
            assert(units[0] == w);
            assert(units.skip(1) =~= rest);
            assert(utf16_decode(units) =~= seq![c] + utf16_decode(rest));
            assert(seq![c] + chars.drop_first() =~= chars);
        }
    }
}

/// Law: every character at or above `U+10000` becomes exactly two units, a
/// high surrogate followed by a low surrogate, and the standard recombination
/// recovers the original code point from the pair.
pub proof fn lemma_surrogate_round_trip(c: char)
    requires
        c as u32 >= 0x10000,
    ensures
        ({
            let units = utf16_of_char(c);
            &&& units.len() == 2
            &&& 0xD800 <= units[0] <= 0xDBFF
            &&& 0xDC00 <= units[1] <= 0xDFFF
            &&& 0x10000 + (units[0] - 0xD800) * 0x400 + (units[1] - 0xDC00) == c as u32
        }),
{
    char_is_scalar(c);
    let u = c as u32;
    let d = u - 0x10000;
    vstd::arithmetic::div_mod::lemma_fundamental_div_mod(d as int, 0x400);
    assert(0 <= d % 0x400 < 0x400) by (nonlinear_arith)
        requires
            0 <= d,
    ;
    assert(0 <= d / 0x400 <= 0x3FF) by (nonlinear_arith)
        requires
            0 <= d <= 0xFFFFF,
    ;
}

} // verus!
