use obfstr::mix::{
    random_bool, random_i16, random_i32, random_i64, random_i8, random_isize, random_u16,
    random_u32, random_u64, random_u8, random_usize,
};
use obfstr::obf::xref_shift;
use obfstr::{
    derive_seed, entropy, hash, next_round, splitmix, wide, wide_len, ObfBuffer, ObfString,
};

#[test]
fn hash_known_value() {
    assert_eq!(hash("Hello World"), 1481604729);
    assert_eq!(hash(""), 3581);
}

#[test]
fn hash_deterministic() {
    for s in ["", "a", "Hello World", "Hello 🌍", "\0\0\0"] {
        let first = hash(s);
        for _ in 0..10 {
            assert_eq!(hash(s), first);
        }
    }
}

#[test]
fn hash_order_sensitive() {
    assert_ne!(hash("ab"), hash("ba"));
    assert_ne!(hash("abc"), hash("abd"));
}

#[test]
fn splitmix_known_vectors() {
    assert_eq!(splitmix(0), 0xe220a8397b1dcdaf);
    assert_eq!(splitmix(1), 0x910a2dec89025cc1);
}

#[test]
fn splitmix_avalanche() {
    let a = splitmix(0x1234);
    let b = splitmix(0x1235);
    let flipped = (a ^ b).count_ones();
    assert!(flipped >= 16, "single-bit input change flipped only {flipped} bits");
}

#[test]
fn entropy_deterministic() {
    let seed = derive_seed("build-seed");
    let a = entropy(seed, "src/main.rs", 10, 4);
    let b = entropy(seed, "src/main.rs", 10, 4);
    assert_eq!(a, b);
}

#[test]
fn entropy_distinct_sites() {
    let seed = derive_seed("build-seed");
    let mut values = Vec::new();
    for file in ["src/main.rs", "src/lib.rs"] {
        for line in 1..=10u32 {
            for column in 1..=10u32 {
                values.push(entropy(seed, file, line, column));
            }
        }
    }
    for i in 0..values.len() {
        for j in 0..i {
            assert_ne!(values[i], values[j], "collision between sites {i} and {j}");
        }
    }
}

#[test]
fn derive_seed_changes_with_config() {
    assert_ne!(derive_seed("alpha"), derive_seed("beta"));
    assert_eq!(derive_seed("alpha"), derive_seed("alpha"));
}

#[test]
fn next_round_full_cycle_step() {
    // xorshift32 is a permutation with 0 as its only fixed point.
    assert_eq!(next_round(0), 0);
    assert_ne!(next_round(1), 1);
    assert_ne!(next_round(1), next_round(2));
}

#[test]
fn narrow_ciphertext_known_value() {
    let o = ObfString::<Vec<u8>>::obfuscate(1, "AB");
    assert_eq!(o.key, 1);
    assert_eq!(o.data, vec![96, 67]);
}

#[test]
fn narrow_round_trip() {
    for s in ["", "a", "Hello World", "some longer text with spaces", "ünïcödé"] {
        let o = ObfString::<Vec<u8>>::obfuscate(0xdeadbeef, s);
        for x in [0usize, 1, 0x1234, 0xffff] {
            let buf = o.deobfuscate(x);
            assert_eq!(buf.as_slice(), s.as_bytes());
            assert_eq!(buf.as_str(), s);
        }
    }
}

#[test]
fn narrow_round_trip_emoji() {
    let s = "Hello 🌍";
    let seed = derive_seed("");
    let key = random_u32(entropy(seed, "tests/obfstr.rs", 3, 7));
    let o = ObfString::<Vec<u8>>::obfuscate(key, s);
    for x in [0usize, 42, 0xffff] {
        assert_eq!(o.deobfuscate(x).as_str(), s);
    }
}

#[test]
fn narrow_length_invariant() {
    for s in ["", "a", "Hello World", "Hello 🌍"] {
        let o = ObfString::<Vec<u8>>::obfuscate(7, s);
        assert_eq!(o.data.len(), s.len());
    }
}

#[test]
fn narrow_ciphertext_hides_plaintext() {
    let s = "Hello World";
    let o = ObfString::<Vec<u8>>::obfuscate(0x3c0de, s);
    assert_ne!(o.data.as_slice(), s.as_bytes());
}

#[test]
fn eq_consistency() {
    let texts = ["", "a", "Hello World", "Hello 🌍"];
    for s in texts {
        let o = ObfString::<Vec<u8>>::obfuscate(0xcafe, s);
        for t in texts {
            for x in [0usize, 9, 0xffff] {
                let decoded = o.deobfuscate(x);
                assert_eq!(o.eq(t, x), decoded.as_str() == t);
                assert_eq!(o.eq(t, x), s == t);
            }
        }
    }
}

#[test]
fn eq_rejects_prefix_and_suffix() {
    let o = ObfString::<Vec<u8>>::obfuscate(5, "Hello");
    assert!(o.eq("Hello", 0));
    assert!(!o.eq("Hell", 0));
    assert!(!o.eq("Hello!", 0));
    assert!(!o.eq("hello", 0));
}

#[test]
fn zero_length() {
    let o = ObfString::<Vec<u8>>::obfuscate(123, "");
    assert_eq!(o.data.len(), 0);
    assert_eq!(o.deobfuscate(0).as_slice(), &[] as &[u8]);
    assert_eq!(o.deobfuscate(0).as_str(), "");
    assert!(o.eq("", 0));
    assert!(!o.eq("x", 0));

    let w = ObfString::<Vec<u16>>::obfuscate(123, "");
    assert_eq!(w.data.len(), 0);
    assert_eq!(w.deobfuscate(0).as_slice(), &[] as &[u16]);
    assert!(w.eq(&[], 0));
    assert!(!w.eq(&[0x41], 0));
}

#[test]
fn wide_known_units() {
    let expected = ['W' as u16, 'i' as u16, 'd' as u16, 'e' as u16, 0];
    assert_eq!(wide_len("Wide\0"), 5);
    assert_eq!(wide("Wide\0"), expected);
}

#[test]
fn wide_len_matches_wide() {
    for s in ["", "a", "é", "€", "🌍", "Hello 🌍", "mix é € 🌍 end"] {
        assert_eq!(wide_len(s), wide(s).len());
    }
}

#[test]
fn wide_surrogate_pair() {
    // U+1F30D, the globe emoji, is encoded as exactly one surrogate pair.
    let units = wide("🌍");
    assert_eq!(units, vec![0xD83C, 0xDF0D]);
    let high = units[0] as u32;
    let low = units[1] as u32;
    assert!((0xD800..0xDC00).contains(&high));
    assert!((0xDC00..0xE000).contains(&low));
    let recombined = 0x10000 + (high - 0xD800) * 0x400 + (low - 0xDC00);
    assert_eq!(recombined, '🌍' as u32);
}

#[test]
fn wide_scenario_hello_globe() {
    let s = "Hello 🌍";
    assert_eq!(wide_len(s), 8);
    let units = wide(s);
    let decoded: String = char::decode_utf16(units.iter().cloned())
        .map(|c| c.unwrap())
        .collect();
    assert_eq!(decoded, s);
}

#[test]
fn wide_round_trip() {
    for s in ["", "Wide\0", "Hello 🌍", "surrogates 𝄞𝄢 and text"] {
        let o = ObfString::<Vec<u16>>::obfuscate(0xfeed, s);
        assert_eq!(o.data.len(), wide_len(s));
        for x in [0usize, 3, 0xffff] {
            let buf = o.deobfuscate(x);
            assert_eq!(buf.as_slice(), wide(s).as_slice());
            let decoded: String = char::decode_utf16(buf.as_slice().iter().cloned())
                .map(|c| c.unwrap())
                .collect();
            assert_eq!(decoded, s);
        }
    }
}

#[test]
fn wide_ciphertext_hides_units() {
    let s = "Hello World";
    let o = ObfString::<Vec<u16>>::obfuscate(0x3c0de, s);
    assert_ne!(o.data, wide(s));
}

#[test]
fn wide_eq_consistency() {
    let texts = ["", "a", "Hello World", "Hello 🌍"];
    for s in texts {
        let o = ObfString::<Vec<u16>>::obfuscate(0xbead, s);
        for t in texts {
            let candidate = wide(t);
            for x in [0usize, 11, 0xffff] {
                assert_eq!(o.eq(candidate.as_slice(), x), s == t);
            }
        }
    }
}

#[test]
fn wide_to_text_round_trip() {
    for s in ["", "Wide\0", "Hello World", "Hello 🌍", "𝄞 music"] {
        let o = ObfString::<Vec<u16>>::obfuscate(0x517e, s);
        for x in [0usize, 21, 0xffff] {
            assert_eq!(o.deobfuscate(x).to_text(), s);
        }
    }
}

#[test]
fn to_text_recombines_and_replaces() {
    let buf = ObfBuffer(vec![0xD83Cu16, 0xDF0D]);
    assert_eq!(buf.to_text(), "🌍");
    let buf = ObfBuffer(vec![0x41u16, 0xD800, 0x42]);
    assert_eq!(buf.to_text(), "A\u{FFFD}B");
    let buf = ObfBuffer(vec![0xDC00u16]);
    assert_eq!(buf.to_text(), "\u{FFFD}");
    let buf = ObfBuffer(vec![0xD800u16, 0xD800, 0xDC00]);
    assert_eq!(buf.to_text(), "\u{FFFD}\u{10000}");
}

#[test]
fn random_narrowing_values() {
    let e: u64 = 0x1234567890ABCDEF;
    assert_eq!(random_u8(e), 0xEF);
    assert_eq!(random_u16(e), 0xCDEF);
    assert_eq!(random_u32(e), 0x90ABCDEF);
    assert_eq!(random_u64(e), e);
    assert_eq!(random_usize(e), e as usize);
    assert_eq!(random_i8(e), 0xEFu8 as i8);
    assert_eq!(random_i16(e), 0xCDEFu16 as i16);
    assert_eq!(random_i32(e), 0x90ABCDEFu32 as i32);
    assert_eq!(random_i64(e), e as i64);
    assert_eq!(random_isize(e), e as isize);
}

#[test]
fn random_bool_sign() {
    assert!(random_bool(0));
    assert!(random_bool(1));
    assert!(random_bool(i64::MAX as u64));
    assert!(!random_bool(u64::MAX));
    assert!(!random_bool(1 << 63));
}

#[test]
fn xref_shift_range() {
    for e in [0u64, 1, 31, 32, 0xff, 0xdeadbeef, u64::MAX] {
        let s = xref_shift(e);
        assert!((32..64).contains(&s));
        assert_eq!(s, (((e as u8) & 31) + 32) as usize);
    }
}
