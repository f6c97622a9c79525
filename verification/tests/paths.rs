use fasthtcacheclean::stem_set::{hash, StemSet};
use fasthtcacheclean::paths::{
    append_bytes, has_prefix, has_suffix, is_lex_le, is_same_bytes, join, replace_suffix,
};

/// Suffixes and prefixes are compared byte by byte.
#[test]
fn prefixes_and_suffixes() {
    assert!(has_suffix(b"abc.header", b".header"));
    assert!(has_suffix(b".header", b".header"));
    assert!(!has_suffix(b"header", b".header"));
    assert!(!has_suffix(b"abc.heade", b".header"));
    assert!(!has_suffix(b"abc.Header", b".header"));
    assert!(has_suffix(b"abc", b""));
    assert!(has_suffix(b"", b""));
    assert!(has_prefix(b"aptmpABCDEF", b"aptmp"));
    assert!(!has_prefix(b"aptm", b"aptmp"));
    assert!(!has_prefix(b"xaptmp", b"aptmp"));
    assert!(has_prefix(b"abc", b""));
}

/// A directory and a name are joined by one separator.
#[test]
fn joining_paths() {
    assert_eq!(join(b".", b"ab"), b"./ab".to_vec());
    assert_eq!(join(b"./ab", b"cd.header"), b"./ab/cd.header".to_vec());
    assert_eq!(join(b"/", b"x"), b"/x".to_vec());
    assert_eq!(join(b"a/", b"x"), b"a/x".to_vec());
    assert_eq!(join(b"", b"x"), b"x".to_vec());
    assert_eq!(join(b"a", b""), b"a/".to_vec());
}

/// The end of a path is replaced, the rest is kept.
#[test]
fn replacing_suffixes() {
    assert_eq!(replace_suffix(b"x.header", 7, b".data"), b"x.data".to_vec());
    assert_eq!(replace_suffix(b"x.header", 0, b".vary"), b"x.header.vary".to_vec());
    assert_eq!(replace_suffix(b"x.header", 8, b""), b"".to_vec());
    let mut out = b"ab".to_vec();
    append_bytes(&mut out, b"cd");
    append_bytes(&mut out, b"");
    assert_eq!(out, b"abcd".to_vec());
}

/// Lexicographic order is that of the byte strings of the standard library.
#[test]
fn lexicographic_order() {
    let words: [&[u8]; 9] = [b"", b"a", b"aa", b"ab", b"b", b"a\xff", b"\x00", b"abc", b"ab\x00"];
    for a in words {
        for b in words {
            assert_eq!(is_lex_le(a, b), a <= b);
            assert_eq!(is_same_bytes(a, b), a == b);
        }
    }
}

/// A set of names holds what was put into it, however many share a hash.
#[test]
fn stem_sets() {
    let mut set = StemSet::new();
    assert!(!set.contains(b""));
    assert!(!set.contains(b"abc"));
    set.insert(b"abc".to_vec());
    set.insert(b"".to_vec());
    set.insert(b"abc".to_vec());
    assert!(set.contains(b"abc"));
    assert!(set.contains(b""));
    assert!(!set.contains(b"ab"));
    assert!(!set.contains(b"abcd"));
    for i in 0..5000u32 {
        set.insert(format!("{:x}", i.wrapping_mul(2654435761)).into_bytes());
    }
    for i in 0..5000u32 {
        assert!(set.contains(format!("{:x}", i.wrapping_mul(2654435761)).as_bytes()));
        assert!(!set.contains(format!("{:x}.", i.wrapping_mul(2654435761)).as_bytes()));
    }
    assert_eq!(hash(b""), 0);
    assert_eq!(hash(b"\x00"), 1);
    assert_eq!(hash(b"a"), 98);
    assert_eq!(hash(b"ab"), 98 * 257 + 99);
    assert_eq!(hash(&[255; 8]), ((((((((256u128 * 257 + 256) * 257 + 256) * 257 + 256) * 257 + 256) * 257 + 256) * 257 + 256) * 257 + 256) % 0x1fff_ffff_ffff_ffff) as u64);
}
