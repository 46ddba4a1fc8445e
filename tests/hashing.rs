use strudel::api::{
    st_hash, st_hash_end, st_hash_start, st_hash_uint, st_hash_uint32, st_locale_insensitive_strcasecmp,
    st_locale_insensitive_strncasecmp, str_case_hash, str_hash,
};
use strudel::fnv::{hash, Fnv1a32, FNV1_32A_INIT};
use strudel::{HashType, NumericHash};

#[test]
fn fnv1a_reference_vectors() {
    assert_eq!(hash(b""), 0x811c_9dc5);
    assert_eq!(hash(b"a"), 0xe40c_292c);
    assert_eq!(hash(b"foobar"), 0xbf9c_f968);
}

#[test]
fn fnv1a_hasher_state() {
    let h = Fnv1a32::new();
    assert_eq!(h.finish(), FNV1_32A_INIT as u64);
    let mut h = Fnv1a32::with_seed(0);
    h.write(b"hello");
    assert_eq!(h.finish(), 406_904_376);
    let mut h = Fnv1a32::new();
    h.write(b"foo");
    h.write(b"bar");
    assert_eq!(h.finish(), 0xbf9c_f968);
}

#[test]
fn st_hash_of_bytes() {
    assert_eq!(st_hash(b"hello", 0), 406_904_376);
    assert_eq!(st_hash(b"hello", 0x811c_9dc5), 1_335_831_723);
    assert_eq!(st_hash(b"", 12345), 12345);
}

#[test]
fn st_hash_of_words() {
    assert_eq!(st_hash_uint32(0x811c_9dc5, 1), 4_218_009_092);
    assert_eq!(st_hash_uint32(7, 0xdead_beef), 3_304_530_601);
    assert_eq!(st_hash_uint(0x811c_9dc5, 42), 3_990_555_855);
    // Only the low 32 bits of the seed count.
    assert_eq!(st_hash_uint((1usize << 40) + 5, 42), 618_690_319);
    assert_eq!(st_hash_start(0), 2_615_243_109);
    assert_eq!(st_hash_start(123_456_789), 3_735_129_401);
    assert_eq!(st_hash_end(987), 987);
}

#[test]
fn numeric_keys_hash_to_themselves() {
    assert_eq!(NumericHash.hash(42), 42);
    assert!(NumericHash.equal(3, 3));
    assert!(!NumericHash.equal(3, 4));
}

#[test]
fn string_presets() {
    assert_eq!(str_hash(b"foobar"), 0xbf9c_f968);
    assert_eq!(str_case_hash(b"FooBAR"), 0xbf9c_f968);
    assert_eq!(str_case_hash(b"foobar"), str_hash(b"foobar"));
    assert_ne!(str_hash(b"FooBAR"), str_hash(b"foobar"));
}

#[test]
fn case_insensitive_comparison() {
    assert_eq!(st_locale_insensitive_strcasecmp(b"ABC", b"abc"), 0);
    assert_eq!(st_locale_insensitive_strcasecmp(b"abc", b"abd"), -1);
    assert_eq!(st_locale_insensitive_strcasecmp(b"abD", b"ABC"), 1);
    // Length decides before content.
    assert_eq!(st_locale_insensitive_strcasecmp(b"zz", b"aaa"), -1);
    assert_eq!(st_locale_insensitive_strcasecmp(b"aaa", b"zz"), 1);
    // Only ASCII letters fold.
    assert_eq!(st_locale_insensitive_strcasecmp(b"@", b"`"), -1);
    assert_eq!(st_locale_insensitive_strcasecmp(b"", b""), 0);
}

#[test]
fn bounded_case_insensitive_comparison() {
    assert_eq!(st_locale_insensitive_strncasecmp(b"HELLO", b"help!", 3), 0);
    assert_eq!(st_locale_insensitive_strncasecmp(b"HELLO", b"help!", 4), -1);
    assert_eq!(st_locale_insensitive_strncasecmp(b"ab\0x", b"AB\0y", 4), 0);
    assert_eq!(st_locale_insensitive_strncasecmp(b"abc\0", b"ab\0\0", 4), 1);
    assert_eq!(st_locale_insensitive_strncasecmp(b"ab\0", b"abc", 3), -1);
    assert_eq!(st_locale_insensitive_strncasecmp(b"abc", b"xyz", 0), 0);
}
