use hackatime_setup::text::{
    append_bytes, bytes_eq, byte_is_space, byte_lower, copy_range, count_of, find, has,
    has_prefix, has_suffix, literal_bytes, matches_at, position_of, push_decimal, remove_byte,
    split_into_lines, to_lower, trim_bounds, trimmed,
};

#[test]
fn whitespace_is_ascii() {
    for b in [9u8, 10, 11, 12, 13, 32] {
        assert!(byte_is_space(b));
    }
    for b in [0u8, 8, 14, 31, 33, 65, 160, 255] {
        assert!(!byte_is_space(b));
    }
}

#[test]
fn trimming_drops_both_ends() {
    assert_eq!(trimmed(b"  a b \t\r\n"), b"a b".to_vec());
    assert_eq!(trimmed(b"a"), b"a".to_vec());
    assert_eq!(trimmed(b""), Vec::<u8>::new());
    assert_eq!(trimmed(b" \x0b\x0c "), Vec::<u8>::new());
    assert_eq!(trimmed(b"\0 a \0"), b"\0 a \0".to_vec());
    assert_eq!(trim_bounds(b"  ab "), (2, 4));
    assert_eq!(trim_bounds(b"   "), (3, 3));
    assert_eq!(trim_bounds(b""), (0, 0));
}

#[test]
fn lower_casing_touches_letters_only() {
    assert_eq!(byte_lower(b'A'), b'a');
    assert_eq!(byte_lower(b'Z'), b'z');
    assert_eq!(byte_lower(b'@'), b'@');
    assert_eq!(byte_lower(b'['), b'[');
    assert_eq!(byte_lower(0xC9), 0xC9);
    assert_eq!(to_lower(b"SeTTings-42_[X]"), b"settings-42_[x]".to_vec());
}

#[test]
fn ranges_and_appends() {
    assert_eq!(copy_range(b"abcdef", 2, 4), b"cd".to_vec());
    assert_eq!(copy_range(b"abcdef", 3, 3), Vec::<u8>::new());
    let mut out = b"ab".to_vec();
    append_bytes(&mut out, b"cd");
    append_bytes(&mut out, b"");
    assert_eq!(out, b"abcd".to_vec());
    assert!(bytes_eq(b"abc", b"abc"));
    assert!(!bytes_eq(b"abc", b"abd"));
    assert!(!bytes_eq(b"abc", b"ab"));
    assert!(bytes_eq(b"", b""));
    assert_eq!(literal_bytes("api_key"), b"api_key".to_vec());
}

#[test]
fn counting_and_positions() {
    assert_eq!(count_of(b"a=b=c", b'='), 2);
    assert_eq!(count_of(b"", b'='), 0);
    assert_eq!(position_of(b"a=b=c", b'='), 1);
    assert_eq!(position_of(b"abc", b'='), 3);
    assert_eq!(remove_byte(b"\0a\0\0b\0", 0), b"ab".to_vec());
    assert_eq!(remove_byte(b"ab", 0), b"ab".to_vec());
}

#[test]
fn searching() {
    assert_eq!(find(b"hello world", b"o w"), Some(4));
    assert_eq!(find(b"aaa", b"a"), Some(0));
    assert_eq!(find(b"abc", b"abcd"), None);
    assert_eq!(find(b"abc", b""), Some(0));
    assert_eq!(find(b"", b""), Some(0));
    assert_eq!(find(b"abcabc", b"cab"), Some(2));
    assert_eq!(find(b"abc", b"c"), Some(2));
    assert!(has(b"needle in hay", b"in"));
    assert!(!has(b"needle in hay", b"out"));
    assert!(matches_at(b"abc", b"bc", 1));
    assert!(!matches_at(b"abc", b"bc", 2));
    assert!(!matches_at(b"abc", b"bc", 7));
    assert!(has_prefix(b"abc", b"ab"));
    assert!(!has_prefix(b"abc", b"bc"));
    assert!(has_prefix(b"abc", b""));
    assert!(has_suffix(b"abc", b"bc"));
    assert!(!has_suffix(b"abc", b"ab"));
    assert!(!has_suffix(b"c", b"bc"));
}

#[test]
fn splitting_lines() {
    assert_eq!(split_into_lines(b""), vec![Vec::<u8>::new()]);
    assert_eq!(split_into_lines(b"a\nb"), vec![b"a".to_vec(), b"b".to_vec()]);
    assert_eq!(split_into_lines(b"a\n"), vec![b"a".to_vec(), Vec::new()]);
    assert_eq!(split_into_lines(b"\n\n"), vec![Vec::<u8>::new(), Vec::new(), Vec::new()]);
}

#[test]
fn decimal_digits() {
    for n in [0u64, 1, 9, 10, 11, 99, 100, 101, 12345, 1700000000, u64::MAX] {
        let mut out = b"x".to_vec();
        push_decimal(&mut out, n);
        assert_eq!(out, format!("x{n}").into_bytes());
    }
}
