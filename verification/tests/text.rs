//! Text, bytes and paths.

use agent_bridle_core::bytes::{hex_decode, push_bytes, push_field};
use agent_bridle_core::hex_encode;
use agent_bridle_core::paths::{
    join_path, path_components, path_file_name, path_has_parent_component, path_is_absolute,
    path_is_within,
};
use agent_bridle_core::text::{
    byte_len, bytes_equal, bytes_less, chars_of, decimal_of, equal_ignoring_case, find_from,
    find_last, matches_at, split_text, str_equal, str_less, string_of, strip_text,
    text_after, text_before, text_begins_with, text_contains, trim_start_text, trim_text,
    wide_decimal_of,
};

#[test]
fn text_compares_by_its_bytes() {
    assert!(str_equal("a\u{e9}", "a\u{e9}") && !str_equal("a", "b"));
    assert!(bytes_equal(b"ab", b"ab") && !bytes_equal(b"ab", b"abc"));
    assert!(str_less("a", "ab") && str_less("Z", "a") && !str_less("a", "a"));
    assert!(str_less("z", "\u{e9}"));
    assert!(bytes_less(&[1], &[1, 0]) && !bytes_less(&[2], &[1, 9]));
    assert_eq!(byte_len("a\u{e9}\u{1F600}"), 7);
}

#[test]
fn numbers_are_written_in_decimal() {
    assert_eq!(decimal_of(0), "0");
    assert_eq!(decimal_of(18446744073709551615), "18446744073709551615");
    assert_eq!(
        wide_decimal_of(340282366920938463463374607431768211455),
        "340282366920938463463374607431768211455"
    );
}

#[test]
fn text_is_taken_apart_and_put_together() {
    let chars = chars_of("key=a=b");
    assert_eq!(find_from(&chars, '=', 0), 3);
    assert_eq!(find_from(&chars, '=', 4), 5);
    assert_eq!(find_from(&chars, 'z', 0), chars.len());
    assert_eq!(find_last(&chars, '='), Some(5));
    assert_eq!(find_last(&chars, 'z'), None);
    assert_eq!(string_of(&chars, 4, 7), "a=b");
    assert_eq!(split_text("a::b:", ':'), vec!["a", "", "b", ""]);
    assert_eq!(split_text("", ':'), vec![""]);
    assert!(matches_at(&chars, 4, &chars_of("a=")));
    assert!(!matches_at(&chars, 6, &chars_of("b=")));
    assert!(text_contains(&chars, &chars_of("=a=")));
    assert!(!text_contains(&chars, &chars_of("==")));
    assert!(text_begins_with(&chars, "key"));
    assert!(equal_ignoring_case(&chars_of("xHoSTx"), 1, 5, "host"));
    assert!(!equal_ignoring_case(&chars_of("xHoSTx"), 0, 5, "host"));
}

#[test]
fn text_is_trimmed_and_cut() {
    assert_eq!(trim_start_text("//a/", '/'), "a/");
    assert_eq!(trim_text("//a/b//", '/'), "a/b");
    assert_eq!(trim_text("///", '/'), "");
    assert_eq!(strip_text("\t a b \r\n"), "a b");
    assert_eq!(text_before("a => b => c", " => "), "a");
    assert_eq!(text_before("abc", " => "), "abc");
    assert_eq!(text_after("a => b => c", " => "), Some("b => c".to_string()));
    assert_eq!(text_after("abc", " => "), None);
}

#[test]
fn paths_are_read_by_their_components() {
    assert!(path_is_absolute("/a") && !path_is_absolute("a/b"));
    assert_eq!(path_components("/a//b/./c/"), vec!["/", "a", "b", "c"]);
    assert_eq!(path_components("./a/../b"), vec![".", "a", "..", "b"]);
    assert_eq!(path_file_name("/usr/bin/cat"), Some("cat".to_string()));
    assert_eq!(path_file_name("/usr/bin/cat/."), Some("cat".to_string()));
    assert_eq!(path_file_name("/"), None);
    assert_eq!(path_file_name("/a/.."), None);
    assert!(path_has_parent_component("/a/../b") && !path_has_parent_component("/a/..b"));
}

#[test]
fn containment_is_by_whole_components() {
    assert!(path_is_within("/a/b", "/a") && path_is_within("/a", "/a"));
    assert!(!path_is_within("/ab", "/a") && !path_is_within("/a", "/a/b"));
    assert!(path_is_within("/a/b/c", "/a/b") && path_is_within("/a/b/c", "/a"));
}

#[test]
fn a_joined_name_stays_below_its_base() {
    assert_eq!(join_path("/a", "b"), "/a/b");
    assert_eq!(join_path("/a/", "b"), "/a/b");
    assert_eq!(join_path("", "b"), "b");
    assert!(path_is_within(&join_path("/a/c", "b"), "/a/c"));
}

#[test]
fn a_field_ends_where_it_says() {
    let mut one = Vec::new();
    push_field(&mut one, b"ab");
    push_field(&mut one, b"c");
    let mut two = Vec::new();
    push_field(&mut two, b"a");
    push_field(&mut two, b"bc");
    assert_ne!(one, two);
    assert_eq!(one, vec![2, 0, 0, 0, 0, 0, 0, 0, b'a', b'b', 1, 0, 0, 0, 0, 0, 0, 0, b'c']);
    let mut joined = b"x".to_vec();
    push_bytes(&mut joined, b"yz");
    assert_eq!(joined, b"xyz");
}

#[test]
fn every_byte_string_reads_back_from_its_hexadecimal() {
    let all: Vec<u8> = (0..=255).collect();
    assert_eq!(hex_decode(&hex_encode(&all)).unwrap(), all);
    assert_eq!(hex_encode(&[]), "");
}
