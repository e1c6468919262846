use rvpacker_json_txt::romanize_string;
use rvpacker_json_txt::text::{
    contains_sub, ends_with_str, escape_newlines, find_sub, join_char, replace_first, split_char,
    starts_with_str, str_eq, trim_str, unescape_newlines,
};

#[test]
fn romanize_maps_cjk_punctuation() {
    assert_eq!(romanize_string("\u{3002}"), ".");
    assert_eq!(romanize_string("\u{3001}"), ",");
    assert_eq!(romanize_string("\u{300C}text\u{300D}"), "'text'");
    assert_eq!(romanize_string("\u{300E}a\u{300F}"), "\"a\"");
    assert_eq!(romanize_string("\u{FF08}x\u{FF09}"), "(x)");
    assert_eq!(romanize_string("\u{FF5B}\u{FF5D}"), "{}");
    assert_eq!(romanize_string("\u{FF3B}\u{3010}\u{FF3D}\u{3011}"), "[[]]");
    assert_eq!(romanize_string("\u{301C}\u{FF1F}"), "~?");
}

#[test]
fn romanize_expands_ellipsis() {
    assert_eq!(romanize_string("a\u{2026}"), "a...");
    assert_eq!(romanize_string("\u{2026}\u{2026}"), "......");
}

#[test]
fn romanize_keeps_plain_text() {
    assert_eq!(romanize_string("hello, world!"), "hello, world!");
    assert_eq!(romanize_string(""), "");
}

#[test]
fn escape_replaces_newlines_with_token() {
    assert_eq!(escape_newlines("a\nb"), "a\\#b");
    assert_eq!(escape_newlines("a\nb\nc"), "a\\#b\\#c");
    assert_eq!(escape_newlines("plain"), "plain");
}

#[test]
fn unescape_restores_newlines() {
    assert_eq!(unescape_newlines("a\\#b"), "a\nb");
    assert_eq!(unescape_newlines(&escape_newlines("x\ny\nz")), "x\ny\nz");
    assert_eq!(unescape_newlines("no token"), "no token");
}

#[test]
fn trim_removes_unicode_whitespace() {
    assert_eq!(trim_str("  abc  "), "abc");
    assert_eq!(trim_str("\u{3000}abc\u{00A0}"), "abc");
    assert_eq!(trim_str("\t\n"), "");
    assert_eq!(trim_str("inner space kept"), "inner space kept");
}

#[test]
fn split_and_join_are_inverse_on_lines() {
    let parts = split_char("a\nb\nc", '\n');
    assert_eq!(parts, vec!["a", "b", "c"]);
    assert_eq!(join_char(&parts, '\n'), "a\nb\nc");
    let empty = split_char("", '\n');
    assert_eq!(empty, vec![""]);
}

#[test]
fn split_keeps_empty_pieces() {
    assert_eq!(split_char("a\n\nb", '\n'), vec!["a", "", "b"]);
    assert_eq!(split_char("\n", '\n'), vec!["", ""]);
}

#[test]
fn find_and_contains_substrings() {
    assert_eq!(find_sub("abcdef", "cd"), Some(2));
    assert_eq!(find_sub("abcdef", "xy"), None);
    assert_eq!(find_sub("aaa", "aa"), Some(0));
    assert!(contains_sub("menu <tag> rest", "<tag>"));
    assert!(!contains_sub("abc", "abcd"));
}

#[test]
fn replace_first_replaces_only_one() {
    assert_eq!(replace_first("a-b-c", "-", "+"), "a+b-c");
    assert_eq!(replace_first("none here", "xyz", "!"), "none here");
    assert_eq!(replace_first("<t> and <t>", "<t>", "ok"), "ok and <t>");
}

#[test]
fn prefix_suffix_and_equality() {
    assert!(starts_with_str("GabText hi", "GabText"));
    assert!(!starts_with_str("gabText hi", "GabText"));
    assert!(ends_with_str("choice????", "????"));
    assert!(!ends_with_str("choice", "????"));
    assert!(str_eq("same", "same"));
    assert!(!str_eq("same", "Same"));
}
