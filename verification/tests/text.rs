//! Text primitives.

use absolem::index::final_segment;
use absolem::producer::{go, rust};
use absolem::text::{
    byte_slice, collapse, contains, decimal_text, is_white_space, pad, same_text, split_once,
    split_runs, trim, without_last, Separator,
};

#[test]
fn white_space_is_what_unicode_says() {
    for code in 0..=0x10ffff_u32 {
        if let Some(c) = char::from_u32(code) {
            assert_eq!(is_white_space(c), c.is_whitespace(), "U+{code:04X}");
        }
    }
}

#[test]
fn whitespace_collapses_to_single_spaces() {
    assert_eq!(collapse("  a\t\tb\n c "), "a b c");
    assert_eq!(collapse(""), "");
    assert_eq!(collapse(" \n "), "");
    assert_eq!(go::normalize_whitespace("func  F(\n\tx int,\n)"), "func F( x int, )");
    assert_eq!(rust::normalize_whitespace("fn  f()\n  -> u8 {"), "fn f() -> u8");
    assert_eq!(rust::normalize_whitespace("struct Unit;"), "struct Unit");
    assert_eq!(rust::normalize_whitespace("const MAX: u32 ="), "const MAX: u32");
}

#[test]
fn collapsing_twice_is_collapsing_once() {
    for s in ["", "a", " a  b\u{3000}c\n", "\t\u{2003}x \u{a0} y"] {
        let once = collapse(s);
        assert_eq!(collapse(&once), once);
    }
}

#[test]
fn trimming_keeps_what_is_inside() {
    assert_eq!(trim("  a b \n"), "a b");
    assert_eq!(trim("\u{2003}"), "");
    assert_eq!(trim("a"), "a");
}

#[test]
fn runs_are_never_empty() {
    assert_eq!(
        split_runs("\0a\0\0b\0", &Separator::Char('\0')),
        vec!["a".to_owned(), "b".to_owned()]
    );
    assert!(split_runs(" \t", &Separator::Whitespace).is_empty());
}

#[test]
fn the_first_occurrence_splits() {
    assert_eq!(
        split_once("a...b...c", "..."),
        Some(("a".to_owned(), "b...c".to_owned()))
    );
    assert_eq!(
        split_once("a....b", "..."),
        Some(("a".to_owned(), ".b".to_owned()))
    );
    assert_eq!(split_once("a.b", ".."), None);
    assert!(contains("gitlab.example.com", "gitlab"));
    assert!(!contains("gitla", "gitlab"));
    assert!(contains("x", ""));
}

#[test]
fn numbers_are_written_in_decimal() {
    assert_eq!(decimal_text(0), "0");
    assert_eq!(decimal_text(1090), "1090");
    assert_eq!(decimal_text(u64::MAX), "18446744073709551615");
}

#[test]
fn slices_are_taken_by_bytes() {
    assert_eq!(byte_slice("aéb", 1, 3), "é");
    assert_eq!(byte_slice("aéb", 4, 4), "");
}

#[test]
fn small_change() {
    assert_eq!(pad(3), "   ");
    assert_eq!(pad(0), "");
    assert_eq!(without_last("añ"), "a");
    assert_eq!(without_last(""), "");
    assert!(same_text("é", "é"));
    assert!(!same_text("e", "é"));
    assert!(!same_text("ab", "abc"));
}

#[test]
fn qualified_names_end_in_their_last_segment() {
    assert_eq!(final_segment("pkg.Client"), "Client");
    assert_eq!(final_segment("std::io::Error"), "Error");
    assert_eq!(final_segment("Client"), "Client");
    assert_eq!(final_segment("a.b::c"), "c");
    assert_eq!(final_segment("trailing."), "");
}
