//! Tests for the byte-string utilities: the whitespace index scanner, the
//! message splitter and the nick character test.

use quickcheck::QuickCheck;
use tiny_conn::utils::{is_nick_char, split_all, split_iterator, split_whitespace_indices};

fn collect_indices(s: &str) -> Vec<usize> {
    let mut it = split_whitespace_indices(s.as_bytes());
    let mut out: Vec<usize> = Vec::new();
    while let Some(i) = it.next() {
        out.push(i);
    }
    out
}

fn collect_pieces(s: &str, max: usize) -> Vec<Vec<u8>> {
    let mut it = split_iterator(s.as_bytes(), max);
    let mut out: Vec<Vec<u8>> = Vec::new();
    while let Some(p) = it.next() {
        out.push(p);
    }
    out
}

fn pieces(items: &[&str]) -> Vec<Vec<u8>> {
    items.iter().map(|s| s.as_bytes().to_vec()).collect()
}

#[test]
fn split_ws_idx() {
    let str = "x y z";
    let idxs: Vec<usize> = collect_indices(str);
    assert_eq!(idxs, vec![0, 2, 4]);

    let str = "       ";
    let idxs: Vec<usize> = collect_indices(str);
    let expected: Vec<usize> = vec![];
    assert_eq!(idxs, expected);

    let str = "  foo    bar  \n\r   baz     ";
    let idxs: Vec<usize> = collect_indices(str);
    assert_eq!(idxs, vec![2, 9, 19]);
}

#[test]
fn test_split_iterator_1() {
    let parts = collect_pieces("yada yada yada", 5);
    assert_eq!(parts, pieces(&["yada ", "yada ", "yada"]));
}

#[test]
fn test_split_iterator_2() {
    let parts = collect_pieces("yada yada yada", 4);
    // weird but OK
    assert_eq!(parts, pieces(&["yada", " ", "yada", " ", "yada"]));
}

#[test]
fn test_split_iterator_3() {
    let parts = collect_pieces("yada yada yada", 3);
    assert_eq!(parts, pieces(&["yad", "a ", "yad", "a ", "yad", "a"]));
}

#[test]
fn test_split_iterator_4() {
    let parts = collect_pieces("longwordislong", 3);
    assert_eq!(parts, pieces(&["lon", "gwo", "rdi", "slo", "ng"]));
}

#[test]
fn test_split_iterator_5() {
    let parts = collect_pieces("", 3);
    assert_eq!(parts, pieces(&[""]));
}

#[test]
fn test_split_iterator_6() {
    let parts = collect_pieces("", 0);
    let ret: Vec<Vec<u8>> = vec![];
    assert_eq!(parts, ret);
}

fn prop_within_max(s: String, max: u8) -> bool {
    // at least one character should fit into the buffer
    if max < 4 {
        return true;
    }
    for slice in collect_pieces(&s, max as usize) {
        if slice.len() > max as usize {
            return false;
        }
    }
    true
}

fn prop_lengths_sum(s: String, max: u8) -> bool {
    if max < 4 {
        return true;
    }
    let len: usize = collect_pieces(&s, max as usize).iter().map(|p| p.len()).sum();
    len == s.len()
}

#[test]
fn split_iterator_prop_1() {
    QuickCheck::new()
        .tests(1000)
        .quickcheck(prop_within_max as fn(String, u8) -> bool);
}

#[test]
fn split_iterator_prop_2() {
    QuickCheck::new()
        .tests(1000)
        .quickcheck(prop_lengths_sum as fn(String, u8) -> bool);
}

#[test]
fn split_all_matches_iterator() {
    let all = split_all("yada yada yada".as_bytes(), 5);
    assert_eq!(all, pieces(&["yada ", "yada ", "yada"]));
    let all = split_all("longwordislong".as_bytes(), 3);
    assert_eq!(all, pieces(&["lon", "gwo", "rdi", "slo", "ng"]));
    let all = split_all("".as_bytes(), 0);
    let none: Vec<Vec<u8>> = vec![];
    assert_eq!(all, none);
}

#[test]
fn split_multibyte_boundary() {
    // Four three-byte characters with a budget of 4: each piece must end on
    // a character boundary, one character per piece.
    let s = "\u{30A2}\u{30A4}\u{30A6}\u{30A8}";
    let parts = collect_pieces(s, 4);
    assert_eq!(parts, pieces(&["\u{30A2}", "\u{30A4}", "\u{30A6}", "\u{30A8}"]));
}

#[test]
fn nick_chars() {
    assert!(is_nick_char('a'));
    assert!(is_nick_char('Z'));
    assert!(is_nick_char('3'));
    assert!(is_nick_char('-'));
    assert!(is_nick_char('['));
    assert!(is_nick_char('`'));
    assert!(is_nick_char('{'));
    assert!(is_nick_char('}'));
    assert!(is_nick_char('\u{00E9}'));
    assert!(!is_nick_char(' '));
    assert!(!is_nick_char('!'));
    assert!(!is_nick_char('@'));
    assert!(!is_nick_char('~'));
}
