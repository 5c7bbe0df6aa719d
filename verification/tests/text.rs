use scholar_rss::openalex::normalize_id;
use scholar_rss::text::{
    comes_before, copied, decimal_text, is_blank, is_white_space, join, same_texts,
    segment_after_slash, sorted_without_repeats, trim,
};

fn texts(list: &[&str]) -> Vec<String> {
    list.iter().map(|t| t.to_string()).collect()
}

#[test]
fn white_space_is_what_unicode_says() {
    let mut code: u32 = 0;
    while code <= 0x10FFFF {
        if let Some(c) = char::from_u32(code) {
            assert_eq!(is_white_space(c), c.is_whitespace(), "{:x}", code);
        }
        code += 1;
    }
}

#[test]
fn trimming_takes_white_space_off_both_ends() {
    for text in ["", " ", "a", " a b ", "\t\u{3000}x\u{2003}", "\u{a0}\u{85}", "é "] {
        assert_eq!(trim(text), text.trim());
    }
    assert_eq!(trim("  a b\n"), "a b");
}

#[test]
fn blank_texts_hold_white_space_only() {
    assert!(is_blank(""));
    assert!(is_blank(" \t\n\u{2028}"));
    assert!(!is_blank("  x "));
}

#[test]
fn the_segment_after_the_last_slash() {
    assert_eq!(segment_after_slash("https://orcid.org/0000-0002"), "0000-0002");
    assert_eq!(segment_after_slash("abc"), "abc");
    assert_eq!(segment_after_slash("abc/"), "");
    assert_eq!(segment_after_slash(""), "");
    assert_eq!(segment_after_slash("é/ü"), "ü");
}

#[test]
fn ids_are_brought_to_their_bare_form() {
    assert_eq!(normalize_id("https://openalex.org/A5005023517"), "A5005023517");
    assert_eq!(normalize_id("A5005023517"), "A5005023517");
    assert_eq!(normalize_id("  S137773608 "), "S137773608");
}

#[test]
fn numbers_in_decimal() {
    for n in [0u64, 7, 9, 10, 42, 100, 1009, 18446744073709551615] {
        assert_eq!(decimal_text(n), n.to_string());
    }
    assert_eq!(decimal_text(1234567890), "1234567890");
}

#[test]
fn joining_puts_the_separator_between() {
    assert_eq!(join(&texts(&[]), "|"), "");
    assert_eq!(join(&texts(&["a"]), "|"), "a");
    assert_eq!(join(&texts(&["a", "b", ""]), "|"), "a|b|");
}

#[test]
fn texts_are_ordered_by_code_points() {
    let list = ["", "a", "ab", "b", "A", "é", "\u{ffff}", "\u{10000}", "aé"];
    for a in list {
        for b in list {
            assert_eq!(comes_before(a, b), a < b);
        }
    }
    assert!(comes_before("\u{ffff}", "\u{10000}"));
}

#[test]
fn sorting_leaves_out_repeats() {
    assert_eq!(
        sorted_without_repeats(texts(&["b", "a", "b", "aa", "", "a"])),
        texts(&["", "a", "aa", "b"])
    );
    assert_eq!(sorted_without_repeats(texts(&["a", "b"])), sorted_without_repeats(texts(&["b", "a", "b"])));
}

#[test]
fn lists_are_compared_and_copied_whole() {
    let list = texts(&["x", "y"]);
    assert_eq!(copied(&list), list);
    assert!(same_texts(&list, &texts(&["x", "y"])));
    assert!(!same_texts(&list, &texts(&["x"])));
    assert!(!same_texts(&list, &texts(&["x", "z"])));
}
