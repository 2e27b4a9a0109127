use improve_command::text::{
    char_list, collapse_whitespace, decimal_text, is_whitespace, join_first, join_texts, same_text,
    shorten, shorten_path, split_full_lines, split_words, text_before, trim,
};

#[test]
fn whitespace_is_the_unicode_property() {
    for n in 0..=0x10ffffu32 {
        if let Some(c) = char::from_u32(n) {
            assert_eq!(is_whitespace(c), c.is_whitespace(), "U+{:04X}", n);
        }
    }
}

#[test]
fn words_are_what_whitespace_separates() {
    let text = "  one\ttwo\u{3000}three \n four\u{200b}five ";
    let expected: Vec<String> = text.split_whitespace().map(|w| w.to_string()).collect();
    assert_eq!(split_words(text), expected);
    assert_eq!(split_words(""), Vec::<String>::new());
    assert_eq!(split_words(" \n\t "), Vec::<String>::new());
    assert_eq!(split_words("x"), vec!["x".to_string()]);
}

#[test]
fn full_lines_are_the_lines_that_are_not_empty() {
    assert_eq!(
        split_full_lines("\na\n\nb c\r\n d"),
        vec!["a".to_string(), "b c\r".to_string(), " d".to_string()]
    );
    assert_eq!(split_full_lines("\n\n"), Vec::<String>::new());
}

#[test]
fn collapsing_leaves_single_spaces() {
    assert_eq!(collapse_whitespace("  a \n\n b\tc  "), "a b c");
    assert_eq!(collapse_whitespace(" \t "), "");
    assert_eq!(collapse_whitespace("a b c"), "a b c");
}

#[test]
fn collapsing_twice_changes_nothing() {
    let once = collapse_whitespace(" x\u{a0}\u{2028}y  z ");
    assert_eq!(once, "x y z");
    assert_eq!(collapse_whitespace(&once), once);
}

#[test]
fn collapsing_ignores_the_kind_of_gap() {
    assert_eq!(collapse_whitespace("a\n\t b"), collapse_whitespace("a b"));
    assert_eq!(collapse_whitespace("\n\na b\r\n"), "a b");
}

#[test]
fn shortening_cuts_by_characters() {
    assert_eq!(shorten("hello world", 11), "hello world");
    assert_eq!(shorten("hello world", 10), "hello worl...");
    assert_eq!(shorten("  hello \n world ", 11), "hello world");
    assert_eq!(shorten("äöü€𝄞", 4), "äöü€...");
    assert_eq!(shorten("äöü€𝄞", 5), "äöü€𝄞");
    assert_eq!(shorten("abc", 0), "...");
    assert_eq!(shorten("", 0), "");
    assert_eq!(shorten("hello world", 6), "hello ...");
}

#[test]
fn shortened_texts_are_bounded_and_on_one_line() {
    let text = "a long\nmessage with\tmany words\r\nand lines";
    for n in 0..60usize {
        let short = shorten(text, n);
        assert!(short.chars().count() <= n + 3);
        assert!(!short.contains('\n') && !short.contains('\t') && !short.contains('\r'));
    }
    assert_eq!(shorten(&collapse_whitespace(text), 20), shorten(text, 20));
}

#[test]
fn paths_are_shortened_to_seventy_two_characters() {
    let path = format!("/home/{}", "x".repeat(100));
    let expected = format!("/home/{}...", "x".repeat(66));
    assert_eq!(shorten_path(path.as_bytes()), expected);
    assert_eq!(shorten_path("/tmp/späti".as_bytes()), "/tmp/späti");
    assert_eq!(shorten_path(b""), "");
    let exact = "y".repeat(72);
    assert_eq!(shorten_path(exact.as_bytes()), exact);
}

#[test]
fn paths_that_are_no_utf8_are_shown_by_replacement_characters() {
    assert_eq!(shorten_path(b"/tmp/\xff/a"), "/tmp/\u{fffd}/a");
    assert_eq!(shorten_path(b"\xe2\x82"), "\u{fffd}");
}

#[test]
fn trimming_takes_whitespace_from_both_ends() {
    for text in ["", " ", "a", " a", "a ", "\t a b \n", "\u{2003}x\u{85}", "no"] {
        assert_eq!(trim(text), text.trim());
        assert_eq!(trim(trim(text)), trim(text));
    }
}

#[test]
fn texts_are_ordered_like_strings() {
    let texts = ["", "a", "b", "ab", "aB", "Z", "é", "\u{ffff}", "𝄞", "a\u{0}"];
    for a in texts {
        for b in texts {
            assert_eq!(text_before(a, b), a.to_string() < b.to_string());
            assert_eq!(same_text(a, b), a == b);
        }
    }
}

#[test]
fn numbers_are_written_in_decimal() {
    for n in [0usize, 1, 9, 10, 11, 99, 100, 101, 12345, usize::MAX] {
        assert_eq!(decimal_text(n), n.to_string());
    }
}

#[test]
fn parts_are_joined_with_a_separator_between_them() {
    let parts = vec!["a".to_string(), "".to_string(), "c".to_string()];
    assert_eq!(join_texts(&parts, ", "), "a, , c");
    assert_eq!(join_texts(&[], ", "), "");
    assert_eq!(join_first(&parts, 1, "-"), "a");
    assert_eq!(join_first(&parts, 7, "-"), "a--c");
    assert_eq!(join_first(&parts, 0, "-"), "");
}

#[test]
fn characters_are_listed_in_order() {
    assert_eq!(char_list("aé𝄞"), vec!['a', 'é', '𝄞']);
}
