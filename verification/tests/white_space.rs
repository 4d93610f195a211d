use election_2024::text::{is_whitespace, trim};

#[test]
fn white_space_is_what_unicode_says() {
    let mut count = 0;
    for code in 0..=0x10ffff_u32 {
        if let Some(c) = char::from_u32(code) {
            assert_eq!(is_whitespace(c), c.is_whitespace());
            if is_whitespace(c) {
                count += 1;
            }
        }
    }
    assert_eq!(count, 25);
}

#[test]
fn some_characters_are_white_space_and_some_are_not() {
    assert!(is_whitespace(' '));
    assert!(is_whitespace('\t'));
    assert!(is_whitespace('\n'));
    assert!(is_whitespace('\u{a0}'));
    assert!(is_whitespace('\u{3000}'));
    assert!(!is_whitespace('a'));
    assert!(!is_whitespace('0'));
    assert!(!is_whitespace('\u{200b}'));
    assert!(!is_whitespace('\u{8d8a}'));
}

#[test]
fn trimming_takes_the_white_space_from_both_ends_only() {
    assert_eq!(trim("  a b  "), "a b");
    assert_eq!(trim("\t\n x"), "x");
    assert_eq!(trim("x \u{2003}"), "x");
    assert_eq!(trim(""), "");
    assert_eq!(trim(" \u{a0}\r\n"), "");
    assert_eq!(trim("\u{e9}t\u{e9} "), "\u{e9}t\u{e9}");
    let samples = vec![" a", "a ", " \u{1f333} \u{1f339} ", "\u{200b} x \u{200b}", "  "];
    for sample in samples {
        assert_eq!(trim(sample), sample.trim());
    }
}
