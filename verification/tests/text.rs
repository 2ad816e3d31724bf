use forever_addons::text::{
    chars_le, chars_of, decimal_chars, is_control_char, is_space_char, parse_u32_chars, split_chars, trim_str, words_of,
};

#[test]
fn whitespace_is_exactly_what_the_standard_library_trims() {
    for code in 0u32..0x3100 {
        if let Some(c) = char::from_u32(code) {
            assert_eq!(is_space_char(c), c.is_whitespace(), "{code:#x}");
            assert_eq!(is_control_char(c), c.is_control(), "{code:#x}");
        }
    }
}

#[test]
fn trimming_and_word_splitting_agree_with_the_standard_library() {
    for text in ["  a b  ", "\u{2003}x\u{3000}y\u{85}", "", "   ", "one"] {
        let trimmed: String = trim_str(text).into_iter().collect();
        assert_eq!(trimmed, text.trim());
        let chars = chars_of(text);
        let words: Vec<String> = words_of(&chars).into_iter().map(|w| w.into_iter().collect()).collect();
        let expected: Vec<String> = text.split_whitespace().map(str::to_owned).collect();
        assert_eq!(words, expected);
    }
}

#[test]
fn numbers_parse_and_print_like_the_standard_library() {
    for text in ["0", "16001", "4294967295", "4294967296", "", "12a", "+1", "-1"] {
        let chars = chars_of(text);
        assert_eq!(parse_u32_chars(&chars), text.parse::<u32>().ok(), "{text}");
    }
    for n in [0u64, 7, 10, 1032100, u64::MAX] {
        let digits: String = decimal_chars(n).into_iter().collect();
        assert_eq!(digits, n.to_string());
    }
}

#[test]
fn text_orders_like_strings_do() {
    for (a, b) in [("a", "b"), ("ab", "a"), ("", "x"), ("Z", "a"), ("é", "z"), ("same", "same")] {
        assert_eq!(chars_le(&chars_of(a), &chars_of(b)), a <= b, "{a} {b}");
    }
}

#[test]
fn splitting_keeps_empty_pieces() {
    let pieces: Vec<String> = split_chars(&chars_of("/a//b/"), '/').into_iter().map(|p| p.into_iter().collect()).collect();
    assert_eq!(pieces, vec!["", "a", "", "b", ""]);
}
