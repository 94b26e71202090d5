use tictactoe_server::frame::{decode_message, message_len};
use tictactoe_server::list::{has_number, remove_number};
use tictactoe_server::text::{
    chars_of, classify, decimal_text, join_from, parse_number, same_text, single, split_at_spaces,
    split_whitespace, starts_with, string_of, trim, trim_at_spaces,
};

fn strings(v: &[&str]) -> Vec<String> {
    v.iter().map(|s| s.to_string()).collect()
}

const SAMPLES: [&str; 14] = [
    "",
    " ",
    "a",
    "dm bob hello   world",
    "  leading and trailing  ",
    "tabs\tand\nnewlines\r\nmixed",
    "non\u{a0}breaking",
    "ideographic\u{3000}space",
    "\u{2003}em\u{2003}",
    "zero\u{200b}width is no space",
    "accent é and 越",
    "challenge bob",
    "\t\n",
    "x\u{85}y",
];

#[test]
fn split_whitespace_gives_the_words() {
    assert_eq!(
        split_whitespace("dm bob hello   world"),
        strings(&["dm", "bob", "hello", "world"])
    );
    assert_eq!(split_whitespace("  challenge\tbob\n"), strings(&["challenge", "bob"]));
    assert_eq!(split_whitespace("one"), strings(&["one"]));
    assert_eq!(split_whitespace(""), Vec::<String>::new());
    assert_eq!(split_whitespace(" \t \n"), Vec::<String>::new());
    assert_eq!(split_whitespace("a\u{a0}b"), strings(&["a", "b"]));
    assert_eq!(split_whitespace("a\u{200b}b"), strings(&["a\u{200b}b"]));
}

#[test]
fn split_whitespace_agrees_with_std() {
    for s in SAMPLES.iter() {
        let expected: Vec<String> = s.split_whitespace().map(|w| w.to_string()).collect();
        assert_eq!(split_whitespace(s), expected, "{:?}", s);
    }
}

#[test]
fn trim_removes_white_space_at_both_ends_only() {
    assert_eq!(trim("  alice \n"), "alice");
    assert_eq!(trim("alice"), "alice");
    assert_eq!(trim("  two words\t"), "two words");
    assert_eq!(trim(""), "");
    assert_eq!(trim(" \t\r\n"), "");
    assert_eq!(trim("\u{3000}name\u{a0}"), "name");
}

#[test]
fn trim_agrees_with_std() {
    for s in SAMPLES.iter() {
        assert_eq!(trim(s), s.trim(), "{:?}", s);
    }
}

#[test]
fn join_from_puts_the_separator_between() {
    let parts = strings(&["dm", "bob", "hello", "big", "world"]);
    assert_eq!(join_from(&parts, 2, " "), "hello big world");
    assert_eq!(join_from(&parts, 4, " "), "world");
    assert_eq!(join_from(&parts, 5, " "), "");
    assert_eq!(join_from(&parts, 0, ", "), "dm, bob, hello, big, world");
    assert_eq!(join_from(&Vec::new(), 0, " "), "");
}

#[test]
fn same_text_compares_character_by_character() {
    assert!(same_text("alice", "alice"));
    assert!(same_text("", ""));
    assert!(!same_text("alice", "alicE"));
    assert!(!same_text("alice", "alic"));
    assert!(!same_text("alic", "alice"));
    assert!(!same_text("", "a"));
    assert!(same_text("越é", "越é"));
    assert!(!same_text("e\u{301}", "é"));
}

#[test]
fn starts_with_tests_a_prefix() {
    assert!(starts_with("challenge bob", "challenge "));
    assert!(starts_with("resignation", "resign"));
    assert!(starts_with("dm ", "dm "));
    assert!(starts_with("anything", ""));
    assert!(starts_with("", ""));
    assert!(!starts_with("dm", "dm "));
    assert!(!starts_with(" dm bob hi", "dm "));
    assert!(!starts_with("Challenge bob", "challenge "));
    assert!(!starts_with("", "x"));
}

#[test]
fn decimal_text_writes_numbers() {
    assert_eq!(decimal_text(0), "0");
    assert_eq!(decimal_text(7), "7");
    assert_eq!(decimal_text(9), "9");
    assert_eq!(decimal_text(10), "10");
    assert_eq!(decimal_text(105), "105");
    assert_eq!(decimal_text(4096), "4096");
    assert_eq!(decimal_text(usize::MAX), usize::MAX.to_string());
}

#[test]
fn parse_number_reads_digits_with_an_optional_plus() {
    assert_eq!(parse_number("5"), Some(5));
    assert_eq!(parse_number("0"), Some(0));
    assert_eq!(parse_number("+5"), Some(5));
    assert_eq!(parse_number("007"), Some(7));
    assert_eq!(parse_number("12345"), Some(12345));
    assert_eq!(parse_number(&usize::MAX.to_string()), Some(usize::MAX));
}

#[test]
fn parse_number_rejects_what_is_no_number() {
    assert_eq!(parse_number(""), None);
    assert_eq!(parse_number("+"), None);
    assert_eq!(parse_number("-1"), None);
    assert_eq!(parse_number("++1"), None);
    assert_eq!(parse_number("5x"), None);
    assert_eq!(parse_number("x5"), None);
    assert_eq!(parse_number(" 5"), None);
    assert_eq!(parse_number("5 "), None);
    assert_eq!(parse_number("1.5"), None);
    assert_eq!(parse_number("five"), None);
    assert_eq!(parse_number("٣"), None);
}

#[test]
fn parse_number_rejects_what_does_not_fit() {
    let too_big = format!("{}0", usize::MAX);
    assert_eq!(parse_number(&too_big), None);
    let just_too_big = (usize::MAX as u128 + 1).to_string();
    assert_eq!(parse_number(&just_too_big), None);
    assert_eq!(parse_number("99999999999999999999999999999999999999999999"), None);
    assert_eq!(parse_number("99999999999999999999999999999999999999999999x"), None);
}

#[test]
fn parse_number_agrees_with_std() {
    let samples =
        ["5", "+5", "-5", "", "+", "0009", "18446744073709551615", "18446744073709551616", "1 ", "a"];
    for s in samples.iter() {
        assert_eq!(parse_number(s), s.parse::<usize>().ok(), "{:?}", s);
    }
}

#[test]
fn parse_number_reads_what_decimal_text_writes() {
    for n in [0usize, 1, 9, 10, 99, 100, 65535, usize::MAX].iter() {
        assert_eq!(parse_number(&decimal_text(*n)), Some(*n));
    }
}

#[test]
fn chars_of_and_string_of_go_back_and_forth() {
    let chars = chars_of("héllo 越");
    assert_eq!(chars, vec!['h', 'é', 'l', 'l', 'o', ' ', '越']);
    assert_eq!(string_of(&chars, 0, 7), "héllo 越");
    assert_eq!(string_of(&chars, 1, 3), "él");
    assert_eq!(string_of(&chars, 4, 4), "");
    assert_eq!(chars_of(""), Vec::<char>::new());
}

#[test]
fn single_holds_one_text() {
    assert_eq!(single("only".to_string()), strings(&["only"]));
}

#[test]
fn numbers_are_found_and_removed() {
    let v = vec![1usize, 2, 3, 2, 9];
    assert!(has_number(&v, 2));
    assert!(has_number(&v, 9));
    assert!(!has_number(&v, 4));
    assert_eq!(remove_number(&v, 2), vec![1, 3, 9]);
    assert_eq!(remove_number(&v, 4), vec![1, 2, 3, 2, 9]);
    assert_eq!(remove_number(&Vec::new(), 4), Vec::<usize>::new());
}

#[test]
fn message_ends_at_the_first_zero_byte() {
    let mut buffer = [0u8; 16];
    buffer[..5].copy_from_slice(b"hello");
    assert_eq!(message_len(&buffer, 5), 5);
    // a zero byte inside what was read cuts the message short
    let mut cut = [0u8; 16];
    cut[..7].copy_from_slice(b"ab\0cdef");
    assert_eq!(message_len(&cut, 7), 2);
    // nothing read
    assert_eq!(message_len(&[0u8; 16], 0), 0);
}

#[test]
fn message_in_a_full_buffer_is_as_long_as_was_read() {
    let buffer = [b'x'; 8];
    assert_eq!(message_len(&buffer, 8), 8);
    assert_eq!(message_len(&buffer, 3), 3);
    assert_eq!(message_len(&[], 0), 0);
}

#[test]
fn decode_message_reads_the_text() {
    let mut buffer = [0u8; 1024];
    buffer[..13].copy_from_slice(b"challenge bob");
    assert_eq!(decode_message(&buffer, 13), "challenge bob");
    let accent = "é越".as_bytes();
    let mut other = [0u8; 32];
    other[..accent.len()].copy_from_slice(accent);
    assert_eq!(decode_message(&other, accent.len()), "é越");
    assert_eq!(decode_message(&[0u8; 4], 0), "");
    assert_eq!(decode_message(&[b'a', b'b', b'c'], 2), "ab");
}

#[test]
fn decode_message_replaces_what_is_no_utf8() {
    let mut buffer = [0u8; 8];
    buffer[..4].copy_from_slice(&[b'a', 0xff, b'b', 0xc3]);
    assert_eq!(decode_message(&buffer, 4), "a\u{fffd}b\u{fffd}");
}

#[test]
fn classify_marks_white_space() {
    let chars = chars_of("a b\t\u{a0}é\u{200b}");
    assert_eq!(classify(&chars), vec![false, true, false, true, true, false, false]);
    assert_eq!(classify(&Vec::new()), Vec::<bool>::new());
}

#[test]
fn split_at_spaces_goes_by_the_flags() {
    let chars = chars_of("ab-cd--e");
    let at_hyphens: Vec<bool> = chars.iter().map(|c| *c == '-').collect();
    assert_eq!(split_at_spaces(&chars, &at_hyphens), strings(&["ab", "cd", "e"]));
    let nowhere = vec![false; chars.len()];
    assert_eq!(split_at_spaces(&chars, &nowhere), strings(&["ab-cd--e"]));
    let everywhere = vec![true; chars.len()];
    assert_eq!(split_at_spaces(&chars, &everywhere), Vec::<String>::new());
    assert_eq!(split_at_spaces(&Vec::new(), &Vec::new()), Vec::<String>::new());
}

#[test]
fn trim_at_spaces_goes_by_the_flags() {
    let chars = chars_of("--a-b---");
    let at_hyphens: Vec<bool> = chars.iter().map(|c| *c == '-').collect();
    assert_eq!(trim_at_spaces(&chars, &at_hyphens), "a-b");
    let nowhere = vec![false; chars.len()];
    assert_eq!(trim_at_spaces(&chars, &nowhere), "--a-b---");
    let everywhere = vec![true; chars.len()];
    assert_eq!(trim_at_spaces(&chars, &everywhere), "");
    assert_eq!(trim_at_spaces(&Vec::new(), &Vec::new()), "");
}

#[test]
fn white_space_is_the_unicode_property() {
    let listed = |c: char| {
        let n = c as u32;
        (0x09..=0x0d).contains(&n)
            || [0x20, 0x85, 0xa0, 0x1680, 0x2028, 0x2029, 0x202f, 0x205f, 0x3000].contains(&n)
            || (0x2000..=0x200a).contains(&n)
    };
    let all: Vec<char> = (0..=0x10ffffu32).filter_map(char::from_u32).collect();
    let flags = classify(&all);
    assert_eq!(flags.len(), all.len());
    let mut count = 0;
    for (c, flag) in all.iter().zip(flags.iter()) {
        assert_eq!(*flag, listed(*c), "{:?}", c);
        if *flag {
            count += 1;
        }
    }
    assert_eq!(count, 25);
}
