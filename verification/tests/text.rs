use mini_greeter::number::{read_number, write_number};
use mini_greeter::order::comes_before;
use mini_greeter::text::{
    chars_of, contains_char, is_whitespace, join_words, same_text, split_at_char, split_words,
    string_of, strip_prefix, trim,
};

const SAMPLES: [&str; 14] = [
    "",
    " ",
    "a",
    "  a  b ",
    "\t\u{a0}sway\u{3000} --debug\r\n",
    "no-space",
    "\u{2003}em\u{2003}space",
    "one\ntwo\r\n\nthree",
    "/usr/bin:/bin::",
    "ÄÖÜ straße 日本語",
    "\u{200b}zero width\u{200b}",
    "\u{180e}mongolian\u{180e}",
    "'quoted words' \"and more\"",
    "\u{85}\u{1680}\u{2028}\u{2029}\u{202f}\u{205f}",
];

fn texts(parts: &[&[char]]) -> Vec<String> {
    parts.iter().map(|p| string_of(p)).collect()
}

fn owned(parts: &[&[char]]) -> Vec<Vec<char>> {
    parts.iter().map(|p| p.to_vec()).collect()
}

#[test]
fn whitespace_is_unicode_white_space() {
    for code in 0..=0x10ffffu32 {
        if let Some(c) = char::from_u32(code) {
            assert_eq!(is_whitespace(c), c.is_whitespace(), "U+{:04X}", code);
        }
    }
}

#[test]
fn strings_survive_the_way_to_chars_and_back() {
    for s in SAMPLES {
        assert_eq!(string_of(&chars_of(s)), s);
    }
}

#[test]
fn trimming_takes_white_space_off_both_ends() {
    for s in SAMPLES {
        assert_eq!(string_of(trim(&chars_of(s))), s.trim());
    }
    assert_eq!(string_of(trim(&chars_of("  a b\t"))), "a b");
}

#[test]
fn words_are_what_stands_between_white_space() {
    for s in SAMPLES {
        let chars = chars_of(s);
        let expected: Vec<String> = s.split_whitespace().map(str::to_string).collect();
        assert_eq!(texts(&split_words(&chars)), expected);
    }
    assert_eq!(texts(&split_words(&chars_of("  sway  -d %U "))), vec!["sway", "-d", "%U"]);
}

#[test]
fn pieces_are_what_stands_between_separators() {
    for s in SAMPLES {
        for sep in ['\n', ':', 'a', ' '] {
            let chars = chars_of(s);
            let expected: Vec<String> = s.split(sep).map(str::to_string).collect();
            assert_eq!(texts(&split_at_char(&chars, sep)), expected);
        }
    }
}

#[test]
fn words_are_joined_with_single_spaces() {
    let chars = chars_of(" a  b\tc ");
    assert_eq!(join_words(&owned(&split_words(&chars))), "a b c");
    assert_eq!(join_words(&Vec::new()), "");
}

#[test]
fn joined_words_split_into_the_same_words() {
    for s in SAMPLES {
        let chars = chars_of(s);
        let words = split_words(&chars);
        let again = chars_of(&join_words(&owned(&words)));
        assert_eq!(texts(&split_words(&again)), texts(&words));
    }
}

#[test]
fn prefixes_are_stripped_only_where_they_stand() {
    let line = chars_of("Name=Sway");
    assert_eq!(strip_prefix(&line, &chars_of("Name=")).map(string_of), Some("Sway".to_string()));
    assert_eq!(strip_prefix(&line, &chars_of("")).map(string_of), Some("Name=Sway".to_string()));
    assert!(strip_prefix(&line, &chars_of("name=")).is_none());
    assert!(strip_prefix(&line, &chars_of("Name=Sway!")).is_none());
}

#[test]
fn texts_are_compared_and_searched() {
    assert!(same_text(&chars_of("ab"), &chars_of("ab")));
    assert!(!same_text(&chars_of("ab"), &chars_of("aB")));
    assert!(!same_text(&chars_of("ab"), &chars_of("abc")));
    assert!(contains_char(&chars_of("a/b"), '/'));
    assert!(!contains_char(&chars_of("ab"), '/'));
}

#[test]
fn texts_are_ordered_as_strings_are() {
    for a in SAMPLES {
        for b in SAMPLES {
            assert_eq!(comes_before(&chars_of(a), &chars_of(b)), a < b);
        }
    }
    assert!(comes_before(&chars_of("gnome"), &chars_of("gnome classic")));
    assert!(comes_before(&chars_of("z"), &chars_of("ä")));
    assert!(comes_before(&chars_of("\u{ffff}"), &chars_of("\u{10000}")));
}

#[test]
fn numbers_are_read_as_usize_is_parsed() {
    let inputs = [
        "", "+", "-", "0", "7", "+7", "++7", "-7", "007", "12a", "a12", " 1", "1 ", "1.0", "１",
        "18446744073709551615", "18446744073709551616", "99999999999999999999999999",
    ];
    for s in inputs {
        assert_eq!(read_number(&chars_of(s)), s.parse::<usize>().ok(), "{:?}", s);
    }
    assert_eq!(read_number(&chars_of("+042")), Some(42));
}

#[test]
fn numbers_read_back_as_written() {
    for n in [0, 1, 9, 10, 99, 100, 12345, usize::MAX] {
        assert_eq!(write_number(n), n.to_string());
        assert_eq!(read_number(&chars_of(&write_number(n))), Some(n));
    }
}
