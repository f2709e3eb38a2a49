use baux2::text::{
    chars_of, decimal_of, find_in, is_word, replace_all, same_text, slice, split_words, text_of,
    trimmed, whitespace,
};

fn chars(text: &str) -> Vec<char> {
    text.chars().collect()
}

fn string(text: &Vec<char>) -> String {
    text.iter().collect()
}

#[test]
fn whitespace_is_what_unicode_says() {
    for c in ['\t', '\n', '\u{0B}', '\u{0C}', '\r', ' ', '\u{85}', '\u{A0}', '\u{1680}', '\u{2000}',
        '\u{200A}', '\u{2028}', '\u{2029}', '\u{202F}', '\u{205F}', '\u{3000}']
    {
        assert!(whitespace(c));
    }
    for c in ['a', '0', '=', '"', '\u{200B}', '\u{180E}', '\u{FEFF}', '\u{08}', '\u{0E}'] {
        assert!(!whitespace(c));
    }
}

#[test]
fn whitespace_agrees_with_the_standard_library() {
    let mut n: u32 = 0;
    while n <= 0x10FFFF {
        if let Some(c) = char::from_u32(n) {
            assert_eq!(whitespace(c), c.is_whitespace());
        }
        n += 1;
    }
}

#[test]
fn trimmed_drops_whitespace_at_both_ends() {
    assert_eq!(string(&trimmed(&chars("  a b \t"))), "a b");
    assert_eq!(string(&trimmed(&chars("a"))), "a");
    assert_eq!(string(&trimmed(&chars("   "))), "");
    assert_eq!(string(&trimmed(&chars(""))), "");
}

#[test]
fn split_words_gives_the_words_in_order() {
    let words = split_words(&chars("  1 +\t 22  "));
    let words: Vec<String> = words.iter().map(string).collect();
    assert_eq!(words, vec!["1", "+", "22"]);
    assert!(split_words(&chars("   ")).is_empty());
    assert!(split_words(&chars("")).is_empty());
}

#[test]
fn find_in_gives_the_first_place() {
    assert_eq!(find_in(&chars("a..b..c"), &chars(".."), 0), Some(1));
    assert_eq!(find_in(&chars("a..b..c"), &chars(".."), 2), Some(4));
    assert_eq!(find_in(&chars("a..b..c"), &chars(".."), 5), None);
    assert_eq!(find_in(&chars("abc"), &chars(""), 0), None);
    assert_eq!(find_in(&chars(""), &chars("a"), 0), None);
    assert_eq!(find_in(&chars("ab"), &chars("abc"), 0), None);
}

#[test]
fn replace_all_replaces_from_the_left() {
    assert_eq!(string(&replace_all(&chars("counter * counter"), &chars("counter"), &chars("12"))), "12 * 12");
    assert_eq!(string(&replace_all(&chars("aaa"), &chars("aa"), &chars("b"))), "ba");
    assert_eq!(string(&replace_all(&chars("abc"), &chars("x"), &chars("y"))), "abc");
    assert_eq!(string(&replace_all(&chars("abc"), &chars(""), &chars("y"))), "abc");
    assert_eq!(string(&replace_all(&chars("xcounter"), &chars("counter"), &chars(""))), "x");
}

#[test]
fn decimal_of_writes_integers() {
    assert_eq!(string(&decimal_of(0)), "0");
    assert_eq!(string(&decimal_of(7)), "7");
    assert_eq!(string(&decimal_of(-7)), "-7");
    assert_eq!(string(&decimal_of(1203)), "1203");
    assert_eq!(string(&decimal_of(i64::MAX)), "9223372036854775807");
    assert_eq!(string(&decimal_of(i64::MIN)), "-9223372036854775808");
}

#[test]
fn texts_are_compared_by_their_characters() {
    assert!(same_text(&chars("abc"), &chars("abc")));
    assert!(!same_text(&chars("abc"), &chars("abd")));
    assert!(!same_text(&chars("abc"), &chars("ab")));
    assert!(is_word(&chars("WA"), "WA"));
    assert!(!is_word(&chars("WA"), "WAN"));
    assert!(!is_word(&chars("WAN"), "WA"));
    assert!(!is_word(&chars("CO"), "WA"));
    assert!(is_word(&chars(""), ""));
}

#[test]
fn strings_and_characters_convert_both_ways() {
    assert_eq!(chars_of("héllo"), chars("héllo"));
    assert_eq!(text_of(&chars("héllo")), "héllo");
    assert_eq!(text_of(&chars("")), "");
}

#[test]
fn slice_copies_a_range() {
    assert_eq!(string(&slice(&chars("abcdef"), 1, 4)), "bcd");
    assert_eq!(string(&slice(&chars("abcdef"), 2, 2)), "");
}
