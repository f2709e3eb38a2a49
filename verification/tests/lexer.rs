use baux2::tokenize;

fn tokens(code: &str) -> Vec<String> {
    tokenize(code)
}

#[test]
fn words_are_split_at_whitespace() {
    assert_eq!(tokens("BAU  x\n\tBAU y"), vec!["BAU", "x", "BAU", "y"]);
}

#[test]
fn empty_text_has_no_tokens() {
    assert_eq!(tokens(""), Vec::<String>::new());
    assert_eq!(tokens("  \n "), Vec::<String>::new());
}

#[test]
fn quoted_string_keeps_its_quotes_and_its_spaces() {
    assert_eq!(tokens("BAU \"Bau  Bau World!\""), vec!["BAU", "\"Bau  Bau World!\""]);
}

#[test]
fn equals_sign_is_a_token_of_its_own() {
    assert_eq!(tokens("WA MOE n=3"), vec!["WA", "MOE", "n", "=", "3"]);
    assert_eq!(tokens("WA MOE n = 3"), vec!["WA", "MOE", "n", "=", "3"]);
}

#[test]
fn equals_sign_inside_quotes_is_text() {
    assert_eq!(tokens("BAU \"a = b\""), vec!["BAU", "\"a = b\""]);
}

#[test]
fn bracketed_expression_is_one_token_trimmed() {
    assert_eq!(tokens("WA MOE n = <  1 +  2 >"), vec!["WA", "MOE", "n", "=", "<1 +  2>"]);
}

#[test]
fn equals_sign_inside_brackets_belongs_to_the_expression() {
    assert_eq!(tokens("FUWA <n == 3>"), vec!["FUWA", "<n == 3>"]);
}

#[test]
fn opening_bracket_ends_the_word_before_it() {
    assert_eq!(tokens("x<1>"), vec!["x", "<1>"]);
}

#[test]
fn empty_brackets_give_no_token() {
    assert_eq!(tokens("a <> b"), vec!["a", "b"]);
}

#[test]
fn comment_runs_to_the_end_of_the_line() {
    assert_eq!(tokens("BAU x ; BAU y\nBAU z"), vec!["BAU", "x", "BAU", "z"]);
    assert_eq!(tokens("; only a comment"), Vec::<String>::new());
}

#[test]
fn comment_starts_even_inside_quotes() {
    assert_eq!(tokens("BAU \"a;b\"\nc\""), vec!["BAU", "\"ac\""]);
}

#[test]
fn unterminated_quote_is_kept_as_it_stands() {
    assert_eq!(tokens("BAU \"open end"), vec!["BAU", "\"open end"]);
}

#[test]
fn unterminated_bracket_is_closed_at_the_end() {
    assert_eq!(tokens("WA MOE n = <1 + 2"), vec!["WA", "MOE", "n", "=", "<1 + 2>"]);
}

#[test]
fn word_under_way_comes_before_an_open_bracket_at_the_end() {
    assert_eq!(tokens("<1 \"a"), vec!["<1 \"a>"]);
}

#[test]
fn closing_bracket_outside_brackets_is_part_of_a_word() {
    assert_eq!(tokens("a > b"), vec!["a", ">", "b"]);
}

#[test]
fn braces_are_words() {
    assert_eq!(tokens("PONDE i 1..3 { BAU i }"), vec!["PONDE", "i", "1..3", "{", "BAU", "i", "}"]);
}

#[test]
fn unicode_whitespace_separates_words() {
    assert_eq!(tokens("a\u{00A0}b\u{3000}c\u{2003}d"), vec!["a", "b", "c", "d"]);
}
