use eemail::text::{
    append_normalised, is_whitespace, split_words, str_equals, strip_address, to_chars,
    trimmed_equals, without_prefix,
};

#[test]
fn whitespace_is_what_the_standard_library_calls_whitespace() {
    let mut code: u32 = 0;
    while code <= 0x10FFFF {
        if let Some(c) = char::from_u32(code) {
            assert_eq!(is_whitespace(c), c.is_whitespace(), "U+{:04X}", code);
        }
        code += 1;
    }
}

#[test]
fn whitespace_names_the_usual_characters() {
    for c in [' ', '\t', '\n', '\r', '\u{0B}', '\u{0C}', '\u{85}', '\u{A0}', '\u{3000}'] {
        assert!(is_whitespace(c));
    }
    for c in ['a', '.', '0', '\0', '\u{200B}', '\u{FEFF}'] {
        assert!(!is_whitespace(c));
    }
}

#[test]
fn to_chars_keeps_every_character() {
    assert_eq!(to_chars("aé\u{1F600}"), vec!['a', 'é', '\u{1F600}']);
    assert_eq!(to_chars(""), Vec::<char>::new());
}

#[test]
fn str_equals_is_exact() {
    assert!(str_equals("EHLO", "EHLO"));
    assert!(str_equals("", ""));
    assert!(!str_equals("EHLO", "ehlo"));
    assert!(!str_equals("EHLO", "EHLO "));
    assert!(!str_equals("EHL", "EHLO"));
    assert!(!str_equals("é", "e"));
}

#[test]
fn split_words_splits_at_any_run_of_whitespace() {
    assert_eq!(split_words("MAIL FROM:<a@b>\r\n"), ["MAIL", "FROM:<a@b>"]);
    assert_eq!(split_words("  AUTH \t PLAIN   AGE=  "), ["AUTH", "PLAIN", "AGE="]);
    assert_eq!(split_words("QUIT"), ["QUIT"]);
    assert_eq!(split_words("a\u{A0}b\u{3000}c"), ["a", "b", "c"]);
}

#[test]
fn split_words_of_blank_line_is_empty() {
    assert!(split_words("").is_empty());
    assert!(split_words("\r\n").is_empty());
    assert!(split_words(" \t ").is_empty());
}

#[test]
fn split_words_agrees_with_split_whitespace() {
    for line in ["", " ", "a", " a", "a ", "a b", "a  b", "\ta\r\nb ", "EHLO x\r\n", "é ü\u{2003}x"] {
        let expected: Vec<String> = line.split_whitespace().map(str::to_string).collect();
        assert_eq!(split_words(line), expected);
    }
}

#[test]
fn trimmed_equals_ignores_trailing_whitespace_only() {
    assert!(trimmed_equals(".\r\n", "."));
    assert!(trimmed_equals(".\n", "."));
    assert!(trimmed_equals(".", "."));
    assert!(trimmed_equals(".  \t\r\n", "."));
    assert!(!trimmed_equals(" .\r\n", "."));
    assert!(!trimmed_equals("..\r\n", "."));
    assert!(!trimmed_equals(".a\r\n", "."));
    assert!(!trimmed_equals("\r\n", "."));
    assert!(trimmed_equals("\r\n", ""));
}

#[test]
fn address_parsing_is_tolerant() {
    assert_eq!(strip_address("FROM:<a@b>", "FROM:"), "a@b");
    assert_eq!(strip_address("FROM:a@b", "FROM:"), "a@b");
    assert_eq!(strip_address("FROM:<a@b", "FROM:"), "a@b");
    assert_eq!(strip_address("FROM:a@b>", "FROM:"), "a@b");
}

#[test]
fn address_parsing_accepts_what_remains() {
    assert_eq!(strip_address("<a@b>", "FROM:"), "a@b");
    assert_eq!(strip_address("a@b", "TO:"), "a@b");
    assert_eq!(strip_address("TO:<a@b>", "TO:"), "a@b");
    assert_eq!(strip_address("FROM:<>", "FROM:"), "");
    assert_eq!(strip_address("FROM:", "FROM:"), "");
    assert_eq!(strip_address("", "FROM:"), "");
    assert_eq!(strip_address("<", "FROM:"), "");
    assert_eq!(strip_address(">", "FROM:"), "");
}

#[test]
fn address_parsing_strips_one_bracket_pair_and_a_case_sensitive_keyword() {
    assert_eq!(strip_address("FROM:<<a@b>>", "FROM:"), "<a@b>");
    assert_eq!(strip_address("from:<a@b>", "FROM:"), "from:<a@b");
    assert_eq!(strip_address("TO:<a@b>", "FROM:"), "TO:<a@b");
    assert_eq!(strip_address("FROM:FROM:a@b", "FROM:"), "FROM:a@b");
}

#[test]
fn without_prefix_removes_a_prefix_that_is_there() {
    assert_eq!(without_prefix("urn:uuid:abc", "urn:uuid:"), "abc");
    assert_eq!(without_prefix("abc", "urn:uuid:"), "abc");
    assert_eq!(without_prefix("urn:uuid:", "urn:uuid:"), "");
    assert_eq!(without_prefix("urn:", "urn:uuid:"), "urn:");
    assert_eq!(without_prefix("abc", ""), "abc");
}

#[test]
fn append_normalised_turns_crlf_into_lf() {
    let mut data = String::new();
    append_normalised(&mut data, "Hi\r\n");
    assert_eq!(data, "Hi\n");
    append_normalised(&mut data, "there\n");
    assert_eq!(data, "Hi\nthere\n");
    append_normalised(&mut data, "a\r\nb\r\n\r\nc");
    assert_eq!(data, "Hi\nthere\na\nb\n\nc");
}

#[test]
fn append_normalised_keeps_lone_carriage_returns() {
    let mut data = String::from("x");
    append_normalised(&mut data, "a\rb\r\r\n\r");
    assert_eq!(data, "xa\rb\r\n\r");
    append_normalised(&mut data, "");
    assert_eq!(data, "xa\rb\r\n\r");
}

#[test]
fn append_normalised_agrees_with_replace() {
    for line in ["", "\r", "\n", "\r\n", "\r\r\n", "\n\r", "a\r\n\r\nb", "é\r\nü", "\r\n\r"] {
        let mut data = String::from("start:");
        append_normalised(&mut data, line);
        assert_eq!(data, format!("start:{}", line.replace("\r\n", "\n")));
    }
}
