use domain_expiry::{find_expiration_line, has_expiry_keyword, is_whitespace, split_tokens};

#[test]
fn white_space_is_what_the_standard_library_calls_so() {
    for code in 0..=0x10FFFFu32 {
        if let Some(c) = char::from_u32(code) {
            assert_eq!(is_whitespace(c), c.is_whitespace(), "U+{:04X}", code);
        }
    }
}

#[test]
fn keyword_is_found_in_any_case() {
    assert!(has_expiry_keyword("expir"));
    assert!(has_expiry_keyword("EXPIR"));
    assert!(has_expiry_keyword("eXpIr"));
    assert!(has_expiry_keyword("Expiration Date: 2025-03-01"));
    assert!(has_expiry_keyword("Registry Expiry Date"));
    assert!(has_expiry_keyword("paid-till / expires"));
    assert!(has_expiry_keyword("xxexpirxx"));
    assert!(has_expiry_keyword("eexpir"));
    assert!(has_expiry_keyword("expexpir"));
}

#[test]
fn keyword_is_not_found_where_it_is_not() {
    assert!(!has_expiry_keyword(""));
    assert!(!has_expiry_keyword("expi"));
    assert!(!has_expiry_keyword("xpire"));
    assert!(!has_expiry_keyword("exp ir"));
    assert!(!has_expiry_keyword("e x p i r"));
    assert!(!has_expiry_keyword("expi\nr"));
    assert!(!has_expiry_keyword("Domain Name: EXAMPLE.COM"));
    assert!(!has_expiry_keyword("exprir"));
}

#[test]
fn keyword_goes_by_the_lowercase_of_the_standard_library() {
    let samples = [
        "EXP\u{130}R",
        "exp\u{131}r",
        "\u{212A}expir",
        "EXPIR\u{3A3}",
        "\u{3A3}EXPIR",
        "ЕХРIR",
        "ｅｘｐｉｒ",
        "Expiración",
        "EXPİRATİON",
        "ex\u{307}pir",
    ];
    for sample in samples {
        assert_eq!(
            has_expiry_keyword(sample),
            sample.to_lowercase().contains("expir"),
            "{}",
            sample
        );
    }
}

#[test]
fn no_other_character_stands_in_for_a_letter_of_the_keyword() {
    let word = ['e', 'x', 'p', 'i', 'r'];
    for code in 0..=0x10FFFFu32 {
        if let Some(c) = char::from_u32(code) {
            for at in 0..5 {
                let mut letters = word;
                letters[at] = c;
                let sample: String = letters.iter().collect();
                assert_eq!(
                    has_expiry_keyword(&sample),
                    sample.to_lowercase().contains("expir"),
                    "U+{:04X} at {}",
                    code,
                    at
                );
            }
        }
    }
}

#[test]
fn first_line_with_the_keyword_is_found() {
    let text = "Domain Name: EXAMPLE.COM\nRegistrar: Example\nExpiration Date: 2025-03-01T00:00:00Z\nStatus: ok\n";
    assert_eq!(
        find_expiration_line(text),
        Some("Expiration Date: 2025-03-01T00:00:00Z".to_string())
    );
}

#[test]
fn of_two_lines_with_the_keyword_the_first_is_found() {
    let text = "a\nExpiry: unknown\nExpiration Date: 2025-03-01T00:00:00Z\n";
    assert_eq!(find_expiration_line(text), Some("Expiry: unknown".to_string()));
}

#[test]
fn text_without_the_keyword_has_no_expiration_line() {
    assert_eq!(find_expiration_line(""), None);
    assert_eq!(find_expiration_line("\n\n\n"), None);
    assert_eq!(find_expiration_line("Domain Name: EXAMPLE.COM\nStatus: ok"), None);
    assert_eq!(find_expiration_line("exp\nir"), None);
}

#[test]
fn expiration_line_may_be_the_only_the_first_or_the_last_one() {
    assert_eq!(find_expiration_line("expires"), Some("expires".to_string()));
    assert_eq!(find_expiration_line("expires\nx"), Some("expires".to_string()));
    assert_eq!(find_expiration_line("x\nexpires"), Some("expires".to_string()));
    assert_eq!(find_expiration_line("x\nexpires\n"), Some("expires".to_string()));
    assert_eq!(find_expiration_line("\n\nexpires\n\n"), Some("expires".to_string()));
}

#[test]
fn expiration_line_keeps_what_stands_around_the_keyword() {
    assert_eq!(
        find_expiration_line("a\n   paid-till (EXPIRES):\t2026-01-15  \nb"),
        Some("   paid-till (EXPIRES):\t2026-01-15  ".to_string())
    );
}

#[test]
fn a_line_ends_at_a_line_feed_only() {
    assert_eq!(
        find_expiration_line("a\r\nExpiry: x\r\nb\r\n"),
        Some("Expiry: x\r".to_string())
    );
    assert_eq!(find_expiration_line("a\rexpiry\rb"), Some("a\rexpiry\rb".to_string()));
}

#[test]
fn expiration_line_of_a_text_beyond_ascii() {
    assert_eq!(
        find_expiration_line("Домен: пример\nСрок (expires): 2026-01-15\nконец"),
        Some("Срок (expires): 2026-01-15".to_string())
    );
}

#[test]
fn tokens_are_the_runs_between_white_space() {
    assert_eq!(
        split_tokens("Expiration Date: 2025-03-01T00:00:00Z"),
        vec!["Expiration", "Date:", "2025-03-01T00:00:00Z"]
    );
    assert_eq!(split_tokens("a"), vec!["a"]);
    assert_eq!(split_tokens("a b"), vec!["a", "b"]);
}

#[test]
fn white_space_at_the_ends_and_in_runs_gives_no_token() {
    assert_eq!(split_tokens("  a   b  "), vec!["a", "b"]);
    assert_eq!(split_tokens("\ta\t\tb\r"), vec!["a", "b"]);
    assert_eq!(split_tokens("a\u{3000}b\u{A0}c\u{2003}d"), vec!["a", "b", "c", "d"]);
}

#[test]
fn a_line_of_white_space_has_no_token() {
    assert_eq!(split_tokens(""), Vec::<String>::new());
    assert_eq!(split_tokens(" "), Vec::<String>::new());
    assert_eq!(split_tokens(" \t\r\u{85} "), Vec::<String>::new());
}

#[test]
fn tokens_are_those_of_the_standard_library() {
    let lines = [
        "Expiration Date: 2025-03-01T00:00:00Z",
        "   Registry Expiry Date:\t2026-01-15T04:00:00Z\r",
        "expires:\u{A0}2026-01-15",
        "\u{2028}a\u{2029}b\u{1680}c\u{205F}d\u{202F}e",
        "a\u{200B}b c",
        "срок  действия\tдомена",
        "",
        "    ",
    ];
    for line in lines {
        let expected: Vec<String> = line.split_whitespace().map(String::from).collect();
        assert_eq!(split_tokens(line), expected, "{:?}", line);
        let trimmed: Vec<String> = line.trim().split_whitespace().map(String::from).collect();
        assert_eq!(split_tokens(line), trimmed, "{:?}", line);
    }
}
