use zerosh::text::{chars_of, fields, has_nul, is_whitespace, same_text, trim, words};

#[test]
fn white_space_is_that_of_the_standard_library() {
    for n in 0..=0x10ffffu32 {
        if let Some(c) = char::from_u32(n) {
            assert_eq!(is_whitespace(c), c.is_whitespace(), "U+{:04X}", n);
        }
    }
}

fn samples() -> Vec<&'static str> {
    vec![
        "",
        " ",
        "\t\r\n",
        "ls",
        " ls -l ",
        "ls|wc",
        "ls | wc -l",
        "|",
        "||",
        " | a |  | b c|",
        "\u{3000}\u{e9}t\u{e9}\u{2003}\u{1f980} |\u{a0}x",
        "a\u{200b}b",
    ]
}

#[test]
fn fields_are_those_of_the_standard_library() {
    for s in samples() {
        assert_eq!(fields(s, '|'), s.split('|').collect::<Vec<_>>(), "{:?}", s);
    }
}

#[test]
fn words_are_those_of_the_standard_library() {
    for s in samples() {
        assert_eq!(words(s), s.split_whitespace().collect::<Vec<_>>(), "{:?}", s);
    }
}

#[test]
fn trimming_is_that_of_the_standard_library() {
    for s in samples() {
        assert_eq!(trim(s), s.trim(), "{:?}", s);
    }
}

#[test]
fn fields_join_to_the_text() {
    assert_eq!(fields("a||b|", '|'), vec!["a", "", "b", ""]);
    assert_eq!(fields("a||b|", '|').join("|"), "a||b|");
    for s in samples() {
        assert_eq!(fields(s, '|').join("|"), s);
        assert_eq!(fields(s, '|').len(), 1 + s.matches('|').count());
        for part in fields(s, '|') {
            assert!(!part.contains('|'));
        }
    }
}

#[test]
fn words_are_the_text_without_its_white_space() {
    assert_eq!(words("  cat  a.txt\tb.txt "), vec!["cat", "a.txt", "b.txt"]);
    for s in samples() {
        let dark: String = s.chars().filter(|c| !c.is_whitespace()).collect();
        assert_eq!(words(s).concat(), dark);
        assert!(words(s).iter().all(|w| !w.is_empty()));
    }
}

#[test]
fn words_hold_nothing_that_the_text_does_not_hold() {
    assert!(words("ls -l a.txt").iter().all(|w| !w.contains('|')));
}

#[test]
fn blank_text_has_no_words() {
    assert!(words(" \t\u{3000}").is_empty());
    assert_eq!(trim(" \t\u{3000}"), "");
    assert_eq!(words(" x"), vec!["x"]);
}

#[test]
fn trimming_takes_white_space_from_both_ends_only() {
    assert_eq!(trim("\t a  b \n"), "a  b");
    assert_eq!(words(trim("\t a  b \n")), words("\t a  b \n"));
}

#[test]
fn characters_are_taken_one_by_one() {
    assert_eq!(chars_of("a\u{e9}\u{1f980}"), vec!['a', '\u{e9}', '\u{1f980}']);
    assert!(chars_of("").is_empty());
}

#[test]
fn nul_is_found() {
    assert!(has_nul("a\0b"));
    assert!(has_nul("\0"));
    assert!(!has_nul("ab0"));
    assert!(!has_nul(""));
}

#[test]
fn texts_are_compared_as_wholes() {
    assert!(same_text("exit", "exit"));
    assert!(!same_text("exit", "exi"));
    assert!(!same_text("exit", "Exit"));
}
