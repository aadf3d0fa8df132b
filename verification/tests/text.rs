use idmon::text;

#[test]
fn white_space_is_that_of_char() {
    for u in 0..=0x10ffffu32 {
        if let Some(c) = char::from_u32(u) {
            assert_eq!(text::is_white(c), c.is_whitespace(), "{u:x}");
        }
    }
}

#[test]
fn trim_cuts_both_ends() {
    for s in ["", " ", " a ", "a", "\u{3000}a b\u{a0}\n", "\t\r\n", "x\u{200b} "] {
        assert_eq!(text::trim(s), s.trim());
    }
}

#[test]
fn trim_end_matches_cuts_a_run() {
    for s in ["", "/", "a//", "a/b", "//a", "\u{1f4f1}///"] {
        assert_eq!(text::trim_end_matches(s, '/'), s.trim_end_matches('/'));
    }
}

#[test]
fn find_counts_characters() {
    assert_eq!(text::find("a/b/c", '/'), Some(1));
    assert_eq!(text::find("\u{1f4f1}\u{e9}/", '/'), Some(2));
    assert_eq!(text::find("abc", '/'), None);
    assert_eq!(text::find("", '/'), None);
}

#[test]
fn split_gives_one_piece_more_than_separators() {
    for s in ["", "|", "a|b", "a||b|", "abc", "\u{e9}|\u{1f4f1}"] {
        let expected: Vec<&str> = s.split('|').collect();
        assert_eq!(text::split(s, '|'), expected);
    }
}

#[test]
fn lines_are_trimmed_and_filled() {
    for s in ["", "\n", "a\nb", " a \r\n\n\tb\r\n", "a\n \n", "\r", "a\r"] {
        let expected: Vec<&str> = s.lines().map(str::trim).filter(|l| !l.is_empty()).collect();
        assert_eq!(text::lines(s), expected);
    }
}

#[test]
fn starts_and_ends() {
    assert!(text::starts_with("idm.internet.x", "idm.internet."));
    assert!(!text::starts_with("idm.internet", "idm.internet."));
    assert!(!text::starts_with("xidm.internet.", "idm.internet."));
    assert!(text::starts_with("", ""));
    assert!(text::ends_with("a/json", "/json"));
    assert!(!text::ends_with("a/json/", "/json"));
    assert!(!text::ends_with("json", "/json"));
    assert!(text::ends_with("/json", "/json"));
}

#[test]
fn pairs_are_found() {
    assert!(text::contains_pair("GB/S", 'G', 'B'));
    assert!(!text::contains_pair("BG", 'G', 'B'));
    assert!(!text::contains_pair("G", 'G', 'B'));
    assert!(!text::contains_pair("", 'G', 'B'));
    assert!(text::contains_pair("xxGB", 'G', 'B'));
}

#[test]
fn characters_are_removed() {
    assert_eq!(text::remove_char("\u{1f4f1} a\u{1f4f1}b", '\u{1f4f1}'), " ab");
    assert_eq!(text::remove_char("ab", '\u{1f4f1}'), "ab");
    assert_eq!(text::remove_char("", 'x'), "");
}

#[test]
fn join_puts_separators_between() {
    assert_eq!(text::join(&vec![], ", "), "");
    assert_eq!(text::join(&vec!["a".to_string()], ", "), "a");
    assert_eq!(text::join(&vec!["a".to_string(), "".to_string(), "b".to_string()], ", "), "a, , b");
}

#[test]
fn same_compares_texts() {
    assert!(text::same("100%", "100%"));
    assert!(!text::same("100%", "100% "));
}

#[test]
fn trimming_again_changes_nothing() {
    let once = text::trim(" \u{2003}a b \n");
    assert_eq!(once, "a b");
    assert_eq!(text::trim(once), once);
}

#[test]
fn parts_are_filled() {
    let parts: Vec<String> = [" a ", "", "\t", "b", "c"].iter().map(|p| p.to_string()).collect();
    assert_eq!(idmon::text::fill(&parts, 4), ["a", "b"]);
    assert_eq!(idmon::text::fill(&parts, 5), ["a", "b", "c"]);
    assert!(idmon::text::fill(&parts, 0).is_empty());
}

#[test]
fn texts_are_copied() {
    let list = vec!["a".to_string(), String::new()];
    assert_eq!(idmon::text::copies(&list), list);
}
