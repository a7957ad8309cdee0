use rip_intruder::text::{
    char_is_space, chars_of, find_char, find_space, find_word, fold_char, join_from, same_name,
    same_text, split_lines, split_pair, split_words, trim,
};

fn strings(items: &[&str]) -> Vec<String> {
    items.iter().map(|s| s.to_string()).collect()
}

#[test]
fn white_space_is_unicode_white_space() {
    for c in ['\t', '\n', '\u{b}', '\u{c}', '\r', ' ', '\u{85}', '\u{a0}', '\u{1680}', '\u{2000}',
        '\u{200a}', '\u{2028}', '\u{2029}', '\u{202f}', '\u{205f}', '\u{3000}']
    {
        assert!(char_is_space(c), "{:?}", c);
    }
    for c in ['a', '0', ':', '\u{8}', '\u{e}', '\u{1f}', '\u{84}', '\u{86}', '\u{200b}',
        '\u{180e}', '\u{feff}', '§']
    {
        assert!(!char_is_space(c), "{:?}", c);
    }
}

#[test]
fn white_space_agrees_with_std_on_every_char() {
    let mut n: u32 = 0;
    while n <= 0x10ffff {
        if let Some(c) = char::from_u32(n) {
            assert_eq!(char_is_space(c), c.is_whitespace(), "{:x}", n);
        }
        n += 1;
    }
}

#[test]
fn trim_removes_white_space_at_both_ends() {
    assert_eq!(trim("  a b \t"), "a b");
    assert_eq!(trim("a"), "a");
    assert_eq!(trim(""), "");
    assert_eq!(trim(" \r\n\t "), "");
    assert_eq!(trim("\u{a0}§ §\u{3000}"), "§ §");
    for s in ["  x", "y  ", " \u{2003}z z\u{85}", "", "   "] {
        assert_eq!(trim(s), s.trim());
    }
}

#[test]
fn lines_end_at_line_feeds() {
    assert_eq!(split_lines(""), Vec::<String>::new());
    assert_eq!(split_lines("a"), strings(&["a"]));
    assert_eq!(split_lines("a\n"), strings(&["a"]));
    assert_eq!(split_lines("a\nb"), strings(&["a", "b"]));
    assert_eq!(split_lines("\n"), strings(&[""]));
    assert_eq!(split_lines("\n\n"), strings(&["", ""]));
    assert_eq!(split_lines("a\r\nb\r\n"), strings(&["a", "b"]));
    assert_eq!(split_lines("a\r\r\nb\r"), strings(&["a\r", "b\r"]));
    assert_eq!(split_lines("a\rb\n\r\n§"), strings(&["a\rb", "", "§"]));
    for s in ["x\ny\n\nz", "\r\n", "one\r\ntwo\nthree\r", "\n\nq\n"] {
        let expected: Vec<String> = s.lines().map(|l| l.to_string()).collect();
        assert_eq!(split_lines(s), expected);
    }
}

#[test]
fn words_are_runs_without_white_space() {
    assert_eq!(split_words(""), Vec::<String>::new());
    assert_eq!(split_words("  \t "), Vec::<String>::new());
    assert_eq!(split_words("GET /login HTTP/1.1"), strings(&["GET", "/login", "HTTP/1.1"]));
    assert_eq!(split_words("  a\t\tb\u{a0}c "), strings(&["a", "b", "c"]));
    assert_eq!(split_words("§§"), strings(&["§§"]));
}

#[test]
fn pair_is_cut_at_the_first_separator() {
    assert_eq!(split_pair("a: b", ':'), Some(("a".to_string(), "b".to_string())));
    assert_eq!(split_pair(" a :  b:c ", ':'), Some(("a".to_string(), "b:c".to_string())));
    assert_eq!(split_pair(":", ':'), Some((String::new(), String::new())));
    assert_eq!(split_pair("a:", ':'), Some(("a".to_string(), String::new())));
    assert_eq!(split_pair("no separator", ':'), None);
    assert_eq!(split_pair("", ':'), None);
    assert_eq!(split_pair("k=v=w", '='), Some(("k".to_string(), "v=w".to_string())));
}

#[test]
fn join_puts_nothing_between() {
    let parts = strings(&["a", "", "b§", "c"]);
    assert_eq!(join_from(&parts, 0), "ab§c");
    assert_eq!(join_from(&parts, 2), "b§c");
    assert_eq!(join_from(&parts, 4), "");
    assert_eq!(join_from(&parts, 9), "");
}

#[test]
fn texts_are_compared_by_their_characters() {
    assert!(same_text("Host", "Host"));
    assert!(!same_text("Host", "host"));
    assert!(!same_text("Host", "Hos"));
    assert!(same_text("", ""));
    assert!(same_name("Content-Type", "content-type"));
    assert!(same_name("ACCEPT", "accept"));
    assert!(!same_name("Accept", "Accepx"));
    assert!(!same_name("Accept", "Accept "));
    assert!(!same_name("[", "{"));
    assert!(!same_name("@", "`"));
    assert!(same_name("É", "É"));
    assert!(!same_name("É", "é"));
}

#[test]
fn folding_touches_ascii_capitals_only() {
    assert_eq!(fold_char('A'), 'a' as u32);
    assert_eq!(fold_char('Z'), 'z' as u32);
    assert_eq!(fold_char('a'), 'a' as u32);
    assert_eq!(fold_char('@'), '@' as u32);
    assert_eq!(fold_char('['), '[' as u32);
    assert_eq!(fold_char('É'), 'É' as u32);
}

#[test]
fn scanning_finds_the_first_place() {
    let chars = chars_of("ab  c:d");
    assert_eq!(chars, vec!['a', 'b', ' ', ' ', 'c', ':', 'd']);
    assert_eq!(find_char(&chars, ':', 0), 5);
    assert_eq!(find_char(&chars, ':', 6), 7);
    assert_eq!(find_char(&chars, 'x', 0), 7);
    assert_eq!(find_word(&chars, 2), 4);
    assert_eq!(find_word(&chars, 0), 0);
    assert_eq!(find_space(&chars, 0), 2);
    assert_eq!(find_space(&chars, 4), 7);
    assert_eq!(find_space(&chars, 7), 7);
}
