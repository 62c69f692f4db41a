use danmu2ass::cli::{is_denied, is_up_to_date, parse_denylist};

fn words(list: &[&str]) -> Vec<String> {
    list.iter().map(|w| w.to_string()).collect()
}

#[test]
fn denied_words_are_found_anywhere() {
    let list = words(&["abc", "快快"]);
    assert!(is_denied("abc", &list));
    assert!(is_denied("xabc", &list));
    assert!(is_denied("abcx", &list));
    assert!(is_denied("ababc", &list));
    assert!(is_denied("好快快快", &list));
    assert!(!is_denied("", &list));
    assert!(!is_denied("ab", &list));
    assert!(!is_denied("ab c", &list));
    assert!(!is_denied("ABC", &list));
    assert!(!is_denied("快", &list));
    assert!(!is_denied("快 快", &list));
    assert!(!is_denied("abc", &[].to_vec()));
    assert!(is_denied("", &words(&[""])));
    assert!(is_denied("x", &words(&["y", ""])));
    assert!(is_denied("aaab", &words(&["aab"])));
}

#[test]
fn list_of_denied_words_holds_one_word_to_a_line() {
    assert_eq!(parse_denylist("a\nb\nc"), words(&["a", "b", "c"]));
    assert_eq!(parse_denylist("a\nb\n"), words(&["a", "b"]));
    assert_eq!(parse_denylist("  a b \r\n\n\t\r\n\u{3000}c\u{a0}\n"), words(&["a b", "c"]));
    assert_eq!(parse_denylist("快 快\r\n 好"), words(&["快 快", "好"]));
    assert_eq!(parse_denylist("a\na"), words(&["a", "a"]));
    assert_eq!(parse_denylist("a\rb"), words(&["a\rb"]));
    assert_eq!(parse_denylist("\u{200b}"), words(&["\u{200b}"]));
    assert_eq!(parse_denylist(""), words(&[]));
    assert_eq!(parse_denylist("\n"), words(&[]));
    assert_eq!(parse_denylist(" \n \n "), words(&[]));
    let spaces = "\u{9}\u{a}\u{b}\u{c}\u{d}\u{20}\u{85}\u{a0}\u{1680}\u{2000}\u{2001}\u{2002}\u{2003}\u{2004}\u{2005}\u{2006}\u{2007}\u{2008}\u{2009}\u{200a}\u{2028}\u{2029}\u{202f}\u{205f}\u{3000}";
    assert_eq!(spaces.trim(), "");
    assert_eq!(parse_denylist(spaces), words(&[]));
    assert_eq!(parse_denylist(&format!("{}x{}", spaces, spaces)), words(&["x"]));
    let near = "\u{8}\u{e}\u{1f}\u{84}\u{86}\u{167f}\u{180e}\u{1fff}\u{200b}\u{2027}\u{202a}\u{2060}\u{2fff}\u{3001}\u{feff}";
    for c in near.chars() {
        assert!(!c.is_whitespace());
        assert_eq!(parse_denylist(&c.to_string()), vec![c.to_string()]);
    }
}

#[test]
fn newer_output_is_left_alone_unless_forced() {
    assert!(is_up_to_date(false, 5, Some(6)));
    assert!(!is_up_to_date(false, 5, Some(5)));
    assert!(!is_up_to_date(false, 6, Some(5)));
    assert!(!is_up_to_date(false, 5, None));
    assert!(!is_up_to_date(true, 5, Some(6)));
    assert!(!is_up_to_date(true, 5, None));
    assert!(is_up_to_date(false, 0, Some(u128::MAX)));
}
