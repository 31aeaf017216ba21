use mapanote::text::{
    char_is_space, find_in, join_range, occurs, rfind_in, same, slice, split_at_any, split_lines, to_chars,
    to_text, trimmed,
};

fn chars(s: &str) -> Vec<char> {
    s.chars().collect()
}

fn text(v: &Vec<char>) -> String {
    v.iter().collect()
}

#[test]
fn white_space_is_what_std_calls_white_space() {
    for n in 0..=0x10FFFFu32 {
        if let Some(c) = char::from_u32(n) {
            assert_eq!(char_is_space(c), c.is_whitespace(), "U+{:04X}", n);
        }
    }
}

#[test]
fn trimming_is_what_std_does() {
    for s in ["", " ", "a", "  a b  ", "\t\n a\u{a0}", "\u{3000}x\u{2028}y\u{85}", "\u{200b}z ", " \r\n "] {
        assert_eq!(text(&trimmed(&chars(s))), s.trim(), "{:?}", s);
    }
}

#[test]
fn lines_are_what_std_gives() {
    for s in ["", "a", "a\n", "a\nb", "a\r\nb\r\n", "a\r", "\r\n\r", "a\n\nb\n\n", "\n", "a\r\r\nb", "\r\n", "x\ry\n"] {
        let ours: Vec<String> = split_lines(&chars(s)).iter().map(text).collect();
        let theirs: Vec<String> = s.lines().map(String::from).collect();
        assert_eq!(ours, theirs, "{:?}", s);
    }
}

#[test]
fn pieces_are_what_std_gives() {
    for s in ["", "a", "a,b", ",a,,b,", "a b,c", " , "] {
        let ours: Vec<String> = split_at_any(&chars(s), &chars(", ")).iter().map(text).collect();
        let theirs: Vec<String> = s.split(&[',', ' '][..]).map(String::from).collect();
        assert_eq!(ours, theirs, "{:?}", s);
    }
}

#[test]
fn searching_is_what_std_does() {
    let hay = "ab###cd\n###ef###";
    for needle in ["###", "\n###", "", "x", "ab", "###ef###", "ab###cd\n###ef###x"] {
        for from in 0..=hay.len() {
            let ours = find_in(&chars(hay), &chars(needle), from);
            let theirs = hay[from..].find(needle).map(|p| p + from);
            assert_eq!(ours, theirs, "{:?} from {}", needle, from);
            let ours_back = rfind_in(&chars(hay), &chars(needle), from);
            let theirs_back = hay[..from].rfind(needle);
            assert_eq!(ours_back, theirs_back, "{:?} before {}", needle, from);
        }
    }
    assert!(occurs(&chars("abc"), &chars("bc"), 1));
    assert!(!occurs(&chars("abc"), &chars("bc"), 2));
    assert!(!occurs(&chars("abc"), &chars("bc"), 7));
    assert!(occurs(&chars("abc"), &chars(""), 3));
}

#[test]
fn texts_go_to_characters_and_back() {
    for s in ["", "a", "h\u{e9}llo \u{b7} w\u{f6}rld", "\u{1f600}\n"] {
        assert_eq!(to_chars(s), chars(s));
        assert_eq!(to_text(&chars(s)), s);
    }
    assert!(same(&chars("ab"), &chars("ab")));
    assert!(!same(&chars("ab"), &chars("ac")));
    assert!(!same(&chars("ab"), &chars("abc")));
    assert_eq!(text(&slice(&chars("hello"), 1, 3)), "el");
    let parts = vec![chars("a"), chars("b"), chars(""), chars("c")];
    assert_eq!(text(&join_range(&parts, 0, 4, &chars(", "))), "a, b, , c");
    assert_eq!(text(&join_range(&parts, 1, 2, &chars(", "))), "b");
    assert_eq!(text(&join_range(&parts, 2, 2, &chars(", "))), "");
}
