use ssh_manager::text::{
    chars_of, contains, find, is_whitespace, lines, split, string_of, strip_whitespace, trim,
    trim_chars,
};

fn text(s: &str) -> Vec<char> {
    s.chars().collect()
}

fn texts(parts: &[&str]) -> Vec<Vec<char>> {
    parts.iter().map(|part| text(part)).collect()
}

#[test]
fn white_space_is_what_std_says() {
    let mut count = 0;
    for code in 0..=0x10FFFFu32 {
        if let Some(c) = char::from_u32(code) {
            assert_eq!(is_whitespace(c), c.is_whitespace(), "U+{:04X}", code);
            if is_whitespace(c) {
                count += 1;
            }
        }
    }
    assert_eq!(count, 25);
}

#[test]
fn characters_of_a_string_and_back() {
    assert_eq!(chars_of("héllo ✓"), text("héllo ✓"));
    assert_eq!(chars_of(""), text(""));
    assert_eq!(string_of(&text("héllo ✓")), "héllo ✓");
    assert_eq!(string_of(&[]), "");
    assert_eq!(string_of(&['a', 'b']), "ab");
}

#[test]
fn strips_white_space_everywhere() {
    assert_eq!(strip_whitespace(&text(" a b\tc\r\n")), text("abc"));
    assert_eq!(strip_whitespace(&text("\u{3000}x\u{2003}")), text("x"));
    assert_eq!(strip_whitespace(&text("   ")), text(""));
    assert_eq!(strip_whitespace(&text("abc")), text("abc"));
}

#[test]
fn finds_the_first_occurrence() {
    assert_eq!(find(&text("a:b:c"), ':'), 1);
    assert_eq!(find(&text(":a"), ':'), 0);
    assert_eq!(find(&text("abc"), ':'), 3);
    assert_eq!(find(&text(""), ':'), 0);
}

#[test]
fn contains_is_what_std_says() {
    let hay = ["", "a", "host", "myhostname", "hos", "ho st", "xhos", "hosthost", "usernam"];
    let pats = ["", "h", "host", "username", "st", "ts"];
    for h in hay {
        for p in pats {
            assert_eq!(contains(&text(h), &text(p)), h.contains(p), "{:?} in {:?}", p, h);
        }
    }
}

#[test]
fn split_is_what_std_says() {
    for s in ["", "a", "|", "a|b", "a||b", "|a|", "||", "username:u|host:h"] {
        let expected: Vec<Vec<char>> = s.split('|').map(|piece| text(piece)).collect();
        assert_eq!(split(&text(s), '|'), expected, "{:?}", s);
    }
    assert_eq!(split(&text("a|b"), '|'), texts(&["a", "b"]));
    assert_eq!(split(&text(""), '|'), texts(&[""]));
}

#[test]
fn trim_is_what_std_says() {
    for s in ["", " ", "a", " a", "a ", "  a b  ", "\t\r\n x \u{a0}", "\u{2028}", "a\n", "3\n"] {
        assert_eq!(trim(s), s.trim(), "{:?}", s);
        assert_eq!(trim_chars(&text(s)), text(s.trim()), "{:?}", s);
    }
    assert_eq!(trim("  a b  "), "a b");
}

#[test]
fn lines_are_what_std_says() {
    let samples = [
        "", "a", "a\n", "a\nb", "a\nb\n", "\n", "\n\n", "a\n\nb", "a\r\nb\r\n", "a\r", "a\r\n",
        "\r\n", "\r", "a\rb\n", "a\r\r\n", "x\n \n",
    ];
    for s in samples {
        let expected: Vec<Vec<char>> = s.lines().map(|line| text(line)).collect();
        assert_eq!(lines(&text(s)), expected, "{:?}", s);
    }
    assert_eq!(lines(&text("a\nb\n")), texts(&["a", "b"]));
    assert_eq!(lines(&text("a\r\nb")), texts(&["a", "b"]));
}
