use tts_clean::chars::{
    contains_char, from_chars, is_blank_line, is_space_char, join, join_rows, lines, matches_at,
    replace, replace_text, slice, split, to_chars, trim, trim_end, trim_start,
};

fn chars(s: &str) -> Vec<char> {
    s.chars().collect()
}

fn text(v: &Vec<char>) -> String {
    v.iter().collect()
}

#[test]
fn to_chars_and_back() {
    let sample = "a\u{e9}\u{1f600} z\n";
    assert_eq!(to_chars(sample), chars(sample));
    assert_eq!(from_chars(&chars(sample)), sample);
    assert_eq!(to_chars(""), Vec::<char>::new());
    assert_eq!(from_chars(&Vec::new()), "");
}

#[test]
fn whitespace_is_what_the_standard_library_calls_whitespace() {
    let mut code: u32 = 0;
    while code <= 0x10FFFF {
        if let Some(c) = char::from_u32(code) {
            assert_eq!(is_space_char(c), c.is_whitespace(), "U+{:04X}", code);
        }
        code += 1;
    }
}

#[test]
fn blank_lines_hold_only_whitespace() {
    assert!(is_blank_line(&chars("")));
    assert!(is_blank_line(&chars(" \t\u{a0}")));
    assert!(!is_blank_line(&chars(" x ")));
}

#[test]
fn trimming_follows_the_standard_library() {
    let samples = ["", " ", "a", "  a b  ", "\t\na\r\n", "\u{a0}x\u{3000}", "x  ", "  x"];
    for sample in samples {
        assert_eq!(text(&trim(&chars(sample))), sample.trim(), "{:?}", sample);
        assert_eq!(text(&trim_start(&chars(sample))), sample.trim_start(), "{:?}", sample);
        assert_eq!(text(&trim_end(&chars(sample))), sample.trim_end(), "{:?}", sample);
    }
}

#[test]
fn lines_follow_the_standard_library() {
    let samples = [
        "", "a", "a\n", "a\nb", "a\n\nb", "\n", "\n\n", "a\r\nb", "a\rb", "a\r", "a\r\n",
        "\r\n\r\n", "a\n\r\nb\n", "a\r\r\nb", "last\n\n",
    ];
    for sample in samples {
        let got: Vec<String> = lines(&chars(sample)).iter().map(text).collect();
        let want: Vec<String> = sample.lines().map(|l| l.to_string()).collect();
        assert_eq!(got, want, "{:?}", sample);
    }
}

#[test]
fn split_follows_the_standard_library() {
    let samples = ["", "a", "a.b", "a.", ".a", "..", "1.2.3", "a..b"];
    for sample in samples {
        let got: Vec<String> = split(&chars(sample), '.').iter().map(text).collect();
        let want: Vec<String> = sample.split('.').map(|l| l.to_string()).collect();
        assert_eq!(got, want, "{:?}", sample);
    }
}

#[test]
fn join_puts_the_separator_between_parts() {
    let parts = vec!["a".to_string(), "".to_string(), "c".to_string()];
    assert_eq!(join(&parts, ", "), "a, , c");
    assert_eq!(join(&Vec::new(), ", "), "");
    assert_eq!(join(&vec!["x".to_string()], ", "), "x");
    let rows = vec![chars("a"), chars("b")];
    assert_eq!(text(&join_rows(&rows, &chars("\n"))), "a\nb");
    assert_eq!(text(&join_rows(&Vec::new(), &chars("\n"))), "");
}

#[test]
fn replace_follows_the_standard_library() {
    let cases = [
        ("", "a", "b"),
        ("aaa", "a", "b"),
        ("aaa", "aa", "b"),
        ("abcabc", "bc", ""),
        ("abc", "", "-"),
        ("", "", "-"),
        ("a\r\nb\rc", "\r\n", "\n"),
        ("x...y....", "...", "."),
        ("na\u{ef}ve", "\u{ef}", "i"),
        ("abab", "abc", "x"),
        ("ab", "abc", "x"),
    ];
    for (hay, from, to) in cases {
        let want = hay.replace(from, to);
        assert_eq!(text(&replace(&chars(hay), &chars(from), &chars(to))), want, "{:?}", hay);
        assert_eq!(replace_text(hay, from, to), want, "{:?}", hay);
    }
}

#[test]
fn small_helpers() {
    assert_eq!(text(&slice(&chars("hello"), 1, 3)), "el");
    assert_eq!(text(&slice(&chars("hello"), 2, 2)), "");
    assert!(contains_char(&chars("a.b"), '.'));
    assert!(!contains_char(&chars("ab"), '.'));
    assert!(matches_at(&chars("hello"), 2, &chars("llo")));
    assert!(!matches_at(&chars("hello"), 3, &chars("llo")));
    assert!(matches_at(&chars("hello"), 5, &chars("")));
}
