use cat_prep::text::{
    chars_of, ends_with, is_white_space, join_range, split_lines, string_of_range, text_less, trim,
};

fn samples() -> Vec<&'static str> {
    vec![
        "",
        "a",
        "a\n",
        "\n",
        "\n\n",
        "a\nb",
        "a\nb\n",
        "a\r\nb\r\n",
        "a\rb",
        "a\r",
        "a\r\n",
        "\r\n",
        "\r",
        "\r\r\n",
        "foo\nbar\n\r\nbaz\r",
        "+++",
        "x = 1\n+++\nbody\n",
        "první\nřádek\n",
        "a\n\nb\n\n",
        " \t lead and trail \u{a0}\n",
    ]
}

#[test]
fn lines_are_those_of_std() {
    for text in samples() {
        let expected: Vec<String> = text.lines().map(|l| l.to_string()).collect();
        assert_eq!(split_lines(text), expected, "lines of {:?}", text);
    }
}

#[test]
fn lines_keep_a_bare_carriage_return_at_the_end() {
    assert_eq!(split_lines("foo\nbar\n\r\nbaz\r"), vec!["foo", "bar", "", "baz\r"]);
}

#[test]
fn lines_of_the_empty_text_are_none() {
    assert_eq!(split_lines(""), Vec::<String>::new());
    assert_eq!(split_lines("\n"), vec![""]);
}

#[test]
fn chars_and_ranges() {
    let chars = chars_of("žluťoučký kůň");
    assert_eq!(chars.len(), 13);
    assert_eq!(chars[1], 'l');
    assert_eq!(string_of_range(&chars, 0, 9), "žluťoučký");
    assert_eq!(string_of_range(&chars, 10, 13), "kůň");
    assert_eq!(string_of_range(&chars, 4, 4), "");
}

#[test]
fn join_puts_line_feeds_between() {
    let ls: Vec<String> = vec!["a".to_string(), "".to_string(), "b".to_string()];
    assert_eq!(join_range(&ls, 0, 3), "a\n\nb");
    assert_eq!(join_range(&ls, 0, 1), "a");
    assert_eq!(join_range(&ls, 1, 3), "\nb");
    assert_eq!(join_range(&ls, 2, 2), "");
    assert_eq!(join_range(&ls, 0, 3), ls.join("\n"));
}

#[test]
fn order_is_that_of_std() {
    let words = vec![
        "", "a", "b", "ab", "abc", "abd", "B", "Z", "z", "ž", "á", "Å", "aa", "a ", " a", "10", "9",
        "\u{10000}", "\u{ffff}", "é", "e\u{301}",
    ];
    for a in &words {
        for b in &words {
            assert_eq!(text_less(a, b), a < b, "{:?} < {:?}", a, b);
        }
    }
}

#[test]
fn order_puts_a_prefix_first() {
    assert!(text_less("Nov", "Novak"));
    assert!(!text_less("Novak", "Nov"));
    assert!(!text_less("Novak", "Novak"));
    assert!(text_less("Novak", "Novotny"));
}

#[test]
fn ends_with_is_that_of_std() {
    let texts = vec!["", "a", "subject.md", "x/subject.md", "subject.mdx", "ject.md", ".toml", "a.toml", "toml"];
    let ends = vec!["", "a", "subject.md", ".md", ".toml", "toml", "x/subject.md", "longer than all of them"];
    for t in &texts {
        for e in &ends {
            assert_eq!(ends_with(t, e), t.ends_with(e), "{:?} ends with {:?}", t, e);
        }
    }
}

#[test]
fn white_space_is_that_of_std() {
    let mut c: u32 = 0;
    while c <= 0x10ffff {
        if let Some(ch) = char::from_u32(c) {
            assert_eq!(is_white_space(ch), ch.is_whitespace(), "U+{:04X}", c);
        }
        c += 1;
    }
}

#[test]
fn trim_is_that_of_std() {
    let texts = vec![
        "", " ", "true", " true", "true\n", "\n true \t\r\n", "\u{a0}a b\u{2003}", "a", "  a  b  ",
        "\u{feff}x", "\u{200b}x ",
    ];
    for t in texts {
        assert_eq!(trim(t), t.trim(), "trim of {:?}", t);
    }
}
