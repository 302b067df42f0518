use wgsl_bindgen::text::{
    char_is_whitespace, chars_of, find_from, next_word, push_decimal, replaced, split_lines,
    string_of, trimmed,
};

fn chars(s: &str) -> Vec<char> {
    s.chars().collect()
}

fn text(v: &Vec<char>) -> String {
    v.iter().collect()
}

#[test]
fn whitespace_is_that_of_the_standard_library_for_every_character() {
    let mut code: u32 = 0;
    while code <= 0x10FFFF {
        if let Some(c) = char::from_u32(code) {
            assert_eq!(char_is_whitespace(c), c.is_whitespace(), "U+{:04X}", code);
        }
        code += 1;
    }
}

#[test]
fn characters_and_strings_convert_both_ways() {
    for s in ["", "abc", "a\u{e9}\u{4e2d}\u{1F600}z", "line\nbreak\t"] {
        assert_eq!(chars_of(s), chars(s));
        assert_eq!(string_of(&chars(s)), s);
    }
}

#[test]
fn trimming_is_that_of_the_standard_library() {
    for s in [
        "",
        " ",
        "   \t\r\n",
        "abc",
        "  abc",
        "abc  ",
        " \t a b  c \u{a0}\u{3000}",
        "\u{2003}x\u{2003}",
        "\u{1680}",
        "\u{200b}zero width stays\u{200b}",
    ] {
        assert_eq!(text(&trimmed(&chars(s))), s.trim(), "{:?}", s);
    }
}

#[test]
fn lines_are_those_of_the_standard_library() {
    for s in [
        "",
        "\n",
        "a",
        "a\n",
        "a\nb",
        "a\n\nb\n",
        "a\r\nb\r\n",
        "a\r\r\nb",
        "a\rb\n",
        "last\r",
        "\r\n",
        "\n\n\n",
    ] {
        let ours: Vec<String> = split_lines(&chars(s)).iter().map(text).collect();
        let theirs: Vec<String> = s.lines().map(|l| l.to_string()).collect();
        let read: Vec<String> =
            std::io::BufRead::lines(std::io::Cursor::new(s)).map(|l| l.unwrap()).collect();
        assert_eq!(ours, read, "{:?}", s);
        if !s.ends_with('\r') {
            assert_eq!(ours, theirs, "{:?}", s);
        }
    }
}

#[test]
fn a_last_line_keeps_its_carriage_return() {
    let ours: Vec<String> = split_lines(&chars("a\nlast\r")).iter().map(text).collect();
    assert_eq!(ours, vec!["a".to_string(), "last\r".to_string()]);
}

#[test]
fn words_are_those_between_white_space() {
    let v = chars("  define\tKEY  value rest ");
    let (a, b) = next_word(&v, 0);
    assert_eq!((a, b), (2, 8));
    let (c, d) = next_word(&v, b);
    assert_eq!(text(&v[c..d].to_vec()), "KEY");
    let (e, f) = next_word(&v, d);
    assert_eq!(text(&v[e..f].to_vec()), "value");
    let all: Vec<&str> = "  define\tKEY  value rest ".split_whitespace().collect();
    assert_eq!(all[0], "define");
    let (g, h) = next_word(&chars("   "), 0);
    assert_eq!(g, h);
}

#[test]
fn finding_is_that_of_the_standard_library() {
    let cases = [
        ("hello world", "world", 0usize),
        ("hello world", "o", 5),
        ("aaa", "aa", 1),
        ("abc", "", 1),
        ("abc", "abcd", 0),
        ("abc", "x", 0),
        ("", "", 0),
    ];
    for (hay, needle, from) in cases {
        let ours = find_from(&chars(hay), from, &chars(needle));
        let theirs = hay[from..].find(needle).map(|p| p + from);
        assert_eq!(ours, theirs, "{:?} {:?} {}", hay, needle, from);
    }
}

#[test]
fn replacing_is_that_of_the_standard_library() {
    let cases = [
        ("a-b-c", "-", "+"),
        ("aaaa", "aa", "b"),
        ("aaa", "aa", "b"),
        ("abc", "", "-"),
        ("", "", "-"),
        ("", "a", "b"),
        ("abc", "abc", ""),
        ("abc", "abcd", "x"),
        ("FOO and FOOBAR", "FOO", "1"),
        ("\u{e9}t\u{e9}", "\u{e9}", "e"),
    ];
    for (hay, from, to) in cases {
        let ours = text(&replaced(&chars(hay), &chars(from), &chars(to)));
        assert_eq!(ours, hay.replace(from, to), "{:?} {:?} {:?}", hay, from, to);
    }
}

#[test]
fn decimal_is_that_of_the_standard_library() {
    for n in [0u32, 1, 9, 10, 11, 99, 100, 101, 4096, 65535, 1_000_000, u32::MAX] {
        let mut out = chars("n=");
        push_decimal(&mut out, n);
        assert_eq!(text(&out), format!("n={}", n));
    }
}
