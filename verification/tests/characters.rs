use auswahl::lines::split_line;
use auswahl::text::{
    chars_of, find_chars, has_prefix, is_whitespace, split_once_chars, string_of,
    strip_prefix_chars, trim_chars, trim_end_chars, trim_start_chars,
};

fn words(alphabet: &[char], longest: usize) -> Vec<String> {
    let mut all = vec![String::new()];
    let mut last = vec![String::new()];
    for _ in 0..longest {
        let mut next = Vec::new();
        for t in &last {
            for c in alphabet {
                let mut longer = t.clone();
                longer.push(*c);
                next.push(longer);
            }
        }
        all.extend(next.iter().cloned());
        last = next;
    }
    all
}

#[test]
fn white_space_is_the_unicode_property() {
    for code in 0..=0x10ffffu32 {
        if let Some(c) = char::from_u32(code) {
            assert_eq!(is_whitespace(c), c.is_whitespace(), "U+{:04X}", code);
        }
    }
}

#[test]
fn characters_and_back() {
    for s in ["", "a", "äö→𝄞", "a\nb\r\n", "  x  "] {
        let chars = chars_of(s);
        assert_eq!(chars, s.chars().collect::<Vec<char>>());
        assert_eq!(string_of(&chars), s);
    }
}

#[test]
fn trimming_agrees_with_std() {
    for s in words(&['a', ' ', '\t', '\u{a0}', '\r'], 6) {
        let chars = chars_of(&s);
        assert_eq!(string_of(trim_chars(&chars)), s.trim(), "{:?}", s);
        assert_eq!(string_of(trim_start_chars(&chars)), s.trim_start(), "{:?}", s);
        assert_eq!(string_of(trim_end_chars(&chars)), s.trim_end(), "{:?}", s);
    }
}

#[test]
fn searching_agrees_with_std() {
    for s in words(&['a', '=', '>'], 7) {
        let chars = chars_of(&s);
        for pat in ["=>", "a", "", "=>=>", "aa>"] {
            assert_eq!(find_chars(&chars, pat), s.find(pat), "{:?} in {:?}", pat, s);
            assert_eq!(has_prefix(&chars, pat), s.starts_with(pat), "{:?} in {:?}", pat, s);
            let parts = split_once_chars(&chars, pat).map(|(a, b)| (string_of(a), string_of(b)));
            let expected = s.split_once(pat).map(|(a, b)| (a.to_string(), b.to_string()));
            assert_eq!(parts, expected, "{:?} in {:?}", pat, s);
            let rest = strip_prefix_chars(&chars, pat).map(string_of);
            assert_eq!(rest, s.strip_prefix(pat).map(|r| r.to_string()), "{:?} in {:?}", pat, s);
        }
    }
}

#[test]
fn searching_counts_characters() {
    let chars = chars_of("äö=>ü");
    assert_eq!(find_chars(&chars, "=>"), Some(2));
    assert_eq!(find_chars(&chars, "ü"), Some(4));
    assert_eq!(find_chars(&chars, "x"), None);
}

#[test]
fn lines_agree_with_std() {
    for s in words(&['a', '\n', '\r'], 8) {
        let chars = chars_of(&s);
        let mut rest: &[char] = &chars;
        let mut lines = Vec::new();
        while !rest.is_empty() {
            let (line, after) = split_line(rest);
            lines.push(string_of(line));
            rest = after;
        }
        assert_eq!(lines, s.lines().collect::<Vec<&str>>(), "{:?}", s);
    }
}

#[test]
fn first_line_of_a_text() {
    let split = |s: &str| {
        let chars = chars_of(s);
        let (line, rest) = split_line(&chars);
        (string_of(line), string_of(rest))
    };
    assert_eq!(split(""), (String::new(), String::new()));
    assert_eq!(split("a"), ("a".to_string(), String::new()));
    assert_eq!(split("a\nb\nc"), ("a".to_string(), "b\nc".to_string()));
    assert_eq!(split("a\r\nb"), ("a".to_string(), "b".to_string()));
    assert_eq!(split("a\r\r\nb"), ("a\r".to_string(), "b".to_string()));
    assert_eq!(split("\n"), (String::new(), String::new()));
    assert_eq!(split("\r\n\n"), (String::new(), "\n".to_string()));
    assert_eq!(split("a\r"), ("a\r".to_string(), String::new()));
}
