use auswahl::grammar::{parse_menu_option, parse_menu_title, parse_use};
use auswahl::AError;
use regex::Regex;

fn words(alphabet: &[char], longest: usize) -> Vec<String> {
    let mut all = vec![String::new()];
    let mut last = vec![String::new()];
    for _ in 0..longest {
        let mut next = Vec::new();
        for t in &last {
            for c in alphabet {
                let mut longer = t.clone();
                longer.push(*c);
                next.push(longer);
            }
        }
        all.extend(next.iter().cloned());
        last = next;
    }
    all
}

#[test]
fn option_agrees_with_its_pattern() {
    let pattern = Regex::new(r"^\s*(.*?)\s*=>\s*(.*?)\s*$").unwrap();
    for s in words(&['a', ' ', '=', '>', '\u{a0}'], 7) {
        let expected = match pattern.captures(&s) {
            Some(found) => Ok((found[1].to_string(), found[2].to_string())),
            None => Err(AError::Parse(format!("could not parse option \"{}\"", s))),
        };
        assert_eq!(parse_menu_option(&s), expected, "{:?}", s);
    }
}

#[test]
fn title_agrees_with_its_patterns() {
    let title = Regex::new(r"^menu:\s*(.*)\s*$").unwrap();
    let flags = Regex::new(r"^(.*?)\s*::\s*(.*)$").unwrap();
    let mut lines = Vec::new();
    for s in words(&['a', ' ', ':', '\t'], 7) {
        lines.push(format!("menu:{}", s));
        lines.push(s);
    }
    for line in lines {
        // white space at the end of the line is no part of the title
        let expected = match title.captures(line.trim_end()) {
            Some(found) => {
                let content = found[1].to_string();
                match flags.captures(&content) {
                    Some(parts) => Ok((parts[1].to_string(), parts[2].to_string())),
                    None => Ok((content, String::new())),
                }
            }
            None => Err(AError::Parse(format!("Error parsing menu title \"{}\"", line))),
        };
        assert_eq!(parse_menu_title(&line), expected, "{:?}", line);
    }
}

#[test]
fn use_agrees_with_its_pattern() {
    let pattern = Regex::new(r"^use:\s*(.+?)$").unwrap();
    let mut lines = Vec::new();
    for s in words(&['a', ' ', ':', '\t', '\r'], 6) {
        lines.push(format!("use:{}", s));
        lines.push(s);
    }
    for line in lines {
        let expected = match pattern.captures(&line) {
            Some(found) => Ok(found[1].to_string()),
            None => Err(AError::Parse(format!("Error parsing use: \"{}\"", line))),
        };
        assert_eq!(parse_use(&line), expected, "{:?}", line);
    }
}
