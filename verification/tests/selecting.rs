use auswahl::selection::{prompt_input, selection_of, substitute_chars};
use auswahl::{AError, MenuConfig};

fn menu(options: &[(&str, &str)]) -> MenuConfig {
    MenuConfig {
        menu_name: "search".to_string(),
        additional_flags: String::new(),
        options: options.iter().map(|(k, c)| (k.to_string(), c.to_string())).collect(),
    }
}

fn substituted(template: &str, text: &str) -> String {
    let template: Vec<char> = template.chars().collect();
    let text: Vec<char> = text.chars().collect();
    substitute_chars(&template, &text)
}

#[test]
fn selection_with_extra_text() {
    let m = menu(&[("g", "firefox https://google.com?q={{}}")]);
    assert_eq!(m.resolve("g extra text"), Ok("firefox https://google.com?q=extra text".to_string()));
}

#[test]
fn first_matching_key_is_taken() {
    let m = menu(&[("yt", "one {{}}"), ("y", "two {{}}"), ("ytx", "three {{}}")]);
    assert_eq!(m.resolve("ytx cats"), Ok("one x cats".to_string()));
    assert_eq!(m.resolve("y cats"), Ok("two cats".to_string()));
    assert_eq!(m.resolve("yt"), Ok("one ".to_string()));
    assert_eq!(m.resolve("  yt  "), Err(AError::NothingSelected));
}

#[test]
fn nothing_selected() {
    let m = menu(&[("g", "firefox {{}}"), ("yt", "mpv {{}}")]);
    assert_eq!(m.resolve(""), Err(AError::NothingSelected));
    assert_eq!(m.resolve("x"), Err(AError::NothingSelected));
    assert_eq!(m.resolve("y"), Err(AError::NothingSelected));
    assert_eq!(menu(&[]).resolve("g"), Err(AError::NothingSelected));
}

#[test]
fn empty_key_matches_everything() {
    let m = menu(&[("", "run {{}}"), ("g", "never")]);
    assert_eq!(m.resolve("  anything  "), Ok("run anything".to_string()));
    assert_eq!(m.resolve(""), Ok("run ".to_string()));
}

#[test]
fn key_is_taken_off_once() {
    let m = menu(&[("g", "open {{}}")]);
    assert_eq!(m.resolve("gg x"), Ok("open g x".to_string()));
}

#[test]
fn every_placeholder_is_replaced() {
    let m = menu(&[("g", "{{}} and {{}}{{}}")]);
    assert_eq!(m.resolve("g\t a b \n"), Ok("a b and a ba b".to_string()));
    let m = menu(&[("g", "no placeholder")]);
    assert_eq!(m.resolve("g text"), Ok("no placeholder".to_string()));
}

#[test]
fn substitution_agrees_with_replace() {
    let alphabet = ['{', '}', 'a'];
    let mut templates = vec![String::new()];
    let mut last = vec![String::new()];
    for _ in 0..8 {
        let mut next = Vec::new();
        for t in &last {
            for c in alphabet {
                let mut longer = t.clone();
                longer.push(c);
                next.push(longer);
            }
        }
        templates.extend(next.iter().cloned());
        last = next;
    }
    for template in &templates {
        for text in ["", "x", "{{}}", "{", "}}"] {
            assert_eq!(substituted(template, text), template.replace("{{}}", text));
        }
    }
}

#[test]
fn substitution_examples() {
    assert_eq!(substituted("", "x"), "");
    assert_eq!(substituted("{{}}", "x"), "x");
    assert_eq!(substituted("{{{}}}", "x"), "{x}");
    assert_eq!(substituted("{{}{}}", "x"), "{{}{}}");
    assert_eq!(substituted("a{{}}b{{}}", ""), "ab");
}

#[test]
fn prompt_lists_the_keys() {
    let keys = menu(&[("g", "a"), ("yt", "b"), ("", "c")]).keys();
    assert_eq!(keys, vec!["g".to_string(), "yt".to_string(), String::new()]);
    assert_eq!(prompt_input(&keys), "g\nyt\n\n");
    assert_eq!(prompt_input(&menu(&[("g", "a")]).keys()), "g\n");
    assert_eq!(prompt_input(&menu(&[]).keys()), "\n");
}

#[test]
fn selection_is_the_joined_output() {
    assert_eq!(selection_of("g extra text\n"), "g extra text");
    assert_eq!(selection_of("g extra text"), "g extra text");
    assert_eq!(selection_of("g\r\n"), "g");
    assert_eq!(selection_of("a\nb\r\nc\n"), "a\nb\nc");
    assert_eq!(selection_of("a\n\n"), "a\n");
    assert_eq!(selection_of("\n"), "");
    assert_eq!(selection_of(""), "");
    assert_eq!(selection_of("a\r"), "a\r");
}

#[test]
fn selection_agrees_with_lines() {
    let alphabet = ['a', '\n', '\r', ' '];
    let mut last = vec![String::new()];
    for _ in 0..7 {
        let mut next = Vec::new();
        for t in &last {
            for c in alphabet {
                let mut longer = t.clone();
                longer.push(c);
                next.push(longer);
            }
        }
        for output in &next {
            let expected = output.lines().collect::<Vec<&str>>().join("\n");
            assert_eq!(selection_of(output), expected, "{:?}", output);
        }
        last = next;
    }
}

fn search_configuration() -> auswahl::Configuration {
    auswahl::config::parse_config(
        "use: rofi -dmenu\nmenu: search :: -i -a\n  g => firefox https://google.com?q={{}}\n  yt => mpv {{}}\n",
    )
    .unwrap()
}

#[test]
fn prompt_of_a_menu() {
    let c = search_configuration();
    let prompt = c.prompt("search").unwrap();
    assert_eq!(prompt.command, "rofi -dmenu -i -a");
    assert_eq!(prompt.input, "g\nyt\n");
    assert_eq!(c.prompt("other").unwrap_err(), AError::UnknownMenu);
}

#[test]
fn command_of_a_run() {
    let c = search_configuration();
    assert_eq!(
        c.command("search", "g extra text\n"),
        Ok("firefox https://google.com?q=extra text".to_string())
    );
    assert_eq!(c.command("search", "yt a\nb\r\n"), Ok("mpv a\nb".to_string()));
    assert_eq!(c.command("search", ""), Err(AError::NothingSelected));
    assert_eq!(c.command("search", "x\n"), Err(AError::NothingSelected));
    assert_eq!(c.command("other", "g\n"), Err(AError::UnknownMenu));
}
