use auswahl::config::{
    parse_config, parse_menu_option, parse_menu_title, parse_use, Parser, EXAMPLE_CONFIG,
};
use auswahl::{AError, Configuration, MenuConfig, MenuSystem, MenuTable};

fn menu(name: &str, flags: &str, options: &[(&str, &str)]) -> MenuConfig {
    MenuConfig {
        menu_name: name.to_string(),
        additional_flags: flags.to_string(),
        options: options.iter().map(|(k, c)| (k.to_string(), c.to_string())).collect(),
    }
}

fn configuration(menu_system: &str, menus: Vec<MenuConfig>) -> Configuration {
    let mut table = MenuTable::new();
    for m in menus {
        table.insert(m);
    }
    Configuration { menu_system: MenuSystem(menu_system.to_string()), menus: table }
}

fn parse_error(message: &str) -> Result<Configuration, AError> {
    Err(AError::Parse(message.to_string()))
}

fn pair(a: &str, b: &str) -> Result<(String, String), AError> {
    Ok((a.to_string(), b.to_string()))
}

#[test]
fn test_parse_menu_option() {
    assert_eq!(
        parse_menu_option("off => setthing off"),
        Ok(("off".to_string(), "setthing off".to_string())),
    );
}

#[test]
fn test_parser() {
    // No line of the example begins with `menu:`, so it names the menu
    // program and opens no menu.
    let parsed = parse_config(EXAMPLE_CONFIG);
    let expected = configuration("rofi -dmenu", vec![]);
    assert_eq!(Ok(expected), parsed);
}

#[test]
fn example_with_menu_lines() {
    let text = "
# this should go into ~/.config/auswahl/auswahlrc
use: rofi -dmenu

menu: set-redshift
  off => redshift -x
  medium => redshift -P -O 5000
  high => redshift -P -O 4500

menu: search :: -i -a
  g => firefox https://google.com?q={{}}
  yt => firefox https://youtube.com/results?search_query={{}}
";
    let expected = configuration(
        "rofi -dmenu",
        vec![
            menu(
                "set-redshift",
                "",
                &[
                    ("off", "redshift -x"),
                    ("medium", "redshift -P -O 5000"),
                    ("high", "redshift -P -O 4500"),
                ],
            ),
            menu(
                "search",
                "-i -a",
                &[
                    ("g", "firefox https://google.com?q={{}}"),
                    ("yt", "firefox https://youtube.com/results?search_query={{}}"),
                ],
            ),
        ],
    );
    assert_eq!(parse_config(text), Ok(expected));
}

#[test]
fn end_to_end_search_menu() {
    let parsed = parse_config(
        "use: rofi -dmenu\nmenu: search :: -i -a\n  g => firefox https://google.com?q={{}}\n",
    )
    .unwrap();
    assert_eq!(parsed.menu_system, MenuSystem("rofi -dmenu".to_string()));
    assert_eq!(parsed.menus.len(), 1);
    let search = parsed.menus.get("search").unwrap();
    assert_eq!(search.menu_name, "search");
    assert_eq!(search.additional_flags, "-i -a");
    assert_eq!(
        search.options,
        vec![("g".to_string(), "firefox https://google.com?q={{}}".to_string())]
    );
}

#[test]
fn comments_are_ignored_anywhere() {
    let plain = "use: m\nmenu: a :: -x\n  k => c\n  l => d\n\nmenu: b\n  z => y\n";
    let lines: Vec<&str> = plain.lines().collect();
    let expected = parse_config(plain);
    assert!(expected.is_ok());
    for comment in ["#", "# note", "#use: other", "#menu: c", "#  k => v", "#\r"] {
        for at in 0..=lines.len() {
            let mut with: Vec<&str> = lines.clone();
            with.insert(at, comment);
            let text = with.join("\n") + "\n";
            assert_eq!(parse_config(&text), expected, "comment {:?} at {}", comment, at);
        }
    }
}

#[test]
fn comment_does_not_close_a_menu() {
    let parsed = parse_config("use: m\nmenu: a\n  k => c\n# between\n  l => d\n");
    assert_eq!(parsed, Ok(configuration("m", vec![menu("a", "", &[("k", "c"), ("l", "d")])])));
}

#[test]
fn indented_hash_is_an_option_line() {
    assert_eq!(parse_config("use: m\n # k => c\n"), Ok(configuration("m", vec![])));
    assert_eq!(
        parse_config("use: m\nmenu: a\n # k => c\n"),
        Ok(configuration("m", vec![menu("a", "", &[("# k", "c")])]))
    );
    assert_eq!(parse_config("use: m\n # none\n"), parse_error("could not parse option \"# none\""));
}

#[test]
fn last_menu_of_a_name_wins() {
    let parsed = parse_config(
        "use: m\nmenu: a :: -one\n  k => c\n  l => d\nmenu: b\n  x => y\nmenu: a :: -two\n  z => w\n",
    );
    let expected = configuration(
        "m",
        vec![menu("a", "-two", &[("z", "w")]), menu("b", "", &[("x", "y")])],
    );
    assert_eq!(parsed, Ok(expected));
    let parsed = parsed.unwrap();
    assert_eq!(parsed.menus.len(), 2);
    assert_eq!(parsed.menus.get("a").unwrap().options.len(), 1);
}

#[test]
fn later_empty_menu_replaces_earlier() {
    let parsed = parse_config("use: m\nmenu: a :: -f\n  k => c\n\nmenu: a\n");
    assert_eq!(parsed, Ok(configuration("m", vec![menu("a", "", &[])])));
}

#[test]
fn options_keep_their_order() {
    let parsed = parse_config("use: m\nmenu: a\n  3 => c\n  1 => a\n  2 => b\n  1 => again\n")
        .unwrap();
    assert_eq!(
        parsed.menus.get("a").unwrap().options,
        vec![
            ("3".to_string(), "c".to_string()),
            ("1".to_string(), "a".to_string()),
            ("2".to_string(), "b".to_string()),
            ("1".to_string(), "again".to_string()),
        ]
    );
}

#[test]
fn title_without_separator_has_no_flags() {
    assert_eq!(parse_menu_title("menu: search"), pair("search", ""));
    assert_eq!(parse_menu_title("menu:search"), pair("search", ""));
    assert_eq!(parse_menu_title("menu:   two words  "), pair("two words", ""));
    assert_eq!(parse_menu_title("menu: a:b"), pair("a:b", ""));
    assert_eq!(parse_menu_title("menu:"), pair("", ""));
    assert_eq!(parse_menu_title("menu:   "), pair("", ""));
}

#[test]
fn title_is_split_at_the_first_separator() {
    assert_eq!(parse_menu_title("menu: search :: -i -a"), pair("search", "-i -a"));
    assert_eq!(parse_menu_title("menu: search::-i"), pair("search", "-i"));
    assert_eq!(parse_menu_title("menu:  a  ::  b :: c  "), pair("a", "b :: c"));
    assert_eq!(parse_menu_title("menu: a ::"), pair("a", ""));
    assert_eq!(parse_menu_title("menu: :: -f"), pair("", "-f"));
    assert_eq!(parse_menu_title("menu: ::"), pair("", ""));
    assert_eq!(parse_menu_title("menu: a:::b"), pair("a", ":b"));
    assert_eq!(parse_menu_title("menu: a: ::b"), pair("a:", "b"));
    assert_eq!(parse_menu_title("menu:\ta\t::\tb\t"), pair("a", "b"));
}

#[test]
fn title_needs_its_keyword() {
    assert_eq!(
        parse_menu_title("search :: -i"),
        Err(AError::Parse("Error parsing menu title \"search :: -i\"".to_string()))
    );
    assert_eq!(
        parse_menu_title(" menu: a"),
        Err(AError::Parse("Error parsing menu title \" menu: a\"".to_string()))
    );
    assert_eq!(
        parse_menu_title(""),
        Err(AError::Parse("Error parsing menu title \"\"".to_string()))
    );
}

#[test]
fn option_is_split_at_the_first_arrow() {
    assert_eq!(parse_menu_option("a => b => c"), pair("a", "b => c"));
    assert_eq!(parse_menu_option("a=>b"), pair("a", "b"));
    assert_eq!(parse_menu_option("  a b  =>  c d  "), pair("a b", "c d"));
    assert_eq!(parse_menu_option("=> c"), pair("", "c"));
    assert_eq!(parse_menu_option("a =>"), pair("a", ""));
    assert_eq!(parse_menu_option("=>"), pair("", ""));
    assert_eq!(parse_menu_option("a= =>b"), pair("a=", "b"));
    assert_eq!(parse_menu_option("a ==> b"), pair("a =", "b"));
    assert_eq!(parse_menu_option("\u{a0}a\u{2003}=>\u{3000}b\t"), pair("a", "b"));
}

#[test]
fn option_needs_an_arrow() {
    assert_eq!(
        parse_menu_option("notarrow"),
        Err(AError::Parse("could not parse option \"notarrow\"".to_string()))
    );
    assert_eq!(
        parse_menu_option("a = > b"),
        Err(AError::Parse("could not parse option \"a = > b\"".to_string()))
    );
    assert_eq!(
        parse_menu_option(""),
        Err(AError::Parse("could not parse option \"\"".to_string()))
    );
}

#[test]
fn malformed_option_names_the_line() {
    assert_eq!(
        parse_config("use: m\nmenu: a\n  notarrow\n"),
        parse_error("could not parse option \"notarrow\"")
    );
    // also where no menu is open
    assert_eq!(
        parse_config("use: m\n  notarrow  \n"),
        parse_error("could not parse option \"notarrow\"")
    );
    // a line of spaces is an option line
    assert_eq!(parse_config("use: m\nmenu: a\n   \n"), parse_error("could not parse option \"\""));
}

#[test]
fn first_error_is_reported() {
    assert_eq!(
        parse_config("menu: a\n  one\n  two\nuse:\n"),
        parse_error("could not parse option \"one\"")
    );
    assert_eq!(
        parse_config("use:\nmenu: a\n  one\n"),
        parse_error("Error parsing use: \"use:\"")
    );
}

#[test]
fn missing_menu_system() {
    assert_eq!(parse_config(""), parse_error("No menu system configured"));
    assert_eq!(
        parse_config("menu: a\n  k => c\n\nmenu: b\n"),
        parse_error("No menu system configured")
    );
    assert_eq!(parse_config("# use: m\n"), parse_error("No menu system configured"));
    assert_eq!(parse_config(" use: m\n"), parse_error("could not parse option \"use: m\""));
}

#[test]
fn use_line_names_the_menu_system() {
    assert_eq!(parse_use("use: rofi -dmenu"), Ok("rofi -dmenu".to_string()));
    assert_eq!(parse_use("use:dmenu"), Ok("dmenu".to_string()));
    assert_eq!(parse_use("use: \t dmenu -i  "), Ok("dmenu -i  ".to_string()));
    assert_eq!(parse_use("use: "), Ok(" ".to_string()));
    assert_eq!(parse_use("use: \t"), Ok("\t".to_string()));
    assert_eq!(parse_use("use:"), Err(AError::Parse("Error parsing use: \"use:\"".to_string())));
    assert_eq!(parse_use("used"), Err(AError::Parse("Error parsing use: \"used\"".to_string())));
}

#[test]
fn last_use_line_wins() {
    let parsed = parse_config("use: one\nmenu: a\nuse: two\n  k => c\n");
    assert_eq!(parsed, Ok(configuration("two", vec![menu("a", "", &[("k", "c")])])));
}

#[test]
fn blank_line_closes_the_menu() {
    let parsed = parse_config("use: m\nmenu: a\n  k => c\n\n  l => d\n");
    assert_eq!(parsed, Ok(configuration("m", vec![menu("a", "", &[("k", "c")])])));
    let parsed = parse_config("use: m\nmenu: a\n  k => c\n\t\n  l => d\n");
    assert_eq!(parsed, Ok(configuration("m", vec![menu("a", "", &[("k", "c")])])));
}

#[test]
fn other_lines_do_not_close_the_menu() {
    let parsed = parse_config("use: m\nmenu: a\n  k => c\nsomething\n  l => d\n");
    assert_eq!(parsed, Ok(configuration("m", vec![menu("a", "", &[("k", "c"), ("l", "d")])])));
}

#[test]
fn option_outside_a_menu_is_dropped() {
    assert_eq!(parse_config("  k => c\nuse: m\n"), Ok(configuration("m", vec![])));
}

#[test]
fn line_endings() {
    let expected = configuration("m", vec![menu("a", "-f", &[("k", "c")])]);
    assert_eq!(parse_config("use: m\r\nmenu: a :: -f\r\n  k => c\r\n"), Ok(expected.clone()));
    assert_eq!(parse_config("use: m\nmenu: a :: -f\n  k => c"), Ok(expected.clone()));
    // a carriage return that no line feed follows belongs to the line
    assert_eq!(
        parse_config("menu: a :: -f\n  k => c\nuse: m\r"),
        Ok(configuration("m\r", vec![menu("a", "-f", &[("k", "c")])]))
    );
}

#[test]
fn parser_is_a_state_machine() {
    let mut parser = Parser::new();
    assert!(parser.open.is_none());
    assert_eq!(parser.feed("  k => c"), Ok(()));
    assert!(parser.open.is_none());
    assert_eq!(parser.feed("menu: a"), Ok(()));
    assert_eq!(parser.open, Some(menu("a", "", &[])));
    assert_eq!(parser.feed("  k => c"), Ok(()));
    assert_eq!(parser.open, Some(menu("a", "", &[("k", "c")])));
    assert_eq!(parser.menus.len(), 0);
    assert_eq!(
        parser.feed("  broken"),
        Err(AError::Parse("could not parse option \"broken\"".to_string()))
    );
    assert_eq!(parser.open, Some(menu("a", "", &[("k", "c")])));
    assert_eq!(parser.feed("menu: b"), Ok(()));
    assert_eq!(parser.menus.len(), 1);
    assert_eq!(parser.open, Some(menu("b", "", &[])));
    assert_eq!(parser.feed(""), Ok(()));
    assert!(parser.open.is_none());
    assert_eq!(parser.menus.len(), 2);
    assert_eq!(parser.feed("use: m"), Ok(()));
    assert_eq!(
        parser.finish(),
        Ok(configuration("m", vec![menu("a", "", &[("k", "c")]), menu("b", "", &[])]))
    );
}

#[test]
fn written_text_reads_the_same() {
    let texts = [
        "use: rofi -dmenu\nmenu: search :: -i -a\n  g => firefox https://google.com?q={{}}\n",
        "use: m\nmenu: a :: -one\n  k => c\nmenu: b\n  x => y\nmenu: a :: -two\n  z => w\n",
        "menu: a: ::b\n  a= =>b\n  => c\n  k =>\nmenu: :: \nuse: \n",
        "use:  x  \nmenu: a\n\nmenu: b :: c :: d\n  k => a => b\n",
        "menu: a\n  k => c\nuse: m\r",
        "use: m",
    ];
    for text in texts {
        let parsed = parse_config(text).unwrap();
        let written = parsed.to_text();
        assert_eq!(parse_config(&written), Ok(parsed.clone()), "{:?}", written);
        assert_eq!(parse_config(&written).unwrap().to_text(), written);
    }
}

#[test]
fn text_without_flags_or_command() {
    let c = configuration("m", vec![menu("", "", &[("", ""), ("k", "")]), menu("a", "-f", &[])]);
    assert_eq!(c.to_text(), "menu: \n   =>\n  k =>\nmenu: a :: -f\nuse: m");
    assert_eq!(parse_config(&c.to_text()), Ok(c));
}

#[test]
fn text_of_a_configuration() {
    let c = configuration(
        "rofi -dmenu",
        vec![menu("search", "-i -a", &[("g", "firefox {{}}"), ("yt", "mpv")]), menu("b", "", &[])],
    );
    assert_eq!(
        c.to_text(),
        "menu: search :: -i -a\n  g => firefox {{}}\n  yt => mpv\nmenu: b\nuse: rofi -dmenu"
    );
}

#[test]
fn line_feed_inside_a_line() {
    assert_eq!(parse_menu_option("a\nb => c\n"), pair("a\nb", "c"));
    assert_eq!(parse_menu_title("menu: a\n:: b\nc\n"), pair("a", "b\nc"));
    assert_eq!(parse_use("use:\na\nb"), Ok("a\nb".to_string()));
}
