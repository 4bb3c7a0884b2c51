use auswahl::selection::Action;
use auswahl::{AError, Configuration, MenuConfig, MenuSystem, MenuTable};

fn menu(name: &str, flags: &str, options: &[(&str, &str)]) -> MenuConfig {
    MenuConfig {
        menu_name: name.to_string(),
        additional_flags: flags.to_string(),
        options: options.iter().map(|(k, c)| (k.to_string(), c.to_string())).collect(),
    }
}

#[test]
fn table_holds_one_menu_per_name() {
    let mut table = MenuTable::new();
    assert_eq!(table.len(), 0);
    assert!(table.get("a").is_none());
    table.insert(menu("a", "1", &[("k", "c")]));
    table.insert(menu("b", "2", &[]));
    table.insert(menu("a", "3", &[]));
    assert_eq!(table.len(), 2);
    assert_eq!(table.get("a"), Some(&menu("a", "3", &[])));
    assert_eq!(table.get("b"), Some(&menu("b", "2", &[])));
    assert!(table.get("c").is_none());
    assert!(table.get("").is_none());
    assert_eq!(table.names(), vec!["a".to_string(), "b".to_string()]);
    assert_eq!(table.menus(), &vec![menu("a", "3", &[]), menu("b", "2", &[])]);
}

#[test]
fn tables_are_equal_whatever_the_order() {
    let mut one = MenuTable::new();
    one.insert(menu("a", "", &[("k", "c")]));
    one.insert(menu("b", "", &[]));
    let mut two = MenuTable::new();
    two.insert(menu("b", "", &[]));
    two.insert(menu("a", "", &[("k", "c")]));
    assert_eq!(one, two);
    assert!(one.includes(&two) && two.includes(&one));
    two.insert(menu("c", "", &[]));
    assert_ne!(one, two);
    assert!(two.includes(&one));
    assert!(!one.includes(&two));
    one.insert(menu("c", "-f", &[]));
    assert_ne!(one, two);
    assert_eq!(one.clone(), one);
}

#[test]
fn menus_differ_in_every_part() {
    let m = menu("a", "-f", &[("k", "c"), ("l", "d")]);
    assert_eq!(m, m.clone());
    assert_ne!(m, menu("b", "-f", &[("k", "c"), ("l", "d")]));
    assert_ne!(m, menu("a", "", &[("k", "c"), ("l", "d")]));
    assert_ne!(m, menu("a", "-f", &[("l", "d"), ("k", "c")]));
    assert_ne!(m, menu("a", "-f", &[("k", "c")]));
    assert_ne!(m, menu("a", "-f", &[("k", "c"), ("l", "e")]));
    assert_ne!(m, menu("a", "-f", &[("k", "c"), ("m", "d")]));
}

#[test]
fn configurations_compare_menu_system_and_menus() {
    let mut table = MenuTable::new();
    table.insert(menu("a", "", &[]));
    let c = Configuration { menu_system: MenuSystem("m".to_string()), menus: table.clone() };
    assert_eq!(c, c.clone());
    assert_ne!(c, Configuration { menu_system: MenuSystem("n".to_string()), menus: table });
    assert_ne!(c, Configuration { menu_system: MenuSystem("m".to_string()), menus: MenuTable::new() });
}

#[test]
fn unknown_menu() {
    let mut table = MenuTable::new();
    table.insert(menu("a", "", &[]));
    let c = Configuration { menu_system: MenuSystem("m".to_string()), menus: table };
    assert_eq!(c.menu("a"), Ok(&menu("a", "", &[])));
    assert_eq!(c.menu("b"), Err(AError::UnknownMenu));
}

#[test]
fn command_line_of_the_menu_system() {
    let m = MenuSystem("rofi -dmenu".to_string());
    assert_eq!(m.command_line("-i -a"), "rofi -dmenu -i -a");
    assert_eq!(m.command_line(""), "rofi -dmenu ");
    assert_eq!(m.clone(), m);
}

#[test]
fn error_messages() {
    assert_eq!(AError::Parse("x".to_string()).message(), "Parse error: x");
    assert_eq!(AError::IO("x".to_string()).message(), "IO error: x");
    assert_eq!(
        AError::CliArg("x".to_string()).message(),
        "Error while reading command line arguments: x"
    );
    assert_eq!(AError::MenuSystem("x".to_string()).message(), "Error while running the menu: x");
    assert_eq!(AError::NothingSelected.message(), "");
    assert_eq!(AError::UnknownMenu.message(), "Requested menu not found");
}

#[test]
fn errors_are_shown_on_one_line() {
    assert_eq!(
        AError::Parse("No menu system configured".to_string()).message(),
        "Parse error: No menu system configured"
    );
    let texts = [
        "",
        "menu: a\n  k => c\n",
        "use:\n",
        "use: m\nmenu: a\n  notarrow\n",
        "use: m\r\n   \r\n",
        "use: m\n  a\r\r\n",
        "\n\n  no arrow here  \n\nuse:\n",
    ];
    for text in texts {
        let error = auswahl::config::parse_config(text).unwrap_err();
        assert!(!error.message().contains('\n'), "{:?}", error.message());
        assert!(error.message().starts_with("Parse error: "));
    }
    assert!(!AError::UnknownMenu.message().contains('\n'));
    assert!(!AError::NothingSelected.message().contains('\n'));
}

#[test]
fn what_a_run_does() {
    assert_eq!(Action::decide(true, true, Some("a".to_string())), Action::ListMenus);
    assert_eq!(Action::decide(true, false, None), Action::ListMenus);
    assert_eq!(Action::decide(false, true, Some("a".to_string())), Action::PrintExample);
    assert_eq!(Action::decide(false, false, Some("a".to_string())), Action::RunMenu("a".to_string()));
    assert_eq!(Action::decide(false, false, None), Action::Nothing);
}
