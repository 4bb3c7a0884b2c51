//! A configuration that was read can be written and read again.

use crate::config::{apply, close, finish, line_error, parse, run, start, ParserView};
use crate::grammar::{
    lemma_kind_by_beginning, line_kind, menu_option, menu_title, use_command, LineKind,
};
use crate::laws::extended;
use crate::lines::{
    after_first_line, lemma_line_end_is, lemma_lines_cons, lemma_lines_hold_no_line_feed,
    lemma_one_line_concat, lemma_one_line_subrange, lines, one_line, strip_cr,
};
use crate::menu::{lemma_table_entry, table_of, Configuration, ConfigurationView, MenuView};
use crate::render::{config_text, menu_text, option_line, options_text, title_line, use_line};
use crate::text::{
    contains, find, is_trimmed, lemma_find, lemma_occurs_in_subrange, lemma_skip_space,
    lemma_skip_space_is, lemma_split_once_padded, lemma_split_once_trimmed, lemma_trim_bounds,
    lemma_trim_is, occurs_at, skip_space, split_once, strip_prefix, trim, trim_start, white_space,
};
use vstd::prelude::*;

verus! {

/// What a menu name is after reading: trimmed, on one line, and without `::`.
pub open spec fn canonical_name(name: Seq<char>) -> bool {
    is_trimmed(name) && one_line(name) && !contains(name, "::"@)
}

/// What flags and command templates are after reading: trimmed and on one
/// line.
pub open spec fn canonical_words(words: Seq<char>) -> bool {
    is_trimmed(words) && one_line(words)
}

/// What an option key is after reading: trimmed, on one line, and without
/// `=>`.
pub open spec fn canonical_key(key: Seq<char>) -> bool {
    is_trimmed(key) && one_line(key) && !contains(key, "=>"@)
}

/// What an option is after reading.
pub open spec fn canonical_option(option: (Seq<char>, Seq<char>)) -> bool {
    canonical_key(option.0) && canonical_words(option.1)
}

/// What a menu is after reading.
pub open spec fn canonical_menu(menu: MenuView) -> bool {
    &&& canonical_name(menu.menu_name)
    &&& canonical_words(menu.additional_flags)
    &&& forall|i: int| 0 <= i < menu.options.len() ==> canonical_option(#[trigger] menu.options[i])
}

/// What the menu program's command is after reading: on one line, not
/// empty, and without white space in front unless it is one character of
/// white space.
pub open spec fn canonical_menu_system(command: Seq<char>) -> bool {
    &&& command.len() > 0
    &&& one_line(command)
    &&& (command.len() == 1 || !white_space(command[0]))
}

/// Every menu of the table is as it is after reading, and stands under its
/// own name.
pub open spec fn canonical_menus(menus: Map<Seq<char>, MenuView>) -> bool {
    forall|name: Seq<char>| #[trigger]
        menus.contains_key(name) ==> canonical_menu(menus[name]) && menus[name].menu_name == name
}

/// What a configuration is after reading.
pub open spec fn canonical(configuration: ConfigurationView) -> bool {
    canonical_menu_system(configuration.menu_system) && canonical_menus(configuration.menus)
}

/// What the parser's state is while reading.
pub open spec fn canonical_state(state: ParserView) -> bool {
    &&& state.menu_system matches Some(command) ==> canonical_menu_system(command)
    &&& canonical_menus(state.menus)
    &&& state.open matches Some(menu) ==> canonical_menu(menu)
}

/// The table after the menus `menus` were put into `base`, one after the
/// other.
pub open spec fn insert_all(base: Map<Seq<char>, MenuView>, menus: Seq<MenuView>) -> Map<
    Seq<char>,
    MenuView,
>
    decreases menus.len(),
{
    if menus.len() == 0 {
        base
    } else {
        insert_all(base.insert(menus.first().menu_name, menus.first()), menus.drop_first())
    }
}

/// Putting in one more menu at the end is an insertion into the table.
proof fn lemma_insert_all_push(base: Map<Seq<char>, MenuView>, menus: Seq<MenuView>, menu: MenuView)
    ensures
        insert_all(base, menus.push(menu)) == insert_all(base, menus).insert(menu.menu_name, menu),
    decreases menus.len(),
{
    if menus.len() == 0 {
        let one = menus.push(menu);
        assert(one.first() == menu);
        assert(one.drop_first() =~= menus);
        assert(insert_all(base.insert(menu.menu_name, menu), one.drop_first()) == base.insert(
            menu.menu_name,
            menu,
        ));
    } else {
        assert(menus.push(menu).first() == menus.first());
        assert(menus.push(menu).drop_first() =~= menus.drop_first().push(menu));
        lemma_insert_all_push(
            base.insert(menus.first().menu_name, menus.first()),
            menus.drop_first(),
            menu,
        );
    }
}

/// Menus put into the empty table one after the other give `table_of`.
proof fn lemma_insert_all_is_table(menus: Seq<MenuView>)
    ensures
        insert_all(Map::empty(), menus) == table_of(menus),
    decreases menus.len(),
{
    if menus.len() > 0 {
        lemma_insert_all_is_table(menus.drop_last());
        lemma_insert_all_push(Map::empty(), menus.drop_last(), menus.last());
        assert(menus.drop_last().push(menus.last()) =~= menus);
    }
}

/// Trimming keeps a text on one line, and adds no pattern to it.
proof fn lemma_trim_keeps(s: Seq<char>, pat: Seq<char>)
    ensures
        is_trimmed(trim(s)),
        one_line(s) ==> one_line(trim(s)),
        !contains(s, pat) ==> !contains(trim(s), pat),
{
    let (a, b) = lemma_trim_bounds(s);
    if one_line(s) {
        lemma_one_line_subrange(s, a, b);
    }
    if contains(trim(s), pat) {
        let i = choose|i: int| occurs_at(trim(s), pat, i);
        lemma_occurs_in_subrange(s, pat, a, b, i);
    }
}

/// What stands before the first place of a pattern does not hold it.
proof fn lemma_before_first(s: Seq<char>, pat: Seq<char>)
    requires
        pat.len() > 0,
        split_once(s, pat).is_some(),
    ensures
        !contains(split_once(s, pat).unwrap().0, pat),
        one_line(s) ==> one_line(split_once(s, pat).unwrap().0) && one_line(
            split_once(s, pat).unwrap().1,
        ),
{
    lemma_find(s, pat);
    let i = find(s, pat).unwrap();
    let before = s.subrange(0, i);
    if contains(before, pat) {
        let j = choose|j: int| occurs_at(before, pat, j);
        lemma_occurs_in_subrange(s, pat, 0, i, j);
    }
    if one_line(s) {
        lemma_one_line_subrange(s, 0, i);
        lemma_one_line_subrange(s, i + pat.len(), s.len() as int);
    }
}

/// The menu program that a `use:` line names is as `canonical_menu_system`
/// says.
pub proof fn lemma_use_command_canonical(line: Seq<char>)
    requires
        one_line(line),
        use_command(line).is_some(),
    ensures
        canonical_menu_system(use_command(line).unwrap()),
{
    let rest = strip_prefix(line, "use:"@).unwrap();
    lemma_one_line_subrange(line, "use:"@.len() as int, line.len() as int);
    lemma_skip_space(rest, 0);
    if trim_start(rest).len() > 0 {
        lemma_one_line_subrange(rest, skip_space(rest, 0), rest.len() as int);
        assert(trim_start(rest)[0] == rest[skip_space(rest, 0)]);
    } else {
        lemma_one_line_subrange(rest, rest.len() - 1, rest.len() as int);
    }
}

/// Name and flags of a `menu:` line are as `canonical_name` and
/// `canonical_words` say.
pub proof fn lemma_menu_title_canonical(line: Seq<char>)
    requires
        one_line(line),
        menu_title(line).is_some(),
    ensures
        canonical_name(menu_title(line).unwrap().0),
        canonical_words(menu_title(line).unwrap().1),
{
    let rest = strip_prefix(line, "menu:"@).unwrap();
    lemma_one_line_subrange(line, "menu:"@.len() as int, line.len() as int);
    let content = trim(rest);
    lemma_trim_keeps(rest, "::"@);
    match split_once(content, "::"@) {
        Some((name, flags)) => {
            reveal_strlit("::");
            lemma_before_first(content, "::"@);
            lemma_trim_keeps(name, "::"@);
            lemma_trim_keeps(flags, "::"@);
        },
        None => {
            lemma_find(content, "::"@);
        },
    }
}

/// Key and command of an option are as `canonical_option` says.
pub proof fn lemma_menu_option_canonical(s: Seq<char>)
    requires
        one_line(s),
        menu_option(s).is_some(),
    ensures
        canonical_option(menu_option(s).unwrap()),
{
    reveal_strlit("=>");
    let (key, command) = split_once(s, "=>"@).unwrap();
    lemma_before_first(s, "=>"@);
    lemma_trim_keeps(key, "=>"@);
    lemma_trim_keeps(command, "=>"@);
}

/// Reading a line keeps the state canonical.
proof fn lemma_apply_canonical(state: ParserView, line: Seq<char>)
    requires
        canonical_state(state),
        one_line(line),
        line_error(line).is_none(),
    ensures
        canonical_state(apply(state, line)),
{
    match line_kind(line) {
        LineKind::Use => {
            lemma_use_command_canonical(line);
        },
        LineKind::Menu => {
            lemma_menu_title_canonical(line);
            let next = apply(state, line);
            assert(canonical_menus(close(state).menus));
            assert(next.open.unwrap().options.len() == 0);
        },
        LineKind::Entry => {
            lemma_trim_keeps(line, "=>"@);
            lemma_menu_option_canonical(trim(line));
            match state.open {
                Some(menu) => {
                    let option = menu_option(trim(line)).unwrap();
                    let grown = menu.options.push(option);
                    assert forall|i: int| 0 <= i < grown.len() implies canonical_option(
                        #[trigger] grown[i],
                    ) by {
                        if i < menu.options.len() {
                            assert(grown[i] == menu.options[i]);
                        }
                    }
                },
                None => {},
            }
        },
        LineKind::Blank => {
            assert(canonical_menus(close(state).menus));
        },
        _ => {},
    }
}

/// Reading lines keeps the state canonical.
proof fn lemma_run_canonical(state: ParserView, lines: Seq<Seq<char>>)
    requires
        canonical_state(state),
        forall|k: int| 0 <= k < lines.len() ==> one_line(#[trigger] lines[k]),
        run(state, lines).is_ok(),
    ensures
        canonical_state(run(state, lines)->Ok_0),
    decreases lines.len(),
{
    if lines.len() > 0 {
        let rest = lines.drop_first();
        assert(one_line(lines[0]));
        lemma_apply_canonical(state, lines[0]);
        assert forall|k: int| 0 <= k < rest.len() implies one_line(#[trigger] rest[k]) by {
            assert(rest[k] == lines[k + 1]);
        }
        lemma_run_canonical(apply(state, lines[0]), rest);
    }
}

/// Every configuration that comes from reading a text is canonical.
pub proof fn lemma_parse_canonical(text: Seq<char>)
    requires
        parse(text).is_ok(),
    ensures
        canonical(parse(text)->Ok_0),
{
    let all = lines(text);
    assert forall|k: int| 0 <= k < all.len() implies one_line(#[trigger] all[k]) by {
        lemma_lines_hold_no_line_feed(text, k);
    }
    lemma_run_canonical(start(), all);
    let last = run(start(), all)->Ok_0;
    assert(canonical_menus(close(last).menus));
}

/// The line written for an option is an option line, on one line and not
/// ended by a carriage return, and reading it gives the option back.
pub proof fn lemma_option_line(option: (Seq<char>, Seq<char>))
    requires
        canonical_option(option),
    ensures
        line_kind(option_line(option)) == LineKind::Entry,
        menu_option(trim(option_line(option))) == Some(option),
        one_line(option_line(option)),
        strip_cr(option_line(option)) == option_line(option),
{
    reveal_strlit("  ");
    reveal_strlit(" =>");
    reveal_strlit(" => ");
    reveal_strlit("=>");
    let (key, command) = option;
    let line = option_line(option);
    let none = Seq::<char>::empty();
    let space = seq![' '];
    let post = if command.len() == 0 {
        none
    } else {
        space
    };
    let front = "  "@ + key + space + "=>"@;
    assert(line =~= front + post + command + none);
    lemma_split_once_padded("  "@, key, space, "=>"@, post, command, none);
    lemma_split_once_trimmed(line, "=>"@);
    assert(line[0] == ' ');
    lemma_kind_by_beginning(line);
    lemma_one_line_concat("  "@, key);
    lemma_one_line_concat("  "@ + key, space);
    lemma_one_line_concat("  "@ + key + space, "=>"@);
    lemma_one_line_concat(front, post);
    lemma_one_line_concat(front + post, command);
    assert(line =~= front + post + command);
    assert(line.last() != '\r') by {
        if command.len() > 0 {
            assert(line.last() == command.last());
        } else {
            assert(line.last() == '>');
        }
    }
}

/// The line written for a menu is a `menu:` line, on one line and not ended
/// by a carriage return, and reading it gives name and flags back.
pub proof fn lemma_title_line(menu: MenuView)
    requires
        canonical_name(menu.menu_name),
        canonical_words(menu.additional_flags),
    ensures
        line_kind(title_line(menu)) == LineKind::Menu,
        menu_title(title_line(menu)) == Some((menu.menu_name, menu.additional_flags)),
        one_line(title_line(menu)),
        strip_cr(title_line(menu)) == title_line(menu),
{
    reveal_strlit("menu: ");
    reveal_strlit("menu:");
    reveal_strlit(" :: ");
    reveal_strlit("::");
    let name = menu.menu_name;
    let flags = menu.additional_flags;
    let line = title_line(menu);
    let none = Seq::<char>::empty();
    let space = seq![' '];
    assert("menu: "@ =~= "menu:"@ + space);
    assert(line.subrange(0, 5) =~= "menu:"@);
    lemma_kind_by_beginning(line);
    let rest = strip_prefix(line, "menu:"@).unwrap();
    lemma_one_line_concat("menu: "@, name);
    if flags.len() == 0 {
        assert(rest =~= space + name);
        assert(rest.subrange(1, rest.len() as int) =~= name);
        lemma_trim_is(rest, 1, rest.len() as int);
        lemma_find(name, "::"@);
        assert(line.last() != '\r') by {
            if name.len() > 0 {
                assert(line.last() == name.last());
            } else {
                assert(line.last() == ' ');
            }
        }
    } else {
        assert(" :: "@ =~= space + "::"@ + space);
        assert(rest =~= space + name + space + "::"@ + space + flags + none);
        lemma_split_once_padded(space, name, space, "::"@, space, flags, none);
        lemma_split_once_trimmed(rest, "::"@);
        lemma_one_line_concat("menu: "@ + name, " :: "@);
        lemma_one_line_concat("menu: "@ + name + " :: "@, flags);
        assert(line.last() == flags.last());
    }
}

/// The line written for the menu program is a `use:` line on one line, and
/// reading it gives the command back.
pub proof fn lemma_use_line(command: Seq<char>)
    requires
        canonical_menu_system(command),
    ensures
        line_kind(use_line(command)) == LineKind::Use,
        use_command(use_line(command)) == Some(command),
        one_line(use_line(command)),
        use_line(command).len() > 0,
{
    reveal_strlit("use: ");
    reveal_strlit("use:");
    let line = use_line(command);
    let space = seq![' '];
    assert("use: "@ =~= "use:"@ + space);
    assert(line.subrange(0, 4) =~= "use:"@);
    lemma_kind_by_beginning(line);
    lemma_one_line_concat("use: "@, command);
    let rest = strip_prefix(line, "use:"@).unwrap();
    assert(rest =~= space + command);
    if white_space(command[0]) {
        lemma_skip_space_is(rest, 0, 2);
        assert(rest.subrange(1, 2) =~= command);
    } else {
        lemma_skip_space_is(rest, 0, 1);
        assert(rest.subrange(1, rest.len() as int) =~= command);
    }
}

/// Reading the lines written for options adds the options to the open menu.
proof fn lemma_run_options(
    state: ParserView,
    options: Seq<(Seq<char>, Seq<char>)>,
    tail: Seq<char>,
)
    requires
        state.open.is_some(),
        forall|i: int| 0 <= i < options.len() ==> canonical_option(#[trigger] options[i]),
    ensures
        run(state, lines(options_text(options) + tail)) == run(
            ParserView {
                menu_system: state.menu_system,
                menus: state.menus,
                open: Some(extended(state.open.unwrap(), options)),
            },
            lines(tail),
        ),
    decreases options.len(),
{
    let menu = state.open.unwrap();
    if options.len() == 0 {
        assert(options_text(options) + tail =~= tail);
        assert(menu.options + options =~= menu.options);
    } else {
        let option = options.first();
        let rest = options.drop_first();
        let line = option_line(option);
        lemma_option_line(option);
        assert(options_text(options) + tail =~= line + seq!['\n'] + (options_text(rest) + tail));
        lemma_lines_cons(line, options_text(rest) + tail);
        let all = lines(options_text(options) + tail);
        assert(all.first() == line);
        assert(all.drop_first() =~= lines(options_text(rest) + tail));
        let next = apply(state, line);
        assert forall|i: int| 0 <= i < rest.len() implies canonical_option(#[trigger] rest[i]) by {
            assert(rest[i] == options[i + 1]);
        }
        lemma_run_options(next, rest, tail);
        assert(menu.options.push(option) + rest =~= menu.options + options);
    }
}

/// Reading the lines written for a menu closes the menu that was open and
/// leaves the written one open.
proof fn lemma_run_menu(state: ParserView, menu: MenuView, tail: Seq<char>)
    requires
        canonical_menu(menu),
    ensures
        run(state, lines(menu_text(menu) + tail)) == run(
            ParserView {
                menu_system: state.menu_system,
                menus: close(state).menus,
                open: Some(menu),
            },
            lines(tail),
        ),
{
    let line = title_line(menu);
    lemma_title_line(menu);
    let after = options_text(menu.options) + tail;
    assert(menu_text(menu) + tail =~= line + seq!['\n'] + after);
    lemma_lines_cons(line, after);
    let all = lines(menu_text(menu) + tail);
    assert(all.first() == line);
    assert(all.drop_first() =~= lines(after));
    let opened = apply(state, line);
    lemma_run_options(opened, menu.options, tail);
    assert(Seq::<(Seq<char>, Seq<char>)>::empty() + menu.options =~= menu.options);
}

/// Reading what was written for menus and menu program, from any state,
/// gives the menus that were closed before with the written ones put in, one
/// after the other.
proof fn lemma_run_text(state: ParserView, command: Seq<char>, menus: Seq<MenuView>)
    requires
        canonical_menu_system(command),
        forall|i: int| 0 <= i < menus.len() ==> canonical_menu(#[trigger] menus[i]),
    ensures
        run(state, lines(config_text(command, menus))) matches Ok(last) && finish(last) == Ok::<
            ConfigurationView,
            Seq<char>,
        >(
            ConfigurationView {
                menu_system: command,
                menus: insert_all(close(state).menus, menus),
            },
        ),
    decreases menus.len(),
{
    let line = use_line(command);
    lemma_use_line(command);
    if menus.len() == 0 {
        assert(config_text(command, menus) =~= line);
        lemma_line_end_is(line, 0, line.len() as int);
        assert(lines(after_first_line(line)) =~= Seq::<Seq<char>>::empty());
        assert(lines(line) =~= seq![line]);
        assert(lines(line).drop_first() =~= Seq::<Seq<char>>::empty());
        let next = apply(state, line);
        assert(run(next, lines(line).drop_first()) == Ok::<ParserView, Seq<char>>(next));
    } else {
        let menu = menus.first();
        let rest = menus.drop_first();
        assert(config_text(command, menus) =~= menu_text(menu) + config_text(command, rest));
        lemma_run_menu(state, menu, config_text(command, rest));
        let opened = ParserView {
            menu_system: state.menu_system,
            menus: close(state).menus,
            open: Some(menu),
        };
        assert forall|i: int| 0 <= i < rest.len() implies canonical_menu(#[trigger] rest[i]) by {
            assert(rest[i] == menus[i + 1]);
        }
        lemma_run_text(opened, command, rest);
    }
}

/// The text written for a canonical menu program and canonical menus reads
/// as the configuration with that menu program and with those menus put
/// into the table one after the other.
pub proof fn lemma_text_parses(command: Seq<char>, menus: Seq<MenuView>)
    requires
        canonical_menu_system(command),
        forall|i: int| 0 <= i < menus.len() ==> canonical_menu(#[trigger] menus[i]),
    ensures
        parse(config_text(command, menus)) == Ok::<ConfigurationView, Seq<char>>(
            ConfigurationView { menu_system: command, menus: table_of(menus) },
        ),
{
    lemma_run_text(start(), command, menus);
    lemma_insert_all_is_table(menus);
}

/// Reading is idempotent on what it writes: where a text reads as a
/// configuration, the text written for that configuration reads as the same
/// configuration.
pub proof fn lemma_round_trip(text: Seq<char>, configuration: Configuration)
    requires
        configuration.menus.wf(),
        parse(text) == Ok::<ConfigurationView, Seq<char>>(configuration@),
    ensures
        parse(configuration.text()) == Ok::<ConfigurationView, Seq<char>>(configuration@),
{
    lemma_parse_canonical(text);
    let menus = configuration.menus.entries();
    configuration.menus.lemma_wf();
    assert forall|i: int| 0 <= i < menus.len() implies canonical_menu(#[trigger] menus[i]) by {
        lemma_table_entry(menus, i);
        assert(configuration@.menus.contains_key(menus[i].menu_name));
    }
    lemma_text_parses(configuration.menu_system@, menus);
}

} // verus!
