//! Reading a configuration: a state machine over the lines of the text.
//!
//! The parser is in one of two states: no menu is open, or one is open and
//! gathers the options that follow. A `menu:` line closes the open menu and
//! opens another, a blank line closes it, an option line adds to it, and the
//! end of the text closes it. A closed menu goes into the table under its
//! name, in place of an earlier menu of that name.

use crate::error::AError;
use crate::grammar::{
    classify, is_parse_error, line_kind, menu_option, menu_option_of, menu_title, menu_title_of,
    missing_menu_system, option_error, use_command, use_command_of, use_error, LineKind,
};
use crate::laws::lemma_parse_error_one_line;
use crate::lines::{lemma_line_end, lines, one_line, split_line};
use crate::menu::{Configuration, ConfigurationView, MenuConfig, MenuSystem, MenuTable, MenuView};
use crate::text::{chars_of, trim, trim_chars};
use vstd::prelude::*;
use vstd::string::*;

pub use crate::grammar::{parse_menu_option, parse_menu_title, parse_use};

verus! {

/// An example of a configuration.
pub const EXAMPLE_CONFIG: &'static str = "
# this should go into ~/.config/auswahl/auswahlrc
use: rofi -dmenu

set-redshift
  off => redshift -x
  medium => redshift -P -O 5000
  high => redshift -P -O 4500

search :: -i -a
  g => firefox https://google.com?q={{}}
  yt => firefox https://youtube.com/results?search_query={{}}
";

/// What the parser knows after some lines: the menu program named last, the
/// menus closed so far, and the menu that is open.
pub ghost struct ParserView {
    pub menu_system: Option<Seq<char>>,
    pub menus: Map<Seq<char>, MenuView>,
    pub open: Option<MenuView>,
}

/// The state before the first line.
pub open spec fn start() -> ParserView {
    ParserView { menu_system: None, menus: Map::empty(), open: None }
}

/// The state with the open menu, if there is one, put into the table.
pub open spec fn close(state: ParserView) -> ParserView {
    match state.open {
        Some(menu) => ParserView {
            menu_system: state.menu_system,
            menus: state.menus.insert(menu.menu_name, menu),
            open: None,
        },
        None => state,
    }
}

/// `menu` with one more option at the end.
pub open spec fn with_option(menu: MenuView, option: (Seq<char>, Seq<char>)) -> MenuView {
    MenuView {
        menu_name: menu.menu_name,
        additional_flags: menu.additional_flags,
        options: menu.options.push(option),
    }
}

/// The message of the error that `line` is, if it is one: a `use:` line that
/// names no command, or an option line that holds no `=>` after trimming.
/// Whether a line is an error does not depend on the lines before it.
pub open spec fn line_error(line: Seq<char>) -> Option<Seq<char>> {
    match line_kind(line) {
        LineKind::Use => if use_command(line).is_none() {
            Some(use_error(line))
        } else {
            None
        },
        LineKind::Entry => if menu_option(trim(line)).is_none() {
            Some(option_error(trim(line)))
        } else {
            None
        },
        _ => None,
    }
}

/// The state after a line that is no error.
pub open spec fn apply(state: ParserView, line: Seq<char>) -> ParserView {
    match line_kind(line) {
        LineKind::Comment | LineKind::Other => state,
        LineKind::Use => ParserView {
            menu_system: use_command(line),
            menus: state.menus,
            open: state.open,
        },
        LineKind::Menu => {
            let title = menu_title(line).unwrap();
            ParserView {
                menu_system: state.menu_system,
                menus: close(state).menus,
                open: Some(
                    MenuView { menu_name: title.0, additional_flags: title.1, options: Seq::empty() },
                ),
            }
        },
        LineKind::Entry => match state.open {
            Some(menu) => ParserView {
                menu_system: state.menu_system,
                menus: state.menus,
                open: Some(with_option(menu, menu_option(trim(line)).unwrap())),
            },
            None => state,
        },
        LineKind::Blank => close(state),
    }
}

/// The state after one more line, or the message of the error that the line
/// is.
pub open spec fn step(state: ParserView, line: Seq<char>) -> Result<ParserView, Seq<char>> {
    match line_error(line) {
        Some(message) => Err(message),
        None => Ok(apply(state, line)),
    }
}

/// The state after the lines `lines`, or the message of the first error among
/// them.
pub open spec fn run(state: ParserView, lines: Seq<Seq<char>>) -> Result<ParserView, Seq<char>>
    decreases lines.len(),
{
    if lines.len() == 0 {
        Ok(state)
    } else {
        match step(state, lines.first()) {
            Ok(next) => run(next, lines.drop_first()),
            Err(message) => Err(message),
        }
    }
}

/// The configuration at the end of the text: the open menu is closed, and a
/// menu program must have been named.
pub open spec fn finish(state: ParserView) -> Result<ConfigurationView, Seq<char>> {
    match state.menu_system {
        Some(command) => Ok(ConfigurationView { menu_system: command, menus: close(state).menus }),
        None => Err(missing_menu_system()),
    }
}

/// The configuration that the lines `lines` describe, or the message of the
/// parse error.
pub open spec fn parse_lines(lines: Seq<Seq<char>>) -> Result<ConfigurationView, Seq<char>> {
    match run(start(), lines) {
        Ok(state) => finish(state),
        Err(message) => Err(message),
    }
}

/// The configuration that `text` describes, or the message of the parse
/// error.
pub open spec fn parse(text: Seq<char>) -> Result<ConfigurationView, Seq<char>> {
    parse_lines(lines(text))
}

/// `r` is what the specification `expected` asks for: the configuration, or
/// the parse error with the message.
pub open spec fn is_outcome(
    r: Result<Configuration, AError>,
    expected: Result<ConfigurationView, Seq<char>>,
) -> bool {
    match expected {
        Ok(configuration) => r matches Ok(c) && c@ == configuration,
        Err(message) => is_parse_error(r, message),
    }
}

/// The parser's state.
#[derive(Debug)]
pub struct Parser {
    pub menu_system: Option<MenuSystem>,
    pub menus: MenuTable,
    pub open: Option<MenuConfig>,
}

impl View for Parser {
    type V = ParserView;

    open spec fn view(&self) -> ParserView {
        ParserView {
            menu_system: match self.menu_system {
                Some(command) => Some(command@),
                None => None,
            },
            menus: self.menus@,
            open: match self.open {
                Some(menu) => Some(menu@),
                None => None,
            },
        }
    }
}

impl Parser {
    /// The parser before the first line.
    pub fn new() -> (r: Parser)
        ensures
            r@ == start(),
    {
        Parser { menu_system: None, menus: MenuTable::new(), open: None }
    }

    /// Puts the open menu, if there is one, into the table.
    pub fn close(&mut self)
        ensures
            final(self)@ == close(old(self)@),
    {
        match self.open.take() {
            Some(menu) => {
                self.menus.insert(menu);
            },
            None => {},
        }
    }

    /// Reads one line. On an error the state stays as it was.
    pub fn feed_chars(&mut self, line: &[char]) -> (r: Result<(), AError>)
        ensures
            match line_error(line@) {
                Some(message) => is_parse_error(r, message) && final(self)@ == old(self)@,
                None => r.is_ok() && final(self)@ == apply(old(self)@, line@),
            },
    {
        match classify(line) {
            LineKind::Comment | LineKind::Other => Ok(()),
            LineKind::Use => match use_command_of(line) {
                Ok(command) => {
                    self.menu_system = Some(MenuSystem(command));
                    Ok(())
                },
                Err(e) => Err(e),
            },
            LineKind::Menu => match menu_title_of(line) {
                Ok((menu_name, additional_flags)) => {
                    self.close();
                    let menu = MenuConfig { menu_name, additional_flags, options: Vec::new() };
                    assert(menu@.options =~= Seq::empty());
                    self.open = Some(menu);
                    Ok(())
                },
                Err(e) => Err(e),
            },
            LineKind::Entry => match menu_option_of(trim_chars(line)) {
                Ok((key, command)) => {
                    match self.open.take() {
                        Some(mut menu) => {
                            let ghost before = menu@;
                            menu.options.push((key, command));
                            assert(menu@.options =~= before.options.push((key@, command@)));
                            self.open = Some(menu);
                        },
                        None => {},
                    }
                    Ok(())
                },
                Err(e) => Err(e),
            },
            LineKind::Blank => {
                self.close();
                Ok(())
            },
        }
    }

    /// Reads one line.
    pub fn feed(&mut self, line: &str) -> (r: Result<(), AError>)
        ensures
            match line_error(line@) {
                Some(message) => is_parse_error(r, message) && final(self)@ == old(self)@,
                None => r.is_ok() && final(self)@ == apply(old(self)@, line@),
            },
    {
        let chars = chars_of(line);
        self.feed_chars(chars.as_slice())
    }

    /// Ends the text: closes the open menu and hands out the configuration,
    /// or the error that no menu program was named.
    pub fn finish(self) -> (r: Result<Configuration, AError>)
        ensures
            is_outcome(r, finish(self@)),
    {
        let mut parser = self;
        parser.close();
        match parser.menu_system {
            Some(menu_system) => Ok(Configuration { menus: parser.menus, menu_system }),
            None => Err(AError::Parse(String::from_str("No menu system configured"))),
        }
    }
}

/// Reads the configuration `s`.
///
/// The result is the configuration that `parse` describes, and it is an
/// error exactly where `parse` gives one: the message quotes the first line
/// that is malformed, or says that no `use:` line names a menu program. What
/// is shown to the user for such an error is one line.
pub fn parse_config(s: &str) -> (r: Result<Configuration, AError>)
    ensures
        is_outcome(r, parse(s@)),
        r matches Err(e) ==> one_line(e.message_spec()),
{
    let text = chars_of(s);
    let mut rest: &[char] = text.as_slice();
    let mut parser = Parser::new();
    while rest.len() > 0
        invariant
            match run(parser@, lines(rest@)) {
                Ok(state) => finish(state),
                Err(message) => Err(message),
            } == parse(s@),
        decreases rest@.len(),
    {
        proof {
            lemma_line_end(rest@, 0);
        }
        let (line, after) = split_line(rest);
        assert(lines(rest@).first() == line@);
        assert(lines(rest@).drop_first() =~= lines(after@));
        match parser.feed_chars(line) {
            Ok(()) => {},
            Err(e) => {
                proof {
                    lemma_parse_error_one_line(s@, e);
                }
                return Err(e);
            },
        }
        rest = after;
    }
    let r = parser.finish();
    proof {
        if r.is_err() {
            lemma_parse_error_one_line(s@, r->Err_0);
        }
    }
    r
}

} // verus!
