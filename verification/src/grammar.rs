//! The line grammar of the configuration language.
//!
//! A configuration is read line by line. What a line is follows from how it
//! begins; a `use:` line names the menu program, a `menu:` line opens a menu,
//! and an indented line adds an option to the open menu.
//!
//! The functions here are meant for one line each. They take any text: a
//! line feed in it is white space like any other, trimmed at the ends of a
//! part and kept inside it.

use crate::error::AError;
use crate::text::{
    chars_of, contains, has_prefix, lemma_find, lemma_find_is, occurs_at, push_chars, split_once,
    split_once_chars, starts_with, string_of, strip_prefix, strip_prefix_chars, trim, trim_chars,
    trim_start, trim_start_chars,
};
use vstd::prelude::*;
use vstd::string::*;

verus! {

/// What a line of the configuration is.
#[derive(Debug, Clone, Copy, PartialEq, Eq, Structural)]
pub enum LineKind {
    /// Begins with `#`: skipped.
    Comment,
    /// Begins with `use:`: names the menu program.
    Use,
    /// Begins with `menu:`: opens a menu.
    Menu,
    /// Begins with a space: an option of the open menu.
    Entry,
    /// Holds white space only: closes the open menu.
    Blank,
    /// Anything else: skipped.
    Other,
}

/// The kind of `line`. The first rule that fits decides, so a line of spaces
/// alone is an option line, not a blank one.
pub open spec fn line_kind(line: Seq<char>) -> LineKind {
    if starts_with(line, "#"@) {
        LineKind::Comment
    } else if starts_with(line, "use:"@) {
        LineKind::Use
    } else if starts_with(line, "menu:"@) {
        LineKind::Menu
    } else if starts_with(line, " "@) {
        LineKind::Entry
    } else if trim(line).len() == 0 {
        LineKind::Blank
    } else {
        LineKind::Other
    }
}

/// The menu program that a `use:` line names: what follows `use:` and the
/// white space behind it, up to the end of the line. Where only white space
/// follows `use:`, its last character is the command. Where nothing follows,
/// or the line does not begin with `use:`, there is none.
pub open spec fn use_command(line: Seq<char>) -> Option<Seq<char>> {
    match strip_prefix(line, "use:"@) {
        Some(rest) => if rest.len() == 0 {
            None
        } else if trim_start(rest).len() > 0 {
            Some(trim_start(rest))
        } else {
            Some(rest.subrange(rest.len() - 1, rest.len() as int))
        },
        None => None,
    }
}

/// Name and additional flags from the trimmed text behind `menu:`. Where it
/// holds `::`, the name stands before the first `::` and the flags behind
/// it, both trimmed; else the text is the name and the flags are empty.
pub open spec fn split_title(content: Seq<char>) -> (Seq<char>, Seq<char>) {
    match split_once(content, "::"@) {
        Some((name, flags)) => (trim(name), trim(flags)),
        None => (content, Seq::empty()),
    }
}

/// Name and additional flags of the menu that a `menu:` line opens, or `None`
/// where the line does not begin with `menu:`.
pub open spec fn menu_title(line: Seq<char>) -> Option<(Seq<char>, Seq<char>)> {
    match strip_prefix(line, "menu:"@) {
        Some(rest) => Some(split_title(trim(rest))),
        None => None,
    }
}

/// Key and command template of an option: what stands before the first `=>`
/// and what stands behind it, both trimmed. `None` where `s` holds no `=>`.
pub open spec fn menu_option(s: Seq<char>) -> Option<(Seq<char>, Seq<char>)> {
    match split_once(s, "=>"@) {
        Some((key, command)) => Some((trim(key), trim(command))),
        None => None,
    }
}

/// `text` between double quotes, behind `intro`.
pub open spec fn quoting(intro: Seq<char>, text: Seq<char>) -> Seq<char> {
    intro + text + "\""@
}

/// The message for a `use:` line that names no command.
pub open spec fn use_error(line: Seq<char>) -> Seq<char> {
    quoting("Error parsing use: \""@, line)
}

/// The message for a line that is no `menu:` line.
pub open spec fn title_error(line: Seq<char>) -> Seq<char> {
    quoting("Error parsing menu title \""@, line)
}

/// The message for an option without `=>`.
pub open spec fn option_error(s: Seq<char>) -> Seq<char> {
    quoting("could not parse option \""@, s)
}

/// The message for a configuration without a `use:` line.
pub open spec fn missing_menu_system() -> Seq<char> {
    "No menu system configured"@
}

/// `r` is the parse error with the message `message`.
pub open spec fn is_parse_error<T>(r: Result<T, AError>, message: Seq<char>) -> bool {
    match r {
        Err(AError::Parse(m)) => m@ == message,
        _ => false,
    }
}

/// `r` holds the pair of strings `pair`.
pub open spec fn is_pair(r: Result<(String, String), AError>, pair: (Seq<char>, Seq<char>)) -> bool {
    match r {
        Ok((a, b)) => a@ == pair.0 && b@ == pair.1,
        Err(_) => false,
    }
}

/// A line is of the kind that its beginning shows: `use:` and `menu:` mark
/// their lines, and a space marks an option line.
pub proof fn lemma_kind_by_beginning(line: Seq<char>)
    ensures
        starts_with(line, "use:"@) ==> line_kind(line) == LineKind::Use,
        starts_with(line, "menu:"@) ==> line_kind(line) == LineKind::Menu,
        line.len() > 0 && line[0] == ' ' ==> line_kind(line) == LineKind::Entry,
{
    reveal_strlit("#");
    reveal_strlit("use:");
    reveal_strlit("menu:");
    reveal_strlit(" ");
    if line.len() > 0 {
        if starts_with(line, "#"@) {
            assert(line.subrange(0, 1)[0] == line[0]);
        }
        if starts_with(line, "use:"@) {
            assert(line.subrange(0, 4)[0] == line[0]);
        }
        if starts_with(line, "menu:"@) {
            assert(line.subrange(0, 5)[0] == line[0]);
        }
        if line[0] == ' ' {
            assert(line.subrange(0, 1) =~= " "@);
        }
    }
}

/// A line names a menu program exactly when it begins with `use:` and
/// something follows.
pub proof fn lemma_use_command_exists(line: Seq<char>)
    ensures
        use_command(line).is_some() <==> starts_with(line, "use:"@) && line.len() > "use:"@.len(),
{
}

/// A `menu:` line always yields a title, and nothing else does.
pub proof fn lemma_menu_title_exists(line: Seq<char>)
    ensures
        menu_title(line).is_some() <==> starts_with(line, "menu:"@),
{
}

/// A text is an option exactly when it holds `=>`.
pub proof fn lemma_menu_option_exists(s: Seq<char>)
    ensures
        menu_option(s).is_some() <==> contains(s, "=>"@),
{
    lemma_find(s, "=>"@);
}

/// A title without `::` has no flags and is the name as it stands; a title
/// with `::` is split at the first one, and both sides are trimmed.
pub proof fn lemma_split_title(content: Seq<char>)
    ensures
        !contains(content, "::"@) ==> split_title(content) == (content, Seq::<char>::empty()),
        forall|i: int|
            occurs_at(content, "::"@, i) && (forall|j: int|
                0 <= j < i ==> !occurs_at(content, "::"@, j)) ==> split_title(content) == (
                trim(content.subrange(0, i)),
                trim(content.subrange(i + 2, content.len() as int)),
            ),
{
    reveal_strlit("::");
    lemma_find(content, "::"@);
    assert forall|i: int|
        occurs_at(content, "::"@, i) && (forall|j: int|
            0 <= j < i ==> !occurs_at(content, "::"@, j)) implies split_title(content) == (
        trim(content.subrange(0, i)),
        trim(content.subrange(i + 2, content.len() as int)),
    ) by {
        lemma_find_is(content, "::"@, i);
    }
}

/// The parse error that quotes `text` behind `intro`.
fn quoted_error(intro: &str, text: &[char]) -> (r: AError)
    ensures
        r matches AError::Parse(m) && m@ == quoting(intro@, text@),
{
    let mut message = String::from_str(intro);
    push_chars(&mut message, text);
    message.append("\"");
    AError::Parse(message)
}

/// The kind of `line`.
pub fn classify(line: &[char]) -> (r: LineKind)
    ensures
        r == line_kind(line@),
{
    if has_prefix(line, "#") {
        LineKind::Comment
    } else if has_prefix(line, "use:") {
        LineKind::Use
    } else if has_prefix(line, "menu:") {
        LineKind::Menu
    } else if has_prefix(line, " ") {
        LineKind::Entry
    } else if trim_chars(line).len() == 0 {
        LineKind::Blank
    } else {
        LineKind::Other
    }
}

/// The menu program that the `use:` line `line` names.
pub fn use_command_of(line: &[char]) -> (r: Result<String, AError>)
    ensures
        match use_command(line@) {
            Some(command) => r matches Ok(c) && c@ == command,
            None => is_parse_error(r, use_error(line@)),
        },
{
    match strip_prefix_chars(line, "use:") {
        Some(rest) => {
            if rest.len() == 0 {
                Err(quoted_error("Error parsing use: \"", line))
            } else {
                let command = trim_start_chars(rest);
                if command.len() > 0 {
                    Ok(string_of(command))
                } else {
                    Ok(string_of(vstd::slice::slice_subrange(rest, rest.len() - 1, rest.len())))
                }
            }
        },
        None => Err(quoted_error("Error parsing use: \"", line)),
    }
}

/// Name and additional flags of the menu that the line `line` opens.
pub fn menu_title_of(line: &[char]) -> (r: Result<(String, String), AError>)
    ensures
        match menu_title(line@) {
            Some(title) => is_pair(r, title),
            None => is_parse_error(r, title_error(line@)),
        },
{
    match strip_prefix_chars(line, "menu:") {
        Some(rest) => {
            let content = trim_chars(rest);
            match split_once_chars(content, "::") {
                Some((name, flags)) => Ok(
                    (string_of(trim_chars(name)), string_of(trim_chars(flags))),
                ),
                None => Ok((string_of(content), String::new())),
            }
        },
        None => Err(quoted_error("Error parsing menu title \"", line)),
    }
}

/// Key and command template of the option `s`.
pub fn menu_option_of(s: &[char]) -> (r: Result<(String, String), AError>)
    ensures
        match menu_option(s@) {
            Some(option) => is_pair(r, option),
            None => is_parse_error(r, option_error(s@)),
        },
{
    match split_once_chars(s, "=>") {
        Some((key, command)) => Ok((string_of(trim_chars(key)), string_of(trim_chars(command)))),
        None => Err(quoted_error("could not parse option \"", s)),
    }
}

/// The menu program that a `use:` line names. The error quotes the line where
/// nothing follows `use:`, or where the line does not begin with it.
pub fn parse_use(line: &str) -> (r: Result<String, AError>)
    ensures
        match use_command(line@) {
            Some(command) => r matches Ok(c) && c@ == command,
            None => is_parse_error(r, use_error(line@)),
        },
{
    let chars = chars_of(line);
    use_command_of(chars.as_slice())
}

/// Name and additional flags of the menu that a `menu:` line opens. The error
/// quotes the line where it does not begin with `menu:`.
pub fn parse_menu_title(s: &str) -> (r: Result<(String, String), AError>)
    ensures
        match menu_title(s@) {
            Some(title) => is_pair(r, title),
            None => is_parse_error(r, title_error(s@)),
        },
{
    let chars = chars_of(s);
    menu_title_of(chars.as_slice())
}

/// Key and command template of an option. The error quotes `s` where it
/// holds no `=>`.
pub fn parse_menu_option(s: &str) -> (r: Result<(String, String), AError>)
    ensures
        match menu_option(s@) {
            Some(option) => is_pair(r, option),
            None => is_parse_error(r, option_error(s@)),
        },
{
    let chars = chars_of(s);
    menu_option_of(chars.as_slice())
}

} // verus!
