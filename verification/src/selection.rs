//! From a menu to a command: what is shown to the user, how the answer is
//! matched against the options, and how the command is built from it.

use crate::error::AError;
use crate::lines::{lemma_line_end, lines, split_line};
use crate::menu::{
    options_view, strings_view, Configuration, ConfigurationView, MenuConfig, MenuView,
};
use crate::text::{chars_of, has_prefix, matches_at, push_chars, starts_with, trim, trim_chars};
use vstd::prelude::*;
use vstd::slice::slice_subrange;
use vstd::string::*;

verus! {

/// `parts` with `separator` between each two of them.
pub open spec fn joined(parts: Seq<Seq<char>>, separator: Seq<char>) -> Seq<char>
    decreases parts.len(),
{
    if parts.len() == 0 {
        Seq::empty()
    } else if parts.len() == 1 {
        parts.first()
    } else {
        parts.first() + separator + joined(parts.drop_first(), separator)
    }
}

/// Adding a part at the end adds the separator and the part, or the part
/// alone where it is the first.
pub proof fn lemma_joined_push(parts: Seq<Seq<char>>, separator: Seq<char>, part: Seq<char>)
    ensures
        joined(parts.push(part), separator) == (if parts.len() == 0 {
            part
        } else {
            joined(parts, separator) + separator + part
        }),
    decreases parts.len(),
{
    let all = parts.push(part);
    if parts.len() == 0 {
        assert(all.first() == part);
    } else {
        assert(all.first() == parts.first());
        assert(all.drop_first() =~= parts.drop_first().push(part));
        lemma_joined_push(parts.drop_first(), separator, part);
        if parts.len() == 1 {
            assert(joined(parts.drop_first(), separator) =~= Seq::<char>::empty());
            assert(joined(all, separator) =~= parts.first() + separator + part);
        } else {
            assert(joined(all, separator) =~= joined(parts, separator) + separator + part);
        }
    }
}

/// The keys of `options`, in order.
pub open spec fn keys_of(options: Seq<(Seq<char>, Seq<char>)>) -> Seq<Seq<char>> {
    Seq::new(options.len(), |i: int| options[i].0)
}

/// What the menu program is given to show: the keys in order, a line feed
/// between each two, and a line feed at the end.
pub open spec fn prompt_text(keys: Seq<Seq<char>>) -> Seq<char> {
    joined(keys, seq!['\n']) + seq!['\n']
}

/// What the user selected: the lines that the menu program printed, with a
/// line feed between each two.
pub open spec fn selection_text(output: Seq<char>) -> Seq<char> {
    joined(lines(output), seq!['\n'])
}

/// The index at or after `from` of the first option whose key `selection`
/// begins with.
pub open spec fn first_match(
    options: Seq<(Seq<char>, Seq<char>)>,
    selection: Seq<char>,
    from: int,
) -> Option<int>
    decreases options.len() - from,
{
    if from < 0 || from >= options.len() {
        None
    } else if starts_with(selection, options[from].0) {
        Some(from)
    } else {
        first_match(options, selection, from + 1)
    }
}

/// `template` with `text` in place of each placeholder `{{}}`, from left to
/// right.
pub open spec fn substitute(template: Seq<char>, text: Seq<char>) -> Seq<char>
    decreases template.len(),
    via substitute_terminates
{
    if template.len() == 0 {
        Seq::empty()
    } else if starts_with(template, "{{}}"@) {
        text + substitute(template.skip(4), text)
    } else {
        seq![template.first()] + substitute(template.drop_first(), text)
    }
}

#[via_fn]
proof fn substitute_terminates(template: Seq<char>, text: Seq<char>) {
    reveal_strlit("{{}}");
}

/// The command that `selection` stands for in `menu`: the template of the
/// first option whose key the selection begins with, with what follows the
/// key, trimmed, in place of each placeholder. `None` where the selection
/// begins with no key.
pub open spec fn resolved(menu: MenuView, selection: Seq<char>) -> Option<Seq<char>> {
    match first_match(menu.options, selection, 0) {
        Some(i) => Some(
            substitute(menu.options[i].1, trim(selection.skip(menu.options[i].0.len() as int))),
        ),
        None => None,
    }
}

/// Why a run launches nothing.
pub enum Refusal {
    /// There is no menu of the requested name.
    UnknownMenu,
    /// The selection begins with no key of the menu.
    NothingSelected,
}

/// What a run launches for the menu called `name`, the menu program having
/// printed `output`: the command that the selection stands for in that menu.
pub open spec fn launched(
    configuration: ConfigurationView,
    name: Seq<char>,
    output: Seq<char>,
) -> Result<Seq<char>, Refusal> {
    if !configuration.menus.contains_key(name) {
        Err(Refusal::UnknownMenu)
    } else {
        match resolved(configuration.menus[name], selection_text(output)) {
            Some(command) => Ok(command),
            None => Err(Refusal::NothingSelected),
        }
    }
}

/// The first match is the first option whose key the selection begins with.
pub proof fn lemma_first_match(
    options: Seq<(Seq<char>, Seq<char>)>,
    selection: Seq<char>,
    from: int,
)
    requires
        0 <= from,
    ensures
        match first_match(options, selection, from) {
            Some(i) => from <= i < options.len() && starts_with(selection, options[i].0)
                && forall|k: int| from <= k < i ==> !starts_with(selection, (#[trigger] options[k]).0),
            None => forall|k: int|
                from <= k < options.len() ==> !starts_with(selection, (#[trigger] options[k]).0),
        },
    decreases options.len() - from,
{
    if from < options.len() && !starts_with(selection, options[from].0) {
        lemma_first_match(options, selection, from + 1);
    }
}

/// `template` with `text` in place of each placeholder.
pub fn substitute_chars(template: &[char], text: &[char]) -> (r: String)
    ensures
        r@ == substitute(template@, text@),
{
    let placeholder = chars_of("{{}}");
    let mut out = String::new();
    let mut i: usize = 0;
    proof {
        reveal_strlit("{{}}");
    }
    assert(template@.skip(0) =~= template@);
    assert(out@ + substitute(template@, text@) =~= substitute(template@, text@));
    while i < template.len()
        invariant
            i <= template.len(),
            placeholder@ == "{{}}"@,
            placeholder@.len() == 4,
            out@ + substitute(template@.skip(i as int), text@) == substitute(template@, text@),
        decreases template.len() - i,
    {
        let ghost before = out@;
        let ghost rest = template@.skip(i as int);
        let found = matches_at(template, placeholder.as_slice(), i);
        assert(found == starts_with(rest, "{{}}"@)) by {
            assert(i + 4 <= template@.len() ==> rest.subrange(0, 4) =~= template@.subrange(
                i as int,
                i + 4,
            ));
        }
        if found {
            push_chars(&mut out, text);
            i += 4;
            assert(rest.skip(4) =~= template@.skip(i as int));
        } else {
            out.push(template[i]);
            i += 1;
            assert(rest.drop_first() =~= template@.skip(i as int));
        }
        assert(out@ + substitute(template@.skip(i as int), text@) =~= before + substitute(
            rest,
            text@,
        ));
    }
    assert(template@.skip(i as int) =~= Seq::<char>::empty());
    assert(out@ =~= substitute(template@, text@));
    out
}

/// What the menu program is given to show for the keys `keys`.
pub fn prompt_input(keys: &Vec<String>) -> (r: String)
    ensures
        r@ == prompt_text(strings_view(keys@)),
{
    let ghost all = strings_view(keys@);
    let mut out = String::new();
    let mut i: usize = 0;
    assert(all.take(0) =~= Seq::<Seq<char>>::empty());
    while i < keys.len()
        invariant
            i <= keys.len(),
            all == strings_view(keys@),
            out@ == joined(all.take(i as int), seq!['\n']),
        decreases keys.len() - i,
    {
        proof {
            lemma_joined_push(all.take(i as int), seq!['\n'], all[i as int]);
            assert(all.take(i as int).push(all[i as int]) =~= all.take(i + 1));
        }
        if i > 0 {
            out.push('\n');
        }
        out.append(keys[i].as_str());
        i += 1;
    }
    assert(all.take(i as int) =~= all);
    out.push('\n');
    out
}

/// What the user selected, from what the menu program printed.
pub fn selection_of(output: &str) -> (r: String)
    ensures
        r@ == selection_text(output@),
{
    let text = chars_of(output);
    let mut rest: &[char] = text.as_slice();
    let mut out = String::new();
    let mut started = false;
    let ghost mut done: Seq<Seq<char>> = Seq::empty();
    assert(done + lines(rest@) =~= lines(output@));
    while rest.len() > 0
        invariant
            done + lines(rest@) == lines(output@),
            out@ == joined(done, seq!['\n']),
            started == (done.len() > 0),
        decreases rest@.len(),
    {
        proof {
            lemma_line_end(rest@, 0);
        }
        let (line, after) = split_line(rest);
        proof {
            lemma_joined_push(done, seq!['\n'], line@);
            assert(done.push(line@) + lines(after@) =~= done + lines(rest@));
        }
        if started {
            out.push('\n');
        }
        push_chars(&mut out, line);
        started = true;
        proof {
            done = done.push(line@);
        }
        rest = after;
    }
    assert(done =~= lines(output@));
    out
}

impl MenuConfig {
    /// The keys of the options, in the order in which they are shown.
    pub fn keys(&self) -> (r: Vec<String>)
        ensures
            strings_view(r@) == keys_of(self@.options),
    {
        let mut keys: Vec<String> = Vec::new();
        let mut i: usize = 0;
        while i < self.options.len()
            invariant
                i <= self.options.len(),
                keys.len() == i,
                forall|k: int| 0 <= k < i ==> (#[trigger] keys@[k])@ == self.options@[k].0@,
            decreases self.options.len() - i,
        {
            keys.push(self.options[i].0.clone());
            i += 1;
        }
        assert(strings_view(keys@) =~= keys_of(self@.options));
        keys
    }

    /// The command that `selection` stands for: that of the first option
    /// whose key the selection begins with, with what follows the key,
    /// trimmed, in place of each placeholder. Where the selection begins
    /// with no key, nothing is selected.
    pub fn resolve(&self, selection: &str) -> (r: Result<String, AError>)
        ensures
            match resolved(self@, selection@) {
                Some(command) => r matches Ok(c) && c@ == command,
                None => r matches Err(AError::NothingSelected),
            },
    {
        let chosen = chars_of(selection);
        let ghost options = self@.options;
        let mut i: usize = 0;
        while i < self.options.len()
            invariant
                i <= self.options.len(),
                options == options_view(self.options@),
                chosen@ == selection@,
                first_match(options, selection@, 0) == first_match(options, selection@, i as int),
            decreases self.options.len() - i,
        {
            assert(options[i as int] == (self.options@[i as int].0@, self.options@[i as int].1@));
            if has_prefix(chosen.as_slice(), self.options[i].0.as_str()) {
                let width = self.options[i].0.as_str().unicode_len();
                let rest = slice_subrange(chosen.as_slice(), width, chosen.len());
                let template = chars_of(self.options[i].1.as_str());
                return Ok(substitute_chars(template.as_slice(), trim_chars(rest)));
            }
            i += 1;
        }
        Err(AError::NothingSelected)
    }
}

/// What is needed to show a menu: the command handed to the shell, and what
/// is written to the menu program.
#[derive(Debug)]
pub struct Prompt {
    pub command: String,
    pub input: String,
}

impl Configuration {
    /// How to show the menu called `requested_menu`: the menu program with
    /// the menu's flags, and the keys of the menu's options as its input.
    /// Where there is no such menu, the error says so.
    pub fn prompt(&self, requested_menu: &str) -> (r: Result<Prompt, AError>)
        ensures
            match r {
                Ok(prompt) => {
                    &&& self@.menus.contains_key(requested_menu@)
                    &&& prompt.command@ == self@.menu_system + " "@
                        + self@.menus[requested_menu@].additional_flags
                    &&& prompt.input@ == prompt_text(keys_of(self@.menus[requested_menu@].options))
                },
                Err(e) => e matches AError::UnknownMenu && !self@.menus.contains_key(
                    requested_menu@,
                ),
            },
    {
        match self.menu(requested_menu) {
            Ok(menu) => Ok(
                Prompt {
                    command: self.menu_system.command_line(menu.additional_flags.as_str()),
                    input: prompt_input(&menu.keys()),
                },
            ),
            Err(e) => Err(e),
        }
    }

    /// The command to launch after the menu program printed `output` for the
    /// menu called `requested_menu`.
    pub fn command(&self, requested_menu: &str, output: &str) -> (r: Result<String, AError>)
        ensures
            match launched(self@, requested_menu@, output@) {
                Ok(command) => r matches Ok(c) && c@ == command,
                Err(Refusal::UnknownMenu) => r matches Err(AError::UnknownMenu),
                Err(Refusal::NothingSelected) => r matches Err(AError::NothingSelected),
            },
    {
        match self.menu(requested_menu) {
            Ok(menu) => menu.resolve(selection_of(output).as_str()),
            Err(e) => Err(e),
        }
    }

    /// The menu called `name`, or the error that there is none.
    pub fn menu(&self, name: &str) -> (r: Result<&MenuConfig, AError>)
        ensures
            match r {
                Ok(menu) => self@.menus.contains_key(name@) && menu@ == self@.menus[name@],
                Err(e) => e matches AError::UnknownMenu && !self@.menus.contains_key(name@),
            },
    {
        match self.menus.get(name) {
            Some(menu) => Ok(menu),
            None => Err(AError::UnknownMenu),
        }
    }
}

/// What a run is asked to do.
#[derive(Debug, PartialEq, Eq)]
pub enum Action {
    /// Print the names of the menus.
    ListMenus,
    /// Print the example configuration.
    PrintExample,
    /// Show the menu of this name and launch what is selected.
    RunMenu(String),
    /// Nothing was asked for.
    Nothing,
}

impl Action {
    /// What to do for the given command line: listing goes before the
    /// example, the example before a menu.
    pub fn decide(list: bool, print_example: bool, requested_menu: Option<String>) -> (r: Action)
        ensures
            list ==> r == Action::ListMenus,
            !list && print_example ==> r == Action::PrintExample,
            !list && !print_example ==> r == match requested_menu {
                Some(name) => Action::RunMenu(name),
                None => Action::Nothing,
            },
    {
        if list {
            Action::ListMenus
        } else if print_example {
            Action::PrintExample
        } else {
            match requested_menu {
                Some(name) => Action::RunMenu(name),
                None => Action::Nothing,
            }
        }
    }
}

} // verus!
