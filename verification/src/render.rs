//! Writing a configuration in the line grammar.
//!
//! Each menu becomes a `menu:` line with its name, and its flags behind
//! ` :: ` where it has any, followed by one indented line per option with key
//! and command around ` => `. The `use:` line comes last and is not ended by
//! a line feed, so that nothing of the menu program's command is lost when
//! the text is read again.

use crate::menu::{options_view, Configuration, MenuConfig, MenuView};
use vstd::prelude::*;
use vstd::string::*;

verus! {

/// The line of an option: the key and the command around ` => `, indented;
/// ` =>` ends the line where the command is empty.
pub open spec fn option_line(option: (Seq<char>, Seq<char>)) -> Seq<char> {
    if option.1.len() == 0 {
        "  "@ + option.0 + " =>"@
    } else {
        "  "@ + option.0 + " => "@ + option.1
    }
}

/// The line that opens `menu`: the name alone where there are no flags, else
/// name and flags around ` :: `.
pub open spec fn title_line(menu: MenuView) -> Seq<char> {
    if menu.additional_flags.len() == 0 {
        "menu: "@ + menu.menu_name
    } else {
        "menu: "@ + menu.menu_name + " :: "@ + menu.additional_flags
    }
}

/// The line that names the menu program.
pub open spec fn use_line(menu_system: Seq<char>) -> Seq<char> {
    "use: "@ + menu_system
}

/// The lines of `options`, each ended by a line feed.
pub open spec fn options_text(options: Seq<(Seq<char>, Seq<char>)>) -> Seq<char>
    decreases options.len(),
{
    if options.len() == 0 {
        Seq::empty()
    } else {
        option_line(options.first()) + seq!['\n'] + options_text(options.drop_first())
    }
}

/// The lines of `menu`, each ended by a line feed.
pub open spec fn menu_text(menu: MenuView) -> Seq<char> {
    title_line(menu) + seq!['\n'] + options_text(menu.options)
}

/// The lines of `menus`, one menu after the other.
pub open spec fn menus_text(menus: Seq<MenuView>) -> Seq<char>
    decreases menus.len(),
{
    if menus.len() == 0 {
        Seq::empty()
    } else {
        menu_text(menus.first()) + menus_text(menus.drop_first())
    }
}

/// The text of a configuration with the menus `menus` in this order.
pub open spec fn config_text(menu_system: Seq<char>, menus: Seq<MenuView>) -> Seq<char> {
    menus_text(menus) + use_line(menu_system)
}

/// Appends the lines of `menu` to `out`.
fn push_menu(out: &mut String, menu: &MenuConfig)
    ensures
        final(out)@ == old(out)@ + menu_text(menu@),
{
    out.append("menu: ");
    out.append(menu.menu_name.as_str());
    if !menu.additional_flags.as_str().is_empty() {
        out.append(" :: ");
        out.append(menu.additional_flags.as_str());
    }
    out.push('\n');
    let ghost head = out@;
    let ghost options = menu@.options;
    assert(head =~= old(out)@ + title_line(menu@) + seq!['\n']);
    assert(options.skip(0) =~= options);
    let mut i: usize = 0;
    while i < menu.options.len()
        invariant
            i <= menu.options.len(),
            options == options_view(menu.options@),
            out@ + options_text(options.skip(i as int)) == head + options_text(options),
        decreases menu.options.len() - i,
    {
        let ghost before = out@;
        let ghost rest = options.skip(i as int);
        out.append("  ");
        out.append(menu.options[i].0.as_str());
        if menu.options[i].1.as_str().is_empty() {
            out.append(" =>");
        } else {
            out.append(" => ");
            out.append(menu.options[i].1.as_str());
        }
        out.push('\n');
        i += 1;
        proof {
            assert(rest.first() == options[i - 1]);
            assert(rest.drop_first() =~= options.skip(i as int));
            assert(out@ =~= before + (option_line(rest.first()) + seq!['\n']));
            assert(out@ + options_text(options.skip(i as int)) =~= before + options_text(rest));
        }
    }
    assert(options.skip(i as int) =~= Seq::empty());
    assert(out@ =~= old(out)@ + menu_text(menu@));
}

impl Configuration {
    /// The text of this configuration, with the menus in the order in which
    /// the table holds them.
    pub open spec fn text(&self) -> Seq<char> {
        config_text(self.menu_system@, self.menus.entries())
    }

    /// Writes this configuration in the line grammar.
    pub fn to_text(&self) -> (r: String)
        ensures
            r@ == self.text(),
    {
        let mut out = String::new();
        let menus = self.menus.menus();
        let ghost entries = self.menus.entries();
        assert(entries.skip(0) =~= entries);
        assert(out@ + menus_text(entries) =~= menus_text(entries));
        let mut i: usize = 0;
        while i < menus.len()
            invariant
                i <= menus.len(),
                menus@.len() == entries.len(),
                forall|k: int| 0 <= k < menus@.len() ==> (#[trigger] menus@[k])@ == entries[k],
                out@ + menus_text(entries.skip(i as int)) == menus_text(entries),
            decreases menus.len() - i,
        {
            let ghost before = out@;
            let ghost rest = entries.skip(i as int);
            push_menu(&mut out, &menus[i]);
            i += 1;
            proof {
                assert(rest.first() == entries[i - 1]);
                assert(rest.drop_first() =~= entries.skip(i as int));
                assert(out@ + menus_text(entries.skip(i as int)) =~= before + menus_text(rest));
            }
        }
        assert(entries.skip(i as int) =~= Seq::empty());
        out.append("use: ");
        out.append(self.menu_system.0.as_str());
        assert(out@ =~= self.text());
        out
    }
}

} // verus!
