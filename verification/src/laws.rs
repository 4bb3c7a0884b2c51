//! What holds of every configuration text.

use crate::config::{apply, close, line_error, parse, parse_lines, run, start, step, ParserView};
use crate::error::AError;
use crate::grammar::{
    line_kind, menu_option, menu_title, missing_menu_system, option_error, use_command, LineKind,
};
use crate::lines::{
    after_first_line, lemma_line_end_is, lemma_lines_concat, lemma_lines_cons,
    lemma_lines_hold_no_line_feed, lemma_one_line_concat, lemma_one_line_subrange, lines, one_line,
    strip_cr,
};
use crate::menu::{ConfigurationView, MenuView};
use crate::text::{contains, lemma_find, lemma_trim_bounds, starts_with, trim};
use vstd::prelude::*;

verus! {

/// Reading `front` and then `back` is reading `front + back`.
pub proof fn lemma_run_concat(state: ParserView, front: Seq<Seq<char>>, back: Seq<Seq<char>>)
    ensures
        run(state, front + back) == match run(state, front) {
            Ok(middle) => run(middle, back),
            Err(message) => Err(message),
        },
    decreases front.len(),
{
    if front.len() == 0 {
        assert(front + back =~= back);
    } else {
        assert((front + back).first() == front.first());
        assert((front + back).drop_first() =~= front.drop_first() + back);
        match step(state, front.first()) {
            Ok(next) => lemma_run_concat(next, front.drop_first(), back),
            Err(_) => {},
        }
    }
}

/// Comment lines never contribute: a line that begins with `#`, put anywhere
/// among the lines, changes neither the configuration nor the error.
pub proof fn lemma_comment_ignored(lines: Seq<Seq<char>>, i: int, comment: Seq<char>)
    requires
        0 <= i <= lines.len(),
        starts_with(comment, "#"@),
    ensures
        parse_lines(lines.insert(i, comment)) == parse_lines(lines),
{
    let front = lines.subrange(0, i);
    let back = lines.subrange(i, lines.len() as int);
    assert(lines =~= front + back);
    assert(lines.insert(i, comment) =~= front + (seq![comment] + back));
    lemma_run_concat(start(), front, back);
    lemma_run_concat(start(), front, seq![comment] + back);
    match run(start(), front) {
        Ok(middle) => {
            assert((seq![comment] + back).first() == comment);
            assert((seq![comment] + back).drop_first() =~= back);
        },
        Err(_) => {},
    }
}

/// Comment lines never contribute to what a text describes: a line that
/// begins with `#`, put in at the beginning of any line of the text, changes
/// neither the configuration nor the error.
pub proof fn lemma_comment_line_ignored(before: Seq<char>, comment: Seq<char>, after: Seq<char>)
    requires
        before.len() == 0 || before.last() == '\n',
        starts_with(comment, "#"@),
        one_line(comment),
    ensures
        parse(before + comment + seq!['\n'] + after) == parse(before + after),
{
    reveal_strlit("#");
    let inserted = comment + seq!['\n'] + after;
    assert(before + comment + seq!['\n'] + after =~= before + inserted);
    lemma_lines_concat(before, inserted);
    lemma_lines_concat(before, after);
    lemma_lines_cons(comment, after);
    let shown = strip_cr(comment);
    assert(starts_with(shown, "#"@)) by {
        assert("#"@.len() == 1 && "#"@[0] == '#');
        assert(comment.subrange(0, 1)[0] == comment[0]);
        assert(comment[0] == '#');
        assert(shown.len() >= 1) by {
            if comment.len() == 1 {
                assert(comment.last() == '#');
            }
        }
        assert(shown[0] == '#');
        assert("#"@ =~= shown.subrange(0, 1));
    }
    let all = lines(before) + lines(after);
    assert(lines(before) + (seq![shown] + lines(after)) =~= all.insert(
        lines(before).len() as int,
        shown,
    ));
    lemma_comment_ignored(all, lines(before).len() as int, shown);
}

/// A comment in the last line of a text, which no line feed ends, does not
/// contribute either.
pub proof fn lemma_last_comment_ignored(before: Seq<char>, comment: Seq<char>)
    requires
        before.len() == 0 || before.last() == '\n',
        starts_with(comment, "#"@),
        one_line(comment),
    ensures
        parse(before + comment) == parse(before),
{
    reveal_strlit("#");
    assert(comment.len() > 0);
    lemma_lines_concat(before, comment);
    lemma_line_end_is(comment, 0, comment.len() as int);
    assert(lines(after_first_line(comment)) =~= Seq::<Seq<char>>::empty());
    assert(lines(comment) =~= seq![comment]);
    let all = lines(before);
    assert(all + seq![comment] =~= all.insert(all.len() as int, comment));
    lemma_comment_ignored(all, all.len() as int, comment);
}

/// An option line that holds no `=>` is an error, and its message quotes the
/// line without the white space around it.
pub proof fn lemma_malformed_option(line: Seq<char>)
    requires
        line_kind(line) == LineKind::Entry,
        !contains(trim(line), "=>"@),
    ensures
        line_error(line) == Some(option_error(trim(line))),
{
    lemma_find(trim(line), "=>"@);
}

/// The message of a line that is an error is one line where the line is.
pub proof fn lemma_line_error_one_line(line: Seq<char>)
    requires
        one_line(line),
        line_error(line).is_some(),
    ensures
        one_line(line_error(line).unwrap()),
{
    reveal_strlit("Error parsing use: \"");
    reveal_strlit("could not parse option \"");
    reveal_strlit("\"");
    match line_kind(line) {
        LineKind::Use => {
            lemma_one_line_concat("Error parsing use: \""@, line);
            lemma_one_line_concat("Error parsing use: \""@ + line, "\""@);
        },
        LineKind::Entry => {
            let (a, b) = lemma_trim_bounds(line);
            lemma_one_line_subrange(line, a, b);
            lemma_one_line_concat("could not parse option \""@, trim(line));
            lemma_one_line_concat("could not parse option \""@ + trim(line), "\""@);
        },
        _ => {},
    }
}

/// Where reading stops with an error, the message is that of one of the
/// lines.
proof fn lemma_run_error_source(state: ParserView, lines: Seq<Seq<char>>) -> (k: int)
    requires
        run(state, lines).is_err(),
    ensures
        0 <= k < lines.len(),
        line_error(lines[k]) == Some(run(state, lines)->Err_0),
    decreases lines.len(),
{
    match step(state, lines.first()) {
        Ok(next) => {
            let rest = lines.drop_first();
            let k = lemma_run_error_source(next, rest);
            assert(rest[k] == lines[k + 1]);
            k + 1
        },
        Err(_) => 0,
    }
}

/// Every error of reading is shown on one line: the message with which a
/// text is refused holds no line feed, and neither does the text that is
/// shown to the user for the parse error that carries it.
pub proof fn lemma_parse_error_one_line(text: Seq<char>, error: AError)
    requires
        parse(text).is_err(),
        error matches AError::Parse(carried) && carried@ == parse(text)->Err_0,
    ensures
        one_line(parse(text)->Err_0),
        one_line(error.message_spec()),
{
    reveal_strlit("No menu system configured");
    let all = lines(text);
    if run(start(), all).is_err() {
        let k = lemma_run_error_source(start(), all);
        lemma_lines_hold_no_line_feed(text, k);
        lemma_line_error_one_line(all[k]);
    }
    error.lemma_message_one_line();
}

/// The first line that is an error decides: the lines before it being none,
/// the text is refused with that line's message.
pub proof fn lemma_first_error(lines: Seq<Seq<char>>, i: int)
    requires
        0 <= i < lines.len(),
        line_error(lines[i]).is_some(),
        forall|k: int| 0 <= k < i ==> line_error(#[trigger] lines[k]).is_none(),
    ensures
        parse_lines(lines) == Err::<ConfigurationView, Seq<char>>(
            line_error(lines[i]).unwrap(),
        ),
{
    lemma_run_first_error(start(), lines, i);
}

/// From any state, reading stops at the first line that is an error.
proof fn lemma_run_first_error(state: ParserView, lines: Seq<Seq<char>>, i: int)
    requires
        0 <= i < lines.len(),
        line_error(lines[i]).is_some(),
        forall|k: int| 0 <= k < i ==> line_error(#[trigger] lines[k]).is_none(),
    ensures
        run(state, lines) == Err::<ParserView, Seq<char>>(line_error(lines[i]).unwrap()),
    decreases lines.len(),
{
    if i > 0 {
        assert(line_error(lines[0]).is_none());
        let rest = lines.drop_first();
        assert(rest[i - 1] == lines[i]);
        assert forall|k: int| 0 <= k < i - 1 implies line_error(#[trigger] rest[k]).is_none() by {
            assert(rest[k] == lines[k + 1]);
        }
        lemma_run_first_error(apply(state, lines[0]), rest, i - 1);
    }
}

/// A line that is an error is never passed over: a text that holds one is
/// refused.
pub proof fn lemma_error_refused(lines: Seq<Seq<char>>, i: int)
    requires
        0 <= i < lines.len(),
        line_error(lines[i]).is_some(),
    ensures
        parse_lines(lines).is_err(),
    decreases i,
{
    if exists|k: int| 0 <= k < i && line_error(#[trigger] lines[k]).is_some() {
        let k = choose|k: int| 0 <= k < i && line_error(#[trigger] lines[k]).is_some();
        lemma_error_refused(lines, k);
    } else {
        lemma_first_error(lines, i);
    }
}

/// Where no line is an error, every line is read, and the menu program is
/// the one that the last `use:` line names; without a `use:` line it is the
/// one known before.
pub proof fn lemma_run_menu_system(state: ParserView, lines: Seq<Seq<char>>)
    requires
        forall|k: int| 0 <= k < lines.len() ==> line_error(#[trigger] lines[k]).is_none(),
    ensures
        run(state, lines) matches Ok(last) && last.menu_system == (if exists|j: int|
            is_last_use(lines, j) {
            use_command(lines[choose|j: int| is_last_use(lines, j)])
        } else {
            state.menu_system
        }),
    decreases lines.len(),
{
    if lines.len() > 0 {
        let rest = lines.drop_first();
        assert(line_error(lines[0]).is_none());
        assert forall|k: int| 0 <= k < rest.len() implies line_error(#[trigger] rest[k]).is_none() by {
            assert(rest[k] == lines[k + 1]);
        }
        let next = apply(state, lines[0]);
        lemma_run_menu_system(next, rest);
        if exists|j: int| is_last_use(rest, j) {
            let j = choose|j: int| is_last_use(rest, j);
            assert(is_last_use(lines, j + 1)) by {
                assert(lines[j + 1] == rest[j]);
                assert forall|k: int| j + 1 < k < lines.len() implies line_kind(
                    #[trigger] lines[k],
                ) != LineKind::Use by {
                    assert(lines[k] == rest[k - 1]);
                }
            }
            lemma_last_use_unique(lines, j + 1, choose|j: int| is_last_use(lines, j));
        } else if line_kind(lines[0]) == LineKind::Use {
            assert(is_last_use(lines, 0)) by {
                assert forall|k: int| 0 < k < lines.len() implies line_kind(#[trigger] lines[k])
                    != LineKind::Use by {
                    if line_kind(lines[k]) == LineKind::Use {
                        assert(rest[k - 1] == lines[k]);
                        lemma_some_last_use(rest, k - 1);
                    }
                }
            }
            lemma_last_use_unique(lines, 0, choose|j: int| is_last_use(lines, j));
        } else {
            if exists|j: int| is_last_use(lines, j) {
                let j = choose|j: int| is_last_use(lines, j);
                assert(j > 0);
                assert(rest[j - 1] == lines[j]);
                assert(is_last_use(rest, j - 1)) by {
                    assert forall|k: int| j - 1 < k < rest.len() implies line_kind(
                        #[trigger] rest[k],
                    ) != LineKind::Use by {
                        assert(rest[k] == lines[k + 1]);
                    }
                }
            }
        }
    }
}

/// Line `j` is the last `use:` line of `lines`.
pub open spec fn is_last_use(lines: Seq<Seq<char>>, j: int) -> bool {
    &&& 0 <= j < lines.len()
    &&& line_kind(lines[j]) == LineKind::Use
    &&& forall|k: int| j < k < lines.len() ==> line_kind(#[trigger] lines[k]) != LineKind::Use
}

/// There is one last `use:` line at most.
proof fn lemma_last_use_unique(lines: Seq<Seq<char>>, a: int, b: int)
    requires
        is_last_use(lines, a),
        is_last_use(lines, b),
    ensures
        a == b,
{
}

/// Where there is a `use:` line, there is a last one.
proof fn lemma_some_last_use(lines: Seq<Seq<char>>, i: int)
    requires
        0 <= i < lines.len(),
        line_kind(lines[i]) == LineKind::Use,
    ensures
        exists|j: int| is_last_use(lines, j),
    decreases lines.len() - i,
{
    if exists|k: int| i < k < lines.len() && line_kind(#[trigger] lines[k]) == LineKind::Use {
        let k = choose|k: int| i < k < lines.len() && line_kind(#[trigger] lines[k]) == LineKind::Use;
        lemma_some_last_use(lines, k);
    } else {
        assert(is_last_use(lines, i));
    }
}

/// A text is read as a configuration exactly when no line of it is an error
/// and some line names the menu program; the menu program is then the one
/// that the last `use:` line names.
pub proof fn lemma_success(lines: Seq<Seq<char>>)
    ensures
        parse_lines(lines).is_ok() <==> (forall|k: int|
            0 <= k < lines.len() ==> line_error(#[trigger] lines[k]).is_none()) && (exists|j: int|
            is_last_use(lines, j)),
        parse_lines(lines) matches Ok(configuration) ==> Some(configuration.menu_system)
            == use_command(lines[choose|j: int| is_last_use(lines, j)]),
{
    if forall|k: int| 0 <= k < lines.len() ==> line_error(#[trigger] lines[k]).is_none() {
        lemma_run_menu_system(start(), lines);
        if exists|j: int| is_last_use(lines, j) {
            let j = choose|j: int| is_last_use(lines, j);
            assert(line_error(lines[j]).is_none());
        }
    } else {
        let k = choose|k: int| 0 <= k < lines.len() && line_error(#[trigger] lines[k]).is_some();
        lemma_error_refused(lines, k);
    }
}

/// A text without a `use:` line is refused, whatever menus it holds; where
/// no line of it is an error, the message says that no menu program is
/// configured.
pub proof fn lemma_missing_menu_system(lines: Seq<Seq<char>>)
    requires
        forall|k: int| 0 <= k < lines.len() ==> line_kind(#[trigger] lines[k]) != LineKind::Use,
    ensures
        parse_lines(lines).is_err(),
        (forall|k: int| 0 <= k < lines.len() ==> line_error(#[trigger] lines[k]).is_none())
            ==> parse_lines(lines) == Err::<ConfigurationView, Seq<char>>(
            missing_menu_system(),
        ),
{
    lemma_success(lines);
    if forall|k: int| 0 <= k < lines.len() ==> line_error(#[trigger] lines[k]).is_none() {
        lemma_run_menu_system(start(), lines);
    }
}

/// Line `j` of `lines` opens a menu called `name`.
pub open spec fn opens(lines: Seq<Seq<char>>, j: int, name: Seq<char>) -> bool {
    &&& 0 <= j < lines.len()
    &&& line_kind(lines[j]) == LineKind::Menu
    &&& menu_title(lines[j]).unwrap().0 == name
}

/// Line `j` is the last line of `lines` that opens a menu called `name`.
pub open spec fn is_last_opening(lines: Seq<Seq<char>>, j: int, name: Seq<char>) -> bool {
    &&& opens(lines, j, name)
    &&& forall|k: int| j < k < lines.len() ==> !opens(lines, k, name)
}

/// The options that `lines` give to a menu that is open before the first of
/// them, in the order of the lines: those of the option lines up to the
/// first blank line or `menu:` line.
pub open spec fn block_options(lines: Seq<Seq<char>>) -> Seq<(Seq<char>, Seq<char>)>
    decreases lines.len(),
{
    if lines.len() == 0 {
        Seq::empty()
    } else {
        match line_kind(lines.first()) {
            LineKind::Menu | LineKind::Blank => Seq::empty(),
            LineKind::Entry => match menu_option(trim(lines.first())) {
                Some(option) => seq![option] + block_options(lines.drop_first()),
                None => Seq::empty(),
            },
            _ => block_options(lines.drop_first()),
        }
    }
}

/// The menu that the `menu:` line `j` opens, with the options that the lines
/// behind it give it.
pub open spec fn block_at(lines: Seq<Seq<char>>, j: int) -> MenuView {
    let title = menu_title(lines[j]).unwrap();
    MenuView {
        menu_name: title.0,
        additional_flags: title.1,
        options: block_options(lines.skip(j + 1)),
    }
}

/// `menu` with `options` behind its own.
pub open spec fn extended(menu: MenuView, options: Seq<(Seq<char>, Seq<char>)>) -> MenuView {
    MenuView {
        menu_name: menu.menu_name,
        additional_flags: menu.additional_flags,
        options: menu.options + options,
    }
}

/// Lines that open no menu called `name` leave the table as it is under that
/// name, unless the open menu has that name: then it goes into the table
/// with the options that the lines give it.
pub proof fn lemma_run_without_opening(state: ParserView, lines: Seq<Seq<char>>, name: Seq<char>)
    requires
        run(state, lines).is_ok(),
        forall|k: int| 0 <= k < lines.len() ==> !opens(lines, k, name),
    ensures
        ({
            let menus = close(run(state, lines)->Ok_0).menus;
            match state.open {
                Some(menu) if menu.menu_name == name => menus.contains_key(name) && menus[name]
                    == extended(menu, block_options(lines)),
                _ => menus.contains_key(name) == state.menus.contains_key(name) && (
                menus.contains_key(name) ==> menus[name] == state.menus[name]),
            }
        }),
    decreases lines.len(),
{
    if lines.len() == 0 {
        match state.open {
            Some(menu) if menu.menu_name == name => {
                assert(menu.options + Seq::<(Seq<char>, Seq<char>)>::empty() =~= menu.options);
            },
            _ => {},
        }
    } else {
        let line = lines.first();
        let rest = lines.drop_first();
        let next = apply(state, line);
        assert(!opens(lines, 0, name));
        assert forall|k: int| 0 <= k < rest.len() implies !opens(rest, k, name) by {
            assert(rest[k] == lines[k + 1]);
            assert(!opens(lines, k + 1, name));
        }
        lemma_run_without_opening(next, rest, name);
        match state.open {
            Some(menu) if menu.menu_name == name => {
                match line_kind(line) {
                    LineKind::Entry => {
                        let option = menu_option(trim(line)).unwrap();
                        assert(menu.options.push(option) + block_options(rest) =~= menu.options
                            + (seq![option] + block_options(rest)));
                    },
                    LineKind::Menu | LineKind::Blank => {
                        assert(menu.options + Seq::<(Seq<char>, Seq<char>)>::empty()
                            =~= menu.options);
                    },
                    _ => {},
                }
            },
            _ => {},
        }
    }
}

/// Of the menus that share a name, the last is the one retained, whole: the
/// configuration holds under a name the menu that the last `menu:` line of
/// that name opens, with its flags and with the options of the lines behind
/// it, in their order.
pub proof fn lemma_run_last_opening(
    state: ParserView,
    lines: Seq<Seq<char>>,
    j: int,
    name: Seq<char>,
)
    requires
        run(state, lines).is_ok(),
        is_last_opening(lines, j, name),
    ensures
        close(run(state, lines)->Ok_0).menus.contains_key(name),
        close(run(state, lines)->Ok_0).menus[name] == block_at(lines, j),
    decreases lines.len(),
{
    let line = lines.first();
    let rest = lines.drop_first();
    let next = apply(state, line);
    if j == 0 {
        assert forall|k: int| 0 <= k < rest.len() implies !opens(rest, k, name) by {
            assert(rest[k] == lines[k + 1]);
            assert(!opens(lines, k + 1, name));
        }
        lemma_run_without_opening(next, rest, name);
        assert(lines.skip(1) =~= rest);
        assert(Seq::<(Seq<char>, Seq<char>)>::empty() + block_options(rest) =~= block_options(rest));
    } else {
        assert(rest[j - 1] == lines[j]);
        assert(is_last_opening(rest, j - 1, name)) by {
            assert forall|k: int| j - 1 < k < rest.len() implies !opens(rest, k, name) by {
                assert(rest[k] == lines[k + 1]);
                assert(!opens(lines, k + 1, name));
            }
        }
        lemma_run_last_opening(next, rest, j - 1, name);
        assert(rest.skip(j) =~= lines.skip(j + 1));
    }
}

/// For menus that share a name, the last one's flags and options are the
/// ones retained, and nothing of the earlier ones: the configuration holds
/// under each name the menu that the last `menu:` line of that name opens,
/// with the options that follow it, in the order of the lines.
pub proof fn lemma_last_block_wins(lines: Seq<Seq<char>>, j: int, name: Seq<char>)
    requires
        parse_lines(lines).is_ok(),
        is_last_opening(lines, j, name),
    ensures
        parse_lines(lines)->Ok_0.menus.contains_key(name),
        parse_lines(lines)->Ok_0.menus[name] == block_at(lines, j),
{
    lemma_run_last_opening(start(), lines, j, name);
}

/// The configuration holds a menu under a name exactly when some `menu:`
/// line opens one of that name.
pub proof fn lemma_menu_names(lines: Seq<Seq<char>>, name: Seq<char>)
    requires
        parse_lines(lines).is_ok(),
    ensures
        parse_lines(lines)->Ok_0.menus.contains_key(name) <==> exists|j: int|
            opens(lines, j, name),
{
    if exists|j: int| opens(lines, j, name) {
        let j = choose|j: int| opens(lines, j, name);
        let last = lemma_some_last_opening(lines, j, name);
        lemma_run_last_opening(start(), lines, last, name);
    } else {
        lemma_run_without_opening(start(), lines, name);
    }
}

/// Where a line opens a menu of a name, some line is the last to do so.
proof fn lemma_some_last_opening(lines: Seq<Seq<char>>, i: int, name: Seq<char>) -> (j: int)
    requires
        opens(lines, i, name),
    ensures
        is_last_opening(lines, j, name),
    decreases lines.len() - i,
{
    if exists|k: int| i < k < lines.len() && opens(lines, k, name) {
        let k = choose|k: int| i < k < lines.len() && opens(lines, k, name);
        lemma_some_last_opening(lines, k, name)
    } else {
        i
    }
}

} // verus!
