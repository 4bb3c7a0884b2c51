//! Menus, the table that holds them by name, and the configuration.

use vstd::prelude::*;
use vstd::string::*;

verus! {

/// What a menu is: its name, the flags handed to the menu program for this
/// menu only, and its options as pairs of key and command template, in the
/// order in which they are shown.
pub ghost struct MenuView {
    pub menu_name: Seq<char>,
    pub additional_flags: Seq<char>,
    pub options: Seq<(Seq<char>, Seq<char>)>,
}

/// What a configuration is: the command of the menu program and the menus by
/// name.
pub ghost struct ConfigurationView {
    pub menu_system: Seq<char>,
    pub menus: Map<Seq<char>, MenuView>,
}

/// The pairs of `options` as character sequences.
pub open spec fn options_view(options: Seq<(String, String)>) -> Seq<(Seq<char>, Seq<char>)> {
    Seq::new(options.len(), |i: int| (options[i].0@, options[i].1@))
}

/// No two of `entries` have the same name.
pub open spec fn distinct_names(entries: Seq<MenuView>) -> bool {
    forall|i: int, j: int|
        0 <= i < j < entries.len() ==> (#[trigger] entries[i]).menu_name != (
        #[trigger] entries[j]).menu_name
}

/// The mapping from name to menu that `entries` describe when they are
/// inserted one after the other: of two with the same name the later stays.
pub open spec fn table_of(entries: Seq<MenuView>) -> Map<Seq<char>, MenuView>
    decreases entries.len(),
{
    if entries.len() == 0 {
        Map::empty()
    } else {
        table_of(entries.drop_last()).insert(entries.last().menu_name, entries.last())
    }
}

/// `entries` with `menu` under its name: in place of the first entry of that
/// name, or at the end where there is none.
pub open spec fn put(entries: Seq<MenuView>, menu: MenuView) -> Seq<MenuView>
    decreases entries.len(),
{
    if entries.len() == 0 {
        seq![menu]
    } else if entries.first().menu_name == menu.menu_name {
        seq![menu] + entries.drop_first()
    } else {
        seq![entries.first()] + put(entries.drop_first(), menu)
    }
}

/// The names of `entries`, in order.
pub open spec fn names_of(entries: Seq<MenuView>) -> Seq<Seq<char>> {
    Seq::new(entries.len(), |i: int| entries[i].menu_name)
}

/// A name is in the table exactly when an entry has it.
pub proof fn lemma_table_domain(entries: Seq<MenuView>, name: Seq<char>)
    ensures
        table_of(entries).contains_key(name) <==> exists|i: int|
            0 <= i < entries.len() && (#[trigger] entries[i]).menu_name == name,
    decreases entries.len(),
{
    if entries.len() > 0 {
        let head = entries.drop_last();
        lemma_table_domain(head, name);
        if table_of(entries).contains_key(name) {
            if entries.last().menu_name == name {
                assert(entries[entries.len() - 1].menu_name == name);
            } else {
                let i = choose|i: int| 0 <= i < head.len() && (#[trigger] head[i]).menu_name == name;
                assert(entries[i].menu_name == name);
            }
        }
        if exists|i: int| 0 <= i < entries.len() && (#[trigger] entries[i]).menu_name == name {
            let i = choose|i: int|
                0 <= i < entries.len() && (#[trigger] entries[i]).menu_name == name;
            if i < entries.len() - 1 {
                assert(head[i].menu_name == name);
            }
        }
    }
}

/// Every menu of the table stands under its own name.
pub proof fn lemma_table_keys(entries: Seq<MenuView>, name: Seq<char>)
    requires
        table_of(entries).contains_key(name),
    ensures
        table_of(entries)[name].menu_name == name,
    decreases entries.len(),
{
    if entries.len() > 0 && entries.last().menu_name != name {
        lemma_table_keys(entries.drop_last(), name);
    }
}

/// Entries without a name twice stay so when the last is left out.
pub proof fn lemma_distinct_without_last(entries: Seq<MenuView>)
    requires
        distinct_names(entries),
        entries.len() > 0,
    ensures
        distinct_names(entries.drop_last()),
{
    let head = entries.drop_last();
    assert forall|a: int, b: int| 0 <= a < b < head.len() implies (#[trigger] head[a]).menu_name
        != (#[trigger] head[b]).menu_name by {
        assert(head[a] == entries[a]);
        assert(head[b] == entries[b]);
    }
}

/// Where no name occurs twice, the table maps each entry's name to that entry.
pub proof fn lemma_table_entry(entries: Seq<MenuView>, i: int)
    requires
        distinct_names(entries),
        0 <= i < entries.len(),
    ensures
        table_of(entries).contains_key(entries[i].menu_name),
        table_of(entries)[entries[i].menu_name] == entries[i],
    decreases entries.len(),
{
    let head = entries.drop_last();
    if i < entries.len() - 1 {
        lemma_distinct_without_last(entries);
        lemma_table_entry(head, i);
        assert(head[i] == entries[i]);
        assert(entries[i].menu_name != entries[entries.len() - 1].menu_name);
    }
}

/// Where no name occurs twice, the table holds as many menus as there are
/// entries.
pub proof fn lemma_table_size(entries: Seq<MenuView>)
    requires
        distinct_names(entries),
    ensures
        table_of(entries).dom().finite(),
        table_of(entries).dom().len() == entries.len(),
    decreases entries.len(),
{
    if entries.len() > 0 {
        let head = entries.drop_last();
        let last = entries.last();
        lemma_distinct_without_last(entries);
        lemma_table_size(head);
        lemma_table_domain(head, last.menu_name);
        if table_of(head).contains_key(last.menu_name) {
            let i = choose|i: int| 0 <= i < head.len() && (#[trigger] head[i]).menu_name == last.menu_name;
            assert(entries[i].menu_name == entries[entries.len() - 1].menu_name);
        }
        assert(table_of(entries).dom() =~= table_of(head).dom().insert(last.menu_name));
    }
}

/// Appending an entry inserts it into the table.
pub proof fn lemma_table_push(entries: Seq<MenuView>, menu: MenuView)
    ensures
        table_of(entries.push(menu)) == table_of(entries).insert(menu.menu_name, menu),
{
    assert(entries.push(menu).drop_last() =~= entries);
}

/// Replacing the entry of a name by another of that name inserts the new one
/// into the table.
pub proof fn lemma_table_update(entries: Seq<MenuView>, i: int, menu: MenuView)
    requires
        distinct_names(entries),
        0 <= i < entries.len(),
        entries[i].menu_name == menu.menu_name,
    ensures
        distinct_names(entries.update(i, menu)),
        table_of(entries.update(i, menu)) == table_of(entries).insert(menu.menu_name, menu),
{
    let updated = entries.update(i, menu);
    assert forall|a: int, b: int| 0 <= a < b < updated.len() implies (#[trigger] updated[a]).menu_name
        != (#[trigger] updated[b]).menu_name by {
        assert(updated[a].menu_name == entries[a].menu_name);
        assert(updated[b].menu_name == entries[b].menu_name);
    }
    let left = table_of(updated);
    let right = table_of(entries).insert(menu.menu_name, menu);
    assert forall|k: Seq<char>| left.contains_key(k) <==> right.contains_key(k) by {
        lemma_table_domain(updated, k);
        lemma_table_domain(entries, k);
        if left.contains_key(k) {
            let a = choose|a: int| 0 <= a < updated.len() && (#[trigger] updated[a]).menu_name == k;
            assert(entries[a].menu_name == k);
        }
        if table_of(entries).contains_key(k) {
            let a = choose|a: int| 0 <= a < entries.len() && (#[trigger] entries[a]).menu_name == k;
            assert(updated[a].menu_name == k);
        }
        if k == menu.menu_name {
            assert(updated[i].menu_name == k);
        }
    }
    assert forall|k: Seq<char>| left.contains_key(k) implies left[k] == right[k] by {
        lemma_table_domain(updated, k);
        let a = choose|a: int| 0 <= a < updated.len() && (#[trigger] updated[a]).menu_name == k;
        lemma_table_entry(updated, a);
        if a != i {
            assert(updated[a] == entries[a]);
            lemma_table_entry(entries, a);
            assert(entries[a].menu_name != entries[i].menu_name);
        }
    }
    assert(left =~= right);
}

/// Putting a menu in replaces the first entry of its name.
pub proof fn lemma_put_replaces(entries: Seq<MenuView>, i: int, menu: MenuView)
    requires
        0 <= i < entries.len(),
        entries[i].menu_name == menu.menu_name,
        forall|k: int| 0 <= k < i ==> (#[trigger] entries[k]).menu_name != menu.menu_name,
    ensures
        put(entries, menu) == entries.update(i, menu),
    decreases entries.len(),
{
    let rest = entries.drop_first();
    if i == 0 {
        assert(seq![menu] + rest =~= entries.update(0, menu));
    } else {
        assert(entries[0].menu_name != menu.menu_name);
        assert(rest[i - 1] == entries[i]);
        assert forall|k: int| 0 <= k < i - 1 implies (#[trigger] rest[k]).menu_name
            != menu.menu_name by {
            assert(rest[k] == entries[k + 1]);
        }
        lemma_put_replaces(rest, i - 1, menu);
        assert(seq![entries.first()] + rest.update(i - 1, menu) =~= entries.update(i, menu));
    }
}

/// Putting a menu in under a new name appends it.
pub proof fn lemma_put_appends(entries: Seq<MenuView>, menu: MenuView)
    requires
        forall|k: int| 0 <= k < entries.len() ==> (#[trigger] entries[k]).menu_name != menu.menu_name,
    ensures
        put(entries, menu) == entries.push(menu),
    decreases entries.len(),
{
    if entries.len() == 0 {
        assert(seq![menu] =~= entries.push(menu));
    } else {
        let rest = entries.drop_first();
        assert(entries[0].menu_name != menu.menu_name);
        assert forall|k: int| 0 <= k < rest.len() implies (#[trigger] rest[k]).menu_name
            != menu.menu_name by {
            assert(rest[k] == entries[k + 1]);
        }
        lemma_put_appends(rest, menu);
        assert(seq![entries.first()] + rest.push(menu) =~= entries.push(menu));
    }
}

/// The command that starts the menu program, handed to the shell as it is.
#[derive(Debug)]
pub struct MenuSystem(pub String);

impl Clone for MenuSystem {
    fn clone(&self) -> (r: MenuSystem)
        ensures
            r@ == self@,
    {
        MenuSystem(self.0.clone())
    }
}

impl View for MenuSystem {
    type V = Seq<char>;

    open spec fn view(&self) -> Seq<char> {
        self.0@
    }
}

impl MenuSystem {
    /// The shell command that shows a menu: the menu program's command, a
    /// space, and the menu's own flags.
    pub fn command_line(&self, flags: &str) -> (r: String)
        ensures
            r@ == self@ + " "@ + flags@,
    {
        self.0.clone().concat(" ").concat(flags)
    }
}

impl PartialEq for MenuSystem {
    fn eq(&self, other: &MenuSystem) -> (r: bool) {
        self.0 == other.0
    }
}

impl Eq for MenuSystem {

}

impl vstd::std_specs::cmp::PartialEqSpecImpl for MenuSystem {
    open spec fn obeys_eq_spec() -> bool {
        true
    }

    open spec fn eq_spec(&self, other: &MenuSystem) -> bool {
        self@ == other@
    }
}

/// One named menu.
#[derive(Debug)]
pub struct MenuConfig {
    pub menu_name: String,
    pub additional_flags: String,
    pub options: Vec<(String, String)>,
}

impl View for MenuConfig {
    type V = MenuView;

    open spec fn view(&self) -> MenuView {
        MenuView {
            menu_name: self.menu_name@,
            additional_flags: self.additional_flags@,
            options: options_view(self.options@),
        }
    }
}

/// Whether two option lists hold the same pairs in the same order.
fn same_options(a: &Vec<(String, String)>, b: &Vec<(String, String)>) -> (r: bool)
    ensures
        r == (options_view(a@) == options_view(b@)),
{
    if a.len() != b.len() {
        assert(options_view(a@).len() != options_view(b@).len());
        return false;
    }
    let mut i: usize = 0;
    while i < a.len()
        invariant
            i <= a.len(),
            a.len() == b.len(),
            forall|k: int| 0 <= k < i ==> options_view(a@)[k] == options_view(b@)[k],
        decreases a.len() - i,
    {
        if !(a[i].0 == b[i].0 && a[i].1 == b[i].1) {
            assert(options_view(a@)[i as int] != options_view(b@)[i as int]);
            return false;
        }
        i += 1;
    }
    assert(options_view(a@) =~= options_view(b@));
    true
}

impl Clone for MenuConfig {
    fn clone(&self) -> (r: MenuConfig)
        ensures
            r@ == self@,
    {
        let mut options: Vec<(String, String)> = Vec::new();
        let mut i: usize = 0;
        while i < self.options.len()
            invariant
                i <= self.options.len(),
                options.len() == i,
                options_view(options@) == options_view(self.options@).subrange(0, i as int),
            decreases self.options.len() - i,
        {
            let ghost before = options@;
            let key = self.options[i].0.clone();
            let command = self.options[i].1.clone();
            options.push((key, command));
            i += 1;
            assert forall|k: int| 0 <= k < i implies options_view(options@)[k] == options_view(
                self.options@,
            ).subrange(0, i as int)[k] by {
                if k < i - 1 {
                    assert(options_view(options@)[k] == options_view(before)[k]);
                    assert(options_view(before)[k] == options_view(self.options@).subrange(
                        0,
                        i - 1,
                    )[k]);
                }
            }
            assert(options_view(options@) =~= options_view(self.options@).subrange(0, i as int));
        }
        assert(options_view(options@) =~= options_view(self.options@));
        MenuConfig {
            menu_name: self.menu_name.clone(),
            additional_flags: self.additional_flags.clone(),
            options,
        }
    }
}

impl PartialEq for MenuConfig {
    fn eq(&self, other: &MenuConfig) -> (r: bool) {
        self.menu_name == other.menu_name && self.additional_flags == other.additional_flags
            && same_options(&self.options, &other.options)
    }
}

impl Eq for MenuConfig {

}

impl vstd::std_specs::cmp::PartialEqSpecImpl for MenuConfig {
    open spec fn obeys_eq_spec() -> bool {
        true
    }

    open spec fn eq_spec(&self, other: &MenuConfig) -> bool {
        self@ == other@
    }
}

/// The menus of `menus` as what they are.
pub open spec fn menu_views(menus: Seq<MenuConfig>) -> Seq<MenuView> {
    Seq::new(menus.len(), |i: int| menus[i]@)
}

/// The menus of a configuration, found by name. It holds at most one menu of
/// each name, in the order in which the names first came.
#[derive(Debug)]
pub struct MenuTable {
    entries: Vec<MenuConfig>,
}

impl View for MenuTable {
    type V = Map<Seq<char>, MenuView>;

    open spec fn view(&self) -> Map<Seq<char>, MenuView> {
        table_of(self.entries())
    }
}

impl MenuTable {
    /// The menus in the order in which the table holds them.
    pub closed spec fn entries(&self) -> Seq<MenuView> {
        menu_views(self.entries@)
    }

    /// No name occurs twice.
    #[verifier::type_invariant]
    pub closed spec fn wf(&self) -> bool {
        distinct_names(self.entries())
    }

    /// A table that is well formed holds no name twice.
    pub proof fn lemma_wf(&self)
        requires
            self.wf(),
        ensures
            distinct_names(self.entries()),
    {
    }

    /// The empty table.
    pub fn new() -> (r: MenuTable)
        ensures
            r.entries() == Seq::<MenuView>::empty(),
            r@ == Map::<Seq<char>, MenuView>::empty(),
            r.wf(),
    {
        let entries: Vec<MenuConfig> = Vec::new();
        assert(menu_views(entries@) =~= Seq::<MenuView>::empty());
        MenuTable { entries }
    }

    /// The number of menus.
    pub fn len(&self) -> (r: usize)
        ensures
            r == self@.dom().len(),
            r == self.entries().len(),
            self@.dom().finite(),
    {
        proof {
            use_type_invariant(self);
            lemma_table_size(self.entries());
        }
        self.entries.len()
    }

    /// The index of the first menu called `name`.
    fn position(&self, name: &String) -> (r: Option<usize>)
        ensures
            match r {
                Some(i) => i < self.entries().len() && self.entries()[i as int].menu_name
                    == name@ && forall|k: int|
                    0 <= k < i ==> (#[trigger] self.entries()[k]).menu_name != name@,
                None => forall|k: int|
                    0 <= k < self.entries().len() ==> (#[trigger] self.entries()[k]).menu_name
                        != name@,
            },
    {
        let mut i: usize = 0;
        while i < self.entries.len()
            invariant
                i <= self.entries.len(),
                forall|k: int| 0 <= k < i ==> (#[trigger] self.entries()[k]).menu_name != name@,
            decreases self.entries.len() - i,
        {
            assert(self.entries()[i as int] == self.entries@[i as int]@);
            if self.entries[i].menu_name == *name {
                return Some(i);
            }
            i += 1;
        }
        None
    }

    /// Puts `menu` into the table under its name. A menu of that name that
    /// was there is replaced as a whole, at its place; a new name goes to the
    /// end.
    pub fn insert(&mut self, menu: MenuConfig)
        ensures
            final(self)@ == old(self)@.insert(menu@.menu_name, menu@),
            final(self).entries() == put(old(self).entries(), menu@),
            final(self).wf(),
    {
        proof {
            use_type_invariant(&*self);
        }
        let ghost before = self.entries();
        let found = self.position(&menu.menu_name);
        let mut entries: Vec<MenuConfig> = Vec::new();
        std::mem::swap(&mut self.entries, &mut entries);
        match found {
            Some(i) => {
                proof {
                    lemma_table_update(before, i as int, menu@);
                    lemma_put_replaces(before, i as int, menu@);
                }
                entries[i] = menu;
                assert(menu_views(entries@) =~= before.update(i as int, menu@));
            },
            None => {
                proof {
                    lemma_table_push(before, menu@);
                    lemma_put_appends(before, menu@);
                }
                entries.push(menu);
                assert(menu_views(entries@) =~= before.push(menu@));
                assert(distinct_names(before.push(menu@)));
            },
        }
        self.entries = entries;
    }

    /// The menu called `name`.
    pub fn get(&self, name: &str) -> (r: Option<&MenuConfig>)
        ensures
            match r {
                Some(menu) => self@.contains_key(name@) && menu@ == self@[name@],
                None => !self@.contains_key(name@),
            },
    {
        proof {
            use_type_invariant(self);
            lemma_table_domain(self.entries(), name@);
        }
        let key = String::from_str(name);
        match self.position(&key) {
            Some(i) => {
                proof {
                    lemma_table_entry(self.entries(), i as int);
                }
                Some(&self.entries[i])
            },
            None => None,
        }
    }

    /// The menus in the order in which the table holds them.
    pub fn menus(&self) -> (r: &Vec<MenuConfig>)
        ensures
            r@.len() == self.entries().len(),
            forall|i: int| 0 <= i < r@.len() ==> (#[trigger] r@[i])@ == self.entries()[i],
            distinct_names(self.entries()),
    {
        proof {
            use_type_invariant(self);
        }
        &self.entries
    }
}

impl Clone for MenuTable {
    fn clone(&self) -> (r: MenuTable)
        ensures
            r.entries() == self.entries(),
            r@ == self@,
    {
        proof {
            use_type_invariant(self);
        }
        let mut entries: Vec<MenuConfig> = Vec::new();
        let mut i: usize = 0;
        while i < self.entries.len()
            invariant
                i <= self.entries.len(),
                entries.len() == i,
                menu_views(entries@) == menu_views(self.entries@).subrange(0, i as int),
            decreases self.entries.len() - i,
        {
            let ghost before = entries@;
            let menu = self.entries[i].clone();
            entries.push(menu);
            i += 1;
            assert forall|k: int| 0 <= k < i implies menu_views(entries@)[k] == menu_views(
                self.entries@,
            ).subrange(0, i as int)[k] by {
                if k < i - 1 {
                    assert(menu_views(entries@)[k] == menu_views(before)[k]);
                    assert(menu_views(before)[k] == menu_views(self.entries@).subrange(0, i - 1)[k]);
                }
            }
            assert(menu_views(entries@) =~= menu_views(self.entries@).subrange(0, i as int));
        }
        assert(menu_views(entries@) =~= menu_views(self.entries@));
        MenuTable { entries }
    }
}

/// The character sequences of `names`.
pub open spec fn strings_view(names: Seq<String>) -> Seq<Seq<char>> {
    Seq::new(names.len(), |i: int| names[i]@)
}

/// Every menu of `inner` is in `outer` under its name, the same in all parts.
pub open spec fn table_within(
    inner: Map<Seq<char>, MenuView>,
    outer: Map<Seq<char>, MenuView>,
) -> bool {
    forall|name: Seq<char>| #[trigger]
        inner.contains_key(name) ==> outer.contains_key(name) && outer[name] == inner[name]
}

impl MenuTable {
    /// The names of the menus, each once, in the order in which the table
    /// holds them.
    pub fn names(&self) -> (r: Vec<String>)
        ensures
            strings_view(r@) == names_of(self.entries()),
            names_of(self.entries()).no_duplicates(),
            forall|name: Seq<char>|
                self@.contains_key(name) <==> names_of(self.entries()).contains(name),
    {
        proof {
            use_type_invariant(self);
        }
        let mut names: Vec<String> = Vec::new();
        let mut i: usize = 0;
        while i < self.entries.len()
            invariant
                i <= self.entries.len(),
                names.len() == i,
                forall|k: int| 0 <= k < i ==> (#[trigger] names@[k])@ == self.entries()[k].menu_name,
            decreases self.entries.len() - i,
        {
            assert(self.entries()[i as int] == self.entries@[i as int]@);
            names.push(self.entries[i].menu_name.clone());
            i += 1;
        }
        proof {
            let all = names_of(self.entries());
            assert(strings_view(names@) =~= all);
            assert forall|name: Seq<char>| self@.contains_key(name) <==> all.contains(name) by {
                lemma_table_domain(self.entries(), name);
                if self@.contains_key(name) {
                    let k = choose|k: int|
                        0 <= k < self.entries().len() && (#[trigger] self.entries()[k]).menu_name
                            == name;
                    assert(all[k] == name);
                }
                if all.contains(name) {
                    let k = choose|k: int| 0 <= k < all.len() && all[k] == name;
                    assert(self.entries()[k].menu_name == name);
                }
            }
            assert forall|a: int, b: int| 0 <= a < all.len() && 0 <= b < all.len() && a != b implies all[a]
                != all[b] by {
                assert(all[a] == self.entries()[a].menu_name);
                assert(all[b] == self.entries()[b].menu_name);
            }
        }
        names
    }

    /// Whether every menu of `other` is in this table, the same in all parts.
    pub fn includes(&self, other: &MenuTable) -> (r: bool)
        ensures
            r == table_within(other@, self@),
    {
        proof {
            use_type_invariant(other);
        }
        let mut i: usize = 0;
        while i < other.entries.len()
            invariant
                i <= other.entries.len(),
                distinct_names(other.entries()),
                forall|k: int|
                    0 <= k < i ==> self@.contains_key((#[trigger] other.entries()[k]).menu_name)
                        && self@[other.entries()[k].menu_name] == other.entries()[k],
            decreases other.entries.len() - i,
        {
            let theirs = &other.entries[i];
            assert(other.entries()[i as int] == theirs@);
            proof {
                lemma_table_entry(other.entries(), i as int);
            }
            let same = match self.get(theirs.menu_name.as_str()) {
                Some(ours) => *ours == *theirs,
                None => false,
            };
            if !same {
                assert(other@.contains_key(theirs@.menu_name));
                return false;
            }
            i += 1;
        }
        proof {
            assert forall|name: Seq<char>| #[trigger] other@.contains_key(name) implies self@.contains_key(
                name,
            ) && self@[name] == other@[name] by {
                lemma_table_domain(other.entries(), name);
                let k = choose|k: int|
                    0 <= k < other.entries().len() && (#[trigger] other.entries()[k]).menu_name
                        == name;
                lemma_table_entry(other.entries(), k);
            }
        }
        true
    }
}

impl PartialEq for MenuTable {
    fn eq(&self, other: &MenuTable) -> (r: bool) {
        let r = self.includes(other) && other.includes(self);
        proof {
            if r {
                assert(self@ =~= other@);
            }
        }
        r
    }
}

impl Eq for MenuTable {

}

impl vstd::std_specs::cmp::PartialEqSpecImpl for MenuTable {
    open spec fn obeys_eq_spec() -> bool {
        true
    }

    open spec fn eq_spec(&self, other: &MenuTable) -> bool {
        self@ == other@
    }
}

/// A parsed configuration: the menu program and the menus.
#[derive(Debug)]
pub struct Configuration {
    pub menus: MenuTable,
    pub menu_system: MenuSystem,
}

impl View for Configuration {
    type V = ConfigurationView;

    open spec fn view(&self) -> ConfigurationView {
        ConfigurationView { menu_system: self.menu_system@, menus: self.menus@ }
    }
}

impl Clone for Configuration {
    fn clone(&self) -> (r: Configuration)
        ensures
            r@ == self@,
            r.menus.entries() == self.menus.entries(),
    {
        Configuration { menus: self.menus.clone(), menu_system: self.menu_system.clone() }
    }
}

impl PartialEq for Configuration {
    fn eq(&self, other: &Configuration) -> (r: bool) {
        self.menu_system == other.menu_system && self.menus == other.menus
    }
}

impl Eq for Configuration {

}

impl vstd::std_specs::cmp::PartialEqSpecImpl for Configuration {
    open spec fn obeys_eq_spec() -> bool {
        true
    }

    open spec fn eq_spec(&self, other: &Configuration) -> bool {
        self@ == other@
    }
}

} // verus!
