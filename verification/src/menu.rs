//! The menu tree: items, sub-menus and the declared parameter schema.
//!
//! The tree is owned and immutable once built. Handlers are opaque values of
//! a caller-chosen type `H`: the library never invokes them, it only hands
//! them back when a processed command asks for one.

use vstd::prelude::*;

verus! {

/// Describes a parameter to a command.
#[derive(Debug, Clone)]
pub enum Parameter {
    /// A mandatory positional parameter.
    Mandatory { parameter_name: String, help: Option<String> },
    /// An optional positional parameter; must come after the mandatory ones.
    Optional { parameter_name: String, help: Option<String> },
    /// An optional named parameter with no argument, supplied as `--name`.
    Named { parameter_name: String, help: Option<String> },
    /// An optional named parameter with an argument, supplied as `--name=value`.
    NamedValue {
        parameter_name: String,
        /// A label for the value, e.g. `INT`; used only in the help text.
        argument_name: String,
        help: Option<String>,
    },
}

/// The declared name of a parameter.
pub open spec fn param_name(p: Parameter) -> Seq<char> {
    match p {
        Parameter::Mandatory { parameter_name, .. } => parameter_name@,
        Parameter::Optional { parameter_name, .. } => parameter_name@,
        Parameter::Named { parameter_name, .. } => parameter_name@,
        Parameter::NamedValue { parameter_name, .. } => parameter_name@,
    }
}

/// Does entering this command run a function, or drop into a sub-menu?
pub enum ItemType<H> {
    /// Run a handler when this command is entered.
    Callback { function: H, parameters: Vec<Parameter> },
    /// This item is a sub-menu you can enter.
    Menu(Box<Menu<H>>),
}

/// One selectable entry of a menu: a command word, optional help text, and
/// what the command does.
pub struct Item<H> {
    pub command: String,
    pub help: Option<String>,
    pub item_type: ItemType<H>,
}

/// A named collection of items, with optional entry and exit handlers.
pub struct Menu<H> {
    /// Shown in the prompt for the menus above the current one.
    pub label: String,
    pub items: Vec<Item<H>>,
    /// Runs when this menu is entered; for the root, once at start-up.
    pub entry: Option<H>,
    /// Runs when this menu is left; never for the root.
    pub exit: Option<H>,
}

/// The sub-menu behind item `i`, when that item is a `Menu` item.
pub open spec fn submenu<H>(m: Menu<H>, i: int) -> Menu<H>
    recommends
        0 <= i < m.items@.len(),
        m.items@[i].item_type is Menu,
{
    match m.items@[i].item_type {
        ItemType::Menu(b) => *b,
        _ => arbitrary(),
    }
}

/// Every index of `path` selects a `Menu` item of the menu reached so far.
pub open spec fn path_valid<H>(m: Menu<H>, path: Seq<usize>) -> bool
    decreases path.len(),
{
    path.len() == 0 || {
        &&& 0 <= (path[0] as int) < m.items@.len()
        &&& m.items@[path[0] as int].item_type is Menu
        &&& path_valid(submenu(m, path[0] as int), path.drop_first())
    }
}

/// The menu reached from `m` by descending along `path`.
pub open spec fn menu_at<H>(m: Menu<H>, path: Seq<usize>) -> Menu<H>
    recommends
        path_valid(m, path),
    decreases path.len(),
{
    if path.len() == 0 {
        m
    } else {
        menu_at(submenu(m, path[0] as int), path.drop_first())
    }
}

/// A prefix of a valid path is valid.
pub proof fn lemma_path_valid_prefix<H>(m: Menu<H>, path: Seq<usize>, j: int)
    requires
        path_valid(m, path),
        0 <= j <= path.len(),
    ensures
        path_valid(m, path.take(j)),
    decreases path.len(),
{
    if j > 0 && path.len() > 0 {
        assert(path.take(j).drop_first() =~= path.drop_first().take(j - 1));
        lemma_path_valid_prefix(submenu(m, path[0] as int), path.drop_first(), j - 1);
    }
}

/// Descending one more level by a `Menu` item of the current menu keeps the
/// path valid.
pub proof fn lemma_path_valid_snoc<H>(m: Menu<H>, path: Seq<usize>, index: usize)
    requires
        path_valid(m, path),
        (index as int) < menu_at(m, path).items@.len(),
        menu_at(m, path).items@[index as int].item_type is Menu,
    ensures
        path_valid(m, path.push(index)),
    decreases path.len(),
{
    let p1 = path.push(index);
    if path.len() == 0 {
        assert(p1[0] == index);
        assert(p1.drop_first() =~= Seq::<usize>::empty());
        assert(path_valid(submenu(m, p1[0] as int), p1.drop_first()));
    } else {
        lemma_path_valid_snoc(submenu(m, path[0] as int), path.drop_first(), index);
        assert(p1[0] == path[0]);
        assert(p1.drop_first() =~= path.drop_first().push(index));
        assert(path_valid(submenu(m, p1[0] as int), p1.drop_first()));
    }
}

/// The menu reached by one more step is the sub-menu selected by that step.
pub proof fn lemma_menu_at_snoc<H>(m: Menu<H>, path: Seq<usize>, index: usize)
    requires
        path_valid(m, path),
    ensures
        menu_at(m, path.push(index)) == submenu(menu_at(m, path), index as int),
    decreases path.len(),
{
    let p1 = path.push(index);
    if path.len() == 0 {
        assert(p1[0] == index);
        assert(p1.drop_first() =~= Seq::<usize>::empty());
        assert(menu_at(submenu(m, p1[0] as int), p1.drop_first()) == submenu(m, index as int));
        assert(menu_at(m, p1) == menu_at(submenu(m, p1[0] as int), p1.drop_first()));
    } else {
        lemma_menu_at_snoc(submenu(m, path[0] as int), path.drop_first(), index);
        assert(p1[0] == path[0]);
        assert(p1.drop_first() =~= path.drop_first().push(index));
        assert(menu_at(m, p1) == menu_at(submenu(m, p1[0] as int), p1.drop_first()));
    }
}

/// Step `i` of a valid path selects a `Menu` item of the menu reached after
/// `i` steps, and descends into it.
pub proof fn lemma_path_valid_step<H>(m: Menu<H>, path: Seq<usize>, i: int)
    requires
        path_valid(m, path),
        0 <= i < path.len(),
    ensures
        (path[i] as int) < menu_at(m, path.take(i)).items@.len(),
        menu_at(m, path.take(i)).items@[path[i] as int].item_type is Menu,
        menu_at(m, path.take(i + 1)) == submenu(menu_at(m, path.take(i)), path[i] as int),
    decreases path.len(),
{
    if i == 0 {
        assert(path.take(0) =~= Seq::<usize>::empty());
        assert(menu_at(m, path.take(0)) == m);
        assert(path.take(1)[0] == path[0]);
        assert(path.take(1).drop_first() =~= Seq::<usize>::empty());
        assert(menu_at(m, path.take(1)) == menu_at(
            submenu(m, path.take(1)[0] as int),
            path.take(1).drop_first(),
        ));
        assert(menu_at(submenu(m, path[0] as int), path.take(1).drop_first()) == submenu(
            m,
            path[0] as int,
        ));
    } else {
        lemma_path_valid_step(submenu(m, path[0] as int), path.drop_first(), i - 1);
        assert(path.drop_first().take(i - 1) =~= path.take(i).drop_first());
        assert(path.drop_first().take(i) =~= path.take(i + 1).drop_first());
        assert(path.take(i)[0] == path[0]);
        assert(path.take(i + 1)[0] == path[0]);
        assert(path.drop_first()[i - 1] == path[i]);
        assert(menu_at(m, path.take(i)) == menu_at(
            submenu(m, path.take(i)[0] as int),
            path.take(i).drop_first(),
        ));
        assert(menu_at(m, path.take(i + 1)) == menu_at(
            submenu(m, path.take(i + 1)[0] as int),
            path.take(i + 1).drop_first(),
        ));
    }
}

/// The first item whose command word is `cmd`, if any.
pub open spec fn find_item<H>(items: Seq<Item<H>>, cmd: Seq<char>) -> Option<int>
    decreases items.len(),
{
    if items.len() == 0 {
        None
    } else if items.first().command@ == cmd {
        Some(0)
    } else {
        match find_item(items.drop_first(), cmd) {
            Some(i) => Some(i + 1),
            None => None,
        }
    }
}

/// `find_item` returns the first match and nothing else.
pub proof fn lemma_find_item_is<H>(items: Seq<Item<H>>, cmd: Seq<char>, j: int)
    requires
        0 <= j <= items.len(),
        forall|k: int| 0 <= k < j ==> items[k].command@ != cmd,
        j < items.len() ==> items[j].command@ == cmd,
    ensures
        j < items.len() ==> find_item(items, cmd) == Some(j),
        j == items.len() ==> find_item(items, cmd) is None,
    decreases items.len(),
{
    if items.len() > 0 && j > 0 {
        let rest = items.drop_first();
        assert(forall|k: int| 0 <= k < rest.len() ==> rest[k] == items[k + 1]);
        lemma_find_item_is(rest, cmd, j - 1);
    }
}

/// What `find_item` returns: the first match, or nothing anywhere.
pub proof fn lemma_find_item_props<H>(items: Seq<Item<H>>, cmd: Seq<char>)
    ensures
        match find_item(items, cmd) {
            Some(i) => 0 <= i < items.len() && items[i].command@ == cmd && (forall|k: int|
                0 <= k < i ==> items[k].command@ != cmd),
            None => forall|k: int| 0 <= k < items.len() ==> items[k].command@ != cmd,
        },
    decreases items.len(),
{
    if items.len() > 0 && items.first().command@ != cmd {
        let rest = items.drop_first();
        lemma_find_item_props(rest, cmd);
        match find_item(items, cmd) {
            Some(i) => {
                assert(items[i] == rest[i - 1]);
                assert forall|k: int| 0 <= k < i implies items[k].command@ != cmd by {
                    if k > 0 {
                        assert(items[k] == rest[k - 1]);
                    }
                }
            },
            None => {
                assert forall|k: int| 0 <= k < items.len() implies items[k].command@ != cmd by {
                    if k > 0 {
                        assert(items[k] == rest[k - 1]);
                    }
                }
            },
        }
    }
}

} // verus!
