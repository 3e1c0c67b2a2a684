//! The Menu Manager looks after the menu tree and where we currently are
//! within it: a bounded stack of item indices, one per nesting level.

use vstd::prelude::*;

use crate::menu::lemma_path_valid_prefix;
use crate::menu::lemma_path_valid_snoc;
use crate::menu::lemma_path_valid_step;
use crate::menu::menu_at;
use crate::menu::path_valid;
use crate::menu::ItemType;
use crate::menu::Menu;

verus! {

/// The deepest nesting the navigator accepts.
pub const MAX_DEPTH: usize = 4;

/// Holds a nested tree of menus and remembers which menu within the tree
/// we are currently looking at.
pub struct MenuManager<H> {
    menu: Menu<H>,
    path: Vec<usize>,
}

impl<H> MenuManager<H> {
    /// The root menu the navigator was built with.
    pub closed spec fn root(&self) -> Menu<H> {
        self.menu
    }

    /// The indices descended through, outermost first.
    pub closed spec fn path_view(&self) -> Seq<usize> {
        self.path@
    }

    /// The recorded descent: at most `MAX_DEPTH` indices, each selecting a
    /// `Menu` item of the menu above it.
    pub open spec fn wf(&self) -> bool {
        &&& path_valid(self.root(), self.path_view())
        &&& self.path_view().len() <= MAX_DEPTH
    }

    /// The menu currently looked at.
    pub open spec fn current(&self) -> Menu<H> {
        menu_at(self.root(), self.path_view())
    }

    /// Create a new `MenuManager`, looking at the top level of `menu`.
    pub fn new(menu: Menu<H>) -> (r: MenuManager<H>)
        ensures
            r.wf(),
            r.root() == menu,
            r.path_view() == Seq::<usize>::empty(),
    {
        MenuManager { menu, path: Vec::new() }
    }

    /// How deep into the tree are we?
    pub fn depth(&self) -> (r: usize)
        ensures
            r == self.path_view().len(),
    {
        self.path.len()
    }

    /// Go back up to the next higher menu; at the top level, stay there.
    pub fn pop_menu(&mut self)
        requires
            old(self).wf(),
        ensures
            final(self).wf(),
            final(self).root() == old(self).root(),
            final(self).path_view() == if old(self).path_view().len() == 0 {
                old(self).path_view()
            } else {
                old(self).path_view().drop_last()
            },
    {
        proof {
            if self.path@.len() > 0 {
                lemma_path_valid_prefix(self.menu, self.path@, self.path@.len() - 1);
            }
        }
        if self.path.len() > 0 {
            self.path.pop();
        }
    }

    /// Drop into the sub-menu behind item `index` of the current menu.
    ///
    /// The index must select a `Menu` item, not any other kind of item.
    /// Returns whether the descent happened: at the depth limit nothing
    /// changes and the caller reports the capacity error.
    pub fn push_menu(&mut self, index: usize) -> (r: bool)
        requires
            old(self).wf(),
            (index as int) < old(self).current().items@.len(),
            old(self).current().items@[index as int].item_type is Menu,
        ensures
            final(self).wf(),
            final(self).root() == old(self).root(),
            r == (old(self).path_view().len() < MAX_DEPTH),
            r ==> final(self).path_view() == old(self).path_view().push(index),
            !r ==> *final(self) == *old(self),
            final(self).path_view().len() <= MAX_DEPTH,
    {
        if self.path.len() >= MAX_DEPTH {
            return false;
        }
        proof {
            lemma_path_valid_snoc(self.menu, self.path@, index);
        }
        self.path.push(index);
        true
    }

    /// Get a menu by reference.
    ///
    /// If `depth` is `None`, the current menu; for `Some(i)`, the menu
    /// reached after the first `i` recorded descents.
    pub fn get_menu(&self, depth: Option<usize>) -> (r: &Menu<H>)
        requires
            self.wf(),
            depth matches Some(d) ==> d <= self.path_view().len(),
        ensures
            *r == menu_at(
                self.root(),
                self.path_view().take(
                    match depth {
                        Some(d) => d as int,
                        None => self.path_view().len() as int,
                    },
                ),
            ),
    {
        let d = match depth {
            Some(d) => d,
            None => self.path.len(),
        };
        let mut m: &Menu<H> = &self.menu;
        let mut i: usize = 0;
        proof {
            assert(self.path@.take(0) =~= Seq::<usize>::empty());
        }
        while i < d
            invariant
                i <= d,
                d <= self.path@.len(),
                self.wf(),
                *m == menu_at(self.menu, self.path@.take(i as int)),
            decreases d - i,
        {
            proof {
                lemma_path_valid_step(self.menu, self.path@, i as int);
            }
            let idx = self.path[i];
            let next: &Menu<H> = match &m.items[idx].item_type {
                ItemType::Menu(b) => b,
                ItemType::Callback { .. } => {
                    proof {
                        assert(false);
                    }
                    m
                },
            };
            m = next;
            i = i + 1;
        }
        proof {
            if depth is None {
                assert(self.path@.take(self.path@.len() as int) =~= self.path@);
            }
        }
        m
    }
}

} // verus!
