//! Application menus and the commands that their items send.

use vstd::prelude::*;
use crate::event::KeyCode;
use crate::live_id::LiveId;

verus! {

/// How a command is bound to the keyboard, and whether it can be chosen.
#[derive(Clone, Copy)]
pub struct CxCommandSetting {
    pub shift: bool,
    pub key_code: KeyCode,
    pub enabled: bool,
}

impl Default for CxCommandSetting {
    fn default() -> (r: CxCommandSetting)
        ensures
            r == (CxCommandSetting { shift: false, key_code: KeyCode::Unknown, enabled: false }),
    {
        CxCommandSetting { shift: false, key_code: KeyCode::Unknown, enabled: false }
    }
}

/// A command, named by an id.
#[derive(Clone, Copy, Debug, PartialEq, Eq, Hash, Structural)]
pub struct Command(pub LiveId);

impl Default for Command {
    fn default() -> (r: Command)
        ensures
            r == Command(LiveId(0)),
    {
        Command(LiveId(0))
    }
}

impl From<LiveId> for Command {
    fn from(live_id: LiveId) -> (r: Command) {
        Command(live_id)
    }
}

impl vstd::std_specs::convert::FromSpecImpl<LiveId> for Command {
    open spec fn obeys_from_spec() -> bool {
        true
    }

    open spec fn from_spec(live_id: LiveId) -> Command {
        Command(live_id)
    }
}

/// A menu: the main menu bar, an item that sends a command, a submenu, or a
/// separating line.
pub enum Menu {
    Main { items: Vec<Menu> },
    Item { name: String, command: Command },
    Sub { name: String, items: Vec<Menu> },
    Line,
}

/// What a menu holds, as a mathematical value.
pub enum MenuView {
    Main { items: Seq<MenuView> },
    Item { name: Seq<char>, command: Command },
    Sub { name: Seq<char>, items: Seq<MenuView> },
    Line,
}

impl View for Menu {
    type V = MenuView;

    open spec fn view(&self) -> MenuView {
        self.model()
    }
}

/// What a list of menus holds.
pub open spec fn menus_view(items: Seq<Menu>) -> Seq<MenuView> {
    Seq::new(items.len(), |i: int| items[i].model())
}

impl Menu {
    /// What the menu holds.
    pub open spec fn model(&self) -> MenuView
        decreases self,
    {
        match self {
            Menu::Main { items } => MenuView::Main {
                items: Seq::new(
                    items@.len(),
                    |i: int|
                        if 0 <= i < items@.len() {
                            items@[i].model()
                        } else {
                            MenuView::Line
                        },
                ),
            },
            Menu::Item { name, command } => MenuView::Item { name: name@, command: *command },
            Menu::Sub { name, items } => MenuView::Sub {
                name: name@,
                items: Seq::new(
                    items@.len(),
                    |i: int|
                        if 0 <= i < items@.len() {
                            items@[i].model()
                        } else {
                            MenuView::Line
                        },
                ),
            },
            Menu::Line => MenuView::Line,
        }
    }

    proof fn lemma_main_view(items: Vec<Menu>)
        ensures
            (Menu::Main { items })@ == (MenuView::Main { items: menus_view(items@) }),
    {
        assert((Menu::Main { items })@->Main_items =~= menus_view(items@));
    }

    proof fn lemma_items_view(name: String, items: Vec<Menu>)
        ensures
            (Menu::Sub { name, items })@ == (MenuView::Sub { name: name@, items: menus_view(items@) }),
    {
        assert((Menu::Sub { name, items })@->Sub_items =~= menus_view(items@));
    }

    fn clone_items(items: &Vec<Menu>) -> (r: Vec<Menu>)
        ensures
            menus_view(r@) == menus_view(items@),
        decreases *items,
    {
        let mut out: Vec<Menu> = Vec::new();
        let mut i: usize = 0;
        while i < items.len()
            invariant
                i <= items@.len(),
                out@.len() == i,
                forall|j: int| 0 <= j < i ==> out@[j]@ == items@[j]@,
            decreases items@.len() - i,
        {
            out.push(items[i].clone());
            i += 1;
        }
        proof {
            assert(menus_view(out@) =~= menus_view(items@));
        }
        out
    }

    fn same_items(a: &Vec<Menu>, b: &Vec<Menu>) -> (r: bool)
        ensures
            r == (menus_view(a@) == menus_view(b@)),
        decreases *a,
    {
        if a.len() != b.len() {
            proof {
                assert(menus_view(a@).len() != menus_view(b@).len());
            }
            return false;
        }
        let mut i: usize = 0;
        while i < a.len()
            invariant
                i <= a@.len() == b@.len(),
                forall|j: int| 0 <= j < i ==> a@[j]@ == b@[j]@,
            decreases a@.len() - i,
        {
            if !a[i].same(&b[i]) {
                proof {
                    assert(menus_view(a@)[i as int] != menus_view(b@)[i as int]);
                }
                return false;
            }
            i += 1;
        }
        proof {
            assert(menus_view(a@) =~= menus_view(b@));
        }
        true
    }

    /// Whether two menus hold the same.
    pub fn same(&self, other: &Menu) -> (r: bool)
        ensures
            r == (self@ == other@),
        decreases *self,
    {
        match (self, other) {
            (Menu::Main { items: a }, Menu::Main { items: b }) => {
                proof {
                    Menu::lemma_main_view(*a);
                    Menu::lemma_main_view(*b);
                }
                Menu::same_items(a, b)
            },
            (Menu::Item { name: a, command: c }, Menu::Item { name: b, command: d }) => {
                *a == *b && c.0.0 == d.0.0
            },
            (Menu::Sub { name: n, items: a }, Menu::Sub { name: m, items: b }) => {
                proof {
                    Menu::lemma_items_view(*n, *a);
                    Menu::lemma_items_view(*m, *b);
                }
                *n == *m && Menu::same_items(a, b)
            },
            (Menu::Line, Menu::Line) => true,
            _ => false,
        }
    }

    pub fn main(items: Vec<Menu>) -> (r: Menu)
        ensures
            r == (Menu::Main { items }),
    {
        Menu::Main { items }
    }

    pub fn sub(name: &str, items: Vec<Menu>) -> (r: Menu)
        ensures
            r matches Menu::Sub { name: n, items: i } && n@ == name@ && i == items,
    {
        Menu::Sub { name: name.to_owned(), items }
    }

    pub fn line() -> (r: Menu)
        ensures
            r == Menu::Line,
    {
        Menu::Line
    }

    pub fn item(name: &str, command: Command) -> (r: Menu)
        ensures
            r matches Menu::Item { name: n, command: c } && n@ == name@ && c == command,
    {
        Menu::Item { name: name.to_owned(), command }
    }
}

impl Clone for Menu {
    fn clone(&self) -> (r: Menu)
        ensures
            r@ == self@,
        decreases *self,
    {
        match self {
            Menu::Main { items } => {
                let out = Menu::clone_items(items);
                proof {
                    Menu::lemma_main_view(*items);
                    Menu::lemma_main_view(out);
                }
                Menu::Main { items: out }
            },
            Menu::Item { name, command } => Menu::Item { name: name.clone(), command: *command },
            Menu::Sub { name, items } => {
                let out = Menu::clone_items(items);
                let n = name.clone();
                proof {
                    Menu::lemma_items_view(*name, *items);
                    Menu::lemma_items_view(n, out);
                }
                Menu::Sub { name: n, items: out }
            },
            Menu::Line => Menu::Line,
        }
    }
}

impl PartialEq for Menu {
    fn eq(&self, other: &Menu) -> (r: bool) {
        self.same(other)
    }
}

impl vstd::std_specs::cmp::PartialEqSpecImpl for Menu {
    open spec fn obeys_eq_spec() -> bool {
        true
    }

    open spec fn eq_spec(&self, other: &Menu) -> bool {
        self@ == other@
    }
}

} // verus!
