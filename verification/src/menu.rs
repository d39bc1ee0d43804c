//! The main menu: its entries and which of them is selected.
use vstd::prelude::*;

verus! {

/// An entry of the main menu.
#[derive(Clone, Copy, Debug, PartialEq, Eq, Structural)]
pub enum MenuOption {
    LocalGame,
    HostMultiplayer,
    JoinMultiplayer,
    Quit,
}

/// The number of entries of the main menu.
pub const MENU_ITEMS: u32 = 4;

impl MenuOption {
    /// The entry at place `index` of the menu, counted from the top.
    pub open spec fn at(index: u32) -> Option<MenuOption> {
        if index == 0 {
            Some(MenuOption::LocalGame)
        } else if index == 1 {
            Some(MenuOption::HostMultiplayer)
        } else if index == 2 {
            Some(MenuOption::JoinMultiplayer)
        } else if index == 3 {
            Some(MenuOption::Quit)
        } else {
            None
        }
    }

    /// The text of the entry.
    pub open spec fn label_text(self) -> Seq<char> {
        match self {
            MenuOption::LocalGame => "New Local Game"@,
            MenuOption::HostMultiplayer => "Host Multiplayer Game"@,
            MenuOption::JoinMultiplayer => "Join Multiplayer Game"@,
            MenuOption::Quit => "Quit"@,
        }
    }

    /// The entry at place `index` of the menu; `None` past the last entry.
    pub fn from_index(index: u32) -> (r: Option<MenuOption>)
        ensures
            r == MenuOption::at(index),
            r is Some <==> index < MENU_ITEMS,
    {
        match index {
            0 => Some(MenuOption::LocalGame),
            1 => Some(MenuOption::HostMultiplayer),
            2 => Some(MenuOption::JoinMultiplayer),
            3 => Some(MenuOption::Quit),
            _ => None,
        }
    }

    /// The text of the entry.
    pub fn label(&self) -> (r: &'static str)
        ensures
            r@ == self.label_text(),
    {
        match self {
            MenuOption::LocalGame => "New Local Game",
            MenuOption::HostMultiplayer => "Host Multiplayer Game",
            MenuOption::JoinMultiplayer => "Join Multiplayer Game",
            MenuOption::Quit => "Quit",
        }
    }
}

/// `index` after one step down a menu of `items` entries: the next entry,
/// and the last entry stays the last.
pub open spec fn step_down(index: u32, items: u32) -> u32
    recommends
        items > 0,
{
    if index + 1 < items {
        (index + 1) as u32
    } else {
        (items - 1) as u32
    }
}

/// `index` after one step up a menu of `items` entries: the entry before,
/// and the first entry stays the first.
pub open spec fn step_up(index: u32, items: u32) -> u32
    recommends
        items > 0,
{
    if index == 0 {
        0
    } else if index - 1 < items {
        (index - 1) as u32
    } else {
        (items - 1) as u32
    }
}

/// One step down a menu of `items` entries.
pub fn move_down(index: u32, items: u32) -> (r: u32)
    requires
        items > 0,
    ensures
        r == step_down(index, items),
        r < items,
{
    if index < items - 1 {
        index + 1
    } else {
        items - 1
    }
}

/// One step up a menu of `items` entries.
pub fn move_up(index: u32, items: u32) -> (r: u32)
    requires
        items > 0,
    ensures
        r == step_up(index, items),
        r < items,
{
    if index == 0 {
        0
    } else if index - 1 < items {
        index - 1
    } else {
        items - 1
    }
}

/// Which entry of the main menu is selected.
pub struct MenuState {
    pub selected_index: u32,
}

impl MenuState {
    /// The selected entry is one of the menu.
    pub open spec fn wf(&self) -> bool {
        self.selected_index < MENU_ITEMS
    }

    /// The menu with its first entry selected.
    pub fn new() -> (r: MenuState)
        ensures
            r.selected_index == 0,
            r.wf(),
    {
        MenuState { selected_index: 0 }
    }

    /// The down key: selects the next entry, if there is one.
    pub fn key_down(&mut self)
        ensures
            final(self).selected_index == step_down(old(self).selected_index, MENU_ITEMS),
            final(self).wf(),
    {
        self.selected_index = move_down(self.selected_index, MENU_ITEMS);
    }

    /// The up key: selects the entry before, if there is one.
    pub fn key_up(&mut self)
        ensures
            final(self).selected_index == step_up(old(self).selected_index, MENU_ITEMS),
            final(self).wf(),
    {
        self.selected_index = move_up(self.selected_index, MENU_ITEMS);
    }

    /// The pointer is over the entry at place `index`: that entry is
    /// selected. Returns the entry; past the last entry nothing changes.
    pub fn hover(&mut self, index: u32) -> (r: Option<MenuOption>)
        ensures
            r == MenuOption::at(index),
            final(self).selected_index == (if index < MENU_ITEMS {
                index
            } else {
                old(self).selected_index
            }),
    {
        let r = MenuOption::from_index(index);
        if r.is_some() {
            self.selected_index = index;
        }
        r
    }

    /// The enter key: the selected entry.
    pub fn selected_option(&self) -> (r: MenuOption)
        requires
            self.wf(),
        ensures
            MenuOption::at(self.selected_index) == Some(r),
    {
        match MenuOption::from_index(self.selected_index) {
            Some(option) => option,
            None => MenuOption::Quit,
        }
    }
}

} // verus!
