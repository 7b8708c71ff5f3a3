//! Keyboard navigation: a list of lanes, and a detail view of the lane that is selected.
use vstd::prelude::*;

verus! {

#[derive(Debug, Clone, Copy, PartialEq, Eq, Structural)]
pub enum Screen {
    List,
    Detail,
}

/// A key that was pressed.
#[derive(Debug, Clone, Copy, PartialEq, Eq, Structural)]
pub enum Key {
    Up,
    Down,
    Enter,
    Escape,
    Quit,
    Other,
}

/// What is on the screen: which lane is selected, in the order of the lanes, and how far its
/// details are scrolled.
#[derive(Debug, Clone, Copy, PartialEq, Eq, Structural)]
pub struct Nav {
    pub screen: Screen,
    pub selected: usize,
    pub scroll: usize,
}

/// The list, with its first lane selected.
pub open spec fn first_nav() -> Nav {
    Nav { screen: Screen::List, selected: 0, scroll: 0 }
}

/// The position before `i`, or the first.
pub open spec fn before(i: usize) -> usize {
    if i > 0 {
        (i - 1) as usize
    } else {
        0
    }
}

/// The position after `i` of `n`, or the last.
pub open spec fn after(i: usize, n: usize) -> usize {
    if i + 1 < n {
        (i + 1) as usize
    } else {
        i
    }
}

/// What is on the screen after a key. In the list of `lanes` lanes the arrows select, and `Enter`
/// opens the details. These have `lines` lines, through which the arrows scroll. `Escape` leads
/// back to the list.
pub open spec fn nav_after(nav: Nav, key: Key, lanes: usize, lines: usize) -> Nav {
    match nav.screen {
        Screen::List => match key {
            Key::Up => Nav { selected: before(nav.selected), ..nav },
            Key::Down => Nav { selected: after(nav.selected, lanes), ..nav },
            Key::Enter => if nav.selected < lanes {
                Nav { screen: Screen::Detail, scroll: 0, ..nav }
            } else {
                nav
            },
            _ => nav,
        },
        Screen::Detail => match key {
            Key::Up => Nav { scroll: before(nav.scroll), ..nav },
            Key::Down => Nav { scroll: after(nav.scroll, lines), ..nav },
            Key::Escape => Nav { screen: Screen::List, ..nav },
            _ => nav,
        },
    }
}

/// Whether a key ends the program: the quit key does, wherever it is pressed.
pub open spec fn ends(key: Key) -> bool {
    key == Key::Quit
}

impl Nav {
    /// The list, with its first lane selected.
    pub fn new() -> (r: Nav)
        ensures
            r == first_nav(),
    {
        Nav { screen: Screen::List, selected: 0, scroll: 0 }
    }

    /// Takes a key, and says whether it ends the program.
    pub fn press(&mut self, key: Key, lanes: usize, lines: usize) -> (r: bool)
        ensures
            *final(self) == nav_after(*old(self), key, lanes, lines),
            r == ends(key),
    {
        match self.screen {
            Screen::List => match key {
                Key::Up => {
                    if self.selected > 0 {
                        self.selected = self.selected - 1;
                    }
                },
                Key::Down => {
                    if self.selected < lanes && self.selected + 1 < lanes {
                        self.selected = self.selected + 1;
                    }
                },
                Key::Enter => {
                    if self.selected < lanes {
                        self.screen = Screen::Detail;
                        self.scroll = 0;
                    }
                },
                _ => {},
            },
            Screen::Detail => match key {
                Key::Up => {
                    if self.scroll > 0 {
                        self.scroll = self.scroll - 1;
                    }
                },
                Key::Down => {
                    if self.scroll < lines && self.scroll + 1 < lines {
                        self.scroll = self.scroll + 1;
                    }
                },
                Key::Escape => {
                    self.screen = Screen::List;
                },
                _ => {},
            },
        }
        key == Key::Quit
    }
}

/// The lane that is selected is one of the lanes, if there are any, whatever key is pressed.
pub proof fn law_selection(nav: Nav, key: Key, lanes: usize, lines: usize)
    requires
        nav.selected < lanes || nav.selected == 0,
    ensures
        ({
            let next = nav_after(nav, key, lanes, lines);
            next.selected < lanes || next.selected == 0
        }),
{
}

/// `Escape` undoes `Enter`: it leads back to the list with the same lane selected.
pub proof fn law_back(nav: Nav, lanes: usize, lines: usize)
    requires
        nav.screen == Screen::List,
        nav.selected < lanes,
    ensures
        ({
            let opened = nav_after(nav, Key::Enter, lanes, lines);
            let back = nav_after(opened, Key::Escape, lanes, lines);
            &&& opened.screen == Screen::Detail
            &&& opened.selected == nav.selected
            &&& !ends(Key::Enter)
            &&& !ends(Key::Escape)
            &&& back.screen == Screen::List
            &&& back.selected == nav.selected
        }),
{
}

} // verus!
