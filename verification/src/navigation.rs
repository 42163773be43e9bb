//! What a key press does to the application: which page is shown, whether
//! the menu is, whether the search box has the focus, and whether the
//! page is to scroll.

use vstd::prelude::*;
use crate::widgets::text_input::{apply_key, Key, Modifiers, TextInputState, TextModel};
use crate::widgets::wallets_table::WalletsTableState;

verus! {

/// The pages of the application, in the order of the menu.
#[derive(Clone, Copy, Debug, PartialEq, Eq, Structural)]
pub enum Page {
    Intro,
    Dashboard,
    Wallets,
}

/// A step by which the page in view is to scroll.
#[derive(Clone, Copy, Debug, PartialEq, Eq, Structural)]
pub enum Scroll {
    Down,
    Up,
}

/// The state of the application that keys act on.
pub struct AppState {
    pub page: Page,
    pub show_menu: bool,
    pub should_exit: bool,
    pub wallets: WalletsTableState,
}

/// The mathematical model of that state.
pub ghost struct AppModel {
    pub page: Page,
    pub show_menu: bool,
    pub should_exit: bool,
    pub search: TextModel,
    pub search_focused: bool,
}

/// The hint of the search box.
pub open spec fn search_hint() -> Seq<char> {
    "\u{ef}\u{20ac}\u{201a} Search..."@
}

impl Page {
    /// The page behind this one in the menu; the first behind the last.
    pub open spec fn next(self) -> Page {
        match self {
            Page::Intro => Page::Dashboard,
            Page::Dashboard => Page::Wallets,
            Page::Wallets => Page::Intro,
        }
    }

    /// The page before this one in the menu; the last before the first.
    pub open spec fn previous(self) -> Page {
        match self {
            Page::Intro => Page::Wallets,
            Page::Dashboard => Page::Intro,
            Page::Wallets => Page::Dashboard,
        }
    }

    /// The place of the page in the menu, from zero.
    pub open spec fn index(self) -> int {
        match self {
            Page::Intro => 0,
            Page::Dashboard => 1,
            Page::Wallets => 2,
        }
    }

    /// Computes [`Page::next`].
    pub fn following(self) -> (r: Page)
        ensures
            r == self.next(),
    {
        match self {
            Page::Intro => Page::Dashboard,
            Page::Dashboard => Page::Wallets,
            Page::Wallets => Page::Intro,
        }
    }

    /// Computes [`Page::previous`].
    pub fn preceding(self) -> (r: Page)
        ensures
            r == self.previous(),
    {
        match self {
            Page::Intro => Page::Wallets,
            Page::Dashboard => Page::Intro,
            Page::Wallets => Page::Dashboard,
        }
    }

    /// Computes [`Page::index`].
    pub fn menu_index(self) -> (r: usize)
        ensures
            r == self.index(),
    {
        match self {
            Page::Intro => 0,
            Page::Dashboard => 1,
            Page::Wallets => 2,
        }
    }
}

/// Whether the search box takes the keys: on the wallets page, while it
/// has the focus.
pub open spec fn searching(m: AppModel) -> bool {
    m.page == Page::Wallets && m.search_focused
}

/// Whether a key gives the focus of the search box up.
pub open spec fn leaves_search(key: Key) -> bool {
    key is Esc || key is Tab || key is BackTab
}

/// The step by which a key scrolls the page, if it does.
pub open spec fn scroll_of(key: Key, modifiers: Modifiers) -> Option<Scroll> {
    match key {
        Key::Down | Key::PageDown => Some(Scroll::Down),
        Key::Up | Key::PageUp => Some(Scroll::Up),
        Key::Char(c) => if c == 'j' {
            Some(Scroll::Down)
        } else if c == 'k' {
            Some(Scroll::Up)
        } else if c == 'd' && modifiers.control {
            Some(Scroll::Down)
        } else if c == 'u' && modifiers.control {
            Some(Scroll::Up)
        } else {
            None
        },
        _ => None,
    }
}

/// The state after a key event. Only a press counts. While the search
/// box takes the keys, a key either gives its focus up or goes to its
/// text line. Otherwise a key may end the application, show or hide the
/// menu, give the search box of the wallets page the focus, or change
/// the page.
pub open spec fn after_key(m: AppModel, pressed: bool, key: Key, modifiers: Modifiers) -> AppModel {
    if !pressed {
        m
    } else if searching(m) {
        AppModel { search: apply_key(m.search, key), search_focused: !leaves_search(key), ..m }
    } else {
        match key {
            Key::Esc => AppModel { should_exit: true, ..m },
            Key::Tab => AppModel { page: m.page.next(), ..m },
            Key::BackTab => AppModel { page: m.page.previous(), ..m },
            Key::Char(c) => if c == 'q' {
                AppModel { should_exit: true, ..m }
            } else if c == 'm' {
                AppModel { show_menu: !m.show_menu, ..m }
            } else if (c == 's' || c == 'f') && m.page == Page::Wallets {
                AppModel { search_focused: true, ..m }
            } else {
                m
            },
            _ => m,
        }
    }
}

/// The step by which the page is to scroll after a key event: none
/// unless the key is pressed and the search box does not take it.
pub open spec fn scroll_after(m: AppModel, pressed: bool, key: Key, modifiers: Modifiers) -> Option<
    Scroll,
> {
    if !pressed || searching(m) {
        None
    } else {
        scroll_of(key, modifiers)
    }
}

impl View for AppState {
    type V = AppModel;

    open spec fn view(&self) -> AppModel {
        AppModel {
            page: self.page,
            show_menu: self.show_menu,
            should_exit: self.should_exit,
            search: self.wallets.search_state@,
            search_focused: self.wallets.search_focused,
        }
    }
}

impl AppState {
    /// The invariant of the state: that of the search box.
    pub open spec fn wf(&self) -> bool {
        self.wallets.wf()
    }

    /// The state at the start: the dashboard with the menu, the search
    /// box empty and without the focus.
    pub fn new() -> (r: AppState)
        ensures
            r.wf(),
            r@ == (AppModel {
                page: Page::Dashboard,
                show_menu: true,
                should_exit: false,
                search: TextModel {
                    text: Seq::empty(),
                    cursor: 0,
                    start: 0,
                    hint: Some(search_hint()),
                },
                search_focused: false,
            }),
    {
        AppState {
            page: Page::Dashboard,
            show_menu: true,
            should_exit: false,
            wallets: WalletsTableState {
                search_state: TextInputState::default().hint_text("\u{ef}\u{20ac}\u{201a} Search..."),
                search_focused: false,
            },
        }
    }

    /// Applies a key event and says by which step the page in view is to
    /// scroll, if it is.
    pub fn handle_key(&mut self, pressed: bool, key: Key, modifiers: Modifiers) -> (r: Option<
        Scroll,
    >)
        requires
            old(self).wf(),
        ensures
            final(self).wf(),
            final(self)@ == after_key(old(self)@, pressed, key, modifiers),
            r == scroll_after(old(self)@, pressed, key, modifiers),
    {
        if !pressed {
            return None;
        }
        if matches!(self.page, Page::Wallets) && self.wallets.search_focused {
            self.wallets.handle_key(key, modifiers);
            return None;
        }
        match key {
            Key::Esc => {
                self.should_exit = true;
                None
            },
            Key::Tab => {
                self.page = self.page.following();
                None
            },
            Key::BackTab => {
                self.page = self.page.preceding();
                None
            },
            Key::Down | Key::PageDown => Some(Scroll::Down),
            Key::Up | Key::PageUp => Some(Scroll::Up),
            Key::Char(c) => {
                if c == 'q' {
                    self.should_exit = true;
                    None
                } else if c == 'm' {
                    self.show_menu = !self.show_menu;
                    None
                } else if c == 'j' {
                    Some(Scroll::Down)
                } else if c == 'k' {
                    Some(Scroll::Up)
                } else if c == 'd' && modifiers.control {
                    Some(Scroll::Down)
                } else if c == 'u' && modifiers.control {
                    Some(Scroll::Up)
                } else if (c == 's' || c == 'f') && matches!(self.page, Page::Wallets) {
                    self.wallets.search_focused = true;
                    None
                } else {
                    None
                }
            },
            _ => None,
        }
    }
}

/// Going to the next page and back again shows the page that there was,
/// and three steps forward come round to it.
pub proof fn lemma_pages_go_round(page: Page)
    ensures
        page.next().previous() == page,
        page.previous().next() == page,
        page.next().next().next() == page,
{
}

/// While the search box takes the keys, no key ends the application,
/// changes the page, hides the menu or scrolls.
pub proof fn lemma_search_box_keeps_the_keys(m: AppModel, key: Key, modifiers: Modifiers)
    requires
        searching(m),
    ensures
        after_key(m, true, key, modifiers).page == m.page,
        after_key(m, true, key, modifiers).show_menu == m.show_menu,
        after_key(m, true, key, modifiers).should_exit == m.should_exit,
        scroll_after(m, true, key, modifiers) is None,
{
}

} // verus!
