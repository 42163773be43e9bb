//! The table of wallets with its search box.

use vstd::prelude::*;
use crate::widgets::text_input::{apply_key, Key, Modifiers, TextInput, TextInputState};

verus! {

/// The number of rows of the table.
pub const ROWS: u8 = 20;

/// The state of the table: the search box and whether it has the focus.
pub struct WalletsTableState {
    pub search_state: TextInputState,
    pub search_focused: bool,
}

/// One row of the table.
#[derive(Clone, Copy, Debug, PartialEq, Eq, Structural)]
pub struct WalletRow {
    /// The last four hexadecimal digits of the wallet's address, as a
    /// number.
    pub wallet: u16,
    /// The day of the month of the last transfer.
    pub day: u8,
    pub transferred: u32,
    pub balance: u32,
}

/// The table of wallets.
pub struct WalletsTable {}

impl WalletsTableState {
    /// The invariant of the state: that of its text line.
    pub open spec fn wf(&self) -> bool {
        self.search_state.wf()
    }

    /// Hands a key press to the search box, if it has the focus, and says
    /// whether it had.
    ///
    /// With the focus, the enter key changes nothing; escape and the two
    /// tab keys give the focus up; every other key goes to the text line.
    pub fn handle_key(&mut self, key: Key, modifiers: Modifiers) -> (consumed: bool)
        requires
            old(self).wf(),
        ensures
            final(self).wf(),
            consumed == old(self).search_focused,
            final(self).search_state@ == if !old(self).search_focused {
                old(self).search_state@
            } else {
                apply_key(old(self).search_state@, key)
            },
            final(self).search_focused == (old(self).search_focused && !(key is Esc || key is Tab
                || key is BackTab)),
    {
        if !self.search_focused {
            return false;
        }
        match key {
            Key::Enter => {},
            Key::Esc | Key::Tab | Key::BackTab => {
                self.search_focused = false;
            },
            _ => {
                self.search_state.handle_events(key, modifiers);
            },
        }
        true
    }
}

impl WalletsTable {
    /// The table.
    pub fn new() -> (r: WalletsTable)
        ensures
            r == (WalletsTable {  }),
    {
        WalletsTable {  }
    }

    /// The search box as a widget: its cursor is drawn while it has the
    /// focus.
    pub fn search_input(&self, state: &WalletsTableState) -> (r: TextInput)
        ensures
            r.render_cursor == state.search_focused,
    {
        TextInput::default().render_cursor(state.search_focused)
    }

    /// Row `i` of the table.
    pub fn row(&self, i: u8) -> (r: WalletRow)
        requires
            i < ROWS,
        ensures
            r.wallet == i,
            r.day == i + 1,
            r.transferred == (i + 1) * 1000,
            r.balance == (ROWS - i) * 5000,
    {
        WalletRow {
            wallet: i as u16,
            day: i + 1,
            transferred: (i as u32 + 1) * 1000,
            balance: (ROWS - i) as u32 * 5000,
        }
    }
}

} // verus!
