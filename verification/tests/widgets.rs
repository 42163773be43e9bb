use merces_tui::widgets::mpc_log::{MpcLog, NodeColor};
use merces_tui::widgets::text_input::{Key, Modifiers, TextInputState};
use merces_tui::widgets::total_txs::TotalTxs;
use merces_tui::widgets::txs_log::TxsLog;
use merces_tui::widgets::wallets_table::{WalletRow, WalletsTable, WalletsTableState, ROWS};

const NONE: Modifiers = Modifiers { shift: false, control: false, alt: false };

fn lines(pairs: &[(&str, &str)]) -> Vec<(String, String)> {
    pairs.iter().map(|(a, b)| (a.to_string(), b.to_string())).collect()
}

#[test]
fn total_is_written_in_groups_of_three() {
    assert_eq!(TotalTxs::new(1_000_000).value, 1_000_000);
    assert_eq!(TotalTxs::new(1_000_000).text(), "1,000,000");
    assert_eq!(TotalTxs::new(0).text(), "0");
    assert_eq!(TotalTxs::new(7).text(), "7");
    assert_eq!(TotalTxs::new(999).text(), "999");
    assert_eq!(TotalTxs::new(1000).text(), "1,000");
    assert_eq!(TotalTxs::new(12_345).text(), "12,345");
    assert_eq!(TotalTxs::new(1_000_001).text(), "1,000,001");
    assert_eq!(TotalTxs::new(100_020_003).text(), "100,020,003");
    assert_eq!(TotalTxs::new(u64::MAX).text(), "18,446,744,073,709,551,615");
}

#[test]
fn transaction_log_hands_out_its_lines() {
    let logs = lines(&[
        ("block-0", "50 transactions published in 0x1234...abcd"),
        ("block-1", "51 transactions published in 0x1234...abcd"),
    ]);
    let log = TxsLog::new(&logs);
    assert_eq!(log.len(), 2);
    assert_eq!(log.entry(0), ("block-0", "50 transactions published in 0x1234...abcd"));
    assert_eq!(log.entry(1), ("block-1", "51 transactions published in 0x1234...abcd"));
    assert_eq!(TxsLog::new(&[]).len(), 0);
}

#[test]
fn node_log_hands_out_its_lines() {
    let logs = lines(&[("MPC Coordinator", "Sending job to MPC nodes"), ("MPC Node 1", "ok")]);
    let log = MpcLog::new(&logs);
    assert_eq!(log.len(), 2);
    assert_eq!(log.entry(0), ("MPC Coordinator", "Sending job to MPC nodes"));
    assert_eq!(log.entry(1), ("MPC Node 1", "ok"));
    assert!(log.all_known());
}

#[test]
fn every_known_node_has_its_colour() {
    assert_eq!(MpcLog::color_of("MPC Node 1"), Some(NodeColor::Cyan));
    assert_eq!(MpcLog::color_of("MPC Node 2"), Some(NodeColor::Blue));
    assert_eq!(MpcLog::color_of("MPC Node 3"), Some(NodeColor::Magenta));
    assert_eq!(MpcLog::color_of("MPC Coordinator"), Some(NodeColor::Yellow));
    assert_eq!(MpcLog::color_of("MPC Node 4"), None);
    assert_eq!(MpcLog::color_of(""), None);
    let logs = lines(&[("MPC Node 2", "a"), ("somebody", "b")]);
    assert!(!MpcLog::new(&logs).all_known());
    assert!(MpcLog::new(&[]).all_known());
}

#[test]
fn wallet_rows() {
    let table = WalletsTable::new();
    assert_eq!(ROWS, 20);
    assert_eq!(
        table.row(0),
        WalletRow { wallet: 0, day: 1, transferred: 1000, balance: 100_000 }
    );
    assert_eq!(
        table.row(19),
        WalletRow { wallet: 19, day: 20, transferred: 20_000, balance: 5000 }
    );
    assert_eq!(
        table.row(7),
        WalletRow { wallet: 7, day: 8, transferred: 8000, balance: 65_000 }
    );
}

#[test]
fn the_search_box_draws_its_cursor_with_the_focus() {
    let mut state =
        WalletsTableState { search_state: TextInputState::default(), search_focused: false };
    assert!(!WalletsTable::new().search_input(&state).render_cursor);
    state.search_focused = true;
    assert!(WalletsTable::new().search_input(&state).render_cursor);
}

#[test]
fn the_search_box_takes_keys_with_the_focus() {
    let mut state =
        WalletsTableState { search_state: TextInputState::default(), search_focused: true };
    assert!(state.handle_key(Key::Char('a'), NONE));
    assert!(state.handle_key(Key::Char('b'), NONE));
    assert!(state.handle_key(Key::Enter, NONE));
    assert_eq!(state.search_state.text, vec!['a', 'b']);
    assert_eq!(state.search_state.cursor_pos, 2);
    assert!(state.search_focused);
    assert!(state.handle_key(Key::Left, NONE));
    assert_eq!(state.search_state.cursor_pos, 1);
    assert!(state.handle_key(Key::Esc, NONE));
    assert!(!state.search_focused);
    assert_eq!(state.search_state.text, vec!['a', 'b']);
    assert_eq!(state.search_state.cursor_pos, 1);
}

#[test]
fn the_search_box_leaves_keys_without_the_focus() {
    let mut state =
        WalletsTableState { search_state: TextInputState::default(), search_focused: false };
    assert!(!state.handle_key(Key::Char('a'), NONE));
    assert!(state.search_state.text.is_empty());
    assert!(!state.search_focused);
    for key in [Key::Tab, Key::BackTab] {
        state.search_focused = true;
        assert!(state.handle_key(key, NONE));
        assert!(!state.search_focused);
    }
}
