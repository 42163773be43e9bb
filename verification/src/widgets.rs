//! The widgets of the dashboard, as far as they compute: what each one
//! holds and what it hands to whoever draws it.

pub mod mpc_log;
pub mod text_input;
pub mod total_txs;
pub mod txs_log;
pub mod wallets_table;
