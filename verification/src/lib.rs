//! Transactional core of a back-office suite: a double-entry journal and a
//! weighted-average stock ledger, with the value types both are built on.
//!
//! - `money`: fixed-point amounts and quantities, conversion between
//!   currencies, rounding half to even.
//! - `accounts`: the chart of accounts.
//! - `journal`: balanced entries, posted once, corrected by reversal.
//! - `stock`: the log of stock movements and the balance of every cell of
//!   variant and warehouse, which is what a replay of the log gives.
//! - `books`: the three side by side, behind the operations callers use.
//! - `orders`: sales and purchase orders written to stock and journal in
//!   one step, or not at all.
//! - `saga`: the steps of such an operation against a storage that may
//!   fail, with bounded retries.
//! - `error`: why an operation was turned down.
//! - `config`, `models`, `schema`, `sidebar`, `text`: what the program
//!   around the books needs decided: connection strings, which columns an
//!   update writes, how the schema script falls into statements, the state
//!   of the navigation, and the names of kinds as they are stored.
//!
//! Every state that the library hands out is sound in the sense of its
//! `wf`, and every operation keeps it so; the proof functions named
//! `lemma_...` that are public state what follows for all inputs.

pub mod accounts;
pub mod books;
pub mod config;
pub mod error;
pub mod journal;
pub mod models;
pub mod money;
pub mod orders;
pub mod saga;
pub mod schema;
pub mod sidebar;
pub mod stock;
pub mod text;
