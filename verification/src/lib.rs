//! Core logic of an always-on-top achievement overlay: the edge-triggered
//! visibility signal fed by a global hotkey, the achievement catalog with its
//! exclusivity (toggle) protocol, and the search/cursor navigation state
//! machine that drives the list.
//!
//! Everything here is pure state manipulation with verified contracts; the
//! window, the OS hotkey pump, and the remote synchronization calls live in
//! the surrounding application and exchange plain values with this crate.

pub mod achievement;
pub mod filter;
pub mod hotkey;
pub mod nav;
pub mod overlay;
pub mod seqs;
pub mod store;
pub mod text;
