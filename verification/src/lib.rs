//! Incremental relay of a numbered post feed to subscribed destinations.
//!
//! A cycle reads the checkpoint, walks the feed from just above it, hands every
//! new entry to every subscribed destination, oldest first, stores the entries
//! and advances the checkpoint. The library decides and does nothing else: the
//! walker and the cycle are machines from what the outside answered to what is
//! to be done next, and whoever holds the browser session, the store and the
//! delivery sink carries their actions out.
//!
//! - `decimal`, `text`: numerals and strings.
//! - `item`: the harvested entry and the message that announces it.
//! - `extract`: reading the fields of an entry out of what the feed shows.
//! - `walker`: the feed walker.
//! - `registry`: the checkpoint and the registry of subscribed destinations.
//! - `cycle`: the synchronization cycle.
//! - `scheduler`: the guard and the policy of the cycle loop.
//! - `command`: the operator's commands.

pub mod command;
pub mod cycle;
pub mod decimal;
pub mod extract;
pub mod item;
pub mod registry;
pub mod scheduler;
pub mod text;
pub mod walker;
