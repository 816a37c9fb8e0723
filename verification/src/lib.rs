//! Core of a desktop wallpaper-overlay application.
//!
//! The library holds the window reconciliation engine: it matches live
//! application windows against a declarative rule set and, once per
//! heartbeat tick, decides which overlay windows to create, move,
//! restack or destroy.  Everything that touches the operating system —
//! window enumeration, native window mutation, files, the settings web
//! view — lives outside the library and exchanges plain values with it:
//! a snapshot of live windows comes in, a list of requested native
//! actions goes out.

pub mod data_manager;
pub mod heartbeat;
pub mod manager;
pub mod matching;
pub mod snapshot;
pub mod utils;
pub mod window;
