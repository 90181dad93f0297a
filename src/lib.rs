//! A hotkey daemon's core: parsing of `MOD+...+KEY=command` rules, the
//! modifier masks they stand for, the key grabs a rule table needs under a
//! keyboard layout, the set of grabs held, and the decisions of the event
//! loop (control requests, event responses, launches).

pub mod text;
pub mod modifier;
pub mod keysym;
pub mod config;
pub mod grab;
pub mod daemon;
pub mod laws;
