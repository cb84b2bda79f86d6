//! Core engine of a terminal chat client: the in-memory model of servers,
//! channels and messages, circular navigation with unread tracking, a greedy
//! word-wrapper for message display, deterministic per-sender colors, and the
//! renderer that turns the state into terminal escape output.

pub mod chars;
pub mod color;
pub mod conn;
pub mod events;
pub mod id;
pub mod im;
pub mod render;
pub mod rtm;
pub mod team;
pub mod timestamp;
pub mod tui;
pub mod wrap;
pub mod wrap_laws;
