//! Colour terminal display of a reachability probe's output: parsing of the
//! probe's lines, the session state they feed, the frame layout, and the
//! rules that end a session.

pub mod config;
pub mod ping;
pub mod ping_entry;
pub mod session;
pub mod terminal;
pub mod text;
