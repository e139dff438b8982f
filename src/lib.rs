//! An in-memory key-value store with strings that expire, lists, sets and
//! sorted sets, and a dispatcher for a line-based command protocol.

pub mod list;
pub mod set;
pub mod score;
pub mod sorted_set;
pub mod number;
pub mod keyed;
pub mod database;
pub mod reply;
pub mod command;
pub mod laws;
pub mod requests;
