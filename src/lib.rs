//! A to-do list kept in memory: a parser for the commands typed at a prompt,
//! the list and its operations, and the two-lines-per-item file it is saved in.

pub mod command;
pub mod persist;
pub mod store;
pub mod text;
