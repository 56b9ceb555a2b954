//! Bookmarks for SSH connections: the profile of a connection, the line
//! that stores one, and the list that a file of such lines holds.
pub mod cli;
pub mod codec;
pub mod connection;
pub mod decimal;
pub mod error;
pub mod round_trip;
pub mod store;
pub mod text;
