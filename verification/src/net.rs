//! The server side of announce and query streams.

pub mod conn;
