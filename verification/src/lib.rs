//! A small in-memory key-value store that speaks a subset of the Redis wire
//! protocol.
//!
//! * [`resp`] turns raw input into a flat list of arguments.
//! * [`database`] is the size-bounded store.
//! * [`command`] routes an argument list to its handler and renders the reply.

pub mod command;
pub mod database;
pub mod resp;

pub use command::dispatch;
pub use database::{DatabaseError, MemoryDatabase, Value, ValueConvert};
pub use resp::Parser;
