//! The store: typed values under string keys, with every entry accounted
//! for and the total bounded.

pub mod accounting;
pub mod store;
pub mod value;

pub use self::store::{DatabaseError, MemoryDatabase};
pub use self::value::{Value, ValueConvert, ValueView};
