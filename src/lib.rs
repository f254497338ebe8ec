//! A level-2 order book rebuilt from an incremental delta feed, with the
//! decisions of the feed session that keeps the stream alive.
pub mod book;
pub mod laws;
pub mod message;
pub mod number;
pub mod session;

pub use book::{OrderBook, Side};
