//! A single-market exchange core: an order book kept in insertion order,
//! a time-priority matching rule, and the decisions of a matching engine
//! that settles a matched buy before it takes the resting order off the book.

pub mod book;
pub mod engine;
pub mod error;
pub mod instruction;
pub mod laws;
pub mod order;
pub mod vault;
