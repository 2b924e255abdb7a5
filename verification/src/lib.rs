//! A price-time priority limit order book with a matching engine.
//!
//! Each security has an [`OrderBook`] made of two [`HalfBook`]s (bids and
//! asks). A half book keeps its resting orders in a slab of slots, chained
//! per price level into a first-in-first-out list; freed slots are recycled
//! through a free list. The [`MatchingEngine`] routes orders to the book of
//! their security and executes them against the opposite side.
pub mod order_book;

pub use order_book::orderbook::{OrderBook, HalfBook};
pub use order_book::matching_engine::MatchingEngine;
pub use order_book::types::{EngineNewOrder, EngineModifyOrder, EngineCancelOrder};
