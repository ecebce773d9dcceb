//! A limit order book matching engine for a small trading venue.
//!
//! The core of the crate is the per-instrument [`book::OrderBook`]: it keeps
//! one bid and one ask queue ordered by price-time priority, matches incoming
//! orders against resting liquidity, and reports every fill, status change and
//! rejection as an ordered list of outcomes.  A [`registry::Registry`] routes
//! requests to the book of their instrument, and the execution reporter turns
//! outcomes into the event vocabulary consumed by callers and by persistence.

pub mod book;
pub mod ids;
pub mod instruments;
pub mod laws;
pub mod messages;
pub mod queue;
pub mod registry;
pub mod reporter;
pub mod snacks;
pub mod types;
pub mod wire;
