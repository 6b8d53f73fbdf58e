//! Price alerts: subscribers register threshold conditions on the price of one
//! tracked asset; a polling engine evaluates them against the current price and
//! retires the ones that fire.
//!
//! The library holds the rules and proves them: the conditions and their
//! order, the store of each subscriber's conditions, the matching engine,
//! the price cache, the backup, and the conversation with a subscriber.
//! Prices are integer keys that order as the numbers do. The chat
//! transport, the price source, the clock and the backup file are the
//! caller's.

pub mod price;
pub mod cache;
pub mod trigger;
pub mod order;
pub mod store;
pub mod engine;
pub mod backup;
pub mod dialogue;
pub mod handlers;
