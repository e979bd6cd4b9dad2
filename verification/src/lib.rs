//! A spaced-repetition study engine: cards are identified by content-derived
//! hashes, a persisted ledger tracks each card's memory state, and a scheduler
//! decides which card is due next.

pub mod cli;
pub mod deck;
pub mod learning;
pub mod lock;
pub mod session;
