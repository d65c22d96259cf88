//! Resolution core of a DNS client: result sets, a time-aware LRU cache of
//! answers, and the state machine that tries candidate names in turn.

pub mod rr;
pub mod lookup;
pub mod error;
pub mod cache;
pub mod resolve;
pub mod laws;
