//! What holds of the collector as a whole.

pub mod accounting;
pub mod batches;
pub mod bytes;
pub mod calls;
pub mod cap;
pub mod counting;
pub mod decoding;
pub mod encoding;
pub mod live;
pub mod operations;
pub mod reconstruction;
pub mod runs;
pub mod sizes;
pub mod transactions;
pub mod views;
