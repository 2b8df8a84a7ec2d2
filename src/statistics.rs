//! The accumulators.
pub mod avproportion;
pub mod gccontentpos;
pub mod avbase;
pub mod gcperread;
pub mod length;
pub mod basequalitypos;
