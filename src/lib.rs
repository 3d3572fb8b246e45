//! A buffer of events that many readers can see but only one can consume.

pub mod buffer;
pub mod laws;
pub mod lifecycle;

pub use buffer::{Consume, ConsumableEventIterator, ConsumableEvents};
pub use lifecycle::Lifecycle;
