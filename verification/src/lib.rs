//! A keyed index tracker: an ordered sequence of keyed records together with
//! an index from each key to the record's current position, kept consistent
//! under append and keyed removal.

pub mod error;
pub mod laws;
pub mod model;
pub mod row;
pub mod tracker;

pub use error::TrackerError;
pub use row::Row;
pub use tracker::KeyedIndexTracker;
