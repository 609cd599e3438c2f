//! A frequency-counting container.
//!
//! [`Histogram`] tallies occurrences of items and answers queries about the
//! tallies: the count of one item, the total number of bumps, a ranking of
//! the distinct items by descending count, the mode, and an ordered textual
//! rendering. The mathematical model of a histogram is a multiset of key
//! views: bumping an item inserts one occurrence, and every query is
//! specified against that multiset.

pub mod digits;
pub mod keys;
pub mod histogram;
pub mod laws;
pub mod render;
pub mod sequence_mode;
pub mod text_order;

pub use histogram::Histogram;
pub use keys::Key;
pub use keys::OrderedKey;
pub use sequence_mode::mode;
