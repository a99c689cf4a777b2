//! Concurrent extraction of a filtered subset of archive entries: the
//! entry filter, destination-path sanitisation, the cursor logic of a
//! shared random-access source, and the per-entry decisions and tally.
pub mod coordinator;
pub mod cursor;
pub mod filter;
pub mod listing;
pub mod resolve;
pub mod sanitize;
pub mod text;
