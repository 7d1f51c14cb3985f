//! Verified core of a spaced-repetition flashcard store.
//!
//! Cards live in a line-oriented, pipe-delimited text file; each card is
//! scheduled independently in the forward (front -> back) and backward
//! (back -> front) direction.  This crate holds the review engine: the
//! scheduling policy, due-set collection, the round-based review session,
//! and the fixed-width record codec whose stable encoded length makes the
//! in-place rewrite of a reviewed record safe.

pub mod add;
pub mod codec;
pub mod dates;
pub mod models;
pub mod persist;
pub mod review;
pub mod stats;
pub mod store;
pub mod utils;

pub use dates::Date;
pub use models::{Card, CardRef, Direction, DueEntry, Record};
