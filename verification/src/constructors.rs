//! The sequences that are not made of other sequences.

pub mod empty;
pub mod from_fn;
pub mod from_iter;
