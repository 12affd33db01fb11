//! Sequences that are pulled one item at a time, and the adapters that
//! compose them.
//!
//! A sequence implements [`LendingIter`]: one operation, `next`, which gives
//! an item or reports exhaustion. Its meaning is a script, the list of what
//! every future call gives back; each adapter states its script in terms of
//! the scripts of the sequences that it wraps. Only `Fuse` and `MapWhile`
//! remember a report of exhaustion; every other adapter asks its source
//! again at every call.
//!
//! Items are handed over by value and never refer to the state of the
//! sequence that gave them, so an item may be kept across later calls.

pub mod adapters;
pub mod constructors;
pub mod fn_traits;
pub mod laws;
pub mod lending_iter;
pub mod prelude;
pub mod script;

pub use crate::constructors::empty::empty;
pub use crate::constructors::from_fn::from_fn;
pub use crate::constructors::from_iter::IntoLending;
pub use crate::lending_iter::LendingIter;
pub use crate::lending_iter::LendingIterExt;
