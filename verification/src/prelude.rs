//! What a user of sequences imports.

pub use crate::constructors::empty::empty;
pub use crate::constructors::from_fn::from_fn;
pub use crate::constructors::from_iter::IntoLending;
pub use crate::lending_iter::LendingIter;
pub use crate::lending_iter::LendingIterExt;
