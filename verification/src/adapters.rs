//! The adapters: sequences made of other sequences.

pub mod chain;
pub mod enumerate;
pub mod filter;
pub mod filter_map;
pub mod flat_map;
pub mod flatten;
pub mod fuse;
pub mod inspect;
pub mod map_while;
pub mod mapped;
pub mod scan;
pub mod skip;
pub mod skip_while;
pub mod step_by;
pub mod take;
pub mod take_while;
pub mod zip;

pub use chain::Chain;
pub use enumerate::Enumerate;
pub use filter::Filter;
pub use filter_map::FilterMap;
pub use flat_map::FlatMap;
pub use flatten::Flatten;
pub use fuse::Fuse;
pub use inspect::Inspect;
pub use map_while::MapWhile;
pub use mapped::Mapped;
pub use scan::Scan;
pub use skip::Skip;
pub use skip_while::SkipWhile;
pub use step_by::StepBy;
pub use take::Take;
pub use take_while::TakeWhile;
pub use zip::Zip;
