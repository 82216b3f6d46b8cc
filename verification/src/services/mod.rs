pub mod aggregator;
pub mod comparator;
pub mod grouping;

pub use aggregator::Aggregator;
pub use comparator::{Comparator, ComparisonResult, StatusMismatch};
