pub mod discrepancy;
pub mod layout;
pub mod paint;
pub mod summary;

pub use discrepancy::DiscrepancyReport;
pub use summary::SummaryReport;
