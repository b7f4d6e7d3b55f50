//! The catalog: which models this router can serve, and how each is launched.

pub mod defaults;
pub mod discover;
pub mod document;
pub mod entries;
pub mod entry;
pub mod estimate;
pub mod field;
pub mod listing;
pub mod read;
pub mod report;

pub use entry::{Entry, RelativePath, Residency};
pub use listing::{Catalog, EstimateSource, Sources};
pub use report::Report;
