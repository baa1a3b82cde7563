//! Storage accounting for a local disk-usage explorer: scan trees, ranked
//! folder views, request lifecycles and read-only compression planning.
pub mod revision;
pub mod text;
pub mod types;
pub mod arena;
pub mod cancel;
pub mod aggregate;
pub mod ranking;
pub mod query;
pub mod snapshot;
pub mod chart;
pub mod progress;
pub mod walk;
pub mod statx;
pub mod darwin;
pub mod winfs;
pub mod ntfs;
pub mod lifecycle;
pub mod roots;
pub mod desktop;
pub mod compression;
pub mod estimator;
pub mod plan;
pub mod mft;
pub mod dispatch;
