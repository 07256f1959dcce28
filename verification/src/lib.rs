//! Renders Criterion benchmark results as a markdown report, similar to
//! criterion-table.
//!
//! The library holds the report's logic: the ordering of measured quantities,
//! the classification of changes against thresholds, the summary of top
//! improvements and regressions, the grouping of benchmarks into tables, and the
//! markdown text itself. The entries it renders are read from the files that
//! Criterion writes.

pub mod change;
pub mod discovery;
pub mod error;
pub mod level;
pub mod model;
pub mod render;
pub mod summary;
pub mod table;
pub mod text;
pub mod time;

pub use change::{
    classify_change, format_change, format_compact_change, ChangeClassification, ChangeKind,
    ChangeThresholds,
};
pub use discovery::is_skipped_directory;
pub use error::RenderError;
pub use level::Level;
pub use model::{BenchEntry, ChangeInfo, Throughput};
pub use render::{render, render_with_options, RenderOptions, Renderer};
pub use summary::{compute_summary, write_summary, SummaryEntry, SummaryInfo};
pub use table::{format_table, write_group_table};
pub use time::{time_unit, TimeUnit};
