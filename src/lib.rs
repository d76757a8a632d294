//! Terminal output formatting: display-width measurement, size, count and
//! duration formatting, path truncation, and column layout for tables,
//! key-value groups and grouped lists. Everything here produces plain
//! strings; printing and styling are left to the caller.

pub mod decimal;
pub mod format;
pub mod icons;
pub mod list;
pub mod progress;
pub mod table;
pub mod term;
pub mod text;
pub mod width;

pub use format::{
    format_duration, human_count, human_duration, human_size, parse_size, pluralize,
    truncate_path, SizeError,
};
pub use progress::StageProgress;
pub use table::{ColumnWidth, KvGroup, Table};
pub use width::display_width;
