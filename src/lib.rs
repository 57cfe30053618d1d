//! File statistics: discovering entries under a root, filtering, ordering,
//! and folding them into a summary of counts, sizes and distributions.

pub mod cli;
pub mod dirstats;
pub mod error;
pub mod filter;
pub mod format;
pub mod ordering;
pub mod paths;
pub mod report;
pub mod scanner;
pub mod size_parse;
pub mod sort;
pub mod stats;
pub mod text;
pub mod types;

pub use cli::{create_file_filters, has_active_filters, should_use_colors, Cli, CliOutputFormat, CliSortBy};
pub use dirstats::{calculate_directory_stats, path_components, DirectoryStats};
pub use error::RfstatError;
pub use filter::{apply_filters, filter_entries, FileFilters};
pub use format::{format_number, FormatterOptions};
pub use paths::{extension, file_name, is_hidden};
pub use report::{generate_summary_report, SummaryReport};
pub use scanner::{
    create_file_entry, process_dir_entry, scan_step, start_scan, walk_depth_limit, EntryMeta, RootProbe,
    ScanStart, StepOutcome, WalkEvent, WalkItem,
};
pub use size_parse::{parse_size, parse_size_upper};
pub use sort::{entry_is_before, sort_entries};
pub use stats::{calculate_stats, get_largest_files, get_top_file_types, size_total_fits};
pub use types::{Config, FileEntry, FileStats, OutputFormat, SizeDistribution, SortBy, Timestamp, TypeStats};
