//! Core data types: entries, summaries, size buckets and scan settings.

use vstd::prelude::*;

use crate::paths::{file_name, file_name_of};
use crate::text::{human_size, human_size_of};

verus! {

/// Upper bound (exclusive) of the tiny bucket: 1 KiB.
pub const TINY_LIMIT: u64 = 1024;

/// Upper bound (exclusive) of the small bucket: 1 MiB.
pub const SMALL_LIMIT: u64 = 1048576;

/// Upper bound (exclusive) of the medium bucket: 100 MiB.
pub const MEDIUM_LIMIT: u64 = 104857600;

/// Upper bound (exclusive) of the large bucket: 1 GiB.
pub const LARGE_LIMIT: u64 = 1073741824;

/// The five size buckets, in increasing order of size.
pub enum Bucket {
    Tiny,
    Small,
    Medium,
    Large,
    Huge,
}

/// The bucket that a file of `size` bytes falls into.
pub open spec fn bucket_of(size: u64) -> Bucket {
    if size < TINY_LIMIT {
        Bucket::Tiny
    } else if size < SMALL_LIMIT {
        Bucket::Small
    } else if size < MEDIUM_LIMIT {
        Bucket::Medium
    } else if size < LARGE_LIMIT {
        Bucket::Large
    } else {
        Bucket::Huge
    }
}

/// File size distribution across the five buckets.
#[derive(Debug, Clone, Copy, PartialEq, Eq)]
pub struct SizeDistribution {
    /// Files smaller than 1 KiB
    pub tiny: u64,
    /// Files from 1 KiB up to 1 MiB
    pub small: u64,
    /// Files from 1 MiB up to 100 MiB
    pub medium: u64,
    /// Files from 100 MiB up to 1 GiB
    pub large: u64,
    /// Files of 1 GiB and more
    pub huge: u64,
}

impl SizeDistribution {
    /// The number of files counted over all buckets.
    pub open spec fn total(&self) -> int {
        self.tiny + self.small + self.medium + self.large + self.huge
    }

    /// The count held for bucket `b`.
    pub open spec fn count_of(&self, b: Bucket) -> u64 {
        match b {
            Bucket::Tiny => self.tiny,
            Bucket::Small => self.small,
            Bucket::Medium => self.medium,
            Bucket::Large => self.large,
            Bucket::Huge => self.huge,
        }
    }

    /// `self` is `old` with one more file in the bucket of `size`.
    pub open spec fn is_added(&self, old: SizeDistribution, size: u64) -> bool {
        let b = bucket_of(size);
        &&& self.tiny == old.tiny + (if b is Tiny { 1int } else { 0int })
        &&& self.small == old.small + (if b is Small { 1int } else { 0int })
        &&& self.medium == old.medium + (if b is Medium { 1int } else { 0int })
        &&& self.large == old.large + (if b is Large { 1int } else { 0int })
        &&& self.huge == old.huge + (if b is Huge { 1int } else { 0int })
    }

    /// Creates a new empty size distribution.
    pub fn new() -> (r: Self)
        ensures
            r.tiny == 0 && r.small == 0 && r.medium == 0 && r.large == 0 && r.huge == 0,
    {
        SizeDistribution { tiny: 0, small: 0, medium: 0, large: 0, huge: 0 }
    }

    /// Adds a file size to the bucket it belongs to.
    pub fn add_size(&mut self, size: u64)
        requires
            old(self).count_of(bucket_of(size)) < u64::MAX,
        ensures
            final(self).is_added(*old(self), size),
    {
        if size < TINY_LIMIT {
            self.tiny = self.tiny + 1;
        } else if size < SMALL_LIMIT {
            self.small = self.small + 1;
        } else if size < MEDIUM_LIMIT {
            self.medium = self.medium + 1;
        } else if size < LARGE_LIMIT {
            self.large = self.large + 1;
        } else {
            self.huge = self.huge + 1;
        }
    }
}

impl Default for SizeDistribution {
    fn default() -> (r: Self)
        ensures
            r.total() == 0,
    {
        SizeDistribution::new()
    }
}


/// A modification time: whole seconds since the Unix epoch and the
/// nanoseconds within that second.
#[derive(Debug, Clone, Copy, PartialEq, Eq)]
pub struct Timestamp {
    pub secs: i64,
    pub nanos: u32,
}

impl Timestamp {
    /// Strictly later in time than `other`.
    pub open spec fn is_after(self, other: Timestamp) -> bool {
        self.secs > other.secs || (self.secs == other.secs && self.nanos > other.nanos)
    }

    /// Whether `self` is strictly later in time than `other`.
    pub fn later_than(&self, other: &Timestamp) -> (r: bool)
        ensures
            r == self.is_after(*other),
    {
        self.secs > other.secs || (self.secs == other.secs && self.nanos > other.nanos)
    }
}

/// One file or directory discovered during a scan, with its metadata.
#[derive(Debug)]
pub struct FileEntry {
    /// Path of the file or directory, as text
    pub path: String,
    /// Size in bytes; 0 for directories
    pub size: u64,
    /// Whether this entry is a directory
    pub is_dir: bool,
    /// Last modification time
    pub modified: Timestamp,
    /// Raw permission bits (the POSIX mode on POSIX systems)
    pub permissions: u32,
    /// Lower-case extension without the dot; absent for directories and
    /// for files without an extension
    pub file_type: Option<String>,
}

impl FileEntry {
    /// The size in human-readable form, with SI units (for example "2.05 kB").
    pub fn size_human(&self) -> (r: String)
        ensures
            r@ == human_size_of(self.size),
    {
        human_size(self.size)
    }

    /// The file name without the rest of the path; empty when the path has
    /// none.
    pub fn name(&self) -> (r: String)
        ensures
            r@ == match file_name_of(self.path@) {
                Some(n) => n,
                None => Seq::empty(),
            },
    {
        file_name(self.path.as_str())
    }
}

impl Clone for FileEntry {
    fn clone(&self) -> (r: Self)
        ensures
            r == *self,
    {
        let file_type = match &self.file_type {
            Some(t) => Some(t.clone()),
            None => None,
        };
        FileEntry {
            path: self.path.clone(),
            size: self.size,
            is_dir: self.is_dir,
            modified: self.modified,
            permissions: self.permissions,
            file_type,
        }
    }
}

/// Statistics for one file type (extension).
#[derive(Debug, Clone, Copy, PartialEq, Eq)]
pub struct TypeStats {
    /// Number of files of this type
    pub count: u64,
    /// Total size of the files of this type
    pub total_size: u64,
    /// Average size of the files of this type
    pub avg_size: u64,
}

impl TypeStats {
    /// Creates statistics for a type with no files yet.
    pub fn new() -> (r: Self)
        ensures
            r.count == 0 && r.total_size == 0 && r.avg_size == 0,
    {
        TypeStats { count: 0, total_size: 0, avg_size: 0 }
    }
}

impl TypeStats {
    /// The total size in human-readable form.
    pub fn total_size_human(&self) -> (r: String)
        ensures
            r@ == human_size_of(self.total_size),
    {
        human_size(self.total_size)
    }
}

impl Default for TypeStats {
    fn default() -> (r: Self)
        ensures
            r.count == 0 && r.total_size == 0 && r.avg_size == 0,
    {
        TypeStats::new()
    }
}

/// The summary of a list of entries.
#[derive(Debug, Clone)]
pub struct FileStats {
    /// Number of files (entries that are not directories)
    pub total_files: u64,
    /// Number of directories
    pub total_dirs: u64,
    /// Total size of all files in bytes
    pub total_size: u64,
    /// Average file size in bytes, 0 when there are no files
    pub avg_file_size: u64,
    /// Largest file size in bytes, 0 when there are no files
    pub max_file_size: u64,
    /// Smallest file size in bytes, 0 when there are no files
    pub min_file_size: u64,
    /// Per-type breakdown: one pair per distinct type key, in the order in
    /// which the types first occur among the entries
    pub file_types: Vec<(String, TypeStats)>,
    /// Size distribution buckets
    pub size_distribution: SizeDistribution,
    /// The entries the summary was made from, in their order
    pub entries: Vec<FileEntry>,
}

impl FileStats {
    /// Creates the summary of no entries at all.
    pub fn new() -> (r: Self)
        ensures
            r.total_files == 0 && r.total_dirs == 0 && r.total_size == 0,
            r.avg_file_size == 0 && r.max_file_size == 0 && r.min_file_size == 0,
            r.file_types@.len() == 0,
            r.size_distribution.total() == 0,
            r.entries@.len() == 0,
    {
        FileStats {
            total_files: 0,
            total_dirs: 0,
            total_size: 0,
            avg_file_size: 0,
            max_file_size: 0,
            min_file_size: 0,
            file_types: Vec::new(),
            size_distribution: SizeDistribution::new(),
            entries: Vec::new(),
        }
    }
}

impl FileStats {
    /// The total size in human-readable form.
    pub fn total_size_human(&self) -> (r: String)
        ensures
            r@ == human_size_of(self.total_size),
    {
        human_size(self.total_size)
    }

    /// The statistics of file type `ext`, if any file has that type.
    pub fn type_stats(&self, ext: &str) -> (r: Option<TypeStats>)
        ensures
            match r {
                Some(t) => exists|j: int|
                    0 <= j < self.file_types@.len() && (#[trigger] self.file_types@[j]).0@ == ext@
                        && self.file_types@[j].1 == t,
                None => forall|j: int|
                    0 <= j < self.file_types@.len() ==> (#[trigger] self.file_types@[j]).0@ != ext@,
            },
    {
        let key = ext.to_owned();
        let mut j: usize = 0;
        while j < self.file_types.len()
            invariant
                0 <= j <= self.file_types@.len(),
                key@ == ext@,
                forall|m: int| 0 <= m < j ==> (#[trigger] self.file_types@[m]).0@ != ext@,
            decreases self.file_types@.len() - j,
        {
            if self.file_types[j].0 == key {
                return Some(self.file_types[j].1);
            }
            j = j + 1;
        }
        None
    }

    /// The average file size in human-readable form.
    pub fn avg_file_size_human(&self) -> (r: String)
        ensures
            r@ == human_size_of(self.avg_file_size),
    {
        human_size(self.avg_file_size)
    }
}

impl Default for FileStats {
    fn default() -> (r: Self)
        ensures
            r.total_files == 0 && r.total_dirs == 0 && r.total_size == 0,
            r.file_types@.len() == 0 && r.entries@.len() == 0,
    {
        FileStats::new()
    }
}

/// Output format options for displaying statistics.
#[derive(Debug, Clone, Copy, PartialEq, Eq, Structural)]
pub enum OutputFormat {
    /// Human-readable table format
    Table,
    /// JSON format for programmatic use
    Json,
    /// CSV format for spreadsheet import
    Csv,
    /// Compact summary format
    Summary,
}

impl Default for OutputFormat {
    fn default() -> (r: Self)
        ensures
            r == OutputFormat::Table,
    {
        OutputFormat::Table
    }
}

/// Orders in which a list of entries can be sorted.
#[derive(Debug, Clone, Copy, PartialEq, Eq, Structural)]
pub enum SortBy {
    /// By path, ascending
    Name,
    /// By size, largest first
    Size,
    /// By modification time, newest first
    Modified,
    /// By extension, ascending; entries without one come last, by path
    Type,
}

impl Default for SortBy {
    fn default() -> (r: Self)
        ensures
            r == SortBy::Name,
    {
        SortBy::Name
    }
}

/// Settings that shape a scan.
#[derive(Debug, Clone, Copy, PartialEq, Eq, Structural)]
pub struct Config {
    /// Output format to use
    pub format: OutputFormat,
    /// How to sort the results
    pub sort_by: SortBy,
    /// Whether to include hidden files
    pub show_hidden: bool,
    /// Whether to descend into subdirectories
    pub recursive: bool,
    /// Maximum depth of a recursive scan
    pub max_depth: Option<usize>,
}

impl Default for Config {
    fn default() -> (r: Self)
        ensures
            r.format == OutputFormat::Table,
            r.sort_by == SortBy::Name,
            !r.show_hidden,
            r.recursive,
            r.max_depth is None,
    {
        Config {
            format: OutputFormat::Table,
            sort_by: SortBy::Name,
            show_hidden: false,
            recursive: true,
            max_depth: None,
        }
    }
}

} // verus!
