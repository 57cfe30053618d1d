//! A summary report of the most important statistics.

use vstd::prelude::*;

use crate::dirstats::calculate_directory_stats;
use crate::ordering::{is_stable_sort_of, merge_sort};
use crate::stats::{
    by_count_desc, dir_count, files_of, get_largest_files, get_top_file_types, is_top, larger_first, pair_refs,
    size_sum,
};
use crate::text::{human_size, human_size_of};
use crate::types::{FileEntry, FileStats, SizeDistribution, TypeStats};

verus! {

/// Number of files listed in a report.
pub const REPORT_FILES: usize = 5;

/// Number of file types listed in a report.
pub const REPORT_TYPES: usize = 5;

/// A summary report of file system statistics.
#[derive(Debug, Clone)]
pub struct SummaryReport {
    pub total_files: u64,
    pub total_directories: u64,
    pub total_size: u64,
    pub avg_file_size: u64,
    pub median_file_size: u64,
    pub largest_file_size: u64,
    pub smallest_file_size: u64,
    pub most_common_type: Option<String>,
    pub size_distribution: SizeDistribution,
    pub largest_files: Vec<FileEntry>,
    pub top_file_types: Vec<(String, TypeStats)>,
}

impl SummaryReport {
    /// The total size in human-readable form.
    pub fn total_size_human(&self) -> (r: String)
        ensures
            r@ == human_size_of(self.total_size),
    {
        human_size(self.total_size)
    }

    /// The average file size in human-readable form.
    pub fn avg_file_size_human(&self) -> (r: String)
        ensures
            r@ == human_size_of(self.avg_file_size),
    {
        human_size(self.avg_file_size)
    }

    /// The median file size in human-readable form.
    pub fn median_file_size_human(&self) -> (r: String)
        ensures
            r@ == human_size_of(self.median_file_size),
    {
        human_size(self.median_file_size)
    }
}

/// The sizes of the files of `s`, in order.
pub open spec fn file_sizes(s: Seq<FileEntry>) -> Seq<u64> {
    files_of(s).map_values(|e: FileEntry| e.size)
}

/// Ascending order of sizes.
pub open spec fn ascending() -> spec_fn(u64, u64) -> bool {
    |a: u64, b: u64| a < b
}

/// `m` is the median file size of `s`: the size at position `(n - 1) / 2`
/// of the `n` file sizes in ascending order, 0 when there are no files.
pub open spec fn is_median(m: u64, s: Seq<FileEntry>) -> bool {
    if file_sizes(s).len() == 0 {
        m == 0
    } else {
        exists|sorted: Seq<u64>|
            #[trigger] is_stable_sort_of(sorted, file_sizes(s), ascending()) && m == sorted[(
            file_sizes(s).len() - 1) / 2]
    }
}

fn median_size(entries: &Vec<FileEntry>) -> (r: u64)
    ensures
        is_median(r, entries@),
{
    let ghost s = entries@;
    let ghost pred = |e: FileEntry| !e.is_dir;
    let ghost size_of = |e: FileEntry| e.size;
    let mut sizes: Vec<u64> = Vec::new();
    let mut i: usize = 0;
    while i < entries.len()
        invariant
            s == entries@,
            pred == (|e: FileEntry| !e.is_dir),
            size_of == (|e: FileEntry| e.size),
            0 <= i <= s.len(),
            sizes@ == s.take(i as int).filter(pred).map_values(size_of),
        decreases s.len() - i,
    {
        assert(s.take(i + 1) =~= s.take(i as int).push(s[i as int]));
        proof {
            s.take(i as int).lemma_filter_push(s[i as int], pred);
        }
        if !entries[i].is_dir {
            let ghost before = sizes@;
            sizes.push(entries[i].size);
            assert(sizes@ =~= s.take(i + 1).filter(pred).map_values(size_of));
        } else {
            assert(sizes@ =~= s.take(i + 1).filter(pred).map_values(size_of));
        }
        i = i + 1;
    }
    assert(s.take(s.len() as int) =~= s);
    assert(sizes@ == file_sizes(s)) by {
        assert(pred =~= (|e: FileEntry| !e.is_dir));
        assert(size_of =~= (|e: FileEntry| e.size));
    }
    if sizes.len() == 0 {
        return 0;
    }
    let ghost unsorted = sizes@;
    let before = |a: &u64, b: &u64| -> (r: bool)
        ensures
            r == (*a < *b),
        { *a < *b };
    let sorted = merge_sort(sizes, &before, Ghost(ascending()));
    proof {
        crate::ordering::lemma_stable_sort_len(sorted@, unsorted, ascending());
    }
    let m = sorted[(sorted.len() - 1) / 2];
    assert(is_stable_sort_of(sorted@, file_sizes(s), ascending()));
    m
}

/// Builds the summary report of `stats`: the totals, the median file size,
/// the five largest files and the five most common types.
pub fn generate_summary_report(stats: &FileStats) -> (r: SummaryReport)
    requires
        size_sum(stats.entries@) <= u64::MAX,
    ensures
        r.total_files == stats.total_files,
        r.total_directories == dir_count(stats.entries@),
        r.total_size == stats.total_size,
        r.avg_file_size == stats.avg_file_size,
        is_median(r.median_file_size, stats.entries@),
        r.largest_file_size == stats.max_file_size,
        r.smallest_file_size == if stats.min_file_size == u64::MAX { 0 } else { stats.min_file_size },
        r.size_distribution == stats.size_distribution,
        exists|top: Seq<&FileEntry>|
            is_top(top, files_of(stats.entries@).as_ref(), larger_first(), REPORT_FILES)
                && #[trigger] r.largest_files@ == top.unref(),
        exists|top: Seq<(&String, &TypeStats)>|
            is_top(top, pair_refs(stats.file_types@), by_count_desc(), REPORT_TYPES)
                && #[trigger] r.top_file_types@ == top.unref(),
        match r.most_common_type {
            Some(t) => r.top_file_types@.len() > 0 && t@ == r.top_file_types@[0].0@,
            None => r.top_file_types@.len() == 0,
        },
{
    let dir_stats = calculate_directory_stats(stats.entries.as_slice());
    let largest = get_largest_files(stats.entries.as_slice(), REPORT_FILES);
    let mut largest_files: Vec<FileEntry> = Vec::new();
    let mut i: usize = 0;
    while i < largest.len()
        invariant
            0 <= i <= largest@.len(),
            largest_files@ == largest@.take(i as int).unref(),
        decreases largest@.len() - i,
    {
        largest_files.push(largest[i].clone());
        i = i + 1;
        assert(largest_files@ =~= largest@.take(i as int).unref());
    }
    assert(largest@.take(largest@.len() as int) =~= largest@);
    let top = get_top_file_types(stats, REPORT_TYPES);
    let mut top_file_types: Vec<(String, TypeStats)> = Vec::new();
    let mut k: usize = 0;
    while k < top.len()
        invariant
            0 <= k <= top@.len(),
            top_file_types@ == top@.take(k as int).unref(),
        decreases top@.len() - k,
    {
        top_file_types.push((top[k].0.clone(), *top[k].1));
        k = k + 1;
        assert(top_file_types@ =~= top@.take(k as int).unref());
    }
    assert(top@.take(top@.len() as int) =~= top@);
    let median = median_size(&stats.entries);
    let most_common_type = if top_file_types.len() > 0 {
        Some(top_file_types[0].0.clone())
    } else {
        None
    };
    SummaryReport {
        total_files: stats.total_files,
        total_directories: dir_stats.total_directories,
        total_size: stats.total_size,
        avg_file_size: stats.avg_file_size,
        median_file_size: median,
        largest_file_size: stats.max_file_size,
        smallest_file_size: if stats.min_file_size == u64::MAX { 0 } else { stats.min_file_size },
        most_common_type,
        size_distribution: stats.size_distribution,
        largest_files,
        top_file_types,
    }
}

} // verus!
