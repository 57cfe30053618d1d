//! Command-line settings and how they become scan settings and
//! filters.

use vstd::prelude::*;

use crate::error::RfstatError;
use crate::filter::FileFilters;
use crate::paths::chars_of;
use crate::size_parse::{parse_size, size_text_ok, size_value};
use crate::text::{lower_of, push_text, to_lower, trim, trimmed, upper_of};
use crate::types::{Config, OutputFormat, SortBy};

verus! {

/// Output formats as they are named on the command line.
#[derive(Debug, Clone, Copy, PartialEq, Eq, Structural)]
pub enum CliOutputFormat {
    /// Human-readable table format
    Table,
    /// JSON format for programmatic use
    Json,
    /// CSV format for spreadsheet import
    Csv,
    /// Compact summary format
    Summary,
}

/// Sort orders as they are named on the command line.
#[derive(Debug, Clone, Copy, PartialEq, Eq, Structural)]
pub enum CliSortBy {
    /// Sort by file name
    Name,
    /// Sort by file size (largest first)
    Size,
    /// Sort by modification time (newest first)
    Modified,
    /// Sort by file type/extension
    Type,
}

/// The output format named by a command-line value.
pub open spec fn format_of(f: CliOutputFormat) -> OutputFormat {
    match f {
        CliOutputFormat::Table => OutputFormat::Table,
        CliOutputFormat::Json => OutputFormat::Json,
        CliOutputFormat::Csv => OutputFormat::Csv,
        CliOutputFormat::Summary => OutputFormat::Summary,
    }
}

/// The sort order named by a command-line value.
pub open spec fn sort_of(s: CliSortBy) -> SortBy {
    match s {
        CliSortBy::Name => SortBy::Name,
        CliSortBy::Size => SortBy::Size,
        CliSortBy::Modified => SortBy::Modified,
        CliSortBy::Type => SortBy::Type,
    }
}

impl From<CliOutputFormat> for OutputFormat {
    fn from(cli_format: CliOutputFormat) -> (r: Self) {
        match cli_format {
            CliOutputFormat::Table => OutputFormat::Table,
            CliOutputFormat::Json => OutputFormat::Json,
            CliOutputFormat::Csv => OutputFormat::Csv,
            CliOutputFormat::Summary => OutputFormat::Summary,
        }
    }
}

impl vstd::std_specs::convert::FromSpecImpl<CliOutputFormat> for OutputFormat {
    open spec fn obeys_from_spec() -> bool {
        true
    }

    open spec fn from_spec(v: CliOutputFormat) -> OutputFormat {
        format_of(v)
    }
}

impl From<CliSortBy> for SortBy {
    fn from(cli_sort: CliSortBy) -> (r: Self) {
        match cli_sort {
            CliSortBy::Name => SortBy::Name,
            CliSortBy::Size => SortBy::Size,
            CliSortBy::Modified => SortBy::Modified,
            CliSortBy::Type => SortBy::Type,
        }
    }
}

impl vstd::std_specs::convert::FromSpecImpl<CliSortBy> for SortBy {
    open spec fn obeys_from_spec() -> bool {
        true
    }

    open spec fn from_spec(v: CliSortBy) -> SortBy {
        sort_of(v)
    }
}

/// The command-line settings of a run.
#[derive(Debug, Clone)]
pub struct Cli {
    /// Path to analyze
    pub path: String,
    /// Output format
    pub format: CliOutputFormat,
    /// Sort results by field
    pub sort: CliSortBy,
    /// Include hidden files and directories
    pub all: bool,
    /// Disable recursive directory traversal
    pub no_recursive: bool,
    /// Maximum depth for recursive scanning
    pub depth: Option<usize>,
    /// Limit number of files shown in detailed output
    pub limit: Option<usize>,
    /// Show only summary statistics (no individual files)
    pub summary_only: bool,
    /// Filter by file extension (e.g., "txt,log,conf")
    pub extensions: Option<String>,
    /// Minimum file size filter (e.g., "1MB", "500KB")
    pub min_size: Option<String>,
    /// Maximum file size filter (e.g., "100MB", "1GB")
    pub max_size: Option<String>,
    /// Enable verbose logging
    pub verbose: bool,
    /// Suppress all output except results
    pub quiet: bool,
    /// Show file permissions in output
    pub show_permissions: bool,
    /// Show modification times
    pub show_times: bool,
}

impl Default for Cli {
    fn default() -> (r: Self)
        ensures
            r.path@ == seq!['.'],
            r.format == CliOutputFormat::Table && r.sort == CliSortBy::Name,
            !r.all && !r.no_recursive && r.depth is None && r.limit is None && !r.summary_only,
            r.extensions is None && r.min_size is None && r.max_size is None,
            !r.verbose && !r.quiet && !r.show_permissions && !r.show_times,
    {
        let path = ".".to_owned();
        proof {
            reveal_strlit(".");
        }
        Cli {
            path,
            format: CliOutputFormat::Table,
            sort: CliSortBy::Name,
            all: false,
            no_recursive: false,
            depth: None,
            limit: None,
            summary_only: false,
            extensions: None,
            min_size: None,
            max_size: None,
            verbose: false,
            quiet: false,
            show_permissions: false,
            show_times: false,
        }
    }
}

/// The pieces of `s` between occurrences of `sep`, as `str::split` gives
/// them (an empty text is one empty piece).
pub open spec fn split_on(s: Seq<char>, sep: char) -> Seq<Seq<char>>
    decreases s.len(),
{
    if s.len() == 0 {
        seq![Seq::<char>::empty()]
    } else {
        let prev = split_on(s.drop_last(), sep);
        if s.last() == sep {
            prev.push(Seq::<char>::empty())
        } else {
            prev.update(prev.len() - 1, prev.last().push(s.last()))
        }
    }
}

/// Each piece trimmed and lower-cased, with the empty results left out.
pub open spec fn cleaned(pieces: Seq<Seq<char>>) -> Seq<Seq<char>>
    decreases pieces.len(),
{
    if pieces.len() == 0 {
        Seq::empty()
    } else {
        let l = lower_of(trimmed(pieces.last()));
        if l.len() > 0 {
            cleaned(pieces.drop_last()).push(l)
        } else {
            cleaned(pieces.drop_last())
        }
    }
}

/// The extension list written as `s`: comma-separated, trimmed, in lower
/// case, without empty items.
pub open spec fn extension_list(s: Seq<char>) -> Seq<Seq<char>> {
    cleaned(split_on(s, ','))
}

/// The byte count that a size text stands for, or `None` when it cannot be
/// read.
pub open spec fn parsed_size(s: Seq<char>) -> Option<u64> {
    if size_text_ok(upper_of(s)) {
        Some(size_value(upper_of(s)))
    } else {
        None
    }
}

/// The views of a list of strings.
pub open spec fn texts(v: Seq<String>) -> Seq<Seq<char>> {
    v.map_values(|x: String| x@)
}

/// The scan settings that the command-line settings ask for.
pub open spec fn config_of(cli: Cli) -> Config {
    Config {
        format: format_of(cli.format),
        sort_by: sort_of(cli.sort),
        show_hidden: cli.all,
        recursive: !cli.no_recursive,
        max_depth: cli.depth,
    }
}

fn add_cleaned(out: &mut Vec<String>, piece: &str)
    ensures
        texts(final(out)@) == if lower_of(trimmed(piece@)).len() > 0 {
            texts(old(out)@).push(lower_of(trimmed(piece@)))
        } else {
            texts(old(out)@)
        },
{
    let lowered = to_lower(trim(piece));
    if !lowered.as_str().is_empty() {
        let ghost before = out@;
        out.push(lowered);
        assert(texts(out@) =~= texts(before).push(lower_of(trimmed(piece@))));
    }
}

/// The extension list of `text`.
fn extensions_in(text: &str) -> (r: Vec<String>)
    ensures
        texts(r@) == extension_list(text@),
{
    let c = chars_of(text);
    let ghost s = text@;
    let mut out: Vec<String> = Vec::new();
    let ghost mut done: Seq<Seq<char>> = Seq::empty();
    let mut start: usize = 0;
    let mut i: usize = 0;
    assert(s.take(0) =~= Seq::<char>::empty());
    assert(s.subrange(0, 0) =~= Seq::<char>::empty());
    assert(split_on(Seq::<char>::empty(), ',') == seq![Seq::<char>::empty()]);
    assert(seq![Seq::<char>::empty()] =~= done.push(Seq::<char>::empty()));
    while i < c.len()
        invariant
            c@ == s,
            s == text@,
            start <= i <= s.len(),
            split_on(s.take(i as int), ',') == done.push(s.subrange(start as int, i as int)),
            texts(out@) == cleaned(done),
        decreases s.len() - i,
    {
        let ghost prev = s.take(i as int);
        assert(s.take(i + 1).drop_last() =~= prev);
        assert(s.take(i + 1).last() == s[i as int]);
        if c[i] == ',' {
            let piece = text.substring_char(start, i);
            add_cleaned(&mut out, piece);
            proof {
                let d2 = done.push(s.subrange(start as int, i as int));
                assert(d2.drop_last() =~= done);
                done = d2;
                assert(s.subrange(i + 1, i + 1) =~= Seq::<char>::empty());
            }
            start = i + 1;
        } else {
            proof {
                assert(s.subrange(start as int, i + 1) =~= s.subrange(start as int, i as int).push(s[i as int]));
                assert(done.push(s.subrange(start as int, i as int)).update(done.len() as int, s.subrange(start as int, i + 1))
                    =~= done.push(s.subrange(start as int, i + 1)));
            }
        }
        i = i + 1;
    }
    let piece = text.substring_char(start, c.len());
    add_cleaned(&mut out, piece);
    proof {
        assert(s.take(s.len() as int) =~= s);
        let all = done.push(s.subrange(start as int, s.len() as int));
        assert(all.drop_last() =~= done);
    }
    out
}

/// The size that an optional size setting asks for.
fn size_setting(setting: &Option<String>) -> (r: Result<Option<u64>, String>)
    ensures
        match setting {
            None => r == Ok::<Option<u64>, String>(None),
            Some(t) => match parsed_size(t@) {
                Some(v) => r == Ok::<Option<u64>, String>(Some(v)),
                None => r is Err,
            },
        },
{
    match setting {
        Some(size_str) => match parse_size(size_str.as_str()) {
            Ok(v) => Ok(Some(v)),
            Err(e) => Err(e),
        },
        None => Ok(None),
    }
}

impl Cli {
    /// The scan settings that these command-line settings ask for.
    pub fn to_config(&self) -> (r: Config)
        ensures
            r == config_of(*self),
    {
        Config {
            format: OutputFormat::from(self.format),
            sort_by: SortBy::from(self.sort),
            show_hidden: self.all,
            recursive: !self.no_recursive,
            max_depth: self.depth,
        }
    }

    /// Reads a human-readable size such as "1KB", "500MB" or "2GiB" as a
    /// byte count.
    pub fn parse_size(size_str: &str) -> (r: Result<u64, String>)
        ensures
            match parsed_size(size_str@) {
                Some(v) => r == Ok::<u64, String>(v),
                None => r is Err,
            },
    {
        parse_size(size_str)
    }

    /// The extension filter as a list: comma-separated items, trimmed and
    /// lower-cased, empty items left out.
    pub fn parse_extensions(&self) -> (r: Option<Vec<String>>)
        ensures
            match self.extensions {
                None => r is None,
                Some(e) => r matches Some(v) && texts(v@) == extension_list(e@),
            },
    {
        match &self.extensions {
            Some(ext_str) => Some(extensions_in(ext_str.as_str())),
            None => None,
        }
    }

    /// The minimum size filter in bytes.
    pub fn get_min_size_bytes(&self) -> (r: Result<Option<u64>, String>)
        ensures
            match self.min_size {
                None => r == Ok::<Option<u64>, String>(None),
                Some(t) => match parsed_size(t@) {
                    Some(v) => r == Ok::<Option<u64>, String>(Some(v)),
                    None => r is Err,
                },
            },
    {
        size_setting(&self.min_size)
    }

    /// The maximum size filter in bytes.
    pub fn get_max_size_bytes(&self) -> (r: Result<Option<u64>, String>)
        ensures
            match self.max_size {
                None => r == Ok::<Option<u64>, String>(None),
                Some(t) => match parsed_size(t@) {
                    Some(v) => r == Ok::<Option<u64>, String>(Some(v)),
                    None => r is Err,
                },
            },
    {
        size_setting(&self.max_size)
    }
}

/// A size setting is absent or can be read.
pub open spec fn size_setting_ok(setting: Option<String>) -> bool {
    match setting {
        None => true,
        Some(t) => parsed_size(t@) is Some,
    }
}

/// The bound a size setting sets, if any.
pub open spec fn size_bound(setting: Option<String>) -> Option<u64> {
    match setting {
        None => None,
        Some(t) => parsed_size(t@),
    }
}

/// Builds the filters that the command-line settings ask for. Fails with a
/// configuration error when a size setting cannot be read.
pub fn create_file_filters(cli: &Cli) -> (r: Result<FileFilters, RfstatError>)
    ensures
        r is Ok <==> size_setting_ok(cli.min_size) && size_setting_ok(cli.max_size),
        r matches Ok(f) ==> {
            &&& match cli.extensions {
                None => f.extensions is None,
                Some(e) => f.extensions matches Some(v) && texts(v@) == extension_list(e@),
            }
            &&& f.min_size == size_bound(cli.min_size)
            &&& f.max_size == size_bound(cli.max_size)
            &&& !f.files_only && !f.dirs_only
        },
        r matches Err(e) ==> e is Config,
{
    let extensions = cli.parse_extensions();
    let min_size = match cli.get_min_size_bytes() {
        Ok(v) => v,
        Err(e) => {
            let mut msg = "Invalid min-size: ".to_owned();
            push_text(&mut msg, e.as_str());
            return Err(RfstatError::Config { message: msg });
        },
    };
    let max_size = match cli.get_max_size_bytes() {
        Ok(v) => v,
        Err(e) => {
            let mut msg = "Invalid max-size: ".to_owned();
            push_text(&mut msg, e.as_str());
            return Err(RfstatError::Config { message: msg });
        },
    };
    Ok(FileFilters { extensions, min_size, max_size, files_only: false, dirs_only: false })
}

/// Whether any filter is set.
pub fn has_active_filters(filters: &FileFilters) -> (r: bool)
    ensures
        r == (filters.extensions is Some || filters.min_size is Some || filters.max_size is Some
            || filters.files_only || filters.dirs_only),
{
    filters.extensions.is_some() || filters.min_size.is_some() || filters.max_size.is_some()
        || filters.files_only || filters.dirs_only
}

/// Whether output is to be colored: never in quiet mode or for JSON and
/// CSV, otherwise exactly when standard output is a terminal.
pub fn should_use_colors(cli: &Cli, stdout_is_terminal: bool) -> (r: bool)
    ensures
        r == (!cli.quiet && (cli.format is Table || cli.format is Summary) && stdout_is_terminal),
{
    if cli.quiet {
        return false;
    }
    match cli.format {
        CliOutputFormat::Json | CliOutputFormat::Csv => false,
        CliOutputFormat::Table | CliOutputFormat::Summary => stdout_is_terminal,
    }
}

} // verus!
