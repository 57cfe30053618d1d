//! Decisions of a scan: which paths become entries, and how an entry is
//! built from a path's metadata. The traversal itself, which reads the file
//! system, hands each path it finds to [`scan_step`].

use vstd::prelude::*;

use crate::error::RfstatError;
use crate::paths::{extension, extension_of, hidden, is_hidden};
use crate::text::{lower_of, to_lower};
use crate::types::{Config, FileEntry, Timestamp};

verus! {

/// Metadata of one path, as the file system reports it.
#[derive(Debug, Clone, Copy, PartialEq, Eq)]
pub struct EntryMeta {
    /// Whether the path is a regular file
    pub is_file: bool,
    /// Whether the path is a directory
    pub is_dir: bool,
    /// Length in bytes
    pub len: u64,
    /// Last modification time
    pub modified: Timestamp,
    /// Raw permission bits
    pub permissions: u32,
}

/// One path found by the traversal.
#[derive(Debug)]
pub struct WalkItem {
    /// The path, as text
    pub path: String,
    /// Number of components below the root; the root itself is at depth 0
    pub depth: usize,
    /// The path's metadata, or the reason it could not be read
    pub meta: Result<EntryMeta, String>,
}

/// What the traversal reports at each step.
#[derive(Debug)]
pub enum WalkEvent {
    /// A path was found
    Found(WalkItem),
    /// Part of the tree could not be read (an unreadable directory)
    Failed { message: String },
}

/// What a step did with the event it was given.
#[derive(Debug, Clone, PartialEq, Eq)]
pub enum StepOutcome {
    /// An entry was added
    Added,
    /// The path was left out by policy (hidden, the root, beyond the depth)
    Skipped,
    /// The path could not be read; it is left out and the scan goes on
    Degraded { message: String },
}

/// What is known of the root path before a scan.
#[derive(Debug)]
pub enum RootProbe {
    /// The root does not exist
    Missing,
    /// The root is not a directory; its metadata, or why it could not be read
    File(Result<EntryMeta, String>),
    /// The root is a directory
    Directory,
}

/// How a scan goes on once the root has been looked at.
#[derive(Debug)]
pub enum ScanStart {
    /// The root is a single file: the scan's result is this one entry
    Single(FileEntry),
    /// The root is a directory: walk it
    Walk,
}

/// The file type of a path: its extension in lower case, for regular files
/// only.
pub open spec fn file_type_of(path: Seq<char>, m: EntryMeta) -> Option<Seq<char>> {
    if m.is_file {
        match extension_of(path) {
            Some(x) => Some(lower_of(x)),
            None => None,
        }
    } else {
        None
    }
}

/// `e` is the entry for `path` with metadata `m`: directories and other
/// non-regular files have size 0.
pub open spec fn describes(e: FileEntry, path: Seq<char>, m: EntryMeta) -> bool {
    &&& e.path@ == path
    &&& e.size == if m.is_file { m.len } else { 0 }
    &&& e.is_dir == m.is_dir
    &&& e.modified == m.modified
    &&& e.permissions == m.permissions
    &&& match (e.file_type, file_type_of(path, m)) {
        (Some(t), Some(x)) => t@ == x,
        (None, None) => true,
        _ => false,
    }
}

/// The deepest level a scan visits: 1 when it does not recurse, else the
/// configured maximum, if any.
pub open spec fn depth_limit(c: Config) -> Option<usize> {
    if !c.recursive {
        Some(1)
    } else {
        c.max_depth
    }
}

/// `depth` lies within the scan's depth limit.
pub open spec fn within_limit(depth: usize, c: Config) -> bool {
    match depth_limit(c) {
        Some(d) => depth <= d,
        None => true,
    }
}

/// `item` is the root directory itself.
pub open spec fn is_root_dir(item: WalkItem) -> bool {
    item.depth == 0 && match item.meta {
        Ok(m) => m.is_dir,
        Err(_) => false,
    }
}

/// The hidden-file policy or the root rule leaves `item` out.
pub open spec fn hidden_or_root(item: WalkItem, c: Config) -> bool {
    (!c.show_hidden && hidden(item.path@)) || is_root_dir(item)
}

/// The scan leaves `item` out by policy: beyond the depth limit, hidden
/// while hidden files are not shown, or the root directory itself.
pub open spec fn skipped_by_policy(item: WalkItem, c: Config) -> bool {
    !within_limit(item.depth, c) || hidden_or_root(item, c)
}

/// The event adds an entry to the scan's result.
pub open spec fn admits(event: WalkEvent, c: Config) -> bool {
    match event {
        WalkEvent::Found(item) => !skipped_by_policy(item, c) && item.meta is Ok,
        WalkEvent::Failed { .. } => false,
    }
}

/// Number of entries that the events add, in turn, to a scan's result.
pub open spec fn admitted_count(events: Seq<WalkEvent>, c: Config) -> nat
    decreases events.len(),
{
    if events.len() == 0 {
        0
    } else {
        admitted_count(events.drop_last(), c) + if admits(events.last(), c) { 1nat } else { 0nat }
    }
}

/// The depth limit that the traversal is to be given.
pub fn walk_depth_limit(config: &Config) -> (r: Option<usize>)
    ensures
        r == depth_limit(*config),
{
    if !config.recursive {
        Some(1)
    } else {
        config.max_depth
    }
}

/// Builds the entry for `path` from its metadata.
pub fn create_file_entry(path: &str, meta: &EntryMeta) -> (r: FileEntry)
    ensures
        describes(r, path@, *meta),
{
    let size = if meta.is_file { meta.len } else { 0 };
    let file_type = if meta.is_file {
        match extension(path) {
            Some(ext) => Some(to_lower(ext.as_str())),
            None => None,
        }
    } else {
        None
    };
    FileEntry {
        path: path.to_owned(),
        size,
        is_dir: meta.is_dir,
        modified: meta.modified,
        permissions: meta.permissions,
        file_type,
    }
}

/// Turns one found path into an entry: `Ok(None)` when the hidden-file
/// policy or the root rule leaves it out, an error when its metadata could
/// not be read.
pub fn process_dir_entry(item: &WalkItem, config: &Config) -> (r: Result<Option<FileEntry>, String>)
    ensures
        hidden_or_root(*item, *config) ==> r == Ok::<Option<FileEntry>, String>(None),
        !hidden_or_root(*item, *config) ==> match item.meta {
            Ok(m) => r matches Ok(Some(e)) && describes(e, item.path@, m),
            Err(msg) => r == Err::<Option<FileEntry>, String>(msg),
        },
{
    if !config.show_hidden && is_hidden(item.path.as_str()) {
        return Ok(None);
    }
    match &item.meta {
        Ok(meta) => {
            if item.depth == 0 && meta.is_dir {
                Ok(None)
            } else {
                Ok(Some(create_file_entry(item.path.as_str(), meta)))
            }
        },
        Err(msg) => Err(msg.clone()),
    }
}

/// Handles one event of the traversal: adds the entry it yields, if any, to
/// `entries`. A path whose metadata cannot be read and a part of the tree
/// that cannot be read are reported as degraded; the scan goes on.
pub fn scan_step(entries: &mut Vec<FileEntry>, event: WalkEvent, config: &Config) -> (r: StepOutcome)
    ensures
        match event {
            WalkEvent::Failed { message } => r == StepOutcome::Degraded { message }
                && final(entries)@ == old(entries)@,
            WalkEvent::Found(item) => if skipped_by_policy(item, *config) {
                r == StepOutcome::Skipped && final(entries)@ == old(entries)@
            } else {
                match item.meta {
                    Ok(m) => r == StepOutcome::Added && final(entries)@.len() == old(entries)@.len() + 1
                        && final(entries)@.drop_last() == old(entries)@
                        && describes(final(entries)@.last(), item.path@, m),
                    Err(msg) => r == StepOutcome::Degraded { message: msg }
                        && final(entries)@ == old(entries)@,
                }
            },
        },
        final(entries)@.len() == old(entries)@.len() + if admits(event, *config) { 1int } else { 0int },
{
    match event {
        WalkEvent::Failed { message } => StepOutcome::Degraded { message },
        WalkEvent::Found(item) => {
            let beyond = match walk_depth_limit(config) {
                Some(d) => item.depth > d,
                None => false,
            };
            if beyond {
                return StepOutcome::Skipped;
            }
            match process_dir_entry(&item, config) {
                Ok(Some(entry)) => {
                    entries.push(entry);
                    StepOutcome::Added
                },
                Ok(None) => StepOutcome::Skipped,
                Err(message) => StepOutcome::Degraded { message },
            }
        },
    }
}

/// Looks at the root before a scan. A missing root is the one fatal
/// condition; a root that is a file is the scan's single entry.
pub fn start_scan(root: &str, probe: RootProbe) -> (r: Result<ScanStart, RfstatError>)
    ensures
        (probe is Missing) <==> (r matches Err(RfstatError::PathNotFound { path }) && path@ == root@),
        match probe {
            RootProbe::Missing => true,
            RootProbe::File(Ok(m)) => r matches Ok(ScanStart::Single(e)) && describes(e, root@, m),
            RootProbe::File(Err(msg)) => r == Err::<ScanStart, RfstatError>(RfstatError::Io { message: msg }),
            RootProbe::Directory => r matches Ok(ScanStart::Walk),
        },
{
    match probe {
        RootProbe::Missing => Err(RfstatError::path_not_found(root)),
        RootProbe::File(Ok(meta)) => Ok(ScanStart::Single(create_file_entry(root, &meta))),
        RootProbe::File(Err(message)) => Err(RfstatError::Io { message }),
        RootProbe::Directory => Ok(ScanStart::Walk),
    }
}

/// A directory holding one hidden file yields no entry for it when hidden
/// files are not shown, and exactly one when they are (as long as the depth
/// limit reaches the directory's children).
pub proof fn lemma_hidden_file_visibility(root: WalkItem, dotfile: WalkItem, c: Config)
    requires
        root.depth == 0,
        is_root_dir(root),
        dotfile.depth == 1,
        dotfile.meta is Ok,
        hidden(dotfile.path@),
        within_limit(1, c),
    ensures
        admitted_count(seq![WalkEvent::Found(root), WalkEvent::Found(dotfile)], c) == if c.show_hidden {
            1nat
        } else {
            0nat
        },
{
    let events = seq![WalkEvent::Found(root), WalkEvent::Found(dotfile)];
    assert(events.drop_last() =~= seq![WalkEvent::Found(root)]);
    assert(seq![WalkEvent::Found(root)].drop_last() =~= Seq::<WalkEvent>::empty());
    let first = seq![WalkEvent::Found(root)];
    assert(!admits(WalkEvent::Found(root), c));
    assert(first.last() == WalkEvent::Found(root));
    assert(admitted_count(Seq::<WalkEvent>::empty(), c) == 0);
    assert(admitted_count(first, c) == 0);
    assert(events.last() == WalkEvent::Found(dotfile));
    assert(admits(WalkEvent::Found(dotfile), c) == c.show_hidden);
}

/// A path two levels below the root is left out when the depth limit is 1,
/// and whenever the scan does not recurse, whatever its maximum depth.
pub proof fn lemma_depth_limit(item: WalkItem, c: Config)
    requires
        item.depth == 2,
        (c.recursive && c.max_depth == Some(1usize)) || !c.recursive,
    ensures
        !admits(WalkEvent::Found(item), c),
{
}

} // verus!
