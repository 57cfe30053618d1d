//! Post-scan narrowing of entry lists.

use vstd::prelude::*;

use crate::types::FileEntry;

verus! {

/// File filtering options. An absent bound or list means "no constraint".
#[derive(Debug)]
pub struct FileFilters {
    /// Only include files with these extensions
    pub extensions: Option<Vec<String>>,
    /// Minimum file size in bytes
    pub min_size: Option<u64>,
    /// Maximum file size in bytes
    pub max_size: Option<u64>,
    /// Only include files (exclude directories)
    pub files_only: bool,
    /// Only include directories (exclude files)
    pub dirs_only: bool,
}

impl Default for FileFilters {
    fn default() -> (r: Self)
        ensures
            r.extensions is None && r.min_size is None && r.max_size is None,
            !r.files_only && !r.dirs_only,
    {
        FileFilters {
            extensions: None,
            min_size: None,
            max_size: None,
            files_only: false,
            dirs_only: false,
        }
    }
}

/// Whether `t` is one of the extensions in `allowed`.
pub open spec fn is_allowed(allowed: Seq<String>, t: Seq<char>) -> bool {
    exists|i: int| 0 <= i < allowed.len() && (#[trigger] allowed[i])@ == t
}

/// Whether entry `e` passes every filter in `f`: the class filter, the
/// extension allow-list (files only) and the size bounds (files only).
pub open spec fn passes(e: FileEntry, f: FileFilters) -> bool {
    let class_ok = !(f.files_only && e.is_dir) && !(f.dirs_only && !e.is_dir);
    let extension_ok = match f.extensions {
        Some(allowed) => e.is_dir || match e.file_type {
            Some(t) => is_allowed(allowed@, t@),
            None => false,
        },
        None => true,
    };
    let min_ok = match f.min_size {
        Some(m) => e.is_dir || e.size >= m,
        None => true,
    };
    let max_ok = match f.max_size {
        Some(m) => e.is_dir || e.size <= m,
        None => true,
    };
    class_ok && extension_ok && min_ok && max_ok
}

/// The entries of `s` that pass `f`, in their order.
pub open spec fn filtered(s: Seq<FileEntry>, f: FileFilters) -> Seq<FileEntry> {
    s.filter(|e: FileEntry| passes(e, f))
}

fn contains_extension(allowed: &Vec<String>, t: &String) -> (r: bool)
    ensures
        r == is_allowed(allowed@, t@),
{
    let mut i: usize = 0;
    while i < allowed.len()
        invariant
            0 <= i <= allowed@.len(),
            forall|j: int| 0 <= j < i ==> (#[trigger] allowed@[j])@ != t@,
        decreases allowed@.len() - i,
    {
        if allowed[i] == *t {
            return true;
        }
        i = i + 1;
    }
    false
}

/// Whether one entry passes all filters.
pub fn apply_filters(entry: &FileEntry, filters: &FileFilters) -> (r: bool)
    ensures
        r == passes(*entry, *filters),
{
    if filters.files_only && entry.is_dir {
        return false;
    }
    if filters.dirs_only && !entry.is_dir {
        return false;
    }
    if let Some(allowed) = &filters.extensions {
        if !entry.is_dir {
            match &entry.file_type {
                Some(ext) => {
                    if !contains_extension(allowed, ext) {
                        return false;
                    }
                },
                None => return false,
            }
        }
    }
    if !entry.is_dir {
        if let Some(min_size) = filters.min_size {
            if entry.size < min_size {
                return false;
            }
        }
        if let Some(max_size) = filters.max_size {
            if entry.size > max_size {
                return false;
            }
        }
    }
    true
}

/// The entries that pass all filters, in the order they come in.
pub fn filter_entries(entries: &[FileEntry], filters: &FileFilters) -> (r: Vec<FileEntry>)
    ensures
        r@ == filtered(entries@, *filters),
{
    let ghost s = entries@;
    let ghost pred = |e: FileEntry| passes(e, *filters);
    let mut out: Vec<FileEntry> = Vec::new();
    let mut i: usize = 0;
    while i < entries.len()
        invariant
            s == entries@,
            pred == (|e: FileEntry| passes(e, *filters)),
            0 <= i <= s.len(),
            out@ == s.take(i as int).filter(pred),
        decreases s.len() - i,
    {
        let ghost p = s.take(i as int);
        assert(s.take(i + 1) =~= p.push(s[i as int]));
        proof {
            p.lemma_filter_push(s[i as int], pred);
        }
        if apply_filters(&entries[i], filters) {
            out.push(entries[i].clone());
        }
        i = i + 1;
    }
    assert(s.take(s.len() as int) =~= s);
    out
}

/// Filtering twice with the same filters gives the same list as filtering
/// once.
pub proof fn lemma_filter_idempotent(entries: Seq<FileEntry>, filters: FileFilters)
    ensures
        filtered(filtered(entries, filters), filters) == filtered(entries, filters),
    decreases entries.len(),
{
    let pred = |e: FileEntry| passes(e, filters);
    if entries.len() == 0 {
        reveal(Seq::filter);
    } else {
        let p = entries.drop_last();
        let x = entries.last();
        lemma_filter_idempotent(p, filters);
        assert(entries == p.push(x));
        p.lemma_filter_push(x, pred);
        p.filter(pred).lemma_filter_push(x, pred);
    }
}

} // verus!
