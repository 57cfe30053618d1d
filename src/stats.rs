//! Aggregation of entry lists into summaries.

use vstd::prelude::*;

use crate::ordering::{is_stable_sort_of, merge_sort};
use crate::types::{bucket_of, Bucket, FileEntry, FileStats, SizeDistribution, TypeStats};

verus! {

/// Type key under which files without an extension are counted.
pub const NO_EXTENSION: &'static str = "no_extension";

/// Number of files (entries that are not directories) in `s`.
pub open spec fn file_count(s: Seq<FileEntry>) -> nat
    decreases s.len(),
{
    if s.len() == 0 {
        0
    } else {
        file_count(s.drop_last()) + if s.last().is_dir { 0nat } else { 1nat }
    }
}

/// Number of directories in `s`.
pub open spec fn dir_count(s: Seq<FileEntry>) -> nat
    decreases s.len(),
{
    if s.len() == 0 {
        0
    } else {
        dir_count(s.drop_last()) + if s.last().is_dir { 1nat } else { 0nat }
    }
}

/// Sum of the sizes of the files in `s`.
pub open spec fn size_sum(s: Seq<FileEntry>) -> nat
    decreases s.len(),
{
    if s.len() == 0 {
        0
    } else {
        size_sum(s.drop_last()) + if s.last().is_dir { 0nat } else { s.last().size as nat }
    }
}

/// Number of files in `s` whose size falls into bucket `b`.
pub open spec fn bucket_count(s: Seq<FileEntry>, b: Bucket) -> nat
    decreases s.len(),
{
    if s.len() == 0 {
        0
    } else {
        bucket_count(s.drop_last(), b) + if !s.last().is_dir && bucket_of(s.last().size) == b {
            1nat
        } else {
            0nat
        }
    }
}

/// Largest file size in `s`, 0 when there are no files.
pub open spec fn largest_size(s: Seq<FileEntry>) -> u64
    decreases s.len(),
{
    if s.len() == 0 {
        0
    } else {
        let m = largest_size(s.drop_last());
        if !s.last().is_dir && s.last().size > m {
            s.last().size
        } else {
            m
        }
    }
}

/// Smallest file size in `s`, 0 when there are no files.
pub open spec fn smallest_size(s: Seq<FileEntry>) -> u64
    decreases s.len(),
{
    if s.len() == 0 {
        0
    } else {
        let m = smallest_size(s.drop_last());
        if !s.last().is_dir && (file_count(s.drop_last()) == 0 || s.last().size < m) {
            s.last().size
        } else {
            m
        }
    }
}

/// The key under which a file is counted in the per-type breakdown.
pub open spec fn type_key(e: FileEntry) -> Seq<char> {
    match e.file_type {
        Some(t) => t@,
        None => NO_EXTENSION@,
    }
}

/// The distinct type keys of the files in `s`, in order of first occurrence.
pub open spec fn type_keys(s: Seq<FileEntry>) -> Seq<Seq<char>>
    decreases s.len(),
{
    if s.len() == 0 {
        Seq::empty()
    } else {
        let ks = type_keys(s.drop_last());
        if s.last().is_dir || ks.contains(type_key(s.last())) {
            ks
        } else {
            ks.push(type_key(s.last()))
        }
    }
}

/// Number of files in `s` with type key `k`.
pub open spec fn key_count(s: Seq<FileEntry>, k: Seq<char>) -> nat
    decreases s.len(),
{
    if s.len() == 0 {
        0
    } else {
        key_count(s.drop_last(), k) + if !s.last().is_dir && type_key(s.last()) == k {
            1nat
        } else {
            0nat
        }
    }
}

/// Total size of the files in `s` with type key `k`.
pub open spec fn key_size(s: Seq<FileEntry>, k: Seq<char>) -> nat
    decreases s.len(),
{
    if s.len() == 0 {
        0
    } else {
        key_size(s.drop_last(), k) + if !s.last().is_dir && type_key(s.last()) == k {
            s.last().size as nat
        } else {
            0nat
        }
    }
}

/// Sum of the file counts over a per-type breakdown.
pub open spec fn type_count_total(v: Seq<(String, TypeStats)>) -> int
    decreases v.len(),
{
    if v.len() == 0 {
        0
    } else {
        type_count_total(v.drop_last()) + v.last().1.count
    }
}

/// Sum of the total sizes over a per-type breakdown.
pub open spec fn type_size_total(v: Seq<(String, TypeStats)>) -> int
    decreases v.len(),
{
    if v.len() == 0 {
        0
    } else {
        type_size_total(v.drop_last()) + v.last().1.total_size
    }
}

/// `t` holds the exact statistics of the files with key `k` in `s`.
pub open spec fn is_type_summary(t: TypeStats, s: Seq<FileEntry>, k: Seq<char>) -> bool {
    &&& t.count == key_count(s, k)
    &&& t.total_size == key_size(s, k)
    &&& t.count > 0
    &&& t.avg_size == t.total_size / t.count
}

/// `stats` is the summary of the entries `s`.
pub open spec fn summarizes(stats: FileStats, s: Seq<FileEntry>) -> bool {
    let files = file_count(s);
    &&& stats.total_files == files
    &&& stats.total_dirs == dir_count(s)
    &&& stats.total_size == size_sum(s)
    &&& stats.avg_file_size == if files > 0 { size_sum(s) / files } else { 0 }
    &&& stats.max_file_size == largest_size(s)
    &&& stats.min_file_size == smallest_size(s)
    &&& stats.size_distribution.tiny == bucket_count(s, Bucket::Tiny)
    &&& stats.size_distribution.small == bucket_count(s, Bucket::Small)
    &&& stats.size_distribution.medium == bucket_count(s, Bucket::Medium)
    &&& stats.size_distribution.large == bucket_count(s, Bucket::Large)
    &&& stats.size_distribution.huge == bucket_count(s, Bucket::Huge)
    &&& stats.file_types@.len() == type_keys(s).len()
    &&& forall|j: int|
        0 <= j < stats.file_types@.len() ==> {
            &&& (#[trigger] stats.file_types@[j]).0@ == type_keys(s)[j]
            &&& is_type_summary(stats.file_types@[j].1, s, type_keys(s)[j])
        }
    &&& stats.entries@ == s
}

pub(crate) proof fn lemma_size_sum_prefix(s: Seq<FileEntry>, i: int)
    requires
        0 <= i <= s.len(),
    ensures
        size_sum(s.take(i)) <= size_sum(s),
    decreases s.len(),
{
    if i < s.len() {
        assert(s.drop_last().take(i) =~= s.take(i));
        lemma_size_sum_prefix(s.drop_last(), i);
    } else {
        assert(s.take(i) =~= s);
    }
}

proof fn lemma_key_bounds(s: Seq<FileEntry>, k: Seq<char>)
    ensures
        key_count(s, k) <= file_count(s),
        key_size(s, k) <= size_sum(s),
        !type_keys(s).contains(k) ==> key_count(s, k) == 0 && key_size(s, k) == 0,
    decreases s.len(),
{
    if s.len() > 0 {
        let p = s.drop_last();
        lemma_key_bounds(p, k);
        lemma_type_keys_grow(s);
        if !type_keys(s).contains(k) {
            assert(!type_keys(p).contains(k));
            if !s.last().is_dir && type_key(s.last()) == k {
                assert(type_keys(s)[type_keys(s).len() - 1] == k);
            }
        }
    }
}

proof fn lemma_type_keys_grow(s: Seq<FileEntry>)
    requires
        s.len() > 0,
    ensures
        forall|k: Seq<char>|
            type_keys(s.drop_last()).contains(k) ==> #[trigger] type_keys(s).contains(k),
        !s.last().is_dir ==> type_keys(s).contains(type_key(s.last())),
{
    let ks = type_keys(s.drop_last());
    if !(s.last().is_dir || ks.contains(type_key(s.last()))) {
        assert forall|k: Seq<char>| ks.contains(k) implies #[trigger] type_keys(s).contains(k) by {
            let j = choose|j: int| 0 <= j < ks.len() && ks[j] == k;
            assert(type_keys(s)[j] == k);
        }
        assert(type_keys(s)[ks.len() as int] == type_key(s.last()));
    }
}

proof fn lemma_type_totals_update(v: Seq<(String, TypeStats)>, j: int, x: (String, TypeStats))
    requires
        0 <= j < v.len(),
    ensures
        type_count_total(v.update(j, x)) == type_count_total(v) - v[j].1.count + x.1.count,
        type_size_total(v.update(j, x)) == type_size_total(v) - v[j].1.total_size
            + x.1.total_size,
    decreases v.len(),
{
    let w = v.update(j, x);
    if j < v.len() - 1 {
        assert(w.drop_last() =~= v.drop_last().update(j, x));
        lemma_type_totals_update(v.drop_last(), j, x);
    } else {
        assert(w.drop_last() =~= v.drop_last());
    }
}

proof fn lemma_sizes_within_extremes(s: Seq<FileEntry>)
    ensures
        forall|i: int|
            0 <= i < s.len() && !(#[trigger] s[i]).is_dir ==> smallest_size(s) <= s[i].size
                <= largest_size(s),
        file_count(s) == 0 ==> largest_size(s) == 0 && smallest_size(s) == 0,
    decreases s.len(),
{
    if s.len() > 0 {
        let p = s.drop_last();
        lemma_sizes_within_extremes(p);
        assert forall|i: int|
            0 <= i < s.len() && !(#[trigger] s[i]).is_dir implies smallest_size(s) <= s[i].size
            <= largest_size(s) by {
            if i < s.len() - 1 {
                assert(s[i] == p[i]);
                if file_count(p) == 0 {
                    lemma_file_count_zero(p, i);
                }
            }
        }
    }
}

proof fn lemma_file_count_zero(s: Seq<FileEntry>, i: int)
    requires
        0 <= i < s.len(),
        file_count(s) == 0,
    ensures
        s[i].is_dir,
    decreases s.len(),
{
    if i < s.len() - 1 {
        assert(s.drop_last()[i] == s[i]);
        lemma_file_count_zero(s.drop_last(), i);
    }
}

/// Folds a list of entries into its summary: counts, total and extreme
/// sizes, per-type breakdown and size distribution. The entries are kept,
/// in their order, in the result.
pub fn calculate_stats(entries: &[FileEntry]) -> (r: FileStats)
    requires
        size_sum(entries@) <= u64::MAX,
    ensures
        summarizes(r, entries@),
        r.total_files + r.total_dirs == entries@.len(),
        r.size_distribution.total() == r.total_files,
        forall|i: int|
            0 <= i < entries@.len() && !(#[trigger] entries@[i]).is_dir ==> r.min_file_size
                <= entries@[i].size <= r.max_file_size,
        type_count_total(r.file_types@) == r.total_files,
        type_size_total(r.file_types@) == r.total_size,
{
    let ghost s = entries@;
    let mut total_files: u64 = 0;
    let mut total_dirs: u64 = 0;
    let mut total_size: u64 = 0;
    let mut max_size: u64 = 0;
    let mut min_size: u64 = 0;
    let mut distribution = SizeDistribution::new();
    let mut types: Vec<(String, TypeStats)> = Vec::new();
    let mut kept: Vec<FileEntry> = Vec::new();
    let mut i: usize = 0;
    while i < entries.len()
        invariant
            s == entries@,
            size_sum(s) <= u64::MAX,
            0 <= i <= s.len(),
            total_files == file_count(s.take(i as int)),
            total_dirs == dir_count(s.take(i as int)),
            total_files + total_dirs == i,
            total_size == size_sum(s.take(i as int)),
            max_size == largest_size(s.take(i as int)),
            min_size == smallest_size(s.take(i as int)),
            distribution.tiny == bucket_count(s.take(i as int), Bucket::Tiny),
            distribution.small == bucket_count(s.take(i as int), Bucket::Small),
            distribution.medium == bucket_count(s.take(i as int), Bucket::Medium),
            distribution.large == bucket_count(s.take(i as int), Bucket::Large),
            distribution.huge == bucket_count(s.take(i as int), Bucket::Huge),
            distribution.total() == total_files,
            types@.len() == type_keys(s.take(i as int)).len(),
            forall|j: int|
                0 <= j < types@.len() ==> {
                    &&& (#[trigger] types@[j]).0@ == type_keys(s.take(i as int))[j]
                    &&& types@[j].1.count == key_count(s.take(i as int), types@[j].0@)
                    &&& types@[j].1.total_size == key_size(s.take(i as int), types@[j].0@)
                    &&& types@[j].1.count > 0
                },
            type_count_total(types@) == total_files,
            type_size_total(types@) == total_size,
            kept@ == s.take(i as int),
        decreases s.len() - i,
    {
        let e = &entries[i];
        let ghost p = s.take(i as int);
        let ghost q = s.take(i + 1);
        assert(q.drop_last() =~= p);
        assert(q.last() == *e);
        if e.is_dir {
            total_dirs = total_dirs + 1;
            assert(type_keys(q) == type_keys(p));
            assert forall|m: int| 0 <= m < types@.len() implies {
                &&& (#[trigger] types@[m]).0@ == type_keys(q)[m]
                &&& types@[m].1.count == key_count(q, types@[m].0@)
                &&& types@[m].1.total_size == key_size(q, types@[m].0@)
                &&& types@[m].1.count > 0
            } by {}
        } else {
            proof {
                lemma_size_sum_prefix(s, i + 1);
            }
            let size = e.size;
            if total_files == 0 || size < min_size {
                min_size = size;
            }
            if size > max_size {
                max_size = size;
            }
            total_files = total_files + 1;
            total_size = total_size + size;
            distribution.add_size(size);
            let key: String = match &e.file_type {
                Some(t) => t.clone(),
                None => NO_EXTENSION.to_owned(),
            };
            assert(key@ == type_key(*e));
            let mut j: usize = 0;
            let mut found = false;
            while j < types.len()
                invariant
                    0 <= j <= types@.len(),
                    !found ==> forall|m: int| 0 <= m < j ==> (#[trigger] types@[m]).0@ != key@,
                    found ==> j < types@.len() && types@[j as int].0@ == key@,
                ensures
                    found ==> j < types@.len() && types@[j as int].0@ == key@,
                    !found ==> forall|m: int|
                        0 <= m < types@.len() ==> (#[trigger] types@[m]).0@ != key@,
                decreases types@.len() - j + if found { 0int } else { 1int },
            {
                if types[j].0 == key {
                    found = true;
                    break;
                }
                j = j + 1;
            }
            let ghost old_types = types@;
            proof {
                lemma_key_bounds(q, key@);
            }
            if found {
                let old_stats = types[j].1;
                let new_stats = TypeStats {
                    count: old_stats.count + 1,
                    total_size: old_stats.total_size + size,
                    avg_size: 0,
                };
                types[j].1 = new_stats;
                proof {
                    lemma_type_totals_update(old_types, j as int, types@[j as int]);
                    assert(type_keys(p).contains(key@)) by {
                        assert(type_keys(p)[j as int] == key@);
                    }
                    assert(type_keys(q) == type_keys(p));
                    lemma_type_keys_distinct(p);
                    assert forall|m: int| 0 <= m < types@.len() implies {
                        &&& (#[trigger] types@[m]).0@ == type_keys(q)[m]
                        &&& types@[m].1.count == key_count(q, types@[m].0@)
                        &&& types@[m].1.total_size == key_size(q, types@[m].0@)
                        &&& types@[m].1.count > 0
                    } by {
                        if m != j {
                            assert(types@[m] == old_types[m]);
                            assert(type_keys(p)[m] != type_keys(p)[j as int]);
                        }
                    }
                }
            } else {
                proof {
                    assert(!type_keys(p).contains(type_key(*e))) by {
                        if type_keys(p).contains(type_key(*e)) {
                            let m = choose|m: int|
                                0 <= m < type_keys(p).len() && type_keys(p)[m] == type_key(*e);
                            assert(types@[m].0@ == type_keys(p)[m]);
                            assert(types@[m].0@ != key@);
                        }
                    }
                    lemma_key_bounds(p, key@);
                    assert(type_keys(q) == type_keys(p).push(key@));
                }
                types.push((key, TypeStats { count: 1, total_size: size, avg_size: 0 }));
                proof {
                    assert(types@.drop_last() =~= old_types);
                    assert forall|m: int| 0 <= m < types@.len() implies {
                        &&& (#[trigger] types@[m]).0@ == type_keys(q)[m]
                        &&& types@[m].1.count == key_count(q, types@[m].0@)
                        &&& types@[m].1.total_size == key_size(q, types@[m].0@)
                        &&& types@[m].1.count > 0
                    } by {
                        if m < old_types.len() {
                            assert(types@[m] == old_types[m]);
                            assert(old_types[m].0@ != key@);
                        }
                    }
                }
            }
        }
        kept.push(e.clone());
        i = i + 1;
        assert(kept@ =~= q);
    }
    assert(s.take(s.len() as int) =~= s);
    let ghost ks = type_keys(s);
    let mut j: usize = 0;
    while j < types.len()
        invariant
            ks == type_keys(s),
            types@.len() == ks.len(),
            0 <= j <= types@.len(),
            forall|m: int|
                0 <= m < types@.len() ==> {
                    &&& (#[trigger] types@[m]).0@ == ks[m]
                    &&& types@[m].1.count == key_count(s, ks[m])
                    &&& types@[m].1.total_size == key_size(s, ks[m])
                    &&& types@[m].1.count > 0
                    &&& m < j ==> types@[m].1.avg_size == types@[m].1.total_size / types@[m].1.count
                },
            type_count_total(types@) == total_files,
            type_size_total(types@) == total_size,
        decreases types@.len() - j,
    {
        let st = types[j].1;
        let ghost before = types@;
        types[j].1 = TypeStats { count: st.count, total_size: st.total_size, avg_size: st.total_size / st.count };
        proof {
            lemma_type_totals_update(before, j as int, types@[j as int]);
        }
        j = j + 1;
    }
    let avg = if total_files > 0 { total_size / total_files } else { 0 };
    proof {
        lemma_sizes_within_extremes(s);
    }
    FileStats {
        total_files,
        total_dirs,
        total_size,
        avg_file_size: avg,
        max_file_size: max_size,
        min_file_size: min_size,
        file_types: types,
        size_distribution: distribution,
        entries: kept,
    }
}

proof fn lemma_type_keys_distinct(s: Seq<FileEntry>)
    ensures
        forall|a: int, b: int|
            0 <= a < b < type_keys(s).len() ==> type_keys(s)[a] != type_keys(s)[b],
    decreases s.len(),
{
    if s.len() > 0 {
        let p = s.drop_last();
        lemma_type_keys_distinct(p);
        let ks = type_keys(p);
        if !(s.last().is_dir || ks.contains(type_key(s.last()))) {
            let t = type_keys(s);
            assert forall|a: int, b: int| 0 <= a < b < t.len() implies t[a] != t[b] by {
                if b == ks.len() {
                    assert(ks[a] == t[a]);
                    if t[a] == t[b] {
                        assert(ks.contains(type_key(s.last())));
                    }
                }
            }
        }
    }
}


/// Whether the total size of the files in `entries` fits in a `u64`, as
/// [`calculate_stats`] requires.
pub fn size_total_fits(entries: &[FileEntry]) -> (r: bool)
    ensures
        r == (size_sum(entries@) <= u64::MAX),
{
    let ghost s = entries@;
    let mut total: u64 = 0;
    let mut i: usize = 0;
    while i < entries.len()
        invariant
            s == entries@,
            0 <= i <= s.len(),
            total == size_sum(s.take(i as int)),
        decreases s.len() - i,
    {
        let ghost q = s.take(i + 1);
        assert(q.drop_last() =~= s.take(i as int));
        if !entries[i].is_dir {
            if entries[i].size > u64::MAX - total {
                proof {
                    lemma_size_sum_prefix(s, i + 1);
                }
                return false;
            }
            total = total + entries[i].size;
        }
        i = i + 1;
    }
    assert(s.take(s.len() as int) =~= s);
    true
}

/// The files (not directories) of `s`, in order.
pub open spec fn files_of(s: Seq<FileEntry>) -> Seq<FileEntry> {
    s.filter(|e: FileEntry| !e.is_dir)
}

/// `r` is the first `n` (or all) of `s` stably sorted by `lt`.
pub open spec fn is_top<T>(r: Seq<T>, s: Seq<T>, lt: spec_fn(T, T) -> bool, n: usize) -> bool {
    exists|full: Seq<T>|
        #[trigger] is_stable_sort_of(full, s, lt) && r == full.take(
            if n < full.len() { n as int } else { full.len() as int },
        )
}

/// Orders entries by size, largest first.
pub open spec fn larger_first<'a>() -> spec_fn(&'a FileEntry, &'a FileEntry) -> bool {
    |a: &'a FileEntry, b: &'a FileEntry| a.size > b.size
}

/// The `n` largest files, largest first; files of equal size keep their
/// order in `entries`.
pub fn get_largest_files<'a>(entries: &'a [FileEntry], n: usize) -> (r: Vec<&'a FileEntry>)
    ensures
        is_top(r@, files_of(entries@).as_ref(), larger_first(), n),
{
    let ghost s = entries@;
    let ghost pred = |e: FileEntry| !e.is_dir;
    let mut files: Vec<&'a FileEntry> = Vec::new();
    let mut i: usize = 0;
    while i < entries.len()
        invariant
            s == entries@,
            pred == (|e: FileEntry| !e.is_dir),
            0 <= i <= s.len(),
            files@ == s.take(i as int).filter(pred).as_ref(),
        decreases s.len() - i,
    {
        assert(s.take(i + 1) =~= s.take(i as int).push(s[i as int]));
        proof {
            s.take(i as int).lemma_filter_push(s[i as int], pred);
        }
        let ghost before = files@;
        if !entries[i].is_dir {
            files.push(&entries[i]);
            assert(files@ =~= s.take(i + 1).filter(pred).as_ref());
        } else {
            assert(files@ =~= s.take(i + 1).filter(pred).as_ref());
        }
        i = i + 1;
    }
    assert(s.take(s.len() as int) =~= s);
    assert(files@ == files_of(entries@).as_ref()) by {
        assert(pred =~= (|e: FileEntry| !e.is_dir));
    }
    let ghost unsorted = files@;
    let before = |a: &&'a FileEntry, b: &&'a FileEntry| -> (r: bool)
        ensures
            r == (a.size > b.size),
        { a.size > b.size };
    let mut sorted = merge_sort(files, &before, Ghost(larger_first()));
    let ghost full = sorted@;
    proof {
        crate::ordering::lemma_stable_sort_len(full, unsorted, larger_first());
    }
    if n < sorted.len() {
        sorted.truncate(n);
    }
    assert(sorted@ =~= full.take(if n < full.len() { n as int } else { full.len() as int }));
    sorted
}

/// Orders per-type pairs by count, largest first.
pub open spec fn by_count_desc<'a>() -> spec_fn((&'a String, &'a TypeStats), (&'a String, &'a TypeStats)) -> bool {
    |a: (&'a String, &'a TypeStats), b: (&'a String, &'a TypeStats)| a.1.count > b.1.count
}

/// References to the parts of each pair.
pub open spec fn pair_refs<'a>(v: Seq<(String, TypeStats)>) -> Seq<(&'a String, &'a TypeStats)> {
    Seq::new(v.len(), |i: int| (&v[i].0, &v[i].1))
}

/// The `n` most common file types, most common first; types with equal
/// counts keep the order of the breakdown (order of first occurrence).
pub fn get_top_file_types<'a>(stats: &'a FileStats, n: usize) -> (r: Vec<(&'a String, &'a TypeStats)>)
    ensures
        is_top(r@, pair_refs(stats.file_types@), by_count_desc(), n),
{
    let mut types: Vec<(&'a String, &'a TypeStats)> = Vec::new();
    let mut i: usize = 0;
    while i < stats.file_types.len()
        invariant
            0 <= i <= stats.file_types@.len(),
            types@ == pair_refs(stats.file_types@.take(i as int)),
        decreases stats.file_types@.len() - i,
    {
        let pair = &stats.file_types[i];
        types.push((&pair.0, &pair.1));
        i = i + 1;
        assert(types@ =~= pair_refs(stats.file_types@.take(i as int)));
    }
    assert(stats.file_types@.take(stats.file_types@.len() as int) =~= stats.file_types@);
    let ghost unsorted = types@;
    let before = |a: &(&'a String, &'a TypeStats), b: &(&'a String, &'a TypeStats)| -> (r: bool)
        ensures
            r == (a.1.count > b.1.count),
        { a.1.count > b.1.count };
    let mut sorted = merge_sort(types, &before, Ghost(by_count_desc()));
    let ghost full = sorted@;
    proof {
        crate::ordering::lemma_stable_sort_len(full, unsorted, by_count_desc());
    }
    if n < sorted.len() {
        sorted.truncate(n);
    }
    assert(sorted@ =~= full.take(if n < full.len() { n as int } else { full.len() as int }));
    sorted
}

} // verus!
