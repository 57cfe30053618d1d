//! Statistics of the directory structure: how many directories, how deep,
//! and which directory directly holds the most data.

use vstd::prelude::*;

use crate::cli::split_on;
use crate::paths::chars_of;
use crate::stats::{dir_count, lemma_size_sum_prefix, size_sum};
use crate::text::{human_size, human_size_of, parent_of, parent_text};
use crate::types::FileEntry;

verus! {

/// Number of pieces that name a component: neither empty nor `.`.
pub open spec fn named_pieces(pieces: Seq<Seq<char>>) -> nat
    decreases pieces.len(),
{
    if pieces.len() == 0 {
        0
    } else {
        named_pieces(pieces.drop_last()) + if pieces.last().len() > 0 && pieces.last() != seq!['.'] {
            1nat
        } else {
            0nat
        }
    }
}

/// Number of components of a path: a leading root, a leading `.` of a
/// relative path, and every other piece between separators that is neither
/// empty nor `.`.
pub open spec fn component_count(p: Seq<char>) -> nat {
    let root: nat = if p.len() > 0 && p[0] == '/' { 1 } else { 0 };
    let cur: nat = if p.len() > 0 && p[0] == '.' && (p.len() == 1 || p[1] == '/') { 1 } else { 0 };
    root + cur + named_pieces(split_on(p, '/'))
}

/// Per-directory content sizes, in order of first mention: a directory
/// entry sets its own size to 0, a file adds its size to its parent.
pub open spec fn dir_sizes(s: Seq<FileEntry>) -> Seq<(Seq<char>, nat)>
    decreases s.len(),
{
    if s.len() == 0 {
        Seq::empty()
    } else {
        let prev = dir_sizes(s.drop_last());
        let e = s.last();
        if e.is_dir {
            set_size(prev, e.path@, 0)
        } else {
            match parent_of(e.path@) {
                Some(k) => {
                    let j = position_in(prev, k);
                    if j < 0 {
                        prev.push((k, e.size as nat))
                    } else {
                        prev.update(j, (k, (prev[j].1 + e.size) as nat))
                    }
                },
                None => prev,
            }
        }
    }
}

/// Position of key `k` in `v`, or -1.
pub open spec fn position_in(v: Seq<(Seq<char>, nat)>, k: Seq<char>) -> int
    decreases v.len(),
{
    if v.len() == 0 {
        -1
    } else if v.last().0 == k {
        v.len() - 1
    } else {
        position_in(v.drop_last(), k)
    }
}

/// `v` with key `k` set to `n`, appended when it is not there yet.
pub open spec fn set_size(v: Seq<(Seq<char>, nat)>, k: Seq<char>, n: nat) -> Seq<(Seq<char>, nat)> {
    let j = position_in(v, k);
    if j < 0 {
        v.push((k, n))
    } else {
        v.update(j, (k, n))
    }
}

/// Position of the last of the largest sizes in `v`, or -1 when it is
/// empty.
pub open spec fn last_largest(v: Seq<(Seq<char>, nat)>) -> int
    decreases v.len(),
{
    if v.len() == 0 {
        -1
    } else {
        let j = last_largest(v.drop_last());
        if j < 0 || v.last().1 >= v[j].1 {
            v.len() - 1
        } else {
            j
        }
    }
}

/// Largest component count of a directory in `s`, 0 when there is none.
pub open spec fn deepest(s: Seq<FileEntry>) -> nat
    decreases s.len(),
{
    if s.len() == 0 {
        0
    } else {
        let m = deepest(s.drop_last());
        if s.last().is_dir && component_count(s.last().path@) > m {
            component_count(s.last().path@)
        } else {
            m
        }
    }
}

/// Statistics specific to directory structure and organization.
#[derive(Debug, Clone)]
pub struct DirectoryStats {
    /// Total number of directories
    pub total_directories: u64,
    /// Maximum directory depth found
    pub max_depth: usize,
    /// Path of the directory containing the most data
    pub largest_directory: Option<String>,
    /// Size of the largest directory's contents
    pub largest_directory_size: u64,
}

impl DirectoryStats {
    /// Creates empty directory statistics.
    pub fn new() -> (r: Self)
        ensures
            r.total_directories == 0 && r.max_depth == 0,
            r.largest_directory is None && r.largest_directory_size == 0,
    {
        DirectoryStats { total_directories: 0, max_depth: 0, largest_directory: None, largest_directory_size: 0 }
    }

    /// The largest directory size in human-readable form.
    pub fn largest_directory_size_human(&self) -> (r: String)
        ensures
            r@ == human_size_of(self.largest_directory_size),
    {
        human_size(self.largest_directory_size)
    }
}

impl Default for DirectoryStats {
    fn default() -> (r: Self)
        ensures
            r.total_directories == 0 && r.max_depth == 0,
            r.largest_directory is None && r.largest_directory_size == 0,
    {
        DirectoryStats::new()
    }
}

/// Number of components of `path`.
pub fn path_components(path: &str) -> (r: usize)
    ensures
        r == component_count(path@),
{
    let c = chars_of(path);
    let ghost s = path@;
    let root: usize = if c.len() > 0 && c[0] == '/' { 1 } else { 0 };
    let cur: usize = if c.len() > 0 && c[0] == '.' && (c.len() == 1 || c[1] == '/') { 1 } else { 0 };
    let mut named: usize = 0;
    let ghost mut done: Seq<Seq<char>> = Seq::empty();
    let mut start: usize = 0;
    let mut i: usize = 0;
    assert(s.take(0) =~= Seq::<char>::empty());
    assert(s.subrange(0, 0) =~= Seq::<char>::empty());
    assert(split_on(Seq::<char>::empty(), '/') == seq![Seq::<char>::empty()]);
    assert(seq![Seq::<char>::empty()] =~= done.push(Seq::<char>::empty()));
    while i < c.len()
        invariant
            c@ == s,
            start <= i <= s.len(),
            split_on(s.take(i as int), '/') == done.push(s.subrange(start as int, i as int)),
            named == named_pieces(done),
            root == (if s.len() > 0 && s[0] == '/' { 1usize } else { 0usize }),
            cur == (if s.len() > 0 && s[0] == '.' && (s.len() == 1 || s[1] == '/') { 1usize } else { 0usize }),
            start == 0 ==> named == 0,
            start == 0 ==> forall|j: int| 0 <= j < i ==> s[j] != '/',
            start > 0 ==> named + root + cur <= start,
        decreases s.len() - i,
    {
        let ghost prev = s.take(i as int);
        assert(s.take(i + 1).drop_last() =~= prev);
        assert(s.take(i + 1).last() == s[i as int]);
        if c[i] == '/' {
            let ghost piece = s.subrange(start as int, i as int);
            let len = i - start;
            let is_dot = len == 1 && c[start] == '.';
            proof {
                if len == 1 {
                    if c@[start as int] == '.' {
                        assert(piece =~= seq!['.']);
                    } else {
                        assert(piece[0] != '.');
                    }
                }
            }
            if len > 0 && !is_dot {
                named = named + 1;
            }
            proof {
                let d2 = done.push(piece);
                assert(d2.drop_last() =~= done);
                done = d2;
                assert(s.subrange(i + 1, i + 1) =~= Seq::<char>::empty());
            }
            start = i + 1;
        } else {
            proof {
                assert(s.subrange(start as int, i + 1) =~= s.subrange(start as int, i as int).push(s[i as int]));
                assert(done.push(s.subrange(start as int, i as int)).update(done.len() as int, s.subrange(start as int, i + 1))
                    =~= done.push(s.subrange(start as int, i + 1)));
            }
        }
        i = i + 1;
    }
    let ghost piece = s.subrange(start as int, s.len() as int);
    let len = c.len() - start;
    let is_dot = len == 1 && c[start] == '.';
    proof {
        if len == 1 {
            if c@[start as int] == '.' {
                assert(piece =~= seq!['.']);
            } else {
                assert(piece[0] != '.');
            }
        }
    }
    assert(named + root + cur <= c.len()) by {
        if start == 0 && root == 1 {
            assert(s[0] == '/');
        }
        if start == 0 && cur == 1 && s.len() > 1 {
            assert(s[1] == '/');
        }
    }
    if len > 0 && !is_dot {
        assert(named + root + cur < c.len()) by {
            if start == 0 && cur == 1 {
                assert(piece =~= seq!['.']);
            }
        }
        named = named + 1;
    }
    proof {
        assert(s.take(s.len() as int) =~= s);
        let all = done.push(piece);
        assert(all.drop_last() =~= done);
    }
    root + cur + named
}


/// The sizes held as (text, number) pairs.
pub open spec fn sizes_view(v: Seq<(String, u64)>) -> Seq<(Seq<char>, nat)> {
    v.map_values(|p: (String, u64)| (p.0@, p.1 as nat))
}

proof fn lemma_position_in(v: Seq<(Seq<char>, nat)>, k: Seq<char>, j: int)
    requires
        -1 <= j < v.len(),
        j >= 0 ==> v[j].0 == k,
        forall|m: int| j < m < v.len() ==> (#[trigger] v[m]).0 != k,
    ensures
        position_in(v, k) == j,
    decreases v.len(),
{
    if v.len() > 0 && j < v.len() - 1 {
        assert forall|m: int| j < m < v.len() - 1 implies (#[trigger] v.drop_last()[m]).0 != k by {
            assert(v.drop_last()[m] == v[m]);
        }
        if j >= 0 {
            assert(v.drop_last()[j] == v[j]);
        }
        lemma_position_in(v.drop_last(), k, j);
    }
}

proof fn lemma_position_found(v: Seq<(Seq<char>, nat)>, k: Seq<char>)
    ensures
        -1 <= position_in(v, k) < v.len(),
        position_in(v, k) >= 0 ==> v[position_in(v, k)].0 == k,
    decreases v.len(),
{
    if v.len() > 0 && v.last().0 != k {
        lemma_position_found(v.drop_last(), k);
        if position_in(v, k) >= 0 {
            assert(v.drop_last()[position_in(v, k)] == v[position_in(v, k)]);
        }
    }
}

/// Position of the last pair whose text is `key`.
fn find_key(sizes: &Vec<(String, u64)>, key: &String) -> (r: Option<usize>)
    ensures
        match r {
            Some(j) => j < sizes@.len() && position_in(sizes_view(sizes@), key@) == j,
            None => position_in(sizes_view(sizes@), key@) == -1,
        },
{
    let ghost v = sizes_view(sizes@);
    let mut j = sizes.len();
    while j > 0
        invariant
            j <= sizes@.len(),
            v == sizes_view(sizes@),
            forall|m: int| j <= m < v.len() ==> (#[trigger] v[m]).0 != key@,
        decreases j,
    {
        j = j - 1;
        if sizes[j].0 == *key {
            proof {
                lemma_position_in(v, key@, j as int);
            }
            return Some(j);
        }
    }
    proof {
        lemma_position_in(v, key@, -1);
    }
    None
}

/// Counts directories, finds the deepest one, and finds the directory that
/// directly holds the most file data. Among directories holding equally
/// much, the one mentioned last wins.
pub fn calculate_directory_stats(entries: &[FileEntry]) -> (r: DirectoryStats)
    requires
        size_sum(entries@) <= u64::MAX,
    ensures
        r.total_directories == dir_count(entries@),
        r.max_depth == deepest(entries@),
        ({
            let v = dir_sizes(entries@);
            let j = last_largest(v);
            if j < 0 {
                r.largest_directory is None && r.largest_directory_size == 0
            } else {
                r.largest_directory matches Some(d) && d@ == v[j].0 && r.largest_directory_size == v[j].1
            }
        }),
{
    let ghost s = entries@;
    let mut total: u64 = 0;
    let mut max_depth: usize = 0;
    let mut sizes: Vec<(String, u64)> = Vec::new();
    let mut i: usize = 0;
    assert(sizes_view(sizes@) =~= Seq::<(Seq<char>, nat)>::empty());
    while i < entries.len()
        invariant
            s == entries@,
            size_sum(s) <= u64::MAX,
            0 <= i <= s.len(),
            total == dir_count(s.take(i as int)),
            total <= i,
            max_depth == deepest(s.take(i as int)),
            sizes_view(sizes@) == dir_sizes(s.take(i as int)),
            forall|j: int| 0 <= j < sizes@.len() ==> (#[trigger] sizes@[j]).1 <= size_sum(s.take(i as int)),
        decreases s.len() - i,
    {
        let e = &entries[i];
        let ghost p = s.take(i as int);
        let ghost q = s.take(i + 1);
        assert(q.drop_last() =~= p);
        assert(q.last() == *e);
        proof {
            lemma_size_sum_prefix(s, i + 1);
        }
        let ghost before = sizes@;
        if e.is_dir {
            total = total + 1;
            let depth = path_components(e.path.as_str());
            if depth > max_depth {
                max_depth = depth;
            }
            let key = e.path.clone();
            match find_key(&sizes, &key) {
                Some(j) => {
                    proof {
                        lemma_position_found(sizes_view(sizes@), key@);
                    }
                    sizes[j].1 = 0;
                    assert(sizes_view(sizes@) =~= sizes_view(before).update(j as int, (key@, 0nat)));
                },
                None => {
                    sizes.push((key, 0));
                    assert(sizes_view(sizes@) =~= sizes_view(before).push((e.path@, 0nat)));
                },
            }
            assert forall|j: int| 0 <= j < sizes@.len() implies (#[trigger] sizes@[j]).1 <= size_sum(q) by {
                if j < before.len() {
                    assert(sizes@[j] == before[j] || sizes@[j].1 == 0);
                }
            }
        } else {
            match parent_text(e.path.as_str()) {
                Some(key) => {
                    match find_key(&sizes, &key) {
                        Some(j) => {
                            proof {
                                lemma_position_found(sizes_view(sizes@), key@);
                            }
                            let old = sizes[j].1;
                            assert(old <= size_sum(p));
                            sizes[j].1 = old + e.size;
                            assert(sizes_view(sizes@) =~= sizes_view(before).update(j as int, (key@, (old + e.size) as nat)));
                        },
                        None => {
                            sizes.push((key, e.size));
                            assert(sizes_view(sizes@) =~= sizes_view(before).push((key@, e.size as nat)));
                        },
                    }
                },
                None => {},
            }
            assert forall|j: int| 0 <= j < sizes@.len() implies (#[trigger] sizes@[j]).1 <= size_sum(q) by {
                if j < before.len() && sizes@[j] == before[j] {
                }
            }
        }
        i = i + 1;
    }
    assert(s.take(s.len() as int) =~= s);
    let ghost v = dir_sizes(s);
    let mut best: Option<usize> = None;
    let mut j: usize = 0;
    while j < sizes.len()
        invariant
            v == sizes_view(sizes@),
            0 <= j <= sizes@.len(),
            match best {
                Some(b) => b < j && last_largest(v.take(j as int)) == b,
                None => j == 0,
            },
        decreases sizes@.len() - j,
    {
        let ghost t = v.take(j + 1);
        assert(t.drop_last() =~= v.take(j as int));
        assert(t.last() == v[j as int]);
        match best {
            Some(b) => {
                assert(v[j as int].1 == sizes@[j as int].1);
                assert(v[b as int].1 == sizes@[b as int].1);
                assert(t[b as int] == v[b as int]);
                assert(v.take(j as int)[b as int] == v[b as int]);
                assert(last_largest(t.drop_last()) == b);
                if sizes[j].1 >= sizes[b].1 {
                    assert(last_largest(t) == j);
                    best = Some(j);
                } else {
                    assert(last_largest(t) == b);
                }
            },
            None => {
                assert(v.take(0) =~= Seq::<(Seq<char>, nat)>::empty());
                assert(last_largest(t.drop_last()) == -1);
                assert(last_largest(t) == 0);
                best = Some(j);
            },
        }
        j = j + 1;
    }
    assert(v.take(v.len() as int) =~= v);
    match best {
        Some(b) => DirectoryStats {
            total_directories: total,
            max_depth,
            largest_directory: Some(sizes[b].0.clone()),
            largest_directory_size: sizes[b].1,
        },
        None => DirectoryStats {
            total_directories: total,
            max_depth,
            largest_directory: None,
            largest_directory_size: 0,
        },
    }
}

} // verus!
