//! The four orders on entries and in-place sorting by one of them.

use vstd::prelude::*;
use vstd::utf8::encode_utf8;

use crate::ordering::{
    is_stable_sort_of, is_strict_weak_order, lemma_stable_sort_unique,
    merge_sort, rank_class, same_rank,
};
use crate::types::{FileEntry, SortBy};

verus! {

/// Byte value of the path separator `/`.
pub const SEPARATOR: u8 = 47;

/// Rank of a byte in text order; in path order the separator ranks before
/// every other byte, so that a directory's contents follow the directory
/// itself, component by component.
pub open spec fn byte_rank(b: u8, path_order: bool) -> int {
    if path_order && b == SEPARATOR {
        0
    } else {
        b as int + 1
    }
}

/// Lexicographic order on byte strings by `byte_rank`; a proper prefix
/// comes first.
pub open spec fn lex_before(x: Seq<u8>, y: Seq<u8>, path_order: bool) -> bool
    decreases x.len(),
{
    if x.len() == 0 {
        y.len() > 0
    } else if y.len() == 0 {
        false
    } else if byte_rank(x[0], path_order) != byte_rank(y[0], path_order) {
        byte_rank(x[0], path_order) < byte_rank(y[0], path_order)
    } else {
        lex_before(x.drop_first(), y.drop_first(), path_order)
    }
}

/// Path order: lexicographic on the UTF-8 bytes of the paths, component by
/// component.
pub open spec fn name_before(a: FileEntry, b: FileEntry) -> bool {
    lex_before(encode_utf8(a.path@), encode_utf8(b.path@), true)
}

/// `a` comes strictly before `b` when sorting by `by`.
pub open spec fn entry_before(by: SortBy, a: FileEntry, b: FileEntry) -> bool {
    match by {
        SortBy::Name => name_before(a, b),
        SortBy::Size => a.size > b.size,
        SortBy::Modified => a.modified.is_after(b.modified),
        SortBy::Type => match (a.file_type, b.file_type) {
            (Some(x), Some(y)) => lex_before(encode_utf8(x@), encode_utf8(y@), false),
            (Some(_), None) => true,
            (None, Some(_)) => false,
            (None, None) => name_before(a, b),
        },
    }
}

/// The order of `by` as a relation.
pub open spec fn entry_order(by: SortBy) -> spec_fn(FileEntry, FileEntry) -> bool {
    |a: FileEntry, b: FileEntry| entry_before(by, a, b)
}

proof fn lemma_lex_irreflexive(x: Seq<u8>, p: bool)
    ensures
        !lex_before(x, x, p),
    decreases x.len(),
{
    if x.len() > 0 {
        lemma_lex_irreflexive(x.drop_first(), p);
    }
}

proof fn lemma_lex_transitive(x: Seq<u8>, y: Seq<u8>, z: Seq<u8>, p: bool)
    requires
        lex_before(x, y, p),
        lex_before(y, z, p),
    ensures
        lex_before(x, z, p),
    decreases x.len(),
{
    if x.len() > 0 && y.len() > 0 && z.len() > 0 {
        if byte_rank(x[0], p) == byte_rank(y[0], p) && byte_rank(y[0], p) == byte_rank(z[0], p) {
            lemma_lex_transitive(x.drop_first(), y.drop_first(), z.drop_first(), p);
        }
    }
}

proof fn lemma_lex_connected(x: Seq<u8>, y: Seq<u8>, p: bool)
    requires
        x != y,
    ensures
        lex_before(x, y, p) || lex_before(y, x, p),
    decreases x.len(),
{
    if x.len() > 0 && y.len() > 0 && byte_rank(x[0], p) == byte_rank(y[0], p) {
        assert(x[0] == y[0]);
        if x.drop_first() == y.drop_first() {
            assert(x =~= seq![x[0]] + x.drop_first());
            assert(y =~= seq![y[0]] + y.drop_first());
        }
        lemma_lex_connected(x.drop_first(), y.drop_first(), p);
    } else if x.len() == 0 && y.len() == 0 {
        assert(x =~= y);
    }
}

proof fn lemma_lex_is_total_order(p: bool)
    ensures
        forall|x: Seq<u8>| !#[trigger] lex_before(x, x, p),
        forall|x: Seq<u8>, y: Seq<u8>, z: Seq<u8>|
            #[trigger] lex_before(x, y, p) && #[trigger] lex_before(y, z, p) ==> lex_before(x, z, p),
        forall|x: Seq<u8>, y: Seq<u8>|
            x != y ==> #[trigger] lex_before(x, y, p) || #[trigger] lex_before(y, x, p),
{
    assert forall|x: Seq<u8>| !#[trigger] lex_before(x, x, p) by {
        lemma_lex_irreflexive(x, p);
    }
    assert forall|x: Seq<u8>, y: Seq<u8>, z: Seq<u8>|
        #[trigger] lex_before(x, y, p) && #[trigger] lex_before(y, z, p) implies lex_before(x, z, p) by {
        lemma_lex_transitive(x, y, z, p);
    }
    assert forall|x: Seq<u8>, y: Seq<u8>|
        x != y implies #[trigger] lex_before(x, y, p) || #[trigger] lex_before(y, x, p) by {
        lemma_lex_connected(x, y, p);
    }
}

/// Each of the four orders is a strict weak order.
pub proof fn lemma_entry_order_is_weak(by: SortBy)
    ensures
        is_strict_weak_order(entry_order(by)),
{
    lemma_lex_is_total_order(true);
    lemma_lex_is_total_order(false);
    let lt = entry_order(by);
    assert forall|a: FileEntry| !#[trigger] lt(a, a) by {}
    assert forall|a: FileEntry, b: FileEntry, c: FileEntry|
        #[trigger] lt(a, b) && #[trigger] lt(b, c) implies lt(a, c) by {}
    assert forall|a: FileEntry, b: FileEntry, c: FileEntry|
        #![trigger lt(a, b), lt(b, c)]
        !lt(a, b) && !lt(b, c) implies !lt(a, c) by {
        if by is Name || by is Type {
            let (pa, pb, pc) = (encode_utf8(a.path@), encode_utf8(b.path@), encode_utf8(c.path@));
            if pa != pb {
                assert(lex_before(pa, pb, true) || lex_before(pb, pa, true));
            }
            if pb != pc {
                assert(lex_before(pb, pc, true) || lex_before(pc, pb, true));
            }
            if pa != pc {
                assert(lex_before(pa, pc, true) || lex_before(pc, pa, true));
            }
        }
        if by is Type {
            if a.file_type is Some && b.file_type is Some && c.file_type is Some {
                let (ta, tb, tc) = (
                    encode_utf8(a.file_type->0@),
                    encode_utf8(b.file_type->0@),
                    encode_utf8(c.file_type->0@),
                );
                if ta != tb {
                    assert(lex_before(ta, tb, false) || lex_before(tb, ta, false));
                }
                if tb != tc {
                    assert(lex_before(tb, tc, false) || lex_before(tc, tb, false));
                }
                if ta != tc {
                    assert(lex_before(ta, tc, false) || lex_before(tc, ta, false));
                }
            }
        }
    }
}

fn byte_rank_of(b: u8, path_order: bool) -> (r: u16)
    ensures
        r as int == byte_rank(b, path_order),
{
    if path_order && b == SEPARATOR {
        0
    } else {
        b as u16 + 1
    }
}

fn bytes_before(x: &[u8], y: &[u8], path_order: bool) -> (r: bool)
    ensures
        r == lex_before(x@, y@, path_order),
{
    let mut i: usize = 0;
    assert(x@.skip(0) =~= x@ && y@.skip(0) =~= y@);
    while i < x.len() && i < y.len()
        invariant
            0 <= i <= x@.len(),
            i <= y@.len(),
            lex_before(x@, y@, path_order) == lex_before(x@.skip(i as int), y@.skip(i as int), path_order),
        decreases x@.len() - i,
    {
        let rx = byte_rank_of(x[i], path_order);
        let ry = byte_rank_of(y[i], path_order);
        assert(x@.skip(i as int)[0] == x@[i as int]);
        assert(y@.skip(i as int)[0] == y@[i as int]);
        if rx != ry {
            return rx < ry;
        }
        assert(x@.skip(i as int).drop_first() =~= x@.skip(i + 1));
        assert(y@.skip(i as int).drop_first() =~= y@.skip(i + 1));
        i = i + 1;
    }
    i == x.len() && i < y.len()
}

fn text_before(x: &str, y: &str, path_order: bool) -> (r: bool)
    ensures
        r == lex_before(encode_utf8(x@), encode_utf8(y@), path_order),
{
    bytes_before(x.as_bytes(), y.as_bytes(), path_order)
}

/// Whether `a` comes strictly before `b` when sorting by `by`.
pub fn entry_is_before(by: SortBy, a: &FileEntry, b: &FileEntry) -> (r: bool)
    ensures
        r == entry_before(by, *a, *b),
{
    match by {
        SortBy::Name => text_before(a.path.as_str(), b.path.as_str(), true),
        SortBy::Size => a.size > b.size,
        SortBy::Modified => a.modified.later_than(&b.modified),
        SortBy::Type => match (&a.file_type, &b.file_type) {
            (Some(x), Some(y)) => text_before(x.as_str(), y.as_str(), false),
            (Some(_), None) => true,
            (None, Some(_)) => false,
            (None, None) => text_before(a.path.as_str(), b.path.as_str(), true),
        },
    }
}

/// Sorts the entries by `sort_by`, stably: entries that the order does not
/// tell apart keep their relative order.
pub fn sort_entries(entries: &mut Vec<FileEntry>, sort_by: SortBy)
    ensures
        is_stable_sort_of(final(entries)@, old(entries)@, entry_order(sort_by)),
{
    proof {
        lemma_entry_order_is_weak(sort_by);
    }
    let before = |a: &FileEntry, b: &FileEntry| -> (r: bool)
        ensures
            r == entry_before(sort_by, *a, *b),
        { entry_is_before(sort_by, a, b) };
    let mut taken: Vec<FileEntry> = Vec::new();
    std::mem::swap(entries, &mut taken);
    let sorted = merge_sort(taken, &before, Ghost(entry_order(sort_by)));
    *entries = sorted;
}

/// Sorting keeps the number of entries.
pub proof fn lemma_sorted_len(sorted: Seq<FileEntry>, entries: Seq<FileEntry>, by: SortBy)
    requires
        is_stable_sort_of(sorted, entries, entry_order(by)),
    ensures
        sorted.len() == entries.len(),
{
    lemma_entry_order_is_weak(by);
    crate::ordering::lemma_stable_sort_len(sorted, entries, entry_order(by));
}

/// Sorting an already sorted list by the same order leaves it unchanged; in
/// particular sorting by name twice gives the list that sorting once gave.
pub proof fn lemma_sort_idempotent(
    entries: Seq<FileEntry>,
    once: Seq<FileEntry>,
    twice: Seq<FileEntry>,
    by: SortBy,
)
    requires
        is_stable_sort_of(once, entries, entry_order(by)),
        is_stable_sort_of(twice, once, entry_order(by)),
    ensures
        twice == once,
{
    lemma_entry_order_is_weak(by);
    lemma_stable_sort_unique(twice, once, entry_order(by));
}

/// After sorting by size the first entry is at least as large as every
/// entry of the list.
pub proof fn lemma_size_sort_largest_first(entries: Seq<FileEntry>, sorted: Seq<FileEntry>)
    requires
        is_stable_sort_of(sorted, entries, entry_order(SortBy::Size)),
    ensures
        forall|i: int| 0 <= i < entries.len() ==> sorted[0].size >= (#[trigger] entries[i]).size,
{
    let lt = entry_order(SortBy::Size);
    assert forall|i: int| 0 <= i < entries.len() implies sorted[0].size >= (#[trigger] entries[i]).size by {
        let e = entries[i];
        let pred = |y: FileEntry| same_rank(lt, e, y);
        entries.lemma_filter_contains(pred, i);
        assert(rank_class(sorted, lt, e) == rank_class(entries, lt, e));
        sorted.lemma_filter_contains_rev(pred, e);
        let k = choose|k: int| 0 <= k < sorted.len() && sorted[k] == e;
        if k > 0 {
            assert(!lt(sorted[k], sorted[0]));
        }
    }
}

} // verus!
