//! Path text: the final component, hidden names and extensions.

use vstd::prelude::*;

verus! {

/// Index of the last `/` in `p`, or -1 when there is none.
pub open spec fn last_separator(p: Seq<char>) -> int
    decreases p.len(),
{
    if p.len() == 0 {
        -1
    } else if p.last() == '/' {
        p.len() - 1
    } else {
        last_separator(p.drop_last())
    }
}

/// The last component of `p` that is neither empty nor `.`; separators
/// repeated, trailing or around `.` components do not count.
pub open spec fn final_component(p: Seq<char>) -> Option<Seq<char>>
    decreases p.len(),
    via final_component_decreases
{
    let k = last_separator(p);
    let seg = p.subrange(k + 1, p.len() as int);
    if seg.len() > 0 && seg != seq!['.'] {
        Some(seg)
    } else if k < 0 {
        None
    } else {
        final_component(p.subrange(0, k))
    }
}

/// The file name of `p`: its final component, unless that is `..`.
pub open spec fn file_name_of(p: Seq<char>) -> Option<Seq<char>> {
    match final_component(p) {
        Some(name) => if name == seq!['.', '.'] {
            None
        } else {
            Some(name)
        },
        None => None,
    }
}

/// A path is hidden when its file name begins with a dot.
pub open spec fn hidden(p: Seq<char>) -> bool {
    match file_name_of(p) {
        Some(name) => name[0] == '.',
        None => false,
    }
}

/// Index of the last `.` in `name`, or -1 when there is none.
pub open spec fn last_dot(name: Seq<char>) -> int
    decreases name.len(),
{
    if name.len() == 0 {
        -1
    } else if name.last() == '.' {
        name.len() - 1
    } else {
        last_dot(name.drop_last())
    }
}

/// The extension of `p`: the part of its file name after the last dot,
/// when that dot is not the name's first character.
pub open spec fn extension_of(p: Seq<char>) -> Option<Seq<char>> {
    match file_name_of(p) {
        Some(name) => {
            let d = last_dot(name);
            if d <= 0 {
                None
            } else {
                Some(name.subrange(d + 1, name.len() as int))
            }
        },
        None => None,
    }
}

#[via_fn]
proof fn final_component_decreases(p: Seq<char>) {
    lemma_last_separator(p);
}

proof fn lemma_last_separator(p: Seq<char>)
    ensures
        -1 <= last_separator(p) < p.len(),
        last_separator(p) >= 0 ==> p[last_separator(p)] == '/',
        forall|i: int| last_separator(p) < i < p.len() ==> p[i] != '/',
    decreases p.len(),
{
    if p.len() > 0 {
        lemma_last_separator(p.drop_last());
        assert forall|i: int| last_separator(p) < i < p.len() - 1 implies p[i] != '/' by {
            assert(p.drop_last()[i] == p[i]);
        }
    }
}

proof fn lemma_last_dot(p: Seq<char>)
    ensures
        -1 <= last_dot(p) < p.len(),
        last_dot(p) >= 0 ==> p[last_dot(p)] == '.',
        forall|i: int| last_dot(p) < i < p.len() ==> p[i] != '.',
    decreases p.len(),
{
    if p.len() > 0 {
        lemma_last_dot(p.drop_last());
        assert forall|i: int| last_dot(p) < i < p.len() - 1 implies p[i] != '.' by {
            assert(p.drop_last()[i] == p[i]);
        }
    }
}

/// The characters of `s`, in order.
pub(crate) fn chars_of(s: &str) -> (r: Vec<char>)
    ensures
        r@ == s@,
{
    let mut out: Vec<char> = Vec::new();
    for c in it: s.chars()
        invariant
            out@ == it.seq().take(it.index()),
    {
        out.push(c);
    }
    out
}

/// Position of the last `ch` in `v[..end]`, or -1 as the spec counts it.
fn find_last(v: &Vec<char>, end: usize, ch: char) -> (r: Option<usize>)
    requires
        end <= v@.len(),
    ensures
        match r {
            Some(k) => k < end && v@[k as int] == ch && forall|i: int| k < i < end ==> v@[i] != ch,
            None => forall|i: int| 0 <= i < end ==> v@[i] != ch,
        },
{
    let mut i = end;
    while i > 0
        invariant
            i <= end <= v@.len(),
            forall|j: int| i <= j < end ==> v@[j] != ch,
        decreases i,
    {
        if v[i - 1] == ch {
            return Some(i - 1);
        }
        i = i - 1;
    }
    None
}

/// Bounds `(start, end)` of the file name of `p` within its characters.
fn file_name_bounds(p: &Vec<char>) -> (r: Option<(usize, usize)>)
    ensures
        match r {
            Some((a, b)) => a < b <= p@.len() && file_name_of(p@) == Some(p@.subrange(a as int, b as int)),
            None => file_name_of(p@) is None,
        },
{
    let mut end = p.len();
    let ghost mut rest = p@;
    loop
        invariant
            end <= p@.len(),
            rest == p@.subrange(0, end as int),
            final_component(rest) == final_component(p@),
        decreases end,
    {
        let sep = find_last(p, end, '/');
        let start = match sep {
            Some(k) => k + 1,
            None => 0,
        };
        proof {
            lemma_last_separator(rest);
            let k = last_separator(rest);
            match sep {
                Some(s) => {
                    if k != s {
                        if k < s {
                            assert(rest[s as int] == '/');
                        } else {
                            assert(p@[k] == '/');
                        }
                    }
                },
                None => {
                    if k >= 0 {
                        assert(p@[k] == '/');
                    }
                },
            }
            assert(rest.subrange(k + 1, rest.len() as int) =~= p@.subrange(start as int, end as int));
        }
        let len = end - start;
        let is_dot = len == 1 && p[start] == '.';
        proof {
            if len == 1 {
                if p[start as int] == '.' {
                    assert(p@.subrange(start as int, end as int) =~= seq!['.']);
                } else {
                    assert(p@.subrange(start as int, end as int)[0] != '.');
                }
            }
        }
        if len > 0 && !is_dot {
            let is_parent = len == 2 && p[start] == '.' && p[start + 1] == '.';
            proof {
                let seg = p@.subrange(start as int, end as int);
                if len == 2 && p@[start as int] == '.' && p@[start + 1] == '.' {
                    assert(seg =~= seq!['.', '.']);
                } else if len == 2 {
                    assert(seg[0] != '.' || seg[1] != '.');
                }
            }
            if is_parent {
                return None;
            }
            return Some((start, end));
        }
        match sep {
            Some(k) => {
                proof {
                    assert(rest.subrange(0, k as int) =~= p@.subrange(0, k as int));
                    rest = p@.subrange(0, k as int);
                }
                end = k;
            },
            None => {
                return None;
            },
        }
    }
}

/// Whether the file or directory at `path` is hidden: its file name begins
/// with a dot.
pub fn is_hidden(path: &str) -> (r: bool)
    ensures
        r == hidden(path@),
{
    let chars = chars_of(path);
    assert(chars@.subrange(0, chars@.len() as int) =~= chars@);
    match file_name_bounds(&chars) {
        Some((start, _)) => chars[start] == '.',
        None => false,
    }
}

/// The file name of `path`, or the empty string when it has none.
pub fn file_name(path: &str) -> (r: String)
    ensures
        r@ == match file_name_of(path@) {
            Some(name) => name,
            None => Seq::empty(),
        },
{
    let chars = chars_of(path);
    assert(chars@.subrange(0, chars@.len() as int) =~= chars@);
    match file_name_bounds(&chars) {
        Some((start, end)) => path.substring_char(start, end).to_owned(),
        None => String::new(),
    }
}

/// The extension of `path`, as written (not yet lower-cased).
pub fn extension(path: &str) -> (r: Option<String>)
    ensures
        match r {
            Some(e) => extension_of(path@) == Some(e@),
            None => extension_of(path@) is None,
        },
{
    let chars = chars_of(path);
    assert(chars@.subrange(0, chars@.len() as int) =~= chars@);
    match file_name_bounds(&chars) {
        Some((start, end)) => {
            let ghost name = chars@.subrange(start as int, end as int);
            let dot = find_last(&chars, end, '.');
            match dot {
                Some(d) if d > start => {
                    proof {
                        lemma_last_dot(name);
                        let k = last_dot(name);
                        if k != d - start {
                            if k < d - start {
                                assert(name[d - start] == '.');
                            } else {
                                assert(chars@[start + k] == '.');
                            }
                        }
                        assert(name.subrange(k + 1, name.len() as int) =~= chars@.subrange(d + 1, end as int));
                    }
                    Some(path.substring_char(d + 1, end).to_owned())
                },
                _ => {
                    proof {
                        lemma_last_dot(name);
                        let k = last_dot(name);
                        if k > 0 {
                            assert(chars@[start + k] == '.');
                        }
                    }
                    None
                },
            }
        },
        None => None,
    }
}

} // verus!
