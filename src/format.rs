//! Presentation helpers that do not depend on an output device: number
//! grouping and the options of the output formats.

use vstd::prelude::*;

use crate::text::push_char;

verus! {

/// The decimal digit for `d` (0 to 9).
pub open spec fn digit_char(d: nat) -> char {
    ('0' as nat + d) as char
}

/// The decimal representation of `n`, without leading zeros.
pub open spec fn decimal(n: nat) -> Seq<char>
    decreases n,
{
    if n < 10 {
        seq![digit_char(n)]
    } else {
        decimal(n / 10).push(digit_char(n % 10))
    }
}

/// The first `k` digits of `ds`, with a comma before each digit that has a
/// positive multiple of three digits after it.
pub open spec fn grouped(ds: Seq<char>, k: int) -> Seq<char>
    decreases k,
{
    if k <= 0 {
        Seq::empty()
    } else {
        let i = k - 1;
        let before = if i > 0 && (ds.len() - i) % 3 == 0 { grouped(ds, i).push(',') } else { grouped(ds, i) };
        before.push(ds[i])
    }
}

/// `n` in decimal with commas between groups of three digits.
pub open spec fn with_thousands(n: u64) -> Seq<char> {
    grouped(decimal(n as nat), decimal(n as nat).len() as int)
}

fn decimal_digits(n: u64) -> (r: Vec<char>)
    ensures
        r@ == decimal(n as nat),
{
    let mut m = n;
    let mut ds: Vec<char> = Vec::new();
    loop
        invariant
            decimal(n as nat) == decimal(m as nat) + ds@,
        decreases m,
    {
        let d = (m % 10) as u32;
        let c = char_of_digit(d);
        let ghost old_ds = ds@;
        ds.insert(0, c);
        if m < 10 {
            assert(decimal(m as nat) =~= seq![c]);
            assert(decimal(n as nat) =~= ds@);
            return ds;
        }
        assert(decimal(m as nat) == decimal((m / 10) as nat).push(c));
        assert(decimal((m / 10) as nat).push(c) + old_ds =~= decimal((m / 10) as nat) + ds@);
        m = m / 10;
    }
}

fn char_of_digit(d: u32) -> (r: char)
    requires
        d < 10,
    ensures
        r == digit_char(d as nat),
{
    if d == 0 { '0' } else if d == 1 { '1' } else if d == 2 { '2' } else if d == 3 { '3' }
    else if d == 4 { '4' } else if d == 5 { '5' } else if d == 6 { '6' } else if d == 7 { '7' }
    else if d == 8 { '8' } else { '9' }
}

/// Writes `n` with thousands separators, as in "1,234,567".
pub fn format_number(n: u64) -> (r: String)
    ensures
        r@ == with_thousands(n),
{
    let chars = decimal_digits(n);
    let mut result = String::new();
    let mut i: usize = 0;
    while i < chars.len()
        invariant
            0 <= i <= chars@.len(),
            chars@ == decimal(n as nat),
            result@ == grouped(chars@, i as int),
        decreases chars@.len() - i,
    {
        if i > 0 && (chars.len() - i) % 3 == 0 {
            push_char(&mut result, ',');
        }
        push_char(&mut result, chars[i]);
        i = i + 1;
    }
    result
}

/// Options for controlling output formatting.
#[derive(Debug, Clone, Copy, PartialEq, Eq)]
pub struct FormatterOptions {
    /// Whether to use colors in output
    pub use_colors: bool,
    /// Maximum number of entries to display
    pub limit: Option<usize>,
    /// Whether to show only summary statistics
    pub summary_only: bool,
    /// Whether to show file permissions
    pub show_permissions: bool,
    /// Whether to show modification times
    pub show_times: bool,
    /// Whether to show detailed file type breakdown
    pub show_file_types: bool,
}

impl Default for FormatterOptions {
    fn default() -> (r: Self)
        ensures
            r.use_colors && r.limit is None && !r.summary_only,
            !r.show_permissions && !r.show_times && r.show_file_types,
    {
        FormatterOptions {
            use_colors: true,
            limit: None,
            summary_only: false,
            show_permissions: false,
            show_times: false,
            show_file_types: true,
        }
    }
}

} // verus!
