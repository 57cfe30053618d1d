//! Reading human-written sizes such as "500KB", "1.5GB" or "2KiB".

use vstd::prelude::*;
use vstd::arithmetic::div_mod::{lemma_div_denominator, lemma_fundamental_div_mod, lemma_div_multiples_vanish_fancy};

use crate::paths::chars_of;
use crate::text::{push_text, to_upper, upper_of};

verus! {

/// An ASCII letter.
pub open spec fn is_ascii_letter(c: char) -> bool {
    ('A' <= c && c <= 'Z') || ('a' <= c && c <= 'z')
}

/// An ASCII decimal digit.
pub open spec fn is_digit(c: char) -> bool {
    '0' <= c && c <= '9'
}

/// Every character of `s` is ASCII.
pub open spec fn is_ascii_text(s: Seq<char>) -> bool {
    forall|i: int| 0 <= i < s.len() ==> (s[i] as u32) < 128
}

/// Every character of `s` is a digit.
pub open spec fn all_digits(s: Seq<char>) -> bool {
    forall|i: int| 0 <= i < s.len() ==> is_digit(#[trigger] s[i])
}

/// Index of the first ASCII letter of `s`, or its length when it has none.
pub open spec fn first_letter(s: Seq<char>) -> int
    decreases s.len(),
{
    if s.len() == 0 {
        0
    } else if is_ascii_letter(s[0]) {
        0
    } else {
        1 + first_letter(s.drop_first())
    }
}

/// Index of the first `.` of `s`, or its length when it has none.
pub open spec fn first_dot(s: Seq<char>) -> int
    decreases s.len(),
{
    if s.len() == 0 {
        0
    } else if s[0] == '.' {
        0
    } else {
        1 + first_dot(s.drop_first())
    }
}

/// The number part of a size text: everything before the first letter.
pub open spec fn number_part(s: Seq<char>) -> Seq<char> {
    s.take(first_letter(s))
}

/// The unit part of a size text: everything from the first letter on.
pub open spec fn unit_part(s: Seq<char>) -> Seq<char> {
    s.skip(first_letter(s))
}

/// The number without its sign, if it has one.
pub open spec fn unsigned_part(n: Seq<char>) -> Seq<char> {
    if n.len() > 0 && (n[0] == '+' || n[0] == '-') {
        n.drop_first()
    } else {
        n
    }
}

/// The digits before the decimal point.
pub open spec fn whole_digits(n: Seq<char>) -> Seq<char> {
    unsigned_part(n).take(first_dot(unsigned_part(n)))
}

/// The digits after the decimal point (none when there is no point).
pub open spec fn fraction_digits(n: Seq<char>) -> Seq<char> {
    let u = unsigned_part(n);
    if first_dot(u) < u.len() {
        u.skip(first_dot(u) + 1)
    } else {
        Seq::empty()
    }
}

/// A decimal number: an optional sign, digits, and optionally a point
/// followed by digits, with at least one digit in all.
pub open spec fn valid_number(n: Seq<char>) -> bool {
    &&& all_digits(whole_digits(n))
    &&& all_digits(fraction_digits(n))
    &&& whole_digits(n).len() + fraction_digits(n).len() > 0
}

/// The value of a string of decimal digits.
pub open spec fn digits_value(ds: Seq<char>) -> nat
    decreases ds.len(),
{
    if ds.len() == 0 {
        0
    } else {
        digits_value(ds.drop_last()) * 10 + (ds.last() as nat - '0' as nat) as nat
    }
}

/// 10 to the power `k`.
pub open spec fn pow10(k: nat) -> nat
    decreases k,
{
    if k == 0 {
        1
    } else {
        10 * pow10((k - 1) as nat)
    }
}

/// Bytes per unit; units are matched after upper-casing, decimal (KB, MB,
/// GB, TB) and binary (KIB, MIB, GIB, TIB), with B or no unit for bytes.
pub open spec fn unit_multiplier(unit: Seq<char>) -> Option<u64> {
    if unit == Seq::<char>::empty() || unit == seq!['B'] {
        Some(1)
    } else if unit == seq!['K', 'B'] {
        Some(1000)
    } else if unit == seq!['M', 'B'] {
        Some(1000000)
    } else if unit == seq!['G', 'B'] {
        Some(1000000000)
    } else if unit == seq!['T', 'B'] {
        Some(1000000000000)
    } else if unit == seq!['K', 'I', 'B'] {
        Some(1024)
    } else if unit == seq!['M', 'I', 'B'] {
        Some(1048576)
    } else if unit == seq!['G', 'I', 'B'] {
        Some(1073741824)
    } else if unit == seq!['T', 'I', 'B'] {
        Some(1099511627776)
    } else {
        None
    }
}

/// The number `n` times `m`, rounded toward zero: the decimal fraction is
/// taken exactly.
pub open spec fn scaled_value(n: Seq<char>, m: nat) -> nat {
    let k = fraction_digits(n).len();
    ((digits_value(whole_digits(n)) * pow10(k) + digits_value(fraction_digits(n))) * m) / pow10(k)
}

/// The byte count a valid size text stands for: 0 for a negative number,
/// and at most `u64::MAX`.
pub open spec fn size_value(s: Seq<char>) -> u64 {
    let n = number_part(s);
    let m = unit_multiplier(unit_part(s))->0;
    if n.len() > 0 && n[0] == '-' {
        0
    } else if scaled_value(n, m as nat) > u64::MAX {
        u64::MAX
    } else {
        scaled_value(n, m as nat) as u64
    }
}

/// An upper-cased size text that can be read: ASCII, a valid number and a
/// known unit.
pub open spec fn size_text_ok(s: Seq<char>) -> bool {
    &&& is_ascii_text(s)
    &&& valid_number(number_part(s))
    &&& unit_multiplier(unit_part(s)) is Some
}

/// The error message for an ASCII size text that cannot be read.
pub open spec fn size_text_error(s: Seq<char>) -> Seq<char> {
    if !valid_number(number_part(s)) {
        "Invalid number: "@ + number_part(s)
    } else {
        "Unknown unit: "@ + unit_part(s)
    }
}


/// Horner's rule for the fraction digits `ds`: `m` times `0.ds`, rounded
/// toward zero.
pub open spec fn fraction_times(ds: Seq<char>, m: nat) -> nat
    decreases ds.len(),
{
    if ds.len() == 0 {
        0
    } else {
        (((ds[0] as nat - '0' as nat) as nat * m + fraction_times(ds.drop_first(), m)) / 10) as nat
    }
}

proof fn lemma_div_split(x: int, b: int, r: int)
    requires
        b > 0,
        x >= 0,
        r >= 0,
    ensures
        (x * b + r) / b == x + r / b,
{
    lemma_fundamental_div_mod(r, b);
    assert(0 <= r % b < b);
    assert(x * b + r == b * (x + r / b) + r % b) by (nonlinear_arith)
        requires
            r == b * (r / b) + r % b,
    ;
    lemma_div_multiples_vanish_fancy(x + r / b, r % b, b);
}

proof fn lemma_pow10_positive(k: nat)
    ensures
        pow10(k) > 0,
    decreases k,
{
    if k > 0 {
        lemma_pow10_positive((k - 1) as nat);
    }
}

proof fn lemma_digits_front(ds: Seq<char>)
    requires
        ds.len() > 0,
        all_digits(ds),
    ensures
        digits_value(ds) == (ds[0] as nat - '0' as nat) as nat * pow10((ds.len() - 1) as nat)
            + digits_value(ds.drop_first()),
    decreases ds.len(),
{
    let d0 = (ds[0] as nat - '0' as nat) as nat;
    if ds.len() == 1 {
        assert(ds.drop_last().len() == 0);
        assert(ds.drop_first().len() == 0);
        assert(ds.last() == ds[0]);
        assert(digits_value(ds) == digits_value(ds.drop_last()) * 10 + d0);
        assert(pow10(0) == 1);
    } else {
        let p = ds.drop_last();
        assert(all_digits(p)) by {
            assert forall|i: int| 0 <= i < p.len() implies is_digit(#[trigger] p[i]) by {
                assert(p[i] == ds[i]);
            }
        }
        lemma_digits_front(p);
        assert(p[0] == ds[0]);
        assert(ds.drop_first().drop_last() =~= p.drop_first());
        assert(ds.drop_first().last() == ds.last());
        let x = digits_value(p.drop_first());
        let q = pow10((p.len() - 1) as nat);
        assert(pow10((ds.len() - 1) as nat) == 10 * q);
        let dl = (ds.last() as nat - '0' as nat) as nat;
        assert(digits_value(ds) == digits_value(p) * 10 + dl);
        assert(digits_value(ds.drop_first()) == x * 10 + dl);
        assert((d0 * q + x) * 10 + dl == d0 * (10 * q) + (x * 10 + dl)) by (nonlinear_arith);
    }
}

proof fn lemma_fraction_times(ds: Seq<char>, m: nat)
    requires
        all_digits(ds),
    ensures
        fraction_times(ds, m) == ((digits_value(ds) * m) as int) / (pow10(ds.len()) as int),
    decreases ds.len(),
{
    if ds.len() > 0 {
        let t = ds.drop_first();
        assert(all_digits(t)) by {
            assert forall|i: int| 0 <= i < t.len() implies is_digit(#[trigger] t[i]) by {
                assert(t[i] == ds[i + 1]);
            }
        }
        lemma_fraction_times(t, m);
        lemma_digits_front(ds);
        let d = (ds[0] as nat - '0' as nat) as nat;
        let p = pow10(t.len());
        lemma_pow10_positive(t.len());
        assert(pow10(ds.len()) == 10 * p);
        let v = digits_value(t);
        assert((d * p + v) * m == (d * m) * p + v * m) by (nonlinear_arith);
        assert(fraction_times(ds, m) == (d * m + fraction_times(t, m)) / 10);
        assert(digits_value(ds) == d * p + v);
        let x = ((d * m) * p + v * m) as int;
        lemma_div_denominator(x, p as int, 10);
        assert((p as int) * 10 == pow10(ds.len()));
        lemma_div_split((d * m) as int, p as int, (v * m) as int);
        assert(x / (p as int) == d * m + (v * m) as int / (p as int));
        assert(((digits_value(ds) * m) as int) == x);
        assert(x / (p as int) / 10 == x / ((p as int) * 10));
        assert(fraction_times(ds, m) == (x / (p as int)) / 10);
    } else {
        assert(pow10(0) == 1);
        assert(digits_value(ds) == 0);
    }
}

proof fn lemma_scaled_value(n: Seq<char>, m: nat)
    requires
        valid_number(n),
    ensures
        scaled_value(n, m) == digits_value(whole_digits(n)) * m + fraction_times(fraction_digits(n), m),
{
    let f = fraction_digits(n);
    let w = digits_value(whole_digits(n));
    let p = pow10(f.len());
    lemma_pow10_positive(f.len());
    lemma_fraction_times(f, m);
    let v = digits_value(f);
    assert((w * p + v) * m == (w * m) * p + v * m) by (nonlinear_arith);
    lemma_div_split((w * m) as int, p as int, (v * m) as int);
}

/// Relies on `char::is_alphabetic`: an ASCII character is alphabetic
/// exactly when it is a letter.
#[verifier::external_body]
fn is_alphabetic(c: char) -> (r: bool)
    ensures
        (c as u32) < 128 ==> r == is_ascii_letter(c),
{
    c.is_alphabetic()
}

proof fn lemma_first_letter(s: Seq<char>, p: int)
    requires
        0 <= p <= s.len(),
        forall|i: int| 0 <= i < p ==> !is_ascii_letter(#[trigger] s[i]),
        p == s.len() || is_ascii_letter(s[p]),
    ensures
        first_letter(s) == p,
    decreases p,
{
    if p > 0 {
        let t = s.drop_first();
        assert forall|i: int| 0 <= i < p - 1 implies !is_ascii_letter(#[trigger] t[i]) by {
            assert(t[i] == s[i + 1]);
        }
        if p < s.len() {
            assert(t[p - 1] == s[p]);
        }
        lemma_first_letter(t, p - 1);
    }
}

proof fn lemma_first_dot(s: Seq<char>, p: int)
    requires
        0 <= p <= s.len(),
        forall|i: int| 0 <= i < p ==> #[trigger] s[i] != '.',
        p == s.len() || s[p] == '.',
    ensures
        first_dot(s) == p,
    decreases p,
{
    if p > 0 {
        let t = s.drop_first();
        assert forall|i: int| 0 <= i < p - 1 implies #[trigger] t[i] != '.' by {
            assert(t[i] == s[i + 1]);
        }
        if p < s.len() {
            assert(t[p - 1] == s[p]);
        }
        lemma_first_dot(t, p - 1);
    }
}

fn is_digit_char(c: char) -> (r: bool)
    ensures
        r == is_digit(c),
{
    c >= '0' && c <= '9'
}

/// Digits `c[from..]` up to the first non-digit before `end`.
fn digits_end(c: &Vec<char>, from: usize, end: usize) -> (r: usize)
    requires
        from <= end <= c@.len(),
    ensures
        from <= r <= end,
        forall|i: int| from <= i < r ==> is_digit(#[trigger] c@[i]),
        r < end ==> !is_digit(c@[r as int]),
{
    let mut i = from;
    while i < end && is_digit_char(c[i])
        invariant
            from <= i <= end <= c@.len(),
            forall|j: int| from <= j < i ==> is_digit(#[trigger] c@[j]),
        decreases end - i,
    {
        i = i + 1;
    }
    i
}

/// Where the parts of the number `c[..end]` lie: the start of the unsigned
/// part, the end of the whole digits, and the bounds of the fraction digits.
fn number_layout(c: &Vec<char>, end: usize) -> (r: (usize, usize, usize, usize))
    requires
        end <= c@.len(),
    ensures
        ({
            let (start, q, fs, fe) = r;
            let n = c@.take(end as int);
            &&& start <= q <= end
            &&& q <= fs <= fe <= end
            &&& unsigned_part(n) == c@.subrange(start as int, end as int)
            &&& (fs == q || fs == q + 1)
            &&& (valid_number(n) <==> (fe == end && (q - start) + (fe - fs) > 0
                && (q == end || c@[q as int] == '.')))
            &&& valid_number(n) ==> whole_digits(n) == c@.subrange(start as int, q as int)
                && fraction_digits(n) == c@.subrange(fs as int, fe as int)
            &&& valid_number(n) ==> is_ascii_text(n)
        }),
{
    let ghost n = c@.take(end as int);
    let start: usize = if end > 0 && (c[0] == '+' || c[0] == '-') { 1 } else { 0 };
    let ghost u = c@.subrange(start as int, end as int);
    assert(unsigned_part(n) =~= u);
    let q = digits_end(c, start, end);
    let (fs, fe) = if q < end && c[q] == '.' {
        let e = digits_end(c, q + 1, end);
        (q + 1, e)
    } else {
        (q, q)
    };
    proof {
        let k = q - start;
        assert forall|i: int| 0 <= i < k implies #[trigger] u[i] != '.' by {
            assert(u[i] == c@[start + i]);
            assert(is_digit(c@[start + i]));
        }
        if q < end && c@[q as int] == '.' {
            assert(u[k] == c@[q as int]);
            lemma_first_dot(u, k);
            assert(whole_digits(n) =~= c@.subrange(start as int, q as int));
            assert(fraction_digits(n) =~= c@.subrange(fs as int, end as int));
            assert(all_digits(whole_digits(n))) by {
                assert forall|i: int| 0 <= i < whole_digits(n).len() implies is_digit(#[trigger] whole_digits(n)[i]) by {
                    assert(whole_digits(n)[i] == c@[start + i]);
                }
            }
            if fe == end {
                assert(all_digits(fraction_digits(n))) by {
                    assert forall|i: int| 0 <= i < fraction_digits(n).len() implies is_digit(#[trigger] fraction_digits(n)[i]) by {
                        assert(fraction_digits(n)[i] == c@[fs + i]);
                    }
                }
                assert(fraction_digits(n) =~= c@.subrange(fs as int, fe as int));
            } else {
                assert(fraction_digits(n)[fe - fs] == c@[fe as int]);
            }
        } else if q == end {
            lemma_first_dot(u, k);
            assert(whole_digits(n) =~= c@.subrange(start as int, q as int));
            assert(fraction_digits(n) =~= Seq::<char>::empty());
            assert(c@.subrange(fs as int, fe as int) =~= Seq::<char>::empty());
            assert(all_digits(whole_digits(n))) by {
                assert forall|i: int| 0 <= i < whole_digits(n).len() implies is_digit(#[trigger] whole_digits(n)[i]) by {
                    assert(whole_digits(n)[i] == c@[start + i]);
                }
            }
        } else {
            // a character that is neither a digit nor a point follows the digits
            assert(u[k] == c@[q as int]);
            assert(!is_digit(u[k]));
            lemma_first_dot_bound(u);
            if first_dot(u) <= k {
                assert(u[first_dot(u)] == '.');
            }
            assert(whole_digits(n)[k] == u[k]);
        }
    }
    proof {
        if valid_number(n) {
            assert forall|i: int| 0 <= i < n.len() implies (n[i] as u32) < 128 by {
                assert(n[i] == c@[i]);
                if i < start {
                } else if i < q {
                    assert(is_digit(c@[i]));
                } else if i == q {
                } else {
                    assert(is_digit(c@[i]));
                }
            }
        }
    }
    (start, q, fs, fe)
}

proof fn lemma_first_dot_bound(s: Seq<char>)
    ensures
        0 <= first_dot(s) <= s.len(),
        first_dot(s) < s.len() ==> s[first_dot(s)] == '.',
        forall|i: int| 0 <= i < first_dot(s) ==> #[trigger] s[i] != '.',
    decreases s.len(),
{
    if s.len() > 0 && s[0] != '.' {
        let t = s.drop_first();
        lemma_first_dot_bound(t);
        assert forall|i: int| 0 <= i < first_dot(s) implies #[trigger] s[i] != '.' by {
            if i > 0 {
                assert(s[i] == t[i - 1]);
            }
        }
    }
}


proof fn lemma_unit_is_ascii(unit: Seq<char>)
    requires
        unit_multiplier(unit) is Some,
    ensures
        is_ascii_text(unit),
        unit.len() <= 3,
        unit.len() > 0 ==> unit[unit.len() - 1] == 'B',
        unit.len() == 3 ==> unit[1] == 'I',
        unit.len() >= 2 ==> (unit[0] == 'K' || unit[0] == 'M' || unit[0] == 'G' || unit[0] == 'T'),
{
}

fn multiplier_of(c: &Vec<char>, from: usize) -> (r: Option<u64>)
    requires
        from <= c@.len(),
    ensures
        r == unit_multiplier(c@.skip(from as int)),
        r matches Some(m) ==> 1 <= m <= 1099511627776,
{
    let ghost u = c@.skip(from as int);
    proof {
        if unit_multiplier(u) is Some {
            lemma_unit_is_ascii(u);
        }
    }
    let n = c.len() - from;
    if n == 0 {
        assert(u =~= Seq::<char>::empty());
        return Some(1);
    }
    let last = c[c.len() - 1];
    assert(u[n - 1] == last);
    if n == 1 {
        if last == 'B' {
            assert(u =~= seq!['B']);
            return Some(1);
        }
        return None;
    }
    if last != 'B' || n > 3 {
        return None;
    }
    let first = c[from];
    assert(u[0] == first);
    if n == 3 {
        let mid = c[from + 1];
        assert(u[1] == mid);
        if mid != 'I' {
            return None;
        }
        if first == 'K' {
            assert(u =~= seq!['K', 'I', 'B']);
            Some(1024)
        } else if first == 'M' {
            assert(u =~= seq!['M', 'I', 'B']);
            Some(1048576)
        } else if first == 'G' {
            assert(u =~= seq!['G', 'I', 'B']);
            Some(1073741824)
        } else if first == 'T' {
            assert(u =~= seq!['T', 'I', 'B']);
            Some(1099511627776)
        } else {
            None
        }
    } else {
        if first == 'K' {
            assert(u =~= seq!['K', 'B']);
            Some(1000)
        } else if first == 'M' {
            assert(u =~= seq!['M', 'B']);
            Some(1000000)
        } else if first == 'G' {
            assert(u =~= seq!['G', 'B']);
            Some(1000000000)
        } else if first == 'T' {
            assert(u =~= seq!['T', 'B']);
            Some(1000000000000)
        } else {
            assert(u != seq!['B']);
            None
        }
    }
}

fn digit_of(c: char) -> (r: u64)
    requires
        is_digit(c),
    ensures
        r == c as nat - '0' as nat,
        r <= 9,
{
    (c as u32 - '0' as u32) as u64
}

/// The byte count that the valid number `c[..end]` stands for in units of
/// `m` bytes.
fn number_bytes(c: &Vec<char>, end: usize, m: u64) -> (r: u64)
    requires
        end <= c@.len(),
        valid_number(c@.take(end as int)),
        1 <= m <= 1099511627776,
    ensures
        ({
            let n = c@.take(end as int);
            r == if n.len() > 0 && n[0] == '-' {
                0
            } else if scaled_value(n, m as nat) > u64::MAX {
                u64::MAX
            } else {
                scaled_value(n, m as nat) as u64
            }
        }),
{
    let ghost n = c@.take(end as int);
    let (start, q, fs, fe) = number_layout(c, end);
    if end > 0 && c[0] == '-' {
        assert(n[0] == c@[0]);
        return 0;
    }
    assert forall|j: int| start <= j < q implies is_digit(#[trigger] c@[j]) by {
        assert(c@[j] == whole_digits(n)[j - start]);
    }
    assert forall|k: int| fs <= k < fe implies is_digit(#[trigger] c@[k]) by {
        assert(c@[k] == fraction_digits(n)[k - fs]);
    }
    let mut whole: u128 = 0;
    let mut over = false;
    let mut i = start;
    assert(c@.subrange(start as int, start as int) =~= Seq::<char>::empty());
    while i < q
        invariant
            start <= i <= q <= c@.len(),
            forall|j: int| start <= j < q ==> is_digit(#[trigger] c@[j]),
            !over ==> whole == digits_value(c@.subrange(start as int, i as int)) && whole <= u64::MAX,
            over ==> digits_value(c@.subrange(start as int, i as int)) > u64::MAX,
        decreases q - i,
    {
        let ghost prev = c@.subrange(start as int, i as int);
        let ghost next = c@.subrange(start as int, i + 1);
        assert(next.drop_last() =~= prev);
        assert(next.last() == c@[i as int]);
        assert(is_digit(c@[i as int]));
        let d = digit_of(c[i]);
        assert(digits_value(next) == digits_value(prev) * 10 + d);
        if !over {
            whole = whole * 10 + d as u128;
            if whole > u64::MAX as u128 {
                over = true;
            }
        }
        i = i + 1;
    }
    let mut frac: u64 = 0;
    let mut j = fe;
    assert(c@.subrange(fe as int, fe as int) =~= Seq::<char>::empty());
    while j > fs
        invariant
            fs <= j <= fe <= c@.len(),
            forall|k: int| fs <= k < fe ==> is_digit(#[trigger] c@[k]),
            frac == fraction_times(c@.subrange(j as int, fe as int), m as nat),
            frac < m,
            1 <= m <= 1099511627776,
        decreases j,
    {
        j = j - 1;
        let ghost rest = c@.subrange(j + 1, fe as int);
        let ghost ds = c@.subrange(j as int, fe as int);
        assert(ds.drop_first() =~= rest);
        assert(ds[0] == c@[j as int]);
        assert(is_digit(c@[j as int]));
        let d = digit_of(c[j]);
        assert(d * m + frac < 10 * m) by (nonlinear_arith)
            requires d <= 9, frac < m;
        let t = d * m + frac;
        frac = t / 10;
        assert(frac < m) by (nonlinear_arith)
            requires t < 10 * m, frac == t / 10;
    }
    proof {
        lemma_scaled_value(n, m as nat);
        let w = digits_value(whole_digits(n));
        assert(w * m >= w) by (nonlinear_arith)
            requires m >= 1;
    }
    if over {
        u64::MAX
    } else {
        assert(whole * m <= 18446744073709551615u128 * 1099511627776u128) by (nonlinear_arith)
            requires whole <= 18446744073709551615u128, m <= 1099511627776u64;
        let total: u128 = whole * (m as u128) + frac as u128;
        if total > u64::MAX as u128 {
            u64::MAX
        } else {
            total as u64
        }
    }
}

/// Reads an upper-cased size text: a decimal number (optionally signed,
/// optionally with a fraction) followed by a unit. The number is taken
/// exactly and the byte count rounded toward zero; a negative number gives
/// 0 and a count beyond `u64::MAX` gives `u64::MAX`.
pub fn parse_size_upper(text: &str) -> (r: Result<u64, String>)
    ensures
        match r {
            Ok(v) => size_text_ok(text@) && v == size_value(text@),
            Err(msg) => !size_text_ok(text@) && (is_ascii_text(text@) ==> msg@ == size_text_error(text@)),
        },
{
    let c = chars_of(text);
    let ghost s = text@;
    let mut split: usize = 0;
    while split < c.len() && !is_alphabetic(c[split])
        invariant
            c@ == s,
            split <= c@.len(),
            forall|i: int| 0 <= i < split && (c@[i] as u32) < 128 ==> !is_ascii_letter(#[trigger] c@[i]),
        decreases c@.len() - split,
    {
        split = split + 1;
    }
    let ghost n = s.take(split as int);
    let ghost u = s.skip(split as int);
    proof {
        if is_ascii_text(s) {
            lemma_first_letter(s, split as int);
        }
    }
    let (start, q, fs, fe) = number_layout(&c, split);
    let valid = fe == split && (q - start) + (fe - fs) > 0 && (q == split || c[q] == '.');
    if !valid {
        let mut msg = "Invalid number: ".to_owned();
        push_text(&mut msg, text.substring_char(0, split));
        assert(text@.subrange(0, split as int) =~= n);
        return Err(msg);
    }
    match multiplier_of(&c, split) {
        None => {
            let mut msg = "Unknown unit: ".to_owned();
            push_text(&mut msg, text.substring_char(split, c.len()));
            assert(text@.subrange(split as int, c@.len() as int) =~= u);
            Err(msg)
        },
        Some(m) => {
            proof {
                lemma_unit_is_ascii(u);
                assert(s =~= n + u);
                assert forall|i: int| 0 <= i < s.len() implies (s[i] as u32) < 128 by {
                    if i < split {
                        assert(s[i] == n[i]);
                    } else {
                        assert(s[i] == u[i - split]);
                    }
                }
                lemma_first_letter(s, split as int);
            }
            Ok(number_bytes(&c, split, m))
        },
    }
}

/// Reads a human-written size such as "1KB", "1.5GB" or "2KiB"; the text is
/// upper-cased first, so units may be written in any case.
pub fn parse_size(size_str: &str) -> (r: Result<u64, String>)
    ensures
        match r {
            Ok(v) => size_text_ok(upper_of(size_str@)) && v == size_value(upper_of(size_str@)),
            Err(msg) => !size_text_ok(upper_of(size_str@)) && (is_ascii_text(upper_of(size_str@))
                ==> msg@ == size_text_error(upper_of(size_str@))),
        },
{
    let upper = to_upper(size_str);
    parse_size_upper(upper.as_str())
}

} // verus!
