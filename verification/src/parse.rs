//! Splitting text at a separator and reading decimal numbers, the building
//! blocks of the duration, frame-rate and path parsers.
use vstd::prelude::*;
use crate::text::{decimal, digit_char, pad2};

verus! {

/// `s` cut at every occurrence of `sep`, as `str::split` cuts it: `n`
/// separators give `n + 1` pieces, empty pieces included.
pub open spec fn split_on(s: Seq<char>, sep: char) -> Seq<Seq<char>>
    decreases s.len(),
{
    if s.len() == 0 {
        seq![Seq::<char>::empty()]
    } else {
        let r = split_on(s.drop_last(), sep);
        if s.last() == sep {
            r.push(Seq::<char>::empty())
        } else {
            r.update(r.len() - 1, r.last().push(s.last()))
        }
    }
}

pub open spec fn is_digit(c: char) -> bool {
    48 <= (c as u32) <= 57
}

pub open spec fn digit_value(c: char) -> nat {
    ((c as u32) - 48) as nat
}

pub open spec fn all_digits(ds: Seq<char>) -> bool {
    forall|i: int| 0 <= i < ds.len() ==> is_digit(#[trigger] ds[i])
}

/// The value of a string of decimal digits (0 for the empty string).
pub open spec fn digits_value(ds: Seq<char>) -> nat
    decreases ds.len(),
{
    if ds.len() == 0 {
        0
    } else {
        digits_value(ds.drop_last()) * 10 + digit_value(ds.last())
    }
}

pub open spec fn pow10(k: nat) -> nat
    decreases k,
{
    if k == 0 { 1 } else { 10 * pow10((k - 1) as nat) }
}

/// The text with a leading `+` or `-` removed.
pub open spec fn unsigned_part(s: Seq<char>) -> Seq<char> {
    if s.len() > 0 && (s[0] == '-' || s[0] == '+') { s.drop_first() } else { s }
}

pub open spec fn has_minus(s: Seq<char>) -> bool {
    s.len() > 0 && s[0] == '-'
}

/// The exponent marker of a number.
pub open spec fn is_exp_mark(c: char) -> bool {
    c == 'e' || c == 'E'
}

/// Position `i` of `b` holds its first exponent marker.
pub open spec fn first_exp_at(b: Seq<char>, i: int) -> bool {
    &&& 0 <= i < b.len()
    &&& is_exp_mark(b[i])
    &&& forall|j: int| 0 <= j < i ==> !is_exp_mark(#[trigger] b[j])
}

/// The text before the first exponent marker, and the text after it when
/// there is one.
pub open spec fn exp_split(b: Seq<char>) -> (Seq<char>, Option<Seq<char>>) {
    if exists|i: int| first_exp_at(b, i) {
        let i = choose|i: int| first_exp_at(b, i);
        (b.take(i), Some(b.skip(i + 1)))
    } else {
        (b, None)
    }
}

/// An exponent: an optional sign and at least one digit.
pub open spec fn exponent_of(t: Seq<char>) -> Option<int> {
    let d = unsigned_part(t);
    if d.len() >= 1 && all_digits(d) {
        Some(if has_minus(t) { -(digits_value(d) as int) } else { digits_value(d) as int })
    } else {
        None
    }
}

/// The digits of a mantissa `DIGITS[.DIGITS]` (at least one digit in all),
/// and how many of them stand before the point.
pub open spec fn mantissa_of(m: Seq<char>) -> Option<(Seq<char>, int)> {
    let p = split_on(m, '.');
    let ds = if p.len() == 2 { p[0] + p[1] } else { p[0] };
    if (p.len() == 1 || p.len() == 2) && all_digits(p[0]) && (p.len() == 1 || all_digits(p[1]))
        && ds.len() >= 1 {
        Some((ds, p[0].len() as int))
    } else {
        None
    }
}

/// The digits `ds` read with the decimal point after the first `k` of them,
/// rounded down.
pub open spec fn shifted(ds: Seq<char>, k: int) -> nat {
    if k <= 0 {
        0
    } else if k <= ds.len() {
        digits_value(ds.take(k))
    } else {
        digits_value(ds) * pow10((k - ds.len()) as nat)
    }
}

/// An unsigned number as `f64::from_str` writes one (a mantissa
/// `DIGITS[.DIGITS]` with at least one digit, then optionally `e` or `E`, an
/// optional sign and at least one digit), read as seconds and counted in
/// whole microseconds, rounded down.
pub open spec fn unsigned_micros(b: Seq<char>) -> Option<int> {
    let (m, x) = exp_split(b);
    let e = match x {
        Some(t) => exponent_of(t),
        None => Some(0int),
    };
    match (mantissa_of(m), e) {
        (Some((ds, n)), Some(e)) => Some(shifted(ds, n + e + 6) as int),
        _ => None,
    }
}

/// A number of seconds with an optional sign, as `f64::from_str` reads the
/// finite ones, in microseconds (rounded towards zero); `None` when the text
/// is no such number (`inf` and `nan` included) or its magnitude exceeds
/// `i64::MAX` microseconds.
pub open spec fn micros_of(s: Seq<char>) -> Option<int> {
    match unsigned_micros(unsigned_part(s)) {
        Some(m) => if m <= i64::MAX {
            Some(if has_minus(s) { -m } else { m })
        } else {
            None
        },
        None => None,
    }
}

/// An unsigned integer with an optional leading `+`, as `u64::from_str` reads it.
pub open spec fn u64_of(s: Seq<char>) -> Option<int> {
    let b = if s.len() > 0 && s[0] == '+' { s.drop_first() } else { s };
    if b.len() >= 1 && all_digits(b) && digits_value(b) <= u64::MAX {
        Some(digits_value(b) as int)
    } else {
        None
    }
}

/// The pieces of `s[lo..hi]` between separators, as index ranges into `s`.
pub open spec fn ranges_match(s: Seq<char>, lo: int, hi: int, sep: char, r: Seq<(usize, usize)>) -> bool {
    let p = split_on(s.subrange(lo, hi), sep);
    &&& r.len() == p.len()
    &&& forall|k: int| 0 <= k < r.len() ==> lo <= (#[trigger] r[k]).0 <= r[k].1 <= hi
    &&& forall|k: int| 0 <= k < r.len() ==> s.subrange((#[trigger] r[k]).0 as int, r[k].1 as int) == p[k]
}

pub proof fn lemma_split_nonempty(s: Seq<char>, sep: char)
    ensures
        split_on(s, sep).len() >= 1,
    decreases s.len(),
{
    if s.len() > 0 {
        lemma_split_nonempty(s.drop_last(), sep);
    }
}

/// The characters of a string slice.
pub fn chars_of(t: &str) -> (r: Vec<char>)
    ensures
        r@ == t@,
{
    let n = t.unicode_len();
    let mut r: Vec<char> = Vec::new();
    let mut i: usize = 0;
    while i < n
        invariant
            n == t@.len(),
            i <= n,
            r@ == t@.take(i as int),
        decreases n - i,
    {
        let c = t.get_char(i);
        r.push(c);
        i = i + 1;
        assert(r@ =~= t@.take(i as int));
    }
    assert(r@ =~= t@);
    r
}

/// Cuts `s[lo..hi]` at every `sep`.
pub fn split_ranges(s: &Vec<char>, lo: usize, hi: usize, sep: char) -> (r: Vec<(usize, usize)>)
    requires
        lo <= hi <= s@.len(),
    ensures
        ranges_match(s@, lo as int, hi as int, sep, r@),
        r@.len() >= 1,
        r@[0].0 == lo,
        r@.last().1 == hi,
        forall|k: int| 1 <= k < r@.len() ==> lo < (#[trigger] r@[k]).0 && s@[r@[k].0 - 1] == sep,
{
    let mut r: Vec<(usize, usize)> = Vec::new();
    r.push((lo, lo));
    assert(s@.subrange(lo as int, lo as int) =~= Seq::<char>::empty());
    let mut i: usize = lo;
    while i < hi
        invariant
            lo <= i <= hi <= s@.len(),
            ranges_match(s@, lo as int, i as int, sep, r@),
            r@.len() >= 1,
            r@[0].0 == lo,
            r@.last().1 == i,
            forall|k: int| 1 <= k < r@.len() ==> lo < (#[trigger] r@[k]).0 && s@[r@[k].0 - 1] == sep,
        decreases hi - i,
    {
        let ghost old_r = r@;
        let ghost p0 = split_on(s@.subrange(lo as int, i as int), sep);
        assert(s@.subrange(lo as int, i + 1).drop_last() =~= s@.subrange(lo as int, i as int));
        assert(s@.subrange(lo as int, i + 1).last() == s@[i as int]);
        if s[i] == sep {
            r.push((i + 1, i + 1));
            assert forall|k: int| 1 <= k < r@.len() implies lo < (#[trigger] r@[k]).0 && s@[r@[k].0 - 1] == sep by {
                if k < old_r.len() {
                    assert(r@[k] == old_r[k]);
                }
            }
            assert(s@.subrange(i + 1, i + 1) =~= Seq::<char>::empty());
            assert forall|k: int| 0 <= k < r@.len() implies s@.subrange((#[trigger] r@[k]).0 as int, r@[k].1 as int)
                == split_on(s@.subrange(lo as int, i + 1), sep)[k] by {
                if k < old_r.len() {
                    assert(r@[k] == old_r[k]);
                }
            }
        } else {
            let last = r.pop().unwrap();
            r.push((last.0, i + 1));
            assert forall|k: int| 1 <= k < r@.len() implies lo < (#[trigger] r@[k]).0 && s@[r@[k].0 - 1] == sep by {
                if k < old_r.len() - 1 {
                    assert(r@[k] == old_r[k]);
                }
            }
            assert(s@.subrange(last.0 as int, i + 1) =~= s@.subrange(last.0 as int, i as int).push(s@[i as int]));
            assert forall|k: int| 0 <= k < r@.len() implies s@.subrange((#[trigger] r@[k]).0 as int, r@[k].1 as int)
                == split_on(s@.subrange(lo as int, i + 1), sep)[k] by {
                if k < old_r.len() - 1 {
                    assert(r@[k] == old_r[k]);
                }
            }
        }
        i = i + 1;
    }
    r
}

proof fn lemma_digits_step(ds: Seq<char>, k: int)
    requires
        0 <= k < ds.len(),
    ensures
        digits_value(ds.take(k + 1)) == digits_value(ds.take(k)) * 10 + digit_value(ds[k]),
{
    assert(ds.take(k + 1).drop_last() =~= ds.take(k));
}

proof fn lemma_digits_prefix_le(ds: Seq<char>, k: int)
    requires
        0 <= k <= ds.len(),
        all_digits(ds),
    ensures
        digits_value(ds.take(k)) <= digits_value(ds),
    decreases ds.len() - k,
{
    if k < ds.len() {
        lemma_digits_step(ds, k);
        lemma_digits_prefix_le(ds, k + 1);
    } else {
        assert(ds.take(k) =~= ds);
    }
}

proof fn lemma_pow10_step(k: nat)
    ensures
        pow10(k + 1) == 10 * pow10(k),
{
}

/// Reads `s[lo..hi]` as an unsigned run of digits; `None` unless it is one
/// whose value is at most `cap`.
fn digits_upto(s: &Vec<char>, lo: usize, hi: usize, cap: u128) -> (r: Option<u128>)
    requires
        lo <= hi <= s@.len(),
        cap <= 0x10_0000_0000_0000_0000_0000_0000,
    ensures
        match r {
            Some(v) => all_digits(s@.subrange(lo as int, hi as int))
                && v == digits_value(s@.subrange(lo as int, hi as int)) && v <= cap,
            None => !all_digits(s@.subrange(lo as int, hi as int))
                || digits_value(s@.subrange(lo as int, hi as int)) > cap,
        },
{
    let ghost ds = s@.subrange(lo as int, hi as int);
    let mut acc: u128 = 0;
    let mut i: usize = lo;
    while i < hi
        invariant
            lo <= i <= hi <= s@.len(),
            ds == s@.subrange(lo as int, hi as int),
            all_digits(ds.take(i - lo)),
            acc == digits_value(ds.take(i - lo)),
            acc <= cap,
            cap <= 0x10_0000_0000_0000_0000_0000_0000,
        decreases hi - i,
    {
        let cv = s[i] as u32;
        if !(cv >= 48 && cv <= 57) {
            assert(!is_digit(ds[i - lo]));
            return None;
        }
        proof { lemma_digits_step(ds, i - lo); }
        let d = (cv - 48) as u128;
        acc = acc * 10 + d;
        i = i + 1;
        assert(all_digits(ds.take(i - lo))) by {
            assert forall|j: int| 0 <= j < ds.take(i - lo).len() implies is_digit(#[trigger] ds.take(i - lo)[j]) by {
                if j < i - 1 - lo {
                    assert(ds.take(i - lo)[j] == ds.take(i - 1 - lo)[j]);
                }
            }
        }
        if acc > cap {
            proof {
                if all_digits(ds) {
                    lemma_digits_prefix_le(ds, i - lo);
                }
            }
            return None;
        }
    }
    assert(ds.take(hi - lo) =~= ds);
    Some(acc)
}


/// Whether `s[lo..hi]` is all decimal digits.
fn all_digits_in(s: &Vec<char>, lo: usize, hi: usize) -> (r: bool)
    requires
        lo <= hi <= s@.len(),
    ensures
        r == all_digits(s@.subrange(lo as int, hi as int)),
{
    let ghost ds = s@.subrange(lo as int, hi as int);
    let mut i: usize = lo;
    while i < hi
        invariant
            lo <= i <= hi <= s@.len(),
            ds == s@.subrange(lo as int, hi as int),
            forall|j: int| 0 <= j < i - lo ==> is_digit(#[trigger] ds[j]),
        decreases hi - i,
    {
        let cv = s[i] as u32;
        if !(cv >= 48 && cv <= 57) {
            assert(!is_digit(ds[i - lo]));
            return false;
        }
        i = i + 1;
    }
    true
}

/// Appends `s[lo..hi]` to `out`.
fn push_range(out: &mut Vec<char>, s: &Vec<char>, lo: usize, hi: usize)
    requires
        lo <= hi <= s@.len(),
    ensures
        final(out)@ == old(out)@ + s@.subrange(lo as int, hi as int),
{
    let ghost start = out@;
    let mut i: usize = lo;
    while i < hi
        invariant
            lo <= i <= hi <= s@.len(),
            out@ == start + s@.subrange(lo as int, i as int),
        decreases hi - i,
    {
        out.push(s[i]);
        i = i + 1;
        assert(out@ =~= start + s@.subrange(lo as int, i as int));
    }
}

/// The bound beyond which an exponent is held at the bound.
pub open spec fn clamp_exp(e: int) -> int {
    let cap = 0x1_0000_0000_0000_0000_0000int;
    if e > cap { cap } else if e < -cap { -cap } else { e }
}

/// Reads `s[lo..hi]` as an exponent, held within `clamp_exp`'s bound.
fn exponent_in(s: &Vec<char>, lo: usize, hi: usize) -> (r: Option<i128>)
    requires
        lo <= hi <= s@.len(),
    ensures
        match r {
            Some(v) => exponent_of(s@.subrange(lo as int, hi as int)) matches Some(e) && v == clamp_exp(e),
            None => exponent_of(s@.subrange(lo as int, hi as int)) is None,
        },
{
    let ghost t = s@.subrange(lo as int, hi as int);
    let mut d0 = lo;
    let mut neg = false;
    if lo < hi {
        if s[lo] == '-' {
            neg = true;
            d0 = lo + 1;
        } else if s[lo] == '+' {
            d0 = lo + 1;
        }
    }
    assert(unsigned_part(t) =~= s@.subrange(d0 as int, hi as int));
    assert(neg == has_minus(t));
    if d0 == hi || !all_digits_in(s, d0, hi) {
        return None;
    }
    let mag: i128 = match digits_upto(s, d0, hi, 0x1_0000_0000_0000_0000_0000) {
        Some(v) => v as i128,
        None => 0x1_0000_0000_0000_0000_0000,
    };
    if neg { Some(-mag) } else { Some(mag) }
}

proof fn lemma_pow10_pos(a: nat)
    ensures
        pow10(a) >= 1,
    decreases a,
{
    if a > 0 {
        lemma_pow10_pos((a - 1) as nat);
    }
}

proof fn lemma_pow10_mono(a: nat, b: nat)
    requires
        a <= b,
    ensures
        1 <= pow10(a) <= pow10(b),
    decreases b,
{
    lemma_pow10_pos(a);
    if b > a {
        lemma_pow10_mono(a, (b - 1) as nat);
        lemma_pow10_step((b - 1) as nat);
    }
}

/// Holding the exponent at `clamp_exp`'s bound changes neither whether the
/// shifted digits fit in an `i64` nor, when they do, their value.
proof fn lemma_clamped_shift(ds: Seq<char>, n: int, e: int)
    requires
        all_digits(ds),
        0 <= n <= ds.len(),
        ds.len() <= 0x1_0000_0000_0000_0000,
    ensures
        (shifted(ds, n + clamp_exp(e) + 6) <= i64::MAX) == (shifted(ds, n + e + 6) <= i64::MAX),
        shifted(ds, n + e + 6) <= i64::MAX ==> shifted(ds, n + clamp_exp(e) + 6) == shifted(ds, n + e + 6),
{
    let cap = 0x1_0000_0000_0000_0000_0000int;
    if e > cap {
        let k1 = n + cap + 6;
        let k2 = n + e + 6;
        let dv = digits_value(ds);
        if dv > 0 {
            lemma_pow10_mono(19, (k1 - ds.len()) as nat);
            lemma_pow10_mono(19, (k2 - ds.len()) as nat);
            reveal_with_fuel(pow10, 20);
            let p1 = pow10((k1 - ds.len()) as nat);
            let p2 = pow10((k2 - ds.len()) as nat);
            assert(dv * p1 >= p1) by (nonlinear_arith) requires dv >= 1, p1 >= 0;
            assert(dv * p2 >= p2) by (nonlinear_arith) requires dv >= 1, p2 >= 0;
        } else {
            assert(0 * pow10((k1 - ds.len()) as nat) == 0);
            assert(0 * pow10((k2 - ds.len()) as nat) == 0);
        }
    }
}

/// `ds` read with the decimal point after its first `k` digits, rounded
/// down; `None` when that exceeds `i64::MAX`.
fn scaled(ds: &Vec<char>, k: i128) -> (r: Option<u64>)
    requires
        all_digits(ds@),
    ensures
        match r {
            Some(v) => v == shifted(ds@, k as int) && v <= i64::MAX,
            None => shifted(ds@, k as int) > i64::MAX,
        },
{
    let len = ds.len();
    if k <= 0 {
        return Some(0);
    }
    if k <= len as i128 {
        assert(ds@.subrange(0, k as int) =~= ds@.take(k as int));
        return match digits_upto(ds, 0, k as usize, 9_223_372_036_854_775_807) {
            Some(v) => Some(v as u64),
            None => None,
        };
    }
    assert(ds@.subrange(0, len as int) =~= ds@);
    let z: i128 = k - len as i128;
    proof { lemma_pow10_mono(0, z as nat); }
    let v = match digits_upto(ds, 0, len, 9_223_372_036_854_775_807) {
        Some(v) => v,
        None => {
            proof {
                let dv = digits_value(ds@);
                let pz = pow10(z as nat);
                assert(dv * pz >= dv) by (nonlinear_arith) requires pz >= 1, dv >= 0;
            }
            return None;
        },
    };
    if v == 0 {
        assert(0 * pow10(z as nat) == 0);
        return Some(0);
    }
    let mut acc: u128 = v;
    let mut j: i128 = 0;
    assert(pow10(0) == 1);
    assert(v * pow10(0) == v);
    while j < z
        invariant
            0 <= j <= z,
            z == k - len,
            len == ds@.len(),
            v == digits_value(ds@),
            1 <= v,
            acc == v * pow10(j as nat),
            acc <= i64::MAX,
        decreases z - j,
    {
        proof {
            lemma_pow10_step(j as nat);
            let p = pow10(j as nat);
            assert(v * (10 * p) == (v * p) * 10) by (nonlinear_arith);
        }
        if acc > 922_337_203_685_477_580 {
            proof {
                lemma_pow10_mono((j + 1) as nat, z as nat);
                let pz = pow10(z as nat);
                let pj = pow10((j + 1) as nat);
                assert(v * pz >= v * pj) by (nonlinear_arith) requires pz >= pj, v >= 1;
            }
            return None;
        }
        acc = acc * 10;
        j = j + 1;
    }
    Some(acc as u64)
}

proof fn lemma_first_exp_unique(b: Seq<char>, i: int)
    requires
        first_exp_at(b, i),
    ensures
        exp_split(b) == (b.take(i), Some(b.skip(i + 1))),
{
    let c = choose|k: int| first_exp_at(b, k);
    assert(first_exp_at(b, c));
    if c < i {
        assert(!is_exp_mark(b[c]));
    } else if c > i {
        assert(!is_exp_mark(b[i]));
    }
}

/// The end of the mantissa in `s[lo..hi]`: the position of the first
/// exponent marker, or `hi`.
fn mantissa_end(s: &Vec<char>, lo: usize, hi: usize) -> (m_end: usize)
    requires
        lo <= hi <= s@.len(),
    ensures
        lo <= m_end <= hi,
        exp_split(s@.subrange(lo as int, hi as int)) == (
            s@.subrange(lo as int, m_end as int),
            if m_end < hi { Some(s@.subrange(m_end + 1, hi as int)) } else { None },
        ),
{
    let ghost u = s@.subrange(lo as int, hi as int);
    let mut i: usize = lo;
    while i < hi && s[i] != 'e' && s[i] != 'E'
        invariant
            lo <= i <= hi <= s@.len(),
            forall|j: int| lo <= j < i ==> !is_exp_mark(#[trigger] s@[j]),
        decreases hi - i,
    {
        i = i + 1;
    }
    proof {
        if i < hi {
            assert forall|j: int| 0 <= j < i - lo implies !is_exp_mark(#[trigger] u[j]) by {
                assert(u[j] == s@[lo + j]);
            }
            assert(u[i - lo] == s@[i as int]);
            assert(first_exp_at(u, i - lo));
            lemma_first_exp_unique(u, i - lo);
            assert(u.take(i - lo) =~= s@.subrange(lo as int, i as int));
            assert(u.skip(i - lo + 1) =~= s@.subrange(i + 1, hi as int));
        } else {
            if exists|k: int| first_exp_at(u, k) {
                let k = choose|k: int| first_exp_at(u, k);
                assert(u[k] == s@[lo + k]);
            }
            assert(u =~= s@.subrange(lo as int, i as int));
        }
    }
    i
}

/// The digits of the mantissa `s[lo..hi]` and how many stand before the
/// point.
fn mantissa_in(s: &Vec<char>, lo: usize, hi: usize) -> (r: Option<(Vec<char>, usize)>)
    requires
        lo <= hi <= s@.len(),
    ensures
        match r {
            Some((ds, n)) => mantissa_of(s@.subrange(lo as int, hi as int)) == Some((ds@, n as int))
                && all_digits(ds@),
            None => mantissa_of(s@.subrange(lo as int, hi as int)) is None,
        },
{
    let ghost m = s@.subrange(lo as int, hi as int);
    let parts = split_ranges(s, lo, hi, '.');
    let ghost p = split_on(m, '.');
    if parts.len() != 1 && parts.len() != 2 {
        return None;
    }
    let (a0, a1) = parts[0];
    assert(s@.subrange(a0 as int, a1 as int) == p[0]);
    if !all_digits_in(s, a0, a1) {
        return None;
    }
    let mut ds: Vec<char> = Vec::new();
    push_range(&mut ds, s, a0, a1);
    if parts.len() == 2 {
        let (f0, f1) = parts[1];
        assert(s@.subrange(f0 as int, f1 as int) == p[1]);
        if !all_digits_in(s, f0, f1) {
            return None;
        }
        push_range(&mut ds, s, f0, f1);
        assert(ds@ =~= p[0] + p[1]);
        assert forall|j: int| 0 <= j < ds@.len() implies is_digit(#[trigger] ds@[j]) by {
            if j < p[0].len() {
                assert(ds@[j] == p[0][j]);
            } else {
                assert(ds@[j] == p[1][j - p[0].len()]);
            }
        }
    } else {
        assert(ds@ =~= p[0]);
    }
    if ds.len() == 0 {
        return None;
    }
    Some((ds, a1 - a0))
}

/// Reads the unsigned number `s[lo..hi]` in microseconds; `None` when it is
/// no number or exceeds `i64::MAX`.
fn unsigned_micros_in(s: &Vec<char>, lo: usize, hi: usize) -> (r: Option<u64>)
    requires
        lo <= hi <= s@.len(),
    ensures
        match r {
            Some(v) => unsigned_micros(s@.subrange(lo as int, hi as int)) == Some(v as int) && v <= i64::MAX,
            None => match unsigned_micros(s@.subrange(lo as int, hi as int)) {
                Some(m) => m > i64::MAX,
                None => true,
            },
        },
{
    let ghost u = s@.subrange(lo as int, hi as int);
    let m_end = mantissa_end(s, lo, hi);
    let e: i128 = if m_end < hi {
        match exponent_in(s, m_end + 1, hi) {
            Some(v) => v,
            None => {
                return None;
            },
        }
    } else {
        0
    };
    let ghost ev: int = match exp_split(u).1 {
        Some(x) => exponent_of(x)->0,
        None => 0,
    };
    assert(e == clamp_exp(ev));
    let (ds, n) = match mantissa_in(s, lo, m_end) {
        Some(x) => x,
        None => {
            return None;
        },
    };
    let dl = ds.len();
    proof { lemma_clamped_shift(ds@, n as int, ev); }
    let k: i128 = n as i128 + e + 6;
    scaled(&ds, k)
}

/// Reads `s[lo..hi]` as a signed number of seconds, counted in
/// microseconds.
pub fn micros_in(s: &Vec<char>, lo: usize, hi: usize) -> (r: Option<i64>)
    requires
        lo <= hi <= s@.len(),
    ensures
        match r {
            Some(v) => micros_of(s@.subrange(lo as int, hi as int)) == Some(v as int),
            None => micros_of(s@.subrange(lo as int, hi as int)) is None,
        },
{
    let ghost t = s@.subrange(lo as int, hi as int);
    let mut b = lo;
    let mut neg = false;
    if lo < hi {
        if s[lo] == '-' {
            neg = true;
            b = lo + 1;
        } else if s[lo] == '+' {
            b = lo + 1;
        }
    }
    assert(unsigned_part(t) =~= s@.subrange(b as int, hi as int));
    assert(neg == has_minus(t));
    let mag = match unsigned_micros_in(s, b, hi) {
        Some(v) => v,
        None => {
            return None;
        },
    };
    let m64 = mag as i64;
    if neg { Some(-m64) } else { Some(m64) }
}

/// Reads `s[lo..hi]` as `u64::from_str` would: an optional `+` and decimal
/// digits.
pub fn u64_in(s: &Vec<char>, lo: usize, hi: usize) -> (r: Option<u64>)
    requires
        lo <= hi <= s@.len(),
    ensures
        match r {
            Some(v) => u64_of(s@.subrange(lo as int, hi as int)) == Some(v as int),
            None => u64_of(s@.subrange(lo as int, hi as int)) is None,
        },
{
    let ghost t = s@.subrange(lo as int, hi as int);
    let mut b = lo;
    if lo < hi && s[lo] == '+' {
        b = lo + 1;
    }
    assert(s@.subrange(b as int, hi as int) =~= (if t.len() > 0 && t[0] == '+' { t.drop_first() } else { t }));
    if b == hi {
        return None;
    }
    match digits_upto(s, b, hi, 18_446_744_073_709_551_615) {
        Some(v) => Some(v as u64),
        None => None,
    }
}

pub proof fn lemma_split_no_sep(x: Seq<char>, sep: char)
    requires
        forall|i: int| 0 <= i < x.len() ==> x[i] != sep,
    ensures
        split_on(x, sep) == seq![x],
    decreases x.len(),
{
    if x.len() == 0 {
        assert(x =~= Seq::<char>::empty());
        assert(split_on(x, sep) =~= seq![x]);
    } else {
        lemma_split_no_sep(x.drop_last(), sep);
        assert(x.drop_last().push(x.last()) =~= x);
        assert(x.last() != sep);
        assert(split_on(x, sep) =~= seq![x]);
    }
}

/// The last piece of a cut is a suffix of the text; when there are several
/// pieces, a separator stands just before it.
pub proof fn lemma_split_last(s: Seq<char>, sep: char)
    ensures
        split_on(s, sep).last().len() <= s.len(),
        s.subrange(s.len() - split_on(s, sep).last().len(), s.len() as int) == split_on(s, sep).last(),
        split_on(s, sep).len() > 1 ==> {
            &&& split_on(s, sep).last().len() < s.len()
            &&& s[s.len() - split_on(s, sep).last().len() - 1] == sep
        },
    decreases s.len(),
{
    lemma_split_nonempty(s, sep);
    if s.len() > 0 {
        let t = s.drop_last();
        lemma_split_last(t, sep);
        lemma_split_nonempty(t, sep);
        let r = split_on(t, sep);
        if s.last() == sep {
            assert(split_on(s, sep).last() =~= Seq::<char>::empty());
            assert(s.subrange(s.len() as int, s.len() as int) =~= Seq::<char>::empty());
        } else {
            let l = r.last().push(s.last());
            assert(split_on(s, sep).last() == l);
            assert(s.subrange(s.len() - l.len(), s.len() as int) =~= t.subrange(t.len() - r.last().len(), t.len() as int).push(s.last()));
            if r.len() > 1 {
                assert(s[s.len() - l.len() - 1] == t[t.len() - r.last().len() - 1]);
            }
        }
    }
}

/// Every character of every piece of a cut is not the separator, and has
/// any property that every character of the text has.
pub proof fn lemma_split_pieces(s: Seq<char>, sep: char, ok: spec_fn(char) -> bool)
    requires
        forall|i: int| 0 <= i < s.len() ==> ok(#[trigger] s[i]),
    ensures
        forall|k: int, i: int| 0 <= k < split_on(s, sep).len() && 0 <= i < split_on(s, sep)[k].len()
            ==> ok(#[trigger] split_on(s, sep)[k][i]) && split_on(s, sep)[k][i] != sep,
    decreases s.len(),
{
    if s.len() > 0 {
        let t = s.drop_last();
        assert forall|i: int| 0 <= i < t.len() implies ok(#[trigger] t[i]) by {
            assert(t[i] == s[i]);
        }
        lemma_split_pieces(t, sep, ok);
        lemma_split_nonempty(t, sep);
        let r = split_on(t, sep);
        let q = split_on(s, sep);
        assert(ok(s[s.len() - 1]));
        assert forall|k: int, i: int| 0 <= k < q.len() && 0 <= i < q[k].len()
            implies ok(#[trigger] q[k][i]) && q[k][i] != sep by {
            if s.last() == sep {
                if k < r.len() {
                    assert(q[k] == r[k]);
                }
            } else {
                if k < r.len() - 1 {
                    assert(q[k] == r[k]);
                } else if i < r.last().len() {
                    assert(q[k][i] == r[k][i]);
                } else {
                    assert(q[k][i] == s.last());
                }
            }
        }
    }
}

/// Cutting `a`, a separator and `b` gives the pieces of `a` followed by those of `b`.
pub proof fn lemma_split_concat(a: Seq<char>, b: Seq<char>, sep: char)
    ensures
        split_on(a.push(sep) + b, sep) == split_on(a, sep) + split_on(b, sep),
    decreases b.len(),
{
    let s = a.push(sep) + b;
    if b.len() == 0 {
        assert(s =~= a.push(sep));
        assert(s.drop_last() =~= a);
        assert(split_on(s, sep) =~= split_on(a, sep) + split_on(b, sep));
    } else {
        let b2 = b.drop_last();
        assert(s.drop_last() =~= a.push(sep) + b2);
        lemma_split_concat(a, b2, sep);
        lemma_split_nonempty(b2, sep);
        assert(split_on(s, sep) =~= split_on(a, sep) + split_on(b, sep));
    }
}

proof fn lemma_digit_char(d: int)
    requires
        0 <= d < 10,
    ensures
        is_digit(digit_char(d)),
        digit_value(digit_char(d)) == d,
{
}

/// The decimal text of `n` is a non-empty run of digits worth `n`.
pub proof fn lemma_decimal(n: nat)
    ensures
        all_digits(decimal(n)),
        digits_value(decimal(n)) == n,
        decimal(n).len() >= 1,
    decreases n,
{
    if n < 10 {
        lemma_digit_char(n as int);
        assert(decimal(n).drop_last() =~= Seq::<char>::empty());
        assert(digits_value(Seq::<char>::empty()) == 0);
        assert(digits_value(decimal(n)) == digits_value(decimal(n).drop_last()) * 10 + digit_value(decimal(n).last()));
    } else {
        lemma_decimal(n / 10);
        lemma_digit_char((n % 10) as int);
        let d = decimal(n);
        assert(d.drop_last() =~= decimal(n / 10));
        assert(digits_value(d) == digits_value(d.drop_last()) * 10 + digit_value(d.last()));
        assert forall|i: int| 0 <= i < d.len() implies is_digit(#[trigger] d[i]) by {
            if i < d.len() - 1 {
                assert(d[i] == decimal(n / 10)[i]);
            }
        }
    }
}

proof fn lemma_leading_zero(d: Seq<char>)
    ensures
        digits_value(seq!['0'] + d) == digits_value(d),
    decreases d.len(),
{
    let z = seq!['0'] + d;
    assert(digit_value('0') == 0);
    assert(digits_value(Seq::<char>::empty()) == 0);
    if d.len() == 0 {
        assert(z.drop_last() =~= Seq::<char>::empty());
        assert(z.last() == '0');
        assert(digits_value(z) == digits_value(z.drop_last()) * 10 + digit_value(z.last()));
    } else {
        assert(z.drop_last() =~= seq!['0'] + d.drop_last());
        assert(z.last() == d.last());
        lemma_leading_zero(d.drop_last());
        assert(digits_value(z) == digits_value(z.drop_last()) * 10 + digit_value(z.last()));
        assert(digits_value(d) == digits_value(d.drop_last()) * 10 + digit_value(d.last()));
    }
}

/// The two-digit text of `n` is a non-empty run of digits worth `n`.
pub proof fn lemma_pad2(n: nat)
    ensures
        all_digits(pad2(n)),
        digits_value(pad2(n)) == n,
        pad2(n).len() >= 1,
{
    lemma_decimal(n);
    if n < 10 {
        lemma_leading_zero(decimal(n));
        let p = pad2(n);
        assert forall|i: int| 0 <= i < p.len() implies is_digit(#[trigger] p[i]) by {
            if i > 0 {
                assert(p[i] == decimal(n)[i - 1]);
            }
        }
    }
}

/// A non-empty run of digits reads as that many whole seconds.
pub proof fn lemma_micros_of_digits(ds: Seq<char>)
    requires
        all_digits(ds),
        ds.len() >= 1,
        digits_value(ds) * 1_000_000 <= i64::MAX,
    ensures
        micros_of(ds) == Some((digits_value(ds) * 1_000_000) as int),
{
    assert(is_digit(ds[0]));
    assert(unsigned_part(ds) == ds);
    assert(!has_minus(ds));
    if exists|k: int| first_exp_at(ds, k) {
        let k = choose|k: int| first_exp_at(ds, k);
        assert(is_digit(ds[k]));
    }
    assert forall|i: int| 0 <= i < ds.len() implies ds[i] != '.' by {
        assert(is_digit(ds[i]));
    }
    lemma_split_no_sep(ds, '.');
    assert(mantissa_of(ds) == Some((ds, ds.len() as int)));
    reveal_with_fuel(pow10, 7);
    assert(pow10(6) == 1_000_000);
    assert(shifted(ds, ds.len() as int + 0 + 6) == digits_value(ds) * 1_000_000);
}

/// Whether two string slices hold the same characters.
pub fn same_text(a: &str, b: &str) -> (r: bool)
    ensures
        r == (a@ == b@),
{
    let x = chars_of(a);
    let y = chars_of(b);
    if x.len() != y.len() {
        return false;
    }
    let mut i: usize = 0;
    while i < x.len()
        invariant
            x@ == a@,
            y@ == b@,
            x@.len() == y@.len(),
            i <= x@.len(),
            forall|j: int| 0 <= j < i ==> x@[j] == y@[j],
        decreases x@.len() - i,
    {
        if x[i] != y[i] {
            return false;
        }
        i = i + 1;
    }
    assert(a@ =~= b@);
    true
}

} // verus!
