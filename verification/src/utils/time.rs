//! Formatting and parsing of durations as `M:SS` / `H:MM:SS` text.
use vstd::prelude::*;
use crate::media::FrameRate;
use crate::parse::{
    all_digits, chars_of, digits_value, lemma_decimal, lemma_micros_of_digits, lemma_pad2,
    lemma_split_concat, lemma_split_no_sep, micros_in, micros_of, split_on, split_ranges,
};
use crate::text::{decimal, pad2};
use crate::text::{append_int, append_int_02, int_text, int_text_02, magnitude};

verus! {

broadcast use vstd::string::group_string_axioms;

/// `n / d` rounded to the nearest integer, halves away from zero (`d != 0`).
pub open spec fn round_div(n: int, d: int) -> int {
    let (n, d) = if d < 0 { (-n, -d) } else { (n, d) };
    if n >= 0 {
        n / d + if 2 * (n % d) >= d { 1int } else { 0int }
    } else {
        -((-n) / d + if 2 * ((-n) % d) >= d { 1int } else { 0int })
    }
}

/// A microsecond count rounded to whole seconds, halves away from zero.
pub open spec fn rounded_secs(us: int) -> int {
    if us >= 0 {
        (us + 500_000) / 1_000_000
    } else {
        -((-us + 500_000) / 1_000_000)
    }
}

/// `t` whole seconds as text: `H:MM:SS` when there is at least one whole hour,
/// `M:SS` otherwise; a negative count shows negative minute and second fields
/// and no hours.
pub open spec fn secs_text(t: int) -> Seq<char> {
    let a = if t < 0 { -t } else { t };
    let h = a / 3600;
    let m = (a % 3600) / 60;
    let s = a % 60;
    if t > 0 && h > 0 {
        int_text(h) + seq![':'] + int_text_02(m) + seq![':'] + int_text_02(s)
    } else if t < 0 {
        int_text(-m) + seq![':'] + int_text_02(-s)
    } else {
        int_text(m) + seq![':'] + int_text_02(s)
    }
}

/// A whole number of seconds (saturated to the `i64` range) as text.
pub fn format_secs(t: i64) -> (r: String)
    ensures
        r@ == secs_text(t as int),
{
    proof { reveal_strlit(":"); }
    let a = magnitude(t);
    let h = a / 3600;
    let m = (a % 3600) / 60;
    let s = a % 60;
    let mut r = String::new();
    if t > 0 && h > 0 {
        append_int(&mut r, h as i64);
        r.append(":");
        append_int_02(&mut r, m as i64);
        r.append(":");
        append_int_02(&mut r, s as i64);
    } else if t < 0 {
        append_int(&mut r, -(m as i64));
        r.append(":");
        append_int_02(&mut r, -(s as i64));
    } else {
        append_int(&mut r, m as i64);
        r.append(":");
        append_int_02(&mut r, s as i64);
    }
    r
}

/// Formats a duration given in microseconds as `M:SS` or `H:MM:SS`, after
/// rounding it to whole seconds (halves away from zero).
pub fn format_duration(us: i64) -> (r: String)
    ensures
        r@ == secs_text(rounded_secs(us as int)),
{
    let a = magnitude(us);
    let secs = (a + 500_000) / 1_000_000;
    let t: i64 = if us < 0 { -(secs as i64) } else { secs as i64 };
    format_secs(t)
}

/// The time of frame `frame` at rate `fps`, in whole seconds (rounded halves
/// away from zero; with a zero rate, every frame but the first lies at the
/// largest representable time).
pub open spec fn frame_secs(frame: int, fps: FrameRate) -> int {
    if fps.num == 0 {
        if frame == 0 { 0 } else { i64::MAX as int }
    } else {
        let q = round_div(frame * fps.den, fps.num as int);
        if q > i64::MAX { i64::MAX as int } else if q < i64::MIN { i64::MIN as int } else { q }
    }
}

/// `n / d` rounded to the nearest integer, halves away from zero (`d > 0`).
pub fn round_div_i128(n: i128, d: i128) -> (q: i128)
    requires
        0 < d,
        i128::MIN < n,
    ensures
        q == round_div(n as int, d as int),
{
    let m: i128 = if n >= 0 { n } else { -n };
    let q0 = m / d;
    let r = m % d;
    let up = r >= d - r;
    if up {
        assert(q0 < i128::MAX) by (nonlinear_arith)
            requires q0 == m / d, d >= 2, 0 <= m <= i128::MAX;
    }
    let q1 = if up { q0 + 1 } else { q0 };
    if n >= 0 { q1 } else { -q1 }
}

/// Formats the time of a frame number at the given frame rate.
pub fn frame_to_timecode(frame: u64, fps: FrameRate) -> (r: String)
    requires
        fps.wf(),
    ensures
        r@ == secs_text(frame_secs(frame as int, fps)),
{
    if fps.num == 0 {
        if frame == 0 {
            format_secs(0)
        } else {
            format_secs(i64::MAX)
        }
    } else {
        proof {
            assert(0 <= (frame as int) * (fps.den as int) <= (u64::MAX as int) * (i64::MAX as int) < i128::MAX - 1) by (nonlinear_arith)
                requires 0 <= frame <= u64::MAX, 0 < fps.den <= i64::MAX;
        }
        let n: i128 = (frame as i128) * (fps.den as i128);
        let q: i128 = if fps.num > 0 {
            round_div_i128(n, fps.num as i128)
        } else {
            let q0 = round_div_i128(-n, -(fps.num as i128));
            q0
        };
        assert(q == round_div(frame * fps.den, fps.num as int));
        let t: i64 = if q > i64::MAX as i128 { i64::MAX } else if q < i64::MIN as i128 { i64::MIN } else { q as i64 };
        format_secs(t)
    }
}

/// `Some(v)` when `v` fits in an `i64`.
pub open spec fn fit_i64(v: int) -> Option<int> {
    if i64::MIN <= v <= i64::MAX { Some(v) } else { None }
}

/// The duration written as `M:SS` or `H:MM:SS` (each field a decimal number
/// of its unit, possibly signed or fractional), in microseconds.
pub open spec fn duration_value(s: Seq<char>) -> Option<int> {
    let p = split_on(s, ':');
    if p.len() == 2 {
        match (micros_of(p[0]), micros_of(p[1])) {
            (Some(m), Some(x)) => fit_i64(m * 60 + x),
            _ => None,
        }
    } else if p.len() == 3 {
        match (micros_of(p[0]), micros_of(p[1]), micros_of(p[2])) {
            (Some(h), Some(m), Some(x)) => fit_i64(h * 3600 + m * 60 + x),
            _ => None,
        }
    } else {
        None
    }
}

/// Parses `M:SS` or `H:MM:SS` text into microseconds.
pub fn parse_duration(text: &str) -> (r: Option<i64>)
    ensures
        match r {
            Some(v) => duration_value(text@) == Some(v as int),
            None => duration_value(text@) is None,
        },
{
    let cs = chars_of(text);
    let n = cs.len();
    assert(cs@.subrange(0, n as int) =~= text@);
    let parts = split_ranges(&cs, 0, n, ':');
    let ghost p = split_on(text@, ':');
    if parts.len() == 2 {
        let (a0, a1) = parts[0];
        let (b0, b1) = parts[1];
        let m = match micros_in(&cs, a0, a1) { Some(v) => v, None => return None };
        let x = match micros_in(&cs, b0, b1) { Some(v) => v, None => return None };
        let t: i128 = (m as i128) * 60 + (x as i128);
        if t < i64::MIN as i128 || t > i64::MAX as i128 {
            return None;
        }
        Some(t as i64)
    } else if parts.len() == 3 {
        let (a0, a1) = parts[0];
        let (b0, b1) = parts[1];
        let (c0, c1) = parts[2];
        let h = match micros_in(&cs, a0, a1) { Some(v) => v, None => return None };
        let m = match micros_in(&cs, b0, b1) { Some(v) => v, None => return None };
        let x = match micros_in(&cs, c0, c1) { Some(v) => v, None => return None };
        let t: i128 = (h as i128) * 3600 + (m as i128) * 60 + (x as i128);
        if t < i64::MIN as i128 || t > i64::MAX as i128 {
            return None;
        }
        Some(t as i64)
    } else {
        None
    }
}

proof fn lemma_field(ds: Seq<char>, v: nat, t: int)
    requires
        all_digits(ds),
        ds.len() >= 1,
        digits_value(ds) == v,
        v <= t,
        t * 1_000_000 <= i64::MAX,
    ensures
        micros_of(ds) == Some((v * 1_000_000) as int),
        forall|i: int| 0 <= i < ds.len() ==> ds[i] != ':',
{
    lemma_micros_of_digits(ds);
    assert forall|i: int| 0 <= i < ds.len() implies ds[i] != ':' by {
        assert(crate::parse::is_digit(ds[i]));
    }
}

/// Reading back what `format_duration` writes for a non-negative duration
/// gives that duration rounded to whole seconds.
pub proof fn lemma_format_parse_round_trip(us: int)
    requires
        0 <= us,
        rounded_secs(us) * 1_000_000 <= i64::MAX,
    ensures
        duration_value(secs_text(rounded_secs(us))) == Some(rounded_secs(us) * 1_000_000),
{
    let t = rounded_secs(us);
    assert(t >= 0);
    let h = t / 3600;
    let m = (t % 3600) / 60;
    let x = t % 60;
    assert(t == h * 3600 + m * 60 + x);
    lemma_decimal(h as nat);
    lemma_decimal(m as nat);
    lemma_pad2(m as nat);
    lemma_pad2(x as nat);
    lemma_field(pad2(m as nat), m as nat, t);
    lemma_field(pad2(x as nat), x as nat, t);
    let sm = pad2(m as nat);
    let sx = pad2(x as nat);
    lemma_split_no_sep(sx, ':');
    lemma_split_concat(sm, sx, ':');
    if t > 0 && h > 0 {
        let sh = decimal(h as nat);
        lemma_field(sh, h as nat, t);
        lemma_split_no_sep(sm, ':');
        lemma_split_no_sep(sh, ':');
        let rest = sm.push(':') + sx;
        lemma_split_concat(sh, rest, ':');
        assert(secs_text(t) =~= sh.push(':') + rest);
        assert(split_on(secs_text(t), ':') =~= seq![sh, sm, sx]);
    } else {
        assert(h == 0);
        let sm2 = decimal(m as nat);
        lemma_field(sm2, m as nat, t);
        lemma_split_no_sep(sm2, ':');
        lemma_split_concat(sm2, sx, ':');
        assert(secs_text(t) =~= sm2.push(':') + sx);
        assert(split_on(secs_text(t), ':') =~= seq![sm2, sx]);
    }
}

} // verus!
