//! The texts that the status bar and the properties panel show, and the
//! reading of the numbers typed into the properties panel.
use vstd::prelude::*;
use crate::parse::{chars_of, micros_in, micros_of};
use crate::state::{AppState, ClipData, ClipView};
use crate::text::{append_decimal, append_pad2, decimal, magnitude, pad2};
use crate::utils::time::{format_duration, rounded_secs, secs_text};

verus! {

broadcast use vstd::string::group_string_axioms;

/// `n / d` rounded to the nearest integer, a half going to the even
/// neighbour (`n >= 0`, `d > 0`).
pub open spec fn round_half_even(n: int, d: int) -> int {
    let q = n / d;
    let r = n % d;
    if 2 * r > d || (2 * r == d && q % 2 == 1) { q + 1 } else { q }
}

/// A microsecond count written as seconds with two decimals (as `{:.2}`
/// writes seconds): rounded to hundredths, a half to the even neighbour.
pub open spec fn centis_text(us: int) -> Seq<char> {
    let a = if us < 0 { -us } else { us };
    let c = round_half_even(a, 10_000);
    let sign = if us < 0 { seq!['-'] } else { Seq::<char>::empty() };
    sign + decimal((c / 100) as nat) + seq!['.'] + pad2((c % 100) as nat)
}

/// The zoom level (thousandths of a pixel per second) as a whole percentage.
pub open spec fn percent_text(zoom: int) -> Seq<char> {
    decimal(round_half_even(zoom, 1000) as nat) + seq!['%']
}

/// The text of a duration as `format_duration` writes it.
pub open spec fn duration_text(us: int) -> Seq<char> {
    secs_text(rounded_secs(us))
}

/// The summary of a clip in the properties panel: its label, then its type,
/// its track counted from 1 and its id.
pub open spec fn clip_info_text(c: ClipView) -> Seq<char> {
    "クリップ: "@ + c.label + "\nタイプ: "@ + c.media_type.spec_label() + " | Trk"@
        + decimal((c.track_idx + 1) as nat) + " | ID:"@ + decimal(c.id as nat)
}

fn round_even_u64(n: u64, d: u64) -> (q: u64)
    requires
        d > 1,
    ensures
        q == round_half_even(n as int, d as int),
{
    let q0 = n / d;
    let r = n % d;
    assert(q0 < n || n == 0) by (nonlinear_arith) requires q0 == n / d, d > 1;
    if r > d - r || (r == d - r && q0 % 2 == 1) { q0 + 1 } else { q0 }
}

/// The status bar's project field.
pub fn project_label(name: &str) -> (r: String)
    ensures
        r@ == "プロジェクト: "@ + name@,
{
    let mut r = String::from_str("プロジェクト: ");
    r.append(name);
    r
}

/// The status bar's position field: where playback stands and the project's
/// length.
pub fn position_label(current: i64, total: i64) -> (r: String)
    ensures
        r@ == duration_text(current as int) + " / "@ + duration_text(total as int),
{
    let mut r = format_duration(current);
    r.append(" / ");
    let t = format_duration(total);
    r.append(t.as_str());
    r
}

/// The status bar's zoom field.
pub fn zoom_label(zoom: u64) -> (r: String)
    ensures
        r@ == percent_text(zoom as int),
{
    proof { reveal_strlit("%"); }
    let mut r = String::new();
    append_decimal(&mut r, round_even_u64(zoom, 1000) as u128);
    r.append("%");
    assert(r@ =~= percent_text(zoom as int));
    r
}

/// The properties panel's position caption.
pub fn playback_label(position: i64) -> (r: String)
    ensures
        r@ == "再生位置: "@ + duration_text(position as int),
{
    let mut r = String::from_str("再生位置: ");
    let t = format_duration(position);
    r.append(t.as_str());
    r
}

/// A time field of the properties panel: seconds with two decimals.
pub fn seconds_field(us: i64) -> (r: String)
    ensures
        r@ == centis_text(us as int),
{
    proof {
        reveal_strlit("-");
        reveal_strlit(".");
    }
    let a = magnitude(us);
    let c = round_even_u64(a, 10_000);
    let mut r = String::new();
    if us < 0 {
        r.append("-");
    }
    append_decimal(&mut r, (c / 100) as u128);
    r.append(".");
    append_pad2(&mut r, (c % 100) as u128);
    assert(r@ =~= centis_text(us as int));
    r
}

/// The properties panel's summary of a clip.
pub fn clip_info(clip: &ClipData) -> (r: String)
    ensures
        r@ == clip_info_text(clip@),
{
    let mut r = String::from_str("クリップ: ");
    r.append(clip.label.as_str());
    r.append("\nタイプ: ");
    r.append(clip.media_type.label());
    r.append(" | Trk");
    append_decimal(&mut r, clip.track_idx as u128 + 1);
    r.append(" | ID:");
    append_decimal(&mut r, clip.id as u128);
    assert(r@ =~= clip_info_text(clip@));
    r
}

/// Reads a number typed into a time field: a decimal number of seconds,
/// counted in microseconds.
pub fn parse_seconds(text: &str) -> (r: Option<i64>)
    ensures
        match r {
            Some(v) => micros_of(text@) == Some(v as int),
            None => micros_of(text@) is None,
        },
{
    let cs = chars_of(text);
    assert(cs@.subrange(0, cs@.len() as int) =~= text@);
    micros_in(&cs, 0, cs.len())
}

/// The time fields of the properties panel for a selected clip.
pub struct ClipFields {
    pub info: String,
    pub start: String,
    pub duration: String,
    pub in_point: String,
    pub out_point: String,
}

/// What the properties panel shows: the position slider's range and value
/// (microseconds), its caption, and the selected clip's fields.
pub struct PropertiesView {
    pub slider_max: i64,
    pub slider_value: i64,
    pub position: String,
    pub clip: Option<ClipFields>,
}

impl AppState {
    /// What the properties panel shows for this state: the slider spans the
    /// project's length (at least one second) and stands at the playback
    /// position; the clip fields are those of the selected clip, if it still
    /// exists.
    pub fn properties_view(&self) -> (v: PropertiesView)
        ensures
            v.slider_max == if self.project@.duration > 1_000_000 { self.project@.duration } else { 1_000_000 },
            v.slider_value == self.playback_position,
            v.position@ == "再生位置: "@ + duration_text(self.playback_position as int),
            match self.selected_clip_id {
                Some(id) => match self.project@.find(id) {
                    Some(c) => v.clip matches Some(f) && {
                        &&& f.info@ == clip_info_text(c)
                        &&& f.start@ == centis_text(c.start_time as int)
                        &&& f.duration@ == centis_text(c.duration as int)
                        &&& f.in_point@ == centis_text(c.in_point as int)
                        &&& f.out_point@ == centis_text(c.out_point as int)
                    },
                    None => v.clip is None,
                },
                None => v.clip is None,
            },
    {
        let d = self.project.duration();
        let clip = match self.selected_clip() {
            Some(c) => Some(ClipFields {
                info: clip_info(c),
                start: seconds_field(c.start_time),
                duration: seconds_field(c.duration),
                in_point: seconds_field(c.in_point),
                out_point: seconds_field(c.out_point),
            }),
            None => None,
        };
        PropertiesView {
            slider_max: if d > 1_000_000 { d } else { 1_000_000 },
            slider_value: self.playback_position,
            position: playback_label(self.playback_position),
            clip,
        }
    }
}

} // verus!
