//! Geometry and interaction of the timeline: how tall tracks are, where
//! clips, ruler ticks and the playhead are drawn, which clip lies under the
//! pointer, and how the wheel zooms and scrolls.
//!
//! Horizontal positions come from times (microseconds) and the zoom level
//! (thousandths of a pixel per second): a time difference `dt` is
//! `dt * zoom / 10^9` pixels, truncated towards zero and saturated to the
//! `i32` range.
use vstd::prelude::*;
use crate::media::MediaType;
use crate::text::{append_int, append_int_02, int_text, int_text_02};
use crate::state::{AppState, ClipView, Project, TrackView, Track, sat_i64, track_views, clip_views, clamp_position};

verus! {

broadcast use vstd::string::group_string_axioms;

/// Height of the ruler strip at the top of the timeline.
pub const HEADER_H: i64 = 24;
/// Height of the scrollbar strip at the bottom of the timeline.
pub const SCROLLBAR_H: i64 = 16;

/// `n / d` truncated towards zero (`d > 0`).
pub open spec fn trunc_div(n: int, d: int) -> int {
    if n >= 0 { n / d } else { -((-n) / d) }
}

pub open spec fn sat_i32(v: int) -> int {
    if v > i32::MAX { i32::MAX as int } else if v < i32::MIN { i32::MIN as int } else { v }
}

/// The pixel width of a time span `dt` at this zoom.
pub open spec fn px(dt: int, zoom: int) -> int {
    sat_i32(trunc_div(dt * zoom, 1_000_000_000))
}

/// The pixel width of `dt` microseconds at this zoom.
pub fn pixels(dt: i128, zoom: u64) -> (r: i64)
    requires
        -0x4_0000_0000_0000_0000 <= dt <= 0x4_0000_0000_0000_0000,
    ensures
        r == px(dt as int, zoom as int),
{
    let big: i128 = 0x4000_0000_0000_0000;
    if zoom == 0 {
        assert(dt * 0 == 0);
        return 0;
    }
    if dt > big {
        proof {
            assert(dt * zoom >= dt) by (nonlinear_arith) requires dt > 0, zoom >= 1;
        }
        return i32::MAX as i64;
    }
    if dt < -big {
        proof {
            assert(dt * zoom <= dt) by (nonlinear_arith) requires dt < 0, zoom >= 1;
            assert(trunc_div(dt * zoom, 1_000_000_000) < i32::MIN);
        }
        return i32::MIN as i64;
    }
    proof {
        assert(-big * (u64::MAX as int) <= dt * zoom <= big * (u64::MAX as int)) by (nonlinear_arith)
            requires -big <= dt <= big, 0 <= zoom <= u64::MAX;
    }
    let p: i128 = dt * (zoom as i128);
    let q: i128 = if p >= 0 { p / 1_000_000_000 } else { -((-p) / 1_000_000_000) };
    if q > i32::MAX as i128 {
        i32::MAX as i64
    } else if q < i32::MIN as i128 {
        i32::MIN as i64
    } else {
        q as i64
    }
}

/// Whether `dt * zoom <= limit`, for `zoom > 0` and a limit no larger in
/// size than `2^62`.
fn scaled_at_most(dt: i128, zoom: u64, limit: i128) -> (r: bool)
    requires
        zoom > 0,
        -0x4000_0000_0000_0000 <= limit <= 0x4000_0000_0000_0000,
    ensures
        r == (dt * zoom <= limit),
{
    let big: i128 = 0x8000_0000_0000_0000;
    if dt > big {
        assert(dt * zoom >= dt) by (nonlinear_arith) requires dt > 0, zoom >= 1;
        false
    } else if dt < -big {
        assert(dt * zoom <= dt) by (nonlinear_arith) requires dt < 0, zoom >= 1;
        true
    } else {
        proof {
            assert(-big * (u64::MAX as int) <= dt * zoom <= big * (u64::MAX as int)) by (nonlinear_arith)
                requires -big <= dt <= big, 0 <= zoom <= u64::MAX;
        }
        dt * (zoom as i128) <= limit
    }
}

/// How a clip is highlighted.
#[derive(Debug, Clone, Copy, PartialEq, Eq, Structural)]
pub enum Highlight {
    Selected,
    Hovered,
    Normal,
}

/// How a track's background is shaded.
#[derive(Debug, Clone, Copy, PartialEq, Eq, Structural)]
pub enum TrackShade {
    Locked,
    /// Tracks at even positions (the first, third, ...).
    Odd,
    /// Tracks at odd positions.
    Even,
}

/// Where the timeline is drawn and how it is scrolled, zoomed and selected:
/// everything the clip geometry depends on.
#[derive(Debug, Clone, Copy, PartialEq, Eq, Structural)]
pub struct Layout {
    /// The x coordinate of the timeline's left edge.
    pub origin_x: i64,
    /// The y coordinate of the top of the first track.
    pub area_top: i64,
    /// The width of the timeline in pixels.
    pub width: i64,
    pub scroll: i64,
    pub zoom: u64,
    pub track_h: i64,
    pub selected: Option<u64>,
    pub hovered: Option<u64>,
}

/// Where a clip is drawn.
#[derive(Debug, Clone, Copy, PartialEq, Eq, Structural)]
pub struct ClipRect {
    pub clip_id: u64,
    pub x: i64,
    pub y: i64,
    pub w: i64,
    pub h: i64,
    pub media_type: MediaType,
    pub highlight: Highlight,
    /// Whether the clip is wide enough for its label.
    pub show_label: bool,
}

/// The height of each track: the space between the ruler and the scrollbar
/// shared among the tracks (at least one), but never under 20 pixels.
pub open spec fn spec_track_height(height: int, track_count: int) -> int {
    let area = height - HEADER_H - SCROLLBAR_H;
    let n = if track_count < 1 { 1 } else { track_count };
    if area <= 0 { 20 } else if area / n < 20 { 20 } else { area / n }
}

pub fn track_height(height: i32, track_count: usize) -> (r: i64)
    ensures
        r == spec_track_height(height as int, track_count as int),
{
    let area: i64 = height as i64 - HEADER_H - SCROLLBAR_H;
    if area <= 0 {
        return 20;
    }
    if track_count as u128 > area as u128 {
        proof {
            let a = area as int;
            let b = track_count as int;
            assert(a / b == 0) by (nonlinear_arith) requires 0 < a < b;
        }
        return 20;
    }
    let n: i64 = if track_count < 1 { 1 } else { track_count as i64 };
    let q = area / n;
    if q < 20 { 20 } else { q }
}

/// Where a clip of the track with this index is drawn.
pub open spec fn clip_rect(c: ClipView, track_index: usize, l: Layout) -> ClipRect {
    let w0 = px(c.duration as int, l.zoom as int);
    let w = if w0 > 4 { w0 } else { 4 };
    ClipRect {
        clip_id: c.id,
        x: (l.origin_x + px(c.start_time - l.scroll, l.zoom as int)) as i64,
        y: sat_i64(l.area_top + track_index * l.track_h + 3) as i64,
        w: w as i64,
        h: (l.track_h - 6) as i64,
        media_type: c.media_type,
        highlight: if l.selected == Some(c.id) {
            Highlight::Selected
        } else if l.hovered == Some(c.id) {
            Highlight::Hovered
        } else {
            Highlight::Normal
        },
        show_label: w > 30,
    }
}

/// Whether a clip rectangle overlaps the timeline horizontally.
pub open spec fn on_screen(r: ClipRect, l: Layout) -> bool {
    !(r.x + r.w < l.origin_x || r.x > l.origin_x + l.width)
}

/// Whether the point lies in the clip rectangle (edges included).
pub open spec fn contains(r: ClipRect, x: int, y: int) -> bool {
    r.x <= x <= r.x + r.w && r.y <= y <= r.y + r.h
}

/// The rectangles of the on-screen clips of one track, in order.
pub open spec fn rects_in_track(cs: Seq<ClipView>, track_index: usize, l: Layout) -> Seq<ClipRect>
    decreases cs.len(),
{
    if cs.len() == 0 {
        Seq::empty()
    } else {
        let r = rects_in_track(cs.drop_last(), track_index, l);
        let rc = clip_rect(cs.last(), track_index, l);
        if on_screen(rc, l) { r.push(rc) } else { r }
    }
}

/// The rectangles of the on-screen clips of the visible tracks, track by track.
pub open spec fn drawn_rects(ts: Seq<TrackView>, l: Layout) -> Seq<ClipRect>
    decreases ts.len(),
{
    if ts.len() == 0 {
        Seq::empty()
    } else {
        let r = drawn_rects(ts.drop_last(), l);
        if ts.last().visible { r + rects_in_track(ts.last().clips, ts.last().index, l) } else { r }
    }
}

/// The first clip of this track whose rectangle holds the point.
pub open spec fn hit_in_track(cs: Seq<ClipView>, track_index: usize, l: Layout, x: int, y: int) -> Option<u64>
    decreases cs.len(),
{
    if cs.len() == 0 {
        None
    } else {
        match hit_in_track(cs.drop_last(), track_index, l, x, y) {
            Some(id) => Some(id),
            None => if contains(clip_rect(cs.last(), track_index, l), x, y) { Some(cs.last().id) } else { None },
        }
    }
}

/// The first clip, over the visible tracks in order, whose rectangle holds
/// the point.
pub open spec fn hit(ts: Seq<TrackView>, l: Layout, x: int, y: int) -> Option<u64>
    decreases ts.len(),
{
    if ts.len() == 0 {
        None
    } else {
        match hit(ts.drop_last(), l, x, y) {
            Some(id) => Some(id),
            None => if ts.last().visible { hit_in_track(ts.last().clips, ts.last().index, l, x, y) } else { None },
        }
    }
}

/// The rectangle of a clip.
pub fn clip_rect_of(c: &crate::state::ClipData, track_index: usize, l: &Layout) -> (r: ClipRect)
    requires
        -0x1_0000_0000 <= l.origin_x <= 0x1_0000_0000,
        -0x1_0000_0000 <= l.area_top <= 0x1_0000_0000,
        -0x1_0000_0000 <= l.track_h <= 0x1_0000_0000,
    ensures
        r == clip_rect(c@, track_index, *l),
{
    let dx = pixels(c.start_time as i128 - l.scroll as i128, l.zoom);
    let w0 = pixels(c.duration as i128, l.zoom);
    let w = if w0 > 4 { w0 } else { 4 };
    proof {
        assert(-(usize::MAX as int) * 0x1_0000_0000 <= track_index * l.track_h <= (usize::MAX as int) * 0x1_0000_0000) by (nonlinear_arith)
            requires 0 <= track_index <= usize::MAX, -0x1_0000_0000 <= l.track_h <= 0x1_0000_0000;
    }
    let y: i128 = l.area_top as i128 + (track_index as i128) * (l.track_h as i128) + 3;
    let y64: i64 = if y > i64::MAX as i128 { i64::MAX } else if y < i64::MIN as i128 { i64::MIN } else { y as i64 };
    let highlight = if l.selected == Some(c.id) {
        Highlight::Selected
    } else if l.hovered == Some(c.id) {
        Highlight::Hovered
    } else {
        Highlight::Normal
    };
    ClipRect {
        clip_id: c.id,
        x: l.origin_x + dx,
        y: y64,
        w,
        h: l.track_h - 6,
        media_type: c.media_type,
        highlight,
        show_label: w > 30,
    }
}

/// The layout used for drawing the timeline in the box at `(x, y)` of size
/// `width` x `height`: tracks start below the ruler.
pub fn drawing_layout(state: &AppState, x: i32, y: i32, width: i32, height: i32, hovered: Option<u64>) -> (l: Layout)
    ensures
        l == (Layout {
            origin_x: x as i64,
            area_top: (y + HEADER_H) as i64,
            width: width as i64,
            scroll: state.scroll_offset,
            zoom: state.zoom_level,
            track_h: spec_track_height(height as int, state.project@.tracks.len() as int) as i64,
            selected: state.selected_clip_id,
            hovered,
        }),
{
    let n = state.project.track_list().len();
    Layout {
        origin_x: x as i64,
        area_top: y as i64 + HEADER_H,
        width: width as i64,
        scroll: state.scroll_offset,
        zoom: state.zoom_level,
        track_h: track_height(height, n),
        selected: state.selected_clip_id,
        hovered,
    }
}

/// The layout used for finding the clip under the pointer, in coordinates
/// relative to the timeline's top-left corner.
pub fn pointer_layout(state: &AppState, height: i32) -> (l: Layout)
    ensures
        l == (Layout {
            origin_x: 0,
            area_top: HEADER_H,
            width: 0,
            scroll: state.scroll_offset,
            zoom: state.zoom_level,
            track_h: spec_track_height(height as int, state.project@.tracks.len() as int) as i64,
            selected: None,
            hovered: None,
        }),
{
    let n = state.project.track_list().len();
    Layout {
        origin_x: 0,
        area_top: HEADER_H,
        width: 0,
        scroll: state.scroll_offset,
        zoom: state.zoom_level,
        track_h: track_height(height, n),
        selected: None,
        hovered: None,
    }
}

/// A layout whose coordinates are those of an on-screen widget.
pub open spec fn layout_in_range(l: Layout) -> bool {
    &&& -0x1_0000_0000 <= l.origin_x <= 0x1_0000_0000
    &&& -0x1_0000_0000 <= l.area_top <= 0x1_0000_0000
    &&& -0x1_0000_0000 <= l.track_h <= 0x1_0000_0000
    &&& -0x1_0000_0000 <= l.width <= 0x1_0000_0000
}

/// The rectangles of the clips to draw: on-screen clips of visible tracks.
pub fn clip_rects(project: &Project, l: &Layout) -> (r: Vec<ClipRect>)
    requires
        layout_in_range(*l),
    ensures
        r@ == drawn_rects(project@.tracks, *l),
{
    let tracks = project.track_list();
    let ghost tv = project@.tracks;
    let mut r: Vec<ClipRect> = Vec::new();
    let mut t: usize = 0;
    while t < tracks.len()
        invariant
            t <= tracks@.len(),
            tv == track_views(tracks@),
            tv.len() == tracks@.len(),
            layout_in_range(*l),
            r@ == drawn_rects(tv.take(t as int), *l),
        decreases tracks@.len() - t,
    {
        let ghost base = r@;
        let ghost tr = tv[t as int];
        assert(tv.take(t + 1).drop_last() =~= tv.take(t as int));
        assert(tv.take(t + 1).last() == tr);
        if tracks[t].visible {
            let mut k: usize = 0;
            let ghost cs = tr.clips;
            assert(cs == clip_views(tracks@[t as int].clips@));
            assert(base + rects_in_track(cs.take(0), tr.index, *l) =~= base);
            while k < tracks[t].clips.len()
                invariant
                    t < tracks@.len(),
                    k <= tracks@[t as int].clips@.len(),
                    cs == clip_views(tracks@[t as int].clips@),
                    cs.len() == tracks@[t as int].clips@.len(),
                    tr.index == tracks@[t as int].index,
                    layout_in_range(*l),
                    r@ == base + rects_in_track(cs.take(k as int), tr.index, *l),
                decreases tracks@[t as int].clips@.len() - k,
            {
                let rc = clip_rect_of(&tracks[t].clips[k], tracks[t].index, l);
                assert(cs.take(k + 1).drop_last() =~= cs.take(k as int));
                assert(cs.take(k + 1).last() == cs[k as int]);
                if !(rc.x + rc.w < l.origin_x || rc.x > l.origin_x + l.width) {
                    r.push(rc);
                    assert(r@ =~= base + rects_in_track(cs.take(k + 1), tr.index, *l));
                }
                k = k + 1;
            }
            assert(cs.take(cs.len() as int) =~= cs);
        } else {
        }
        t = t + 1;
    }
    assert(tv.take(tv.len() as int) =~= tv);
    r
}

/// The clip under the point `(x, y)`: the first, over the visible tracks in
/// order, whose rectangle holds it.
pub fn clip_at(project: &Project, l: &Layout, x: i64, y: i64) -> (r: Option<u64>)
    requires
        layout_in_range(*l),
    ensures
        r == hit(project@.tracks, *l, x as int, y as int),
{
    let tracks = project.track_list();
    let ghost tv = project@.tracks;
    let mut t: usize = 0;
    while t < tracks.len()
        invariant
            t <= tracks@.len(),
            tv == track_views(tracks@),
            tv == project@.tracks,
            tv.len() == tracks@.len(),
            layout_in_range(*l),
            hit(tv.take(t as int), *l, x as int, y as int) is None,
        decreases tracks@.len() - t,
    {
        let ghost tr = tv[t as int];
        assert(tv.take(t + 1).drop_last() =~= tv.take(t as int));
        assert(tv.take(t + 1).last() == tr);
        if tracks[t].visible {
            let mut k: usize = 0;
            let ghost cs = tr.clips;
            assert(cs == clip_views(tracks@[t as int].clips@));
            while k < tracks[t].clips.len()
                invariant
                    t < tracks@.len(),
                    k <= tracks@[t as int].clips@.len(),
                    cs == clip_views(tracks@[t as int].clips@),
                    cs.len() == tracks@[t as int].clips@.len(),
                    tr.index == tracks@[t as int].index,
                    tr == tv[t as int],
                    tr.visible == tracks@[t as int].visible,
                    tracks@[t as int].visible,
                    tv == track_views(tracks@),
                    tv == project@.tracks,
                    tv.len() == tracks@.len(),
                    layout_in_range(*l),
                    hit(tv.take(t as int), *l, x as int, y as int) is None,
                    hit_in_track(cs.take(k as int), tr.index, *l, x as int, y as int) is None,
                decreases tracks@[t as int].clips@.len() - k,
            {
                let rc = clip_rect_of(&tracks[t].clips[k], tracks[t].index, l);
                assert(cs.take(k + 1).drop_last() =~= cs.take(k as int));
                assert(cs.take(k + 1).last() == cs[k as int]);
                if x >= rc.x && x as i128 <= rc.x as i128 + rc.w as i128 && y >= rc.y && y as i128 <= rc.y as i128 + rc.h as i128 {
                    proof {
                        assert(hit_in_track(cs.take(k + 1), tr.index, *l, x as int, y as int) == Some(cs[k as int].id));
                        lemma_hit_in_track_extend(cs, k + 1, tr.index, *l, x as int, y as int);
                        assert(tv.take(t + 1).drop_last() =~= tv.take(t as int));
                        assert(tv.take(t + 1).last() == tr);
                        assert(tr.visible);
                        assert(hit(tv.take(t + 1), *l, x as int, y as int) == Some(cs[k as int].id));
                        lemma_hit_extend(tv, t + 1, *l, x as int, y as int);
                    }
                    return Some(tracks[t].clips[k].id);
                }
                k = k + 1;
            }
            assert(cs.take(cs.len() as int) =~= cs);
        }
        t = t + 1;
    }
    assert(tv.take(tv.len() as int) =~= tv);
    None
}

proof fn lemma_hit_in_track_extend(cs: Seq<ClipView>, j: int, ti: usize, l: Layout, x: int, y: int)
    requires
        0 <= j <= cs.len(),
        hit_in_track(cs.take(j), ti, l, x, y) is Some,
    ensures
        hit_in_track(cs, ti, l, x, y) == hit_in_track(cs.take(j), ti, l, x, y),
    decreases cs.len(),
{
    if j == cs.len() {
        assert(cs.take(j) =~= cs);
    } else {
        assert(cs.drop_last().take(j) =~= cs.take(j));
        lemma_hit_in_track_extend(cs.drop_last(), j, ti, l, x, y);
    }
}

proof fn lemma_hit_extend(ts: Seq<TrackView>, j: int, l: Layout, x: int, y: int)
    requires
        0 <= j <= ts.len(),
        hit(ts.take(j), l, x, y) is Some,
    ensures
        hit(ts, l, x, y) == hit(ts.take(j), l, x, y),
    decreases ts.len(),
{
    if j == ts.len() {
        assert(ts.take(j) =~= ts);
    } else {
        assert(ts.drop_last().take(j) =~= ts.take(j));
        lemma_hit_extend(ts.drop_last(), j, l, x, y);
    }
}

/// How the background of track row `idx` is shaded: locked tracks stand
/// out, the others alternate.
pub open spec fn spec_track_shade(ts: Seq<TrackView>, idx: int) -> TrackShade {
    if 0 <= idx < ts.len() && ts[idx].locked {
        TrackShade::Locked
    } else if idx % 2 == 0 {
        TrackShade::Odd
    } else {
        TrackShade::Even
    }
}

pub fn track_shade(project: &Project, idx: usize) -> (r: TrackShade)
    ensures
        r == spec_track_shade(project@.tracks, idx as int),
{
    let tracks = project.track_list();
    if idx < tracks.len() && tracks[idx].locked {
        TrackShade::Locked
    } else if idx % 2 == 0 {
        TrackShade::Odd
    } else {
        TrackShade::Even
    }
}

// ---------------------------------------------------------------------------
// The ruler

/// Whether ruler ticks `s` microseconds apart leave at most 20 intervals in
/// view: `s` is at least a twentieth of the visible span `width / (zoom /
/// 1000)` seconds. With a zero zoom the span is unbounded (for a positive
/// width) or undefined (for width 0), and only a negative width fits.
pub open spec fn step_fits(s: int, width: int, zoom: int) -> bool {
    if zoom == 0 { width < 0 } else { 20 * s * zoom >= width * 1_000_000_000 }
}

/// The ruler step: the first of 0.5, 1, 2, 5, 10, 15, 30, 60, 120, 300
/// seconds that fits, or 60 seconds when none does.
pub open spec fn spec_ruler_step(width: int, zoom: int) -> int {
    if step_fits(500_000, width, zoom) { 500_000 }
    else if step_fits(1_000_000, width, zoom) { 1_000_000 }
    else if step_fits(2_000_000, width, zoom) { 2_000_000 }
    else if step_fits(5_000_000, width, zoom) { 5_000_000 }
    else if step_fits(10_000_000, width, zoom) { 10_000_000 }
    else if step_fits(15_000_000, width, zoom) { 15_000_000 }
    else if step_fits(30_000_000, width, zoom) { 30_000_000 }
    else if step_fits(60_000_000, width, zoom) { 60_000_000 }
    else if step_fits(120_000_000, width, zoom) { 120_000_000 }
    else if step_fits(300_000_000, width, zoom) { 300_000_000 }
    else { 60_000_000 }
}

fn fits(s: i128, width: i32, zoom: u64) -> (r: bool)
    requires
        0 < s <= 300_000_000,
    ensures
        r == step_fits(s as int, width as int, zoom as int),
{
    if zoom == 0 {
        width < 0
    } else {
        proof {
            assert(0 <= 20 * s * zoom <= 20 * 300_000_000 * (u64::MAX as int)) by (nonlinear_arith)
                requires 0 < s <= 300_000_000, 0 <= zoom <= u64::MAX;
        }
        20 * s * (zoom as i128) >= (width as i128) * 1_000_000_000
    }
}

/// The spacing of ruler ticks (microseconds) for a timeline `width` pixels
/// wide at this zoom.
pub fn calc_ruler_step(width: i32, zoom: u64) -> (r: i64)
    ensures
        r == spec_ruler_step(width as int, zoom as int),
{
    if fits(500_000, width, zoom) { 500_000 }
    else if fits(1_000_000, width, zoom) { 1_000_000 }
    else if fits(2_000_000, width, zoom) { 2_000_000 }
    else if fits(5_000_000, width, zoom) { 5_000_000 }
    else if fits(10_000_000, width, zoom) { 10_000_000 }
    else if fits(15_000_000, width, zoom) { 15_000_000 }
    else if fits(30_000_000, width, zoom) { 30_000_000 }
    else if fits(60_000_000, width, zoom) { 60_000_000 }
    else if fits(120_000_000, width, zoom) { 120_000_000 }
    else if fits(300_000_000, width, zoom) { 300_000_000 }
    else { 60_000_000 }
}

/// The label of the ruler tick at time `t`: whole minutes and seconds
/// (truncated, the minutes saturated to the `i32` range), with hours split
/// off past 59 minutes.
pub open spec fn ruler_label_text(t: int) -> Seq<char> {
    let mins = sat_i32(trunc_div(t, 60_000_000));
    let rem = t - trunc_div(t, 60_000_000) * 60_000_000;
    let secs = trunc_div(rem, 1_000_000);
    if mins > 59 {
        int_text(mins / 60) + seq![':'] + int_text_02(mins % 60) + seq![':'] + int_text_02(secs)
    } else {
        int_text(mins) + seq![':'] + int_text_02(secs)
    }
}

fn trunc_div_i128(n: i128, d: i128) -> (q: i128)
    requires
        d > 0,
        n > i128::MIN,
    ensures
        q == trunc_div(n as int, d as int),
{
    if n >= 0 { n / d } else { -((-n) / d) }
}

/// The label of the ruler tick at time `t` (microseconds).
pub fn ruler_label(t: i128) -> (r: String)
    requires
        -0x1_0000_0000_0000_0000_0000 <= t <= 0x1_0000_0000_0000_0000_0000,
    ensures
        r@ == ruler_label_text(t as int),
{
    proof { reveal_strlit(":"); }
    let q = trunc_div_i128(t, 60_000_000);
    let mins: i64 = if q > i32::MAX as i128 { i32::MAX as i64 } else if q < i32::MIN as i128 { i32::MIN as i64 } else { q as i64 };
    proof {
        assert(-0x1_0000_0000_0000_0000_0000 <= q * 60_000_000 <= 0x1_0000_0000_0000_0000_0000) by (nonlinear_arith)
            requires q == trunc_div(t as int, 60_000_000), -0x1_0000_0000_0000_0000_0000 <= t <= 0x1_0000_0000_0000_0000_0000;
    }
    let rem: i128 = t - q * 60_000_000;
    let secs = trunc_div_i128(rem, 1_000_000);
    proof {
        assert(-60 < secs < 60) by (nonlinear_arith)
            requires secs == trunc_div(rem as int, 1_000_000), rem == t - q * 60_000_000, q == trunc_div(t as int, 60_000_000);
    }
    let mut r = String::new();
    if mins > 59 {
        append_int(&mut r, mins / 60);
        r.append(":");
        append_int_02(&mut r, mins % 60);
        r.append(":");
        append_int_02(&mut r, secs as i64);
    } else {
        append_int(&mut r, mins);
        r.append(":");
        append_int_02(&mut r, secs as i64);
    }
    r
}

/// One tick of the ruler: its time, its offset in pixels from the
/// timeline's left edge, and its label.
#[derive(Debug)]
pub struct RulerTick {
    pub time: i128,
    pub offset: i64,
    pub label: String,
}

/// The first tick: the scroll position rounded down to a whole step.
pub open spec fn first_tick(scroll: int, step: int) -> int {
    (scroll / step) * step
}

/// Whether time `t` lies within the timeline's visible span.
pub open spec fn in_view(t: int, scroll: int, width: int, zoom: int) -> bool {
    (t - scroll) * zoom <= width * 1_000_000_000
}

/// The ruler ticks of a timeline `width` pixels wide scrolled to `scroll`:
/// from the first tick, one every step, as long as they are in view.
pub fn ruler_ticks(scroll: i64, width: i32, zoom: u64) -> (r: Vec<RulerTick>)
    requires
        zoom > 0,
    ensures
        ({
            let step = spec_ruler_step(width as int, zoom as int);
            let t0 = first_tick(scroll as int, step);
            &&& forall|k: int| 0 <= k < r@.len() ==> {
                let t = #[trigger] r@[k].time;
                &&& t == t0 + k * step
                &&& in_view(t as int, scroll as int, width as int, zoom as int)
                &&& r@[k].offset == px(t - scroll, zoom as int)
                &&& r@[k].label@ == ruler_label_text(t as int)
            }
            &&& !in_view(t0 + r@.len() * step, scroll as int, width as int, zoom as int)
        }),
{
    let step = calc_ruler_step(width, zoom);
    let ghost stp = step as int;
    let st = step as i128;
    let sc = scroll as i128;
    let t0: i128 = if sc >= 0 {
        sc / st * st
    } else {
        let m = -sc;
        let q = (m + st - 1) / st;
        proof {
            let (qi, mi, sci, sti) = (q as int, m as int, sc as int, st as int);
            let f = sci / sti;
            assert(qi * sti <= mi + sti - 1 < qi * sti + sti) by (nonlinear_arith)
                requires qi == (mi + sti - 1) / sti, sti > 0, mi > 0;
            assert(f * sti <= sci < f * sti + sti) by (nonlinear_arith)
                requires f == sci / sti, sti > 0;
            assert(-qi == f) by (nonlinear_arith)
                requires qi * sti <= mi + sti - 1, mi + sti - 1 < qi * sti + sti,
                    f * sti <= sci, sci < f * sti + sti, mi == -sci, sti > 0;
        }
        -(q * st)
    };
    proof {
        let (t0i, sci, sti) = (t0 as int, sc as int, st as int);
        assert(sci - sti < t0i <= sci) by (nonlinear_arith)
            requires t0i == (sci / sti) * sti, sti > 0;
    }
    let limit: i128 = (width as i128) * 1_000_000_000;
    assert(-0x1_0000_0000_0000_0000 <= limit <= 0x1_0000_0000_0000_0000);
    let mut r: Vec<RulerTick> = Vec::new();
    let mut t: i128 = t0;
    while scaled_at_most(t - sc, zoom, limit)
        invariant
            zoom > 0,
            st == stp,
            stp == spec_ruler_step(width as int, zoom as int),
            0 < stp <= 300_000_000,
            t0 == first_tick(scroll as int, stp),
            sc == scroll,
            sc - st < t0 <= sc,
            limit == width * 1_000_000_000,
            t == t0 + r@.len() * stp,
            t0 <= t,
            sc - st < t,
            t - sc <= 0x1_0000_0000_0000_0000_0000,
            -0x1_0000_0000_0000_0000 <= limit <= 0x1_0000_0000_0000_0000,
            forall|k: int| 0 <= k < r@.len() ==> {
                let tk = #[trigger] r@[k].time;
                &&& tk == t0 + k * stp
                &&& in_view(tk as int, scroll as int, width as int, zoom as int)
                &&& r@[k].offset == px(tk - scroll, zoom as int)
                &&& r@[k].label@ == ruler_label_text(tk as int)
            },
        decreases if (t - sc) * zoom <= limit { limit - (t - sc) * zoom + 1 } else { 0 },
    {
        proof {
            let d = (t - sc) as int;
            if d > 0 {
                assert(d * zoom >= d) by (nonlinear_arith) requires d > 0, zoom >= 1;
            }
            assert(t - sc <= 0x1_0000_0000_0000_0000);
        }
        let offset = pixels(t - sc, zoom);
        let label = ruler_label(t);
        r.push(RulerTick { time: t, offset, label });
        proof {
            assert((t + st - sc) * zoom == (t - sc) * zoom + st * zoom) by (nonlinear_arith);
            assert(st * zoom >= 1) by (nonlinear_arith) requires st >= 1, zoom >= 1;
        }
        t = t + st;
    }
    r
}

/// The playhead's offset in pixels from the timeline's left edge, when the
/// playback position lies within the visible span.
pub open spec fn spec_playhead(head: int, scroll: int, width: int, zoom: int) -> Option<int> {
    let visible = head >= scroll && if zoom == 0 { width > 0 } else { in_view(head, scroll, width, zoom) };
    if visible { Some(px(head - scroll, zoom)) } else { None }
}

pub fn playhead_offset(head: i64, scroll: i64, width: i32, zoom: u64) -> (r: Option<i64>)
    ensures
        match r {
            Some(x) => spec_playhead(head as int, scroll as int, width as int, zoom as int) == Some(x as int),
            None => spec_playhead(head as int, scroll as int, width as int, zoom as int) is None,
        },
{
    if head < scroll {
        return None;
    }
    let visible = if zoom == 0 {
        width > 0
    } else {
        scaled_at_most(head as i128 - scroll as i128, zoom, (width as i128) * 1_000_000_000)
    };
    if visible {
        Some(pixels(head as i128 - scroll as i128, zoom))
    } else {
        None
    }
}

// ---------------------------------------------------------------------------
// Pointer and wheel

/// The direction the mouse wheel turned.
#[derive(Debug, Clone, Copy, PartialEq, Eq, Structural)]
pub enum WheelDirection {
    Up,
    Down,
    Left,
    Right,
    Still,
}

/// The zoom after zooming in: 15% more, at most 500 pixels per second.
pub open spec fn zoom_in(z: int) -> int {
    let v = z * 115 / 100;
    if v < 500_000 { v } else { 500_000 }
}

/// The zoom after zooming out: 15% less, at least 10 pixels per second.
pub open spec fn zoom_out(z: int) -> int {
    let v = z * 100 / 115;
    if v > 10_000 { v } else { 10_000 }
}

/// The scroll position moved back by `d`, not before 0.
pub open spec fn scrolled_back(s: int, d: int) -> int {
    let v = s - d;
    if v > 0 { v } else { 0 }
}

/// The time under the pointer `x` pixels into the ruler. With a zero zoom
/// the time is unbounded (positive or negative) except right at the edge.
pub open spec fn header_time(scroll: int, zoom: int, x: int) -> int {
    if zoom == 0 {
        if x > 0 { i64::MAX as int } else if x < 0 { i64::MIN as int } else { 0 }
    } else {
        sat_i64(scroll + trunc_div(x * 1_000_000_000, zoom))
    }
}

fn zoomed_in(z: u64) -> (r: u64)
    ensures
        r == zoom_in(z as int),
{
    if z > 500_000 {
        return 500_000;
    }
    let v = z * 115 / 100;
    if v < 500_000 { v } else { 500_000 }
}

fn zoomed_out(z: u64) -> (r: u64)
    ensures
        r == zoom_out(z as int),
{
    let v = ((z as u128) * 100 / 115) as u64;
    if v > 10_000 { v } else { 10_000 }
}

fn back(s: i64, d: i64) -> (r: i64)
    requires
        0 < d <= 10_000_000,
    ensures
        r == scrolled_back(s as int, d as int),
{
    if s <= d { 0 } else { s - d }
}

impl AppState {
    /// Reacts to the mouse wheel: up and down zoom in and out, or with Ctrl
    /// held scroll back and forward by a second; left and right scroll by ten
    /// seconds.
    pub fn handle_wheel(&mut self, dir: WheelDirection, ctrl: bool)
        ensures
            match dir {
                WheelDirection::Up => if ctrl {
                    *final(self) == (AppState { scroll_offset: scrolled_back(old(self).scroll_offset as int, 1_000_000) as i64, ..*old(self) })
                } else {
                    *final(self) == (AppState { zoom_level: zoom_in(old(self).zoom_level as int) as u64, ..*old(self) })
                },
                WheelDirection::Down => if ctrl {
                    *final(self) == (AppState { scroll_offset: sat_i64(old(self).scroll_offset + 1_000_000) as i64, ..*old(self) })
                } else {
                    *final(self) == (AppState { zoom_level: zoom_out(old(self).zoom_level as int) as u64, ..*old(self) })
                },
                WheelDirection::Left =>
                    *final(self) == (AppState { scroll_offset: scrolled_back(old(self).scroll_offset as int, 10_000_000) as i64, ..*old(self) }),
                WheelDirection::Right =>
                    *final(self) == (AppState { scroll_offset: sat_i64(old(self).scroll_offset + 10_000_000) as i64, ..*old(self) }),
                WheelDirection::Still => *final(self) == *old(self),
            },
    {
        match dir {
            WheelDirection::Up => {
                if ctrl {
                    self.scroll_offset = back(self.scroll_offset, 1_000_000);
                } else {
                    self.zoom_level = zoomed_in(self.zoom_level);
                }
            },
            WheelDirection::Down => {
                if ctrl {
                    self.scroll_offset = crate::state::sat_add(self.scroll_offset, 1_000_000);
                } else {
                    self.zoom_level = zoomed_out(self.zoom_level);
                }
            },
            WheelDirection::Left => {
                self.scroll_offset = back(self.scroll_offset, 10_000_000);
            },
            WheelDirection::Right => {
                self.scroll_offset = crate::state::sat_add(self.scroll_offset, 10_000_000);
            },
            WheelDirection::Still => {},
        }
    }

    /// Reacts to a mouse press at `(x, y)` relative to the timeline's corner
    /// (the timeline being `height` pixels tall): on the ruler it moves the
    /// playback position there; elsewhere it selects the clip under the
    /// pointer, or clears the selection.
    pub fn handle_press(&mut self, height: i32, x: i32, y: i32)
        ensures
            if 0 <= y < HEADER_H {
                *final(self) == (AppState {
                    playback_position: clamp_position(
                        header_time(old(self).scroll_offset as int, old(self).zoom_level as int, x as int),
                        old(self).project@.duration as int,
                    ) as i64,
                    ..*old(self)
                })
            } else {
                *final(self) == (AppState {
                    selected_clip_id: hit(
                        old(self).project@.tracks,
                        Layout {
                            origin_x: 0,
                            area_top: HEADER_H,
                            width: 0,
                            scroll: old(self).scroll_offset,
                            zoom: old(self).zoom_level,
                            track_h: spec_track_height(height as int, old(self).project@.tracks.len() as int) as i64,
                            selected: None,
                            hovered: None,
                        },
                        x as int,
                        y as int,
                    ),
                    ..*old(self)
                })
            },
    {
        if 0 <= y && (y as i64) < HEADER_H {
            let time: i64 = if self.zoom_level == 0 {
                if x > 0 { i64::MAX } else if x < 0 { i64::MIN } else { 0 }
            } else {
                let q = trunc_div_i128((x as i128) * 1_000_000_000, self.zoom_level as i128);
                proof {
                    let (xi, zi) = (x as int, self.zoom_level as int);
                    let n = xi * 1_000_000_000;
                    assert(-0x1_0000_0000_0000_0000 <= n <= 0x1_0000_0000_0000_0000);
                    if n >= 0 {
                        assert(0 <= n / zi <= n) by (nonlinear_arith) requires n >= 0, zi >= 1;
                    } else {
                        assert(0 <= (-n) / zi <= -n) by (nonlinear_arith) requires n < 0, zi >= 1;
                    }
                }
                let v: i128 = self.scroll_offset as i128 + q;
                if v > i64::MAX as i128 { i64::MAX } else if v < i64::MIN as i128 { i64::MIN } else { v as i64 }
            };
            self.set_playback_position(time);
        } else {
            let l = pointer_layout(self, height);
            let hit_id = clip_at(&self.project, &l, x as i64, y as i64);
            self.selected_clip_id = hit_id;
        }
    }

    /// The clip under the pointer at `(x, y)` relative to the timeline's
    /// corner, for hover highlighting.
    pub fn hovered_clip(&self, height: i32, x: i32, y: i32) -> (r: Option<u64>)
        ensures
            r == hit(
                self.project@.tracks,
                Layout {
                    origin_x: 0,
                    area_top: HEADER_H,
                    width: 0,
                    scroll: self.scroll_offset,
                    zoom: self.zoom_level,
                    track_h: spec_track_height(height as int, self.project@.tracks.len() as int) as i64,
                    selected: None,
                    hovered: None,
                },
                x as int,
                y as int,
            ),
    {
        let l = pointer_layout(self, height);
        clip_at(&self.project, &l, x as i64, y as i64)
    }
}

/// Zooming in and out keeps the zoom between 10 and 500 pixels per second:
/// zooming in multiplies it by 1.15 (rounded down) up to 500 px/s, zooming
/// out divides it by 1.15 (rounded down) down to 10 px/s.
pub proof fn lemma_zoom_within_bounds(z: int)
    requires
        10_000 <= z <= 500_000,
    ensures
        10_000 <= zoom_in(z) <= 500_000,
        10_000 <= zoom_out(z) <= 500_000,
        zoom_in(z) == 500_000 || 100 * zoom_in(z) <= 115 * z < 100 * (zoom_in(z) + 1),
        zoom_in(z) < 500_000 ==> 100 * zoom_in(z) <= 115 * z,
        115 * z >= 100 * 500_000 ==> zoom_in(z) == 500_000,
        zoom_out(z) == 10_000 || 115 * zoom_out(z) <= 100 * z < 115 * (zoom_out(z) + 1),
        100 * z <= 115 * 10_000 ==> zoom_out(z) == 10_000,
{
    let a = z * 115 / 100;
    vstd::arithmetic::div_mod::lemma_fundamental_div_mod(z * 115, 100);
    let b = z * 100 / 115;
    vstd::arithmetic::div_mod::lemma_fundamental_div_mod(z * 100, 115);
    assert(z * 115 / 100 >= z) by (nonlinear_arith) requires z >= 0;
    assert(z * 100 / 115 <= z) by (nonlinear_arith) requires z >= 0;
}

/// Scrolling back never takes the timeline before time 0.
pub proof fn lemma_scroll_back_nonneg(s: int, d: int)
    ensures
        scrolled_back(s, d) >= 0,
{
}

/// Where a clip's rectangle goes: in the row of its track, starting 3 pixels
/// below the row's top (`area_top + index * track_h`) and 6 pixels shorter
/// than the row, at least 4 pixels wide. Rows of different tracks do not
/// overlap.
pub proof fn lemma_clip_rect_rows(c: ClipView, d: ClipView, i: usize, j: usize, l: Layout)
    requires
        layout_in_range(l),
        i <= 0x4000_0000,
        j <= 0x4000_0000,
    ensures
        clip_rect(c, i, l).y == l.area_top + i * l.track_h + 3,
        clip_rect(c, i, l).h == l.track_h - 6,
        clip_rect(c, i, l).w >= 4,
        clip_rect(c, i, l).clip_id == c.id,
        i < j && l.track_h >= 6 ==> clip_rect(c, i, l).y + clip_rect(c, i, l).h < clip_rect(d, j, l).y,
{
    let th = l.track_h as int;
    assert(-0x4000_0000_0000_0000 <= i * th <= 0x4000_0000_0000_0000) by (nonlinear_arith)
        requires 0 <= i <= 0x4000_0000, -0x1_0000_0000 <= th <= 0x1_0000_0000;
    assert(-0x4000_0000_0000_0000 <= j * th <= 0x4000_0000_0000_0000) by (nonlinear_arith)
        requires 0 <= j <= 0x4000_0000, -0x1_0000_0000 <= th <= 0x1_0000_0000;
    if i < j && th >= 6 {
        assert(i * th + th <= j * th) by (nonlinear_arith) requires i + 1 <= j, th >= 0;
    }
}

proof fn lemma_hit_in_track_finds(cs: Seq<ClipView>, ti: usize, l: Layout, x: int, y: int, k: int)
    requires
        0 <= k < cs.len(),
        contains(clip_rect(cs[k], ti, l), x, y),
    ensures
        hit_in_track(cs, ti, l, x, y) is Some,
    decreases cs.len(),
{
    if k < cs.len() - 1 {
        assert(cs.drop_last()[k] == cs[k]);
        lemma_hit_in_track_finds(cs.drop_last(), ti, l, x, y, k);
    }
}

proof fn lemma_hit_in_track_sound(cs: Seq<ClipView>, ti: usize, l: Layout, x: int, y: int) -> (k: int)
    requires
        hit_in_track(cs, ti, l, x, y) is Some,
    ensures
        0 <= k < cs.len(),
        cs[k].id == hit_in_track(cs, ti, l, x, y)->0,
        contains(clip_rect(cs[k], ti, l), x, y),
    decreases cs.len(),
{
    let d = cs.drop_last();
    if hit_in_track(d, ti, l, x, y) is Some {
        let k = lemma_hit_in_track_sound(d, ti, l, x, y);
        assert(d[k] == cs[k]);
        k
    } else {
        cs.len() - 1
    }
}

/// The clip under the pointer: whenever the point lies in the rectangle of a
/// clip of a visible track, some clip is hit; and the clip hit is one of a
/// visible track whose rectangle holds the point.
pub proof fn lemma_hit_exact(ts: Seq<TrackView>, l: Layout, x: int, y: int)
    ensures
        (exists|t: int, k: int| 0 <= t < ts.len() && 0 <= k < ts[t].clips.len() && ts[t].visible
            && #[trigger] contains(clip_rect(ts[t].clips[k], ts[t].index, l), x, y))
            ==> hit(ts, l, x, y) is Some,
        hit(ts, l, x, y) matches Some(id) ==> exists|t: int, k: int| 0 <= t < ts.len() && 0 <= k < ts[t].clips.len()
            && ts[t].visible && ts[t].clips[k].id == id
            && #[trigger] contains(clip_rect(ts[t].clips[k], ts[t].index, l), x, y),
    decreases ts.len(),
{
    if ts.len() > 0 {
        let d = ts.drop_last();
        lemma_hit_exact(d, l, x, y);
        let last = ts.len() - 1;
        if exists|t: int, k: int| 0 <= t < ts.len() && 0 <= k < ts[t].clips.len() && ts[t].visible
            && #[trigger] contains(clip_rect(ts[t].clips[k], ts[t].index, l), x, y) {
            let (t, k) = choose|t: int, k: int| 0 <= t < ts.len() && 0 <= k < ts[t].clips.len() && ts[t].visible
                && #[trigger] contains(clip_rect(ts[t].clips[k], ts[t].index, l), x, y);
            if t < last {
                assert(d[t] == ts[t]);
                assert(contains(clip_rect(d[t].clips[k], d[t].index, l), x, y));
            } else if hit(d, l, x, y) is None {
                lemma_hit_in_track_finds(ts[t].clips, ts[t].index, l, x, y, k);
            }
        }
        if hit(ts, l, x, y) is Some {
            if hit(d, l, x, y) is Some {
                let (t, k) = choose|t: int, k: int| 0 <= t < d.len() && 0 <= k < d[t].clips.len()
                    && d[t].visible && d[t].clips[k].id == hit(d, l, x, y)->0
                    && #[trigger] contains(clip_rect(d[t].clips[k], d[t].index, l), x, y);
                assert(d[t] == ts[t]);
                assert(contains(clip_rect(ts[t].clips[k], ts[t].index, l), x, y));
            } else {
                let k = lemma_hit_in_track_sound(ts[last].clips, ts[last].index, l, x, y);
                assert(contains(clip_rect(ts[last].clips[k], ts[last].index, l), x, y));
            }
        }
    }
}

/// The time under the pointer `x` pixels into the ruler: the scroll position
/// at the edge, and in general the scroll position plus the whole
/// microseconds that `x` pixels span at this zoom, counted towards the edge:
/// `(t - scroll) * zoom` does not pass `x * 10^9`, and one microsecond more
/// would.
pub proof fn lemma_header_time(scroll: int, zoom: int, x: int)
    requires
        zoom > 0,
        -0x4000_0000_0000_0000 <= scroll <= 0x4000_0000_0000_0000,
        -0x8000_0000 <= x <= 0x8000_0000,
    ensures
        header_time(scroll, zoom, 0) == scroll,
        ({
            let d = header_time(scroll, zoom, x) - scroll;
            &&& x >= 0 ==> 0 <= d && d * zoom <= x * 1_000_000_000 < (d + 1) * zoom
            &&& x < 0 ==> d <= 0 && (d - 1) * zoom < x * 1_000_000_000 <= d * zoom
        }),
{
    let n = x * 1_000_000_000;
    assert(0 * 1_000_000_000 == 0);
    if n >= 0 {
        let q = n / zoom;
        vstd::arithmetic::div_mod::lemma_fundamental_div_mod(n, zoom);
        assert(0 <= q <= n) by (nonlinear_arith) requires q == n / zoom, zoom >= 1, n >= 0;
        assert(q * zoom <= n < (q + 1) * zoom) by (nonlinear_arith)
            requires n == zoom * q + n % zoom, 0 <= n % zoom < zoom;
        assert(n <= 0x8000_0000 * 1_000_000_000);
    } else {
        let m = -n;
        let q = m / zoom;
        vstd::arithmetic::div_mod::lemma_fundamental_div_mod(m, zoom);
        assert(0 <= q <= m) by (nonlinear_arith) requires q == m / zoom, zoom >= 1, m >= 0;
        assert(q * zoom <= m < (q + 1) * zoom) by (nonlinear_arith)
            requires m == zoom * q + m % zoom, 0 <= m % zoom < zoom;
        assert((-q - 1) * zoom < n <= (-q) * zoom) by (nonlinear_arith)
            requires q * zoom <= m < (q + 1) * zoom, n == -m;
        assert(m <= 0x8000_0000 * 1_000_000_000);
    }
}

proof fn lemma_trunc_bounds(n: int, d: int)
    requires
        d > 0,
    ensures
        n >= 0 ==> 0 <= trunc_div(n, d) && trunc_div(n, d) * d <= n < (trunc_div(n, d) + 1) * d,
        n < 0 ==> trunc_div(n, d) <= 0 && (trunc_div(n, d) - 1) * d < n <= trunc_div(n, d) * d,
        n >= 0 ==> trunc_div(n, d) <= n,
        n < 0 ==> trunc_div(n, d) >= n,
{
    let m = if n >= 0 { n } else { -n };
    let q = m / d;
    vstd::arithmetic::div_mod::lemma_fundamental_div_mod(m, d);
    assert(0 <= q <= m) by (nonlinear_arith) requires q == m / d, d >= 1, m >= 0;
    assert(q * d <= m < (q + 1) * d) by (nonlinear_arith)
        requires m == d * q + m % d, 0 <= m % d < d;
    if n < 0 {
        assert((-q - 1) * d < n <= (-q) * d) by (nonlinear_arith)
            requires q * d <= m < (q + 1) * d, n == -m;
    }
}

/// Horizontally, a clip's rectangle starts where its start time falls: its
/// left edge lies the whole pixels between the scroll position and the start
/// (counted towards the scroll position) from the timeline's edge; and it is
/// as wide as the whole pixels of its length, but at least 4 pixels.
pub proof fn lemma_clip_rect_columns(c: ClipView, i: usize, l: Layout)
    requires
        layout_in_range(l),
        l.zoom <= 0x10_0000,
        -0x100_0000_0000 <= c.start_time - l.scroll <= 0x100_0000_0000,
        0 <= c.duration <= 0x100_0000_0000,
    ensures
        ({
            let r = clip_rect(c, i, l);
            let dt = c.start_time - l.scroll;
            let p = r.x - l.origin_x;
            &&& dt >= 0 ==> 0 <= p && p * 1_000_000_000 <= dt * l.zoom < (p + 1) * 1_000_000_000
            &&& dt < 0 ==> p <= 0 && (p - 1) * 1_000_000_000 < dt * l.zoom <= p * 1_000_000_000
            &&& r.w >= 4
            &&& r.w > 4 ==> r.w * 1_000_000_000 <= c.duration * l.zoom < (r.w + 1) * 1_000_000_000
            &&& r.w == 4 ==> c.duration * l.zoom < 5 * 1_000_000_000
        }),
{
    let dt = c.start_time - l.scroll;
    let z = l.zoom as int;
    assert(-0x100_0000_0000 * 0x10_0000 <= dt * z <= 0x100_0000_0000 * 0x10_0000) by (nonlinear_arith)
        requires -0x100_0000_0000 <= dt <= 0x100_0000_0000, 0 <= z <= 0x10_0000;
    assert(0 <= c.duration * z <= 0x100_0000_0000 * 0x10_0000) by (nonlinear_arith)
        requires 0 <= c.duration <= 0x100_0000_0000, 0 <= z <= 0x10_0000;
    lemma_trunc_bounds(dt * z, 1_000_000_000);
    lemma_trunc_bounds(c.duration * z, 1_000_000_000);
    assert(dt < 0 ==> dt * z <= 0) by (nonlinear_arith) requires z >= 0;
    assert(dt >= 0 ==> dt * z >= 0) by (nonlinear_arith) requires z >= 0;
    let q = trunc_div(dt * z, 1_000_000_000);
    let wq = trunc_div(c.duration * z, 1_000_000_000);
    if dt * z >= 0 {
        assert(0 <= q <= 0x7fff_ffff);
    } else {
        assert(-0x7fff_ffff <= q <= 0);
    }
    assert(0 <= wq <= 0x7fff_ffff);
    assert(px(dt, z) == q);
    assert(px(c.duration as int, z) == wq);
    let r = clip_rect(c, i, l);
    assert(r.x == l.origin_x + q);
    assert(r.w == (if wq > 4 { wq } else { 4 }));
    if wq <= 4 {
        assert(c.duration * z < (wq + 1) * 1_000_000_000);
    }
    if wq <= 4 {
        assert(c.duration * z < 5 * 1_000_000_000) by (nonlinear_arith)
            requires c.duration * z < (wq + 1) * 1_000_000_000, wq <= 4;
    }
}

/// The ruler step is one of 0.5, 1, 2, 5, 10, 15, 30, 60, 120 and 300
/// seconds: the smallest of them that leaves at most 20 intervals in view, or
/// 60 seconds when none does.
pub proof fn lemma_ruler_step_smallest(width: int, zoom: int)
    ensures
        ({
            let steps = seq![500_000int, 1_000_000, 2_000_000, 5_000_000, 10_000_000, 15_000_000,
                30_000_000, 60_000_000, 120_000_000, 300_000_000];
            let r = spec_ruler_step(width, zoom);
            &&& steps.contains(r)
            &&& (exists|i: int| 0 <= i < steps.len() && step_fits(#[trigger] steps[i], width, zoom)) ==> {
                &&& step_fits(r, width, zoom)
                &&& forall|i: int| 0 <= i < steps.len() && #[trigger] steps[i] < r ==> !step_fits(steps[i], width, zoom)
            }
            &&& !(exists|i: int| 0 <= i < steps.len() && step_fits(#[trigger] steps[i], width, zoom)) ==> r == 60_000_000
        }),
{
    let steps = seq![500_000int, 1_000_000, 2_000_000, 5_000_000, 10_000_000, 15_000_000,
        30_000_000, 60_000_000, 120_000_000, 300_000_000];
    let r = spec_ruler_step(width, zoom);
    assert(steps[7] == 60_000_000);
    assert forall|i: int| 0 <= i < steps.len() implies steps[i] == r || steps[i] != r by {}
    if r == 500_000 { assert(steps[0] == r); }
    else if r == 1_000_000 { assert(steps[1] == r); }
    else if r == 2_000_000 { assert(steps[2] == r); }
    else if r == 5_000_000 { assert(steps[3] == r); }
    else if r == 10_000_000 { assert(steps[4] == r); }
    else if r == 15_000_000 { assert(steps[5] == r); }
    else if r == 30_000_000 { assert(steps[6] == r); }
    else if r == 60_000_000 { assert(steps[7] == r); }
    else if r == 120_000_000 { assert(steps[8] == r); }
    else { assert(steps[9] == r); }
    if exists|i: int| 0 <= i < steps.len() && step_fits(#[trigger] steps[i], width, zoom) {
        let i = choose|i: int| 0 <= i < steps.len() && step_fits(#[trigger] steps[i], width, zoom);
        assert(step_fits(steps[i], width, zoom));
    } else {
        assert(!step_fits(steps[0], width, zoom));
        assert(!step_fits(steps[1], width, zoom));
        assert(!step_fits(steps[2], width, zoom));
        assert(!step_fits(steps[3], width, zoom));
        assert(!step_fits(steps[4], width, zoom));
        assert(!step_fits(steps[5], width, zoom));
        assert(!step_fits(steps[6], width, zoom));
        assert(!step_fits(steps[7], width, zoom));
        assert(!step_fits(steps[8], width, zoom));
        assert(!step_fits(steps[9], width, zoom));
    }
}

} // verus!
