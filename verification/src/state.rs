//! The project being edited (tracks holding clips) and the application state
//! around it.
use vstd::prelude::*;
use crate::media::{FrameRate, MediaType, PlaybackState};

verus! {

broadcast use vstd::string::group_string_axioms;

/// The abstract value of a clip: text fields as character sequences.
pub struct ClipView {
    pub file_path: Option<Seq<char>>,
    pub label: Seq<char>,
    pub start_time: i64,
    pub duration: i64,
    pub in_point: i64,
    pub out_point: i64,
    pub media_type: MediaType,
    pub track_idx: usize,
    pub id: u64,
}

/// The abstract value of a track.
pub struct TrackView {
    pub name: Seq<char>,
    pub index: usize,
    pub clips: Seq<ClipView>,
    pub visible: bool,
    pub locked: bool,
}

/// The abstract value of a project.
pub struct ProjectView {
    pub name: Seq<char>,
    pub version: Seq<char>,
    pub tracks: Seq<TrackView>,
    pub duration: i64,
    pub settings: ProjectSettings,
    pub script_text: Seq<char>,
    pub next_clip_id: u64,
}

/// One clip on the timeline. Times are microseconds.
#[derive(Debug)]
pub struct ClipData {
    /// The media file the clip shows, if it comes from one.
    pub file_path: Option<String>,
    /// The label drawn on the clip.
    pub label: String,
    /// Where the clip starts on the timeline.
    pub start_time: i64,
    /// How long the clip lasts.
    pub duration: i64,
    /// The in point in the source media.
    pub in_point: i64,
    /// The out point in the source media.
    pub out_point: i64,
    pub media_type: MediaType,
    /// The index of the track the clip belongs to.
    pub track_idx: usize,
    /// The clip's identifier, unique within a project.
    pub id: u64,
}

pub open spec fn opt_view(o: Option<String>) -> Option<Seq<char>> {
    match o {
        Some(s) => Some(s@),
        None => None,
    }
}

impl View for ClipData {
    type V = ClipView;

    open spec fn view(&self) -> ClipView {
        ClipView {
            file_path: opt_view(self.file_path),
            label: self.label@,
            start_time: self.start_time,
            duration: self.duration,
            in_point: self.in_point,
            out_point: self.out_point,
            media_type: self.media_type,
            track_idx: self.track_idx,
            id: self.id,
        }
    }
}

impl Clone for ClipData {
    fn clone(&self) -> (r: Self)
        ensures
            r == *self,
    {
        let file_path = match &self.file_path {
            Some(p) => Some(p.clone()),
            None => None,
        };
        ClipData {
            file_path,
            label: self.label.clone(),
            start_time: self.start_time,
            duration: self.duration,
            in_point: self.in_point,
            out_point: self.out_point,
            media_type: self.media_type,
            track_idx: self.track_idx,
            id: self.id,
        }
    }
}

/// One track of the timeline.
#[derive(Debug)]
pub struct Track {
    pub name: String,
    pub index: usize,
    pub clips: Vec<ClipData>,
    pub visible: bool,
    pub locked: bool,
}

pub open spec fn clip_views(cs: Seq<ClipData>) -> Seq<ClipView> {
    cs.map_values(|c: ClipData| c@)
}

impl View for Track {
    type V = TrackView;

    open spec fn view(&self) -> TrackView {
        TrackView {
            name: self.name@,
            index: self.index,
            clips: clip_views(self.clips@),
            visible: self.visible,
            locked: self.locked,
        }
    }
}

pub open spec fn new_track_view(name: Seq<char>, index: usize) -> TrackView {
    TrackView { name, index, clips: Seq::empty(), visible: true, locked: false }
}

impl Track {
    pub fn new(name: &str, index: usize) -> (t: Track)
        ensures
            t@ == new_track_view(name@, index),
    {
        let t = Track {
            name: String::from_str(name),
            index,
            clips: Vec::new(),
            visible: true,
            locked: false,
        };
        assert(t@.clips =~= Seq::<ClipView>::empty());
        t
    }
}

/// Output settings of a project.
#[derive(Debug, Clone, Copy, PartialEq, Eq, Structural)]
pub struct ProjectSettings {
    pub width: u32,
    pub height: u32,
    pub fps: FrameRate,
    pub sample_rate: u32,
}

/// The whole project: its tracks and settings.
#[derive(Debug)]
pub struct Project {
    pub name: String,
    pub version: String,
    pub tracks: Vec<Track>,
    /// The end of the last clip (microseconds), recomputed by every operation
    /// that adds, removes, moves or edits clips or removes tracks.
    pub duration: i64,
    pub settings: ProjectSettings,
    /// The script text typed alongside the timeline.
    pub script_text: String,
    next_clip_id: u64,
}

pub open spec fn track_views(ts: Seq<Track>) -> Seq<TrackView> {
    ts.map_values(|t: Track| t@)
}

impl View for Project {
    type V = ProjectView;

    closed spec fn view(&self) -> ProjectView {
        ProjectView {
            name: self.name@,
            version: self.version@,
            tracks: track_views(self.tracks@),
            duration: self.duration,
            settings: self.settings,
            script_text: self.script_text@,
            next_clip_id: self.next_clip_id,
        }
    }
}

// ---------------------------------------------------------------------------
// The abstract project and its operations

/// All clips in track order, then clip order within a track.
pub open spec fn flatten(ts: Seq<TrackView>) -> Seq<ClipView>
    decreases ts.len(),
{
    if ts.len() == 0 { Seq::empty() } else { flatten(ts.drop_last()) + ts.last().clips }
}

/// `v` clamped to the `i64` range.
pub open spec fn sat_i64(v: int) -> int {
    if v > i64::MAX { i64::MAX as int } else if v < i64::MIN { i64::MIN as int } else { v }
}

/// Where a clip ends on the timeline (saturated to the `i64` range).
pub open spec fn clip_end(c: ClipView) -> int {
    sat_i64(c.start_time + c.duration)
}

/// The largest clip end, and at least 0.
pub open spec fn max_end(cs: Seq<ClipView>) -> int
    decreases cs.len(),
{
    if cs.len() == 0 {
        0
    } else {
        let m = max_end(cs.drop_last());
        let e = clip_end(cs.last());
        if e > m { e } else { m }
    }
}

/// The duration of a project with these tracks.
pub open spec fn tracks_duration(ts: Seq<TrackView>) -> int {
    max_end(flatten(ts))
}

pub open spec fn default_settings() -> ProjectSettings {
    ProjectSettings { width: 1280, height: 720, fps: FrameRate { num: 30, den: 1 }, sample_rate: 44100 }
}

/// A new project: one empty track, default settings, no clips.
pub open spec fn fresh_project(name: Seq<char>) -> ProjectView {
    ProjectView {
        name,
        version: "0.1.0"@,
        tracks: seq![new_track_view("トラック 1"@, 0)],
        duration: 0,
        settings: default_settings(),
        script_text: Seq::empty(),
        next_clip_id: 0,
    }
}

pub open spec fn new_clip_view(
    file_path: Option<Seq<char>>,
    label: Seq<char>,
    start_time: i64,
    duration: i64,
    media_type: MediaType,
    track_idx: usize,
    id: u64,
) -> ClipView {
    ClipView { file_path, label, start_time, duration, in_point: 0, out_point: duration, media_type, track_idx, id }
}

/// The tracks with `c` appended to track `ti` (unchanged when there is no such track).
pub open spec fn tracks_push_clip(ts: Seq<TrackView>, ti: int, c: ClipView) -> Seq<TrackView> {
    if 0 <= ti < ts.len() {
        ts.update(ti, TrackView { clips: ts[ti].clips.push(c), ..ts[ti] })
    } else {
        ts
    }
}

/// The tracks with clip `k` of track `t` removed.
pub open spec fn tracks_remove_clip(ts: Seq<TrackView>, t: int, k: int) -> Seq<TrackView> {
    ts.update(t, TrackView { clips: ts[t].clips.remove(k), ..ts[t] })
}

/// The tracks with clip `k` of track `t` replaced by `c`.
pub open spec fn tracks_set_clip(ts: Seq<TrackView>, t: int, k: int, c: ClipView) -> Seq<TrackView> {
    ts.update(t, TrackView { clips: ts[t].clips.update(k, c), ..ts[t] })
}

/// The larger of two values.
pub open spec fn max_i(a: int, b: int) -> int {
    if a >= b { a } else { b }
}

/// A clip after the edits made in the properties panel, applied in order:
/// a new start; a new length (at least 10 ms, moving the out point); a new
/// in point (at least 0, keeping the out point); a new out point (not
/// before the in point, keeping the in point).
pub open spec fn edited_clip_view(
    c: ClipView,
    start: Option<i64>,
    duration: Option<i64>,
    in_point: Option<i64>,
    out_point: Option<i64>,
) -> ClipView {
    let c1 = match start {
        Some(v) => ClipView { start_time: v, ..c },
        None => c,
    };
    let c2 = match duration {
        Some(v) => {
            let d = max_i(v as int, 10_000);
            ClipView { duration: d as i64, out_point: sat_i64(c1.in_point + d) as i64, ..c1 }
        },
        None => c1,
    };
    let c3 = match in_point {
        Some(v) => {
            let i = max_i(v as int, 0);
            ClipView { in_point: i as i64, duration: sat_i64(c2.out_point - i) as i64, ..c2 }
        },
        None => c2,
    };
    match out_point {
        Some(v) => {
            let o = max_i(v as int, c3.in_point as int);
            ClipView { out_point: o as i64, duration: sat_i64(o - c3.in_point) as i64, ..c3 }
        },
        None => c3,
    }
}

/// The position of the first clip with this id.
pub open spec fn clip_index(cs: Seq<ClipView>, id: u64) -> Option<int>
    decreases cs.len(),
{
    if cs.len() == 0 {
        None
    } else {
        match clip_index(cs.drop_last(), id) {
            Some(k) => Some(k),
            None => if cs.last().id == id { Some((cs.len() - 1) as int) } else { None },
        }
    }
}

/// The track and position of the first clip with this id, searching the
/// tracks in order.
pub open spec fn clip_location(ts: Seq<TrackView>, id: u64) -> Option<(int, int)>
    decreases ts.len(),
{
    if ts.len() == 0 {
        None
    } else {
        match clip_location(ts.drop_last(), id) {
            Some(l) => Some(l),
            None => match clip_index(ts.last().clips, id) {
                Some(k) => Some(((ts.len() - 1) as int, k)),
                None => None,
            },
        }
    }
}

/// The tracks whose index differs from `index`, in order.
pub open spec fn kept_tracks(ts: Seq<TrackView>, index: usize) -> Seq<TrackView>
    decreases ts.len(),
{
    if ts.len() == 0 {
        Seq::empty()
    } else {
        let r = kept_tracks(ts.drop_last(), index);
        if ts.last().index != index { r.push(ts.last()) } else { r }
    }
}

/// The tracks with each index set to the track's position.
pub open spec fn renumbered(ts: Seq<TrackView>) -> Seq<TrackView> {
    Seq::new(ts.len(), |i: int| TrackView { index: i as usize, ..ts[i] })
}

/// Clip `a` of `f` comes before clip `b` when ordered by start time, ties
/// kept in their original order.
pub open spec fn start_before(f: Seq<ClipView>, a: int, b: int) -> bool {
    f[a].start_time < f[b].start_time || (f[a].start_time == f[b].start_time && a < b)
}

/// `perm` lists the positions of `f` sorted by start time, stably.
pub open spec fn is_stable_order(f: Seq<ClipView>, perm: Seq<int>) -> bool {
    &&& perm.len() == f.len()
    &&& forall|k: int| 0 <= k < perm.len() ==> 0 <= #[trigger] perm[k] < f.len()
    &&& forall|a: int, b: int| 0 <= a < b < perm.len() ==> start_before(f, #[trigger] perm[a], #[trigger] perm[b])
}

/// `out` holds the clips of `f` sorted by start time, clips with equal
/// start times in their original order.
pub open spec fn sorted_by_start(f: Seq<ClipView>, out: Seq<ClipView>) -> bool {
    exists|perm: Seq<int>| is_stable_order(f, perm) && out.len() == f.len()
        && forall|k: int| 0 <= k < out.len() ==> #[trigger] out[k] == f[perm[k]]
}

pub open spec fn ref_views(rs: Seq<&ClipData>) -> Seq<ClipView> {
    rs.map_values(|c: &ClipData| c@)
}

pub open spec fn opt_clip_view(o: Option<ClipData>) -> Option<ClipView> {
    match o {
        Some(c) => Some(c@),
        None => None,
    }
}

impl ProjectView {
    /// Every track's index is its position.
    pub open spec fn tracks_indexed(self) -> bool {
        forall|i: int| 0 <= i < self.tracks.len() ==> (#[trigger] self.tracks[i]).index == i
    }

    /// Every clip id is below the next id to hand out, and no two clips share one.
    pub open spec fn ids_ok(self) -> bool {
        &&& forall|t: int, k: int|
            0 <= t < self.tracks.len() && 0 <= k < self.tracks[t].clips.len()
                ==> (#[trigger] self.tracks[t].clips[k]).id < self.next_clip_id
        &&& forall|t: int, k: int, t2: int, k2: int|
            0 <= t < self.tracks.len() && 0 <= k < self.tracks[t].clips.len()
                && 0 <= t2 < self.tracks.len() && 0 <= k2 < self.tracks[t2].clips.len()
                && (t != t2 || k != k2)
                ==> (#[trigger] self.tracks[t].clips[k]).id != (#[trigger] self.tracks[t2].clips[k2]).id
    }

    /// The stored duration is the end of the last clip.
    pub open spec fn duration_synced(self) -> bool {
        self.duration == tracks_duration(self.tracks)
    }

    /// The invariant that every editing operation keeps.
    pub open spec fn wf(self) -> bool {
        self.tracks_indexed() && self.ids_ok()
    }

    pub open spec fn with_track(self, name: Seq<char>) -> ProjectView {
        ProjectView { tracks: self.tracks.push(new_track_view(name, self.tracks.len() as usize)), ..self }
    }

    pub open spec fn synced(self) -> ProjectView {
        ProjectView { duration: tracks_duration(self.tracks) as i64, ..self }
    }

    /// The project after adding a clip: it gets the next id, goes to the end
    /// of track `ti` (and is dropped when there is no such track), and the
    /// duration is recomputed.
    pub open spec fn with_clip(
        self,
        file_path: Option<Seq<char>>,
        label: Seq<char>,
        start_time: i64,
        duration: i64,
        media_type: MediaType,
        ti: usize,
    ) -> ProjectView {
        let c = new_clip_view(file_path, label, start_time, duration, media_type, ti, self.next_clip_id);
        let ts = tracks_push_clip(self.tracks, ti as int, c);
        ProjectView {
            tracks: ts,
            duration: tracks_duration(ts) as i64,
            next_clip_id: (self.next_clip_id + 1) as u64,
            ..self
        }
    }

    /// The project without the tracks whose index is `index`, the rest
    /// renumbered by position, and the duration recomputed.
    pub open spec fn without_track(self, index: usize) -> ProjectView {
        ProjectView { tracks: renumbered(kept_tracks(self.tracks, index)), ..self }.synced()
    }

    /// The first clip with this id.
    pub open spec fn find(self, id: u64) -> Option<ClipView> {
        match clip_location(self.tracks, id) {
            Some((t, k)) => Some(self.tracks[t].clips[k]),
            None => None,
        }
    }

    /// The project without the first clip with this id (and with its duration
    /// recomputed); unchanged when there is no such clip.
    pub open spec fn without_clip(self, id: u64) -> ProjectView {
        match clip_location(self.tracks, id) {
            Some((t, k)) => {
                let ts = tracks_remove_clip(self.tracks, t, k);
                ProjectView { tracks: ts, duration: tracks_duration(ts) as i64, ..self }
            },
            None => self,
        }
    }

    /// The project after editing the first clip with this id (duration
    /// recomputed), and whether there was such a clip.
    pub open spec fn with_edit(
        self,
        id: u64,
        start: Option<i64>,
        duration: Option<i64>,
        in_point: Option<i64>,
        out_point: Option<i64>,
    ) -> (ProjectView, bool) {
        match clip_location(self.tracks, id) {
            Some((t, k)) => {
                let c = edited_clip_view(self.tracks[t].clips[k], start, duration, in_point, out_point);
                (ProjectView { tracks: tracks_set_clip(self.tracks, t, k, c), ..self }.synced(), true)
            },
            None => (self, false),
        }
    }

    /// The project after moving the first clip with this id to the end of
    /// track `ti`, and whether it was moved. When there is such a clip and
    /// such a track, the clip leaves its place, goes to the end of track `ti`
    /// with `ti` as its track index, and the duration is recomputed;
    /// otherwise nothing changes.
    pub open spec fn moved(self, id: u64, ti: usize) -> (ProjectView, bool) {
        match self.find(id) {
            Some(c) => if ti < self.tracks.len() {
                let mid = self.without_clip(id);
                (ProjectView {
                    tracks: tracks_push_clip(mid.tracks, ti as int, ClipView { track_idx: ti, ..c }),
                    ..mid
                }.synced(), true)
            } else {
                (self, false)
            },
            None => (self, false),
        }
    }
}

/// `a + b`, saturated to the `i64` range.
pub fn sat_add(a: i64, b: i64) -> (r: i64)
    ensures
        r == sat_i64(a + b),
{
    let v: i128 = a as i128 + b as i128;
    if v > i64::MAX as i128 { i64::MAX } else if v < i64::MIN as i128 { i64::MIN } else { v as i64 }
}

/// `a - b`, saturated to the `i64` range.
pub fn sat_sub(a: i64, b: i64) -> (r: i64)
    ensures
        r == sat_i64(a - b),
{
    let v: i128 = a as i128 - b as i128;
    if v > i64::MAX as i128 { i64::MAX } else if v < i64::MIN as i128 { i64::MIN } else { v as i64 }
}

proof fn lemma_clip_index_extend(cs: Seq<ClipView>, j: int, id: u64)
    requires
        0 <= j <= cs.len(),
        clip_index(cs.take(j), id) is Some,
    ensures
        clip_index(cs, id) == clip_index(cs.take(j), id),
    decreases cs.len(),
{
    if j == cs.len() {
        assert(cs.take(j) =~= cs);
    } else {
        assert(cs.drop_last().take(j) =~= cs.take(j));
        lemma_clip_index_extend(cs.drop_last(), j, id);
    }
}

proof fn lemma_clip_location_extend(ts: Seq<TrackView>, j: int, id: u64)
    requires
        0 <= j <= ts.len(),
        clip_location(ts.take(j), id) is Some,
    ensures
        clip_location(ts, id) == clip_location(ts.take(j), id),
    decreases ts.len(),
{
    if j == ts.len() {
        assert(ts.take(j) =~= ts);
    } else {
        assert(ts.drop_last().take(j) =~= ts.take(j));
        lemma_clip_location_extend(ts.drop_last(), j, id);
    }
}

proof fn lemma_clip_index_bounds(cs: Seq<ClipView>, id: u64)
    ensures
        clip_index(cs, id) matches Some(k) ==> 0 <= k < cs.len() && cs[k].id == id
            && forall|j: int| 0 <= j < k ==> cs[j].id != id,
        clip_index(cs, id) is None ==> forall|j: int| 0 <= j < cs.len() ==> cs[j].id != id,
    decreases cs.len(),
{
    if cs.len() > 0 {
        lemma_clip_index_bounds(cs.drop_last(), id);
        assert forall|j: int| 0 <= j < cs.len() - 1 implies cs[j] == cs.drop_last()[j] by {}
    }
}

proof fn lemma_clip_location_bounds(ts: Seq<TrackView>, id: u64)
    ensures
        clip_location(ts, id) matches Some((t, k)) ==> 0 <= t < ts.len() && 0 <= k < ts[t].clips.len()
            && ts[t].clips[k].id == id && clip_index(ts[t].clips, id) == Some(k),
        clip_location(ts, id) is None ==> forall|t: int, k: int|
            0 <= t < ts.len() && 0 <= k < ts[t].clips.len() ==> ts[t].clips[k].id != id,
    decreases ts.len(),
{
    if ts.len() > 0 {
        lemma_clip_location_bounds(ts.drop_last(), id);
        lemma_clip_index_bounds(ts.last().clips, id);
        assert forall|t: int| 0 <= t < ts.len() - 1 implies ts[t] == ts.drop_last()[t] by {}
    }
}

impl Project {
    /// `self` is `before` with clip `k` of track `t` replaced by `c`.
    pub closed spec fn edited_clip(self, before: Project, t: int, k: int, c: ClipData) -> bool {
        &&& self.name == before.name
        &&& self.version == before.version
        &&& self.duration == before.duration
        &&& self.settings == before.settings
        &&& self.script_text == before.script_text
        &&& self.next_clip_id == before.next_clip_id
        &&& self.tracks@.len() == before.tracks@.len()
        &&& 0 <= t < before.tracks@.len()
        &&& 0 <= k < before.tracks@[t].clips@.len()
        &&& forall|i: int| 0 <= i < before.tracks@.len() && i != t ==> self.tracks@[i] == before.tracks@[i]
        &&& self.tracks@[t].name == before.tracks@[t].name
        &&& self.tracks@[t].index == before.tracks@[t].index
        &&& self.tracks@[t].visible == before.tracks@[t].visible
        &&& self.tracks@[t].locked == before.tracks@[t].locked
        &&& self.tracks@[t].clips@ == before.tracks@[t].clips@.update(k, c)
    }

    /// Editing a clip in place changes the project's value only at that clip.
    pub proof fn lemma_edited_clip(self, before: Project, t: int, k: int, c: ClipData)
        requires
            self.edited_clip(before, t, k, c),
        ensures
            self@ == (ProjectView { tracks: tracks_set_clip(before@.tracks, t, k, c@), ..before@ }),
    {
        assert(clip_views(self.tracks@[t].clips@) =~= before@.tracks[t].clips.update(k, c@));
        assert(track_views(self.tracks@) =~= tracks_set_clip(before@.tracks, t, k, c@));
    }

    /// The tracks of the project.
    pub fn track_list(&self) -> (r: &Vec<Track>)
        ensures
            track_views(r@) == self@.tracks,
    {
        &self.tracks
    }

    /// The length of the timeline.
    pub fn duration(&self) -> (r: i64)
        ensures
            r == self@.duration,
    {
        self.duration
    }

    /// The next clip identifier this project will hand out.
    pub fn next_clip_id(&self) -> (r: u64)
        ensures
            r == self@.next_clip_id,
    {
        self.next_clip_id
    }

    /// Builds a project from all of its parts (used when loading a saved one).
    pub fn from_parts(
        name: String,
        version: String,
        tracks: Vec<Track>,
        duration: i64,
        settings: ProjectSettings,
        script_text: String,
        next_clip_id: u64,
    ) -> (p: Project)
        ensures
            p@ == (ProjectView {
                name: name@,
                version: version@,
                tracks: track_views(tracks@),
                duration,
                settings,
                script_text: script_text@,
                next_clip_id,
            }),
    {
        Project { name, version, tracks, duration, settings, script_text, next_clip_id }
    }

    /// A new project with the given name.
    pub fn new(name: &str) -> (p: Project)
        ensures
            p@ == fresh_project(name@),
    {
        let mut tracks: Vec<Track> = Vec::new();
        tracks.push(Track::new("トラック 1", 0));
        let p = Project {
            name: String::from_str(name),
            version: String::from_str("0.1.0"),
            tracks,
            duration: 0,
            settings: ProjectSettings { width: 1280, height: 720, fps: FrameRate::thirty(), sample_rate: 44100 },
            script_text: String::new(),
            next_clip_id: 0,
        };
        assert(p@.tracks =~= seq![new_track_view("トラック 1"@, 0)]);
        p
    }

    /// Appends a track with the given name and returns its index.
    pub fn add_track(&mut self, name: &str) -> (idx: usize)
        ensures
            idx == old(self)@.tracks.len(),
            final(self)@ == old(self)@.with_track(name@),
    {
        let idx = self.tracks.len();
        self.tracks.push(Track::new(name, idx));
        assert(track_views(self.tracks@) =~= track_views(old(self).tracks@).push(new_track_view(name@, idx)));
        idx
    }

    /// Recomputes the duration as the end of the last clip (at least 0).
    pub fn update_duration(&mut self)
        ensures
            final(self)@ == old(self)@.synced(),
    {
        let mut acc: i64 = 0;
        let mut t: usize = 0;
        let ghost tv = self@.tracks;
        assert(flatten(tv.take(0)) =~= Seq::<ClipView>::empty());
        while t < self.tracks.len()
            invariant
                t <= self.tracks@.len(),
                tv == track_views(self.tracks@),
                tv.len() == self.tracks@.len(),
                acc == max_end(flatten(tv.take(t as int))),
            decreases self.tracks@.len() - t,
        {
            let mut k: usize = 0;
            let ghost base = flatten(tv.take(t as int));
            let ghost cs = tv[t as int].clips;
            assert(cs == clip_views(self.tracks@[t as int].clips@));
            assert(base + cs.take(0) =~= base);
            while k < self.tracks[t].clips.len()
                invariant
                    t < self.tracks@.len(),
                    k <= self.tracks@[t as int].clips@.len(),
                    cs == clip_views(self.tracks@[t as int].clips@),
                    cs.len() == self.tracks@[t as int].clips@.len(),
                    acc == max_end(base + cs.take(k as int)),
                decreases self.tracks@[t as int].clips@.len() - k,
            {
                let c = &self.tracks[t].clips[k];
                let e: i128 = (c.start_time as i128) + (c.duration as i128);
                let e64: i64 = if e > i64::MAX as i128 { i64::MAX } else if e < i64::MIN as i128 { i64::MIN } else { e as i64 };
                assert((base + cs.take(k + 1)).drop_last() =~= base + cs.take(k as int));
                assert((base + cs.take(k + 1)).last() == cs[k as int]);
                if e64 > acc {
                    acc = e64;
                }
                k = k + 1;
            }
            assert(tv.take(t + 1).drop_last() =~= tv.take(t as int));
            assert(cs.take(cs.len() as int) =~= cs);
            t = t + 1;
        }
        assert(tv.take(tv.len() as int) =~= tv);
        self.duration = acc;
    }

    /// Adds a clip at the end of track `track_idx` and returns its new id.
    /// When there is no such track the clip is not kept, though its id is
    /// used up.
    pub fn add_clip(
        &mut self,
        file_path: Option<String>,
        label: &str,
        start_time: i64,
        duration: i64,
        media_type: MediaType,
        track_idx: usize,
    ) -> (id: u64)
        requires
            old(self)@.next_clip_id < u64::MAX,
        ensures
            id == old(self)@.next_clip_id,
            final(self)@ == old(self)@.with_clip(opt_view(file_path), label@, start_time, duration, media_type, track_idx),
    {
        let id = self.next_clip_id;
        self.next_clip_id = self.next_clip_id + 1;
        let ghost fp = opt_view(file_path);
        let clip = ClipData {
            file_path,
            label: String::from_str(label),
            start_time,
            duration,
            in_point: 0,
            out_point: duration,
            media_type,
            track_idx,
            id,
        };
        let ghost c = clip@;
        assert(c == new_clip_view(fp, label@, start_time, duration, media_type, track_idx, id));
        let ghost tv = track_views(self.tracks@);
        if track_idx < self.tracks.len() {
            self.tracks[track_idx].clips.push(clip);
            assert(clip_views(self.tracks@[track_idx as int].clips@) =~= tv[track_idx as int].clips.push(c));
            assert(track_views(self.tracks@) =~= tracks_push_clip(tv, track_idx as int, c));
        } else {
            assert(track_views(self.tracks@) =~= tracks_push_clip(tv, track_idx as int, c));
        }
        self.update_duration();
        id
    }

    fn locate(&self, clip_id: u64) -> (r: Option<(usize, usize)>)
        ensures
            match r {
                Some((t, k)) => clip_location(self@.tracks, clip_id) == Some((t as int, k as int)),
                None => clip_location(self@.tracks, clip_id) is None,
            },
    {
        let ghost tv = self@.tracks;
        let mut t: usize = 0;
        assert(tv.take(0) =~= Seq::<TrackView>::empty());
        while t < self.tracks.len()
            invariant
                t <= self.tracks@.len(),
                tv == track_views(self.tracks@),
                tv.len() == self.tracks@.len(),
                clip_location(tv.take(t as int), clip_id) is None,
            decreases self.tracks@.len() - t,
        {
            let ghost cs = tv[t as int].clips;
            assert(cs == clip_views(self.tracks@[t as int].clips@));
            let mut k: usize = 0;
            assert(cs.take(0) =~= Seq::<ClipView>::empty());
            while k < self.tracks[t].clips.len()
                invariant
                    t < self.tracks@.len(),
                    k <= self.tracks@[t as int].clips@.len(),
                    cs == clip_views(self.tracks@[t as int].clips@),
                    cs.len() == self.tracks@[t as int].clips@.len(),
                    clip_index(cs.take(k as int), clip_id) is None,
                    tv == track_views(self.tracks@),
                    tv.len() == self.tracks@.len(),
                    cs == tv[t as int].clips,
                    clip_location(tv.take(t as int), clip_id) is None,
                decreases self.tracks@[t as int].clips@.len() - k,
            {
                assert(cs.take(k + 1).drop_last() =~= cs.take(k as int));
                if self.tracks[t].clips[k].id == clip_id {
                    proof {
                        assert(clip_index(cs.take(k + 1), clip_id) == Some(k as int));
                        lemma_clip_index_extend(cs, k + 1, clip_id);
                        assert(tv.take(t + 1).drop_last() =~= tv.take(t as int));
                        assert(tv.take(t + 1).last() == tv[t as int]);
                        assert(clip_location(tv.take(t + 1), clip_id) == Some((t as int, k as int)));
                        lemma_clip_location_extend(tv, t + 1, clip_id);
                    }
                    return Some((t, k));
                }
                k = k + 1;
            }
            proof {
                assert(cs.take(cs.len() as int) =~= cs);
                assert(tv.take(t + 1).drop_last() =~= tv.take(t as int));
                assert(tv.take(t + 1).last() == tv[t as int]);
            }
            t = t + 1;
        }
        assert(tv.take(tv.len() as int) =~= tv);
        None
    }

    /// Removes the first clip with this id and returns it; the duration is
    /// recomputed.
    pub fn remove_clip(&mut self, clip_id: u64) -> (r: Option<ClipData>)
        ensures
            opt_clip_view(r) == old(self)@.find(clip_id),
            final(self)@ == old(self)@.without_clip(clip_id),
    {
        match self.locate(clip_id) {
            None => None,
            Some((t, k)) => {
                proof { lemma_clip_location_bounds(self@.tracks, clip_id); }
                let ghost tv = self@.tracks;
                let clip = self.tracks[t].clips.remove(k);
                assert(clip_views(self.tracks@[t as int].clips@) =~= tv[t as int].clips.remove(k as int));
                assert(track_views(self.tracks@) =~= tracks_remove_clip(tv, t as int, k as int));
                self.update_duration();
                Some(clip)
            },
        }
    }

    /// The first clip with this id.
    pub fn find_clip(&self, clip_id: u64) -> (r: Option<&ClipData>)
        ensures
            match r {
                Some(c) => self@.find(clip_id) == Some(c@),
                None => self@.find(clip_id) is None,
            },
    {
        match self.locate(clip_id) {
            None => None,
            Some((t, k)) => {
                proof { lemma_clip_location_bounds(self@.tracks, clip_id); }
                Some(&self.tracks[t].clips[k])
            },
        }
    }

    /// Moves the first clip with this id to the end of another track.
    pub fn move_clip_to_track(&mut self, clip_id: u64, new_track_idx: usize) -> (moved: bool)
        ensures
            (final(self)@, moved) == old(self)@.moved(clip_id, new_track_idx),
    {
        if new_track_idx >= self.tracks.len() {
            return false;
        }
        let clip_opt = self.remove_clip(clip_id);
        match clip_opt {
            Some(clip) => {
                proof { lemma_clip_location_bounds(old(self)@.tracks, clip_id); }
                assert(self.tracks@.len() == old(self).tracks@.len());
                let ghost tv = self@.tracks;
                let mut clip = clip;
                clip.track_idx = new_track_idx;
                let ghost c = clip@;
                self.tracks[new_track_idx].clips.push(clip);
                assert(clip_views(self.tracks@[new_track_idx as int].clips@) =~= tv[new_track_idx as int].clips.push(c));
                assert(track_views(self.tracks@) =~= tracks_push_clip(tv, new_track_idx as int, c));
                self.update_duration();
                true
            },
            None => false,
        }
    }

    /// The first clip with this id, for editing in place.
    pub fn find_clip_mut(&mut self, clip_id: u64) -> (r: Option<&mut ClipData>)
        ensures
            match r {
                Some(c) => clip_location(old(self)@.tracks, clip_id) matches Some((t, k))
                    && old(self)@.find(clip_id) == Some(c@)
                    && final(self).edited_clip(*old(self), t, k, *final(c)),
                None => old(self)@.find(clip_id) is None && final(self)@ == old(self)@,
            },
    {
        match self.locate(clip_id) {
            None => None,
            Some((t, k)) => {
                proof { lemma_clip_location_bounds(self@.tracks, clip_id); }
                Some(&mut self.tracks[t].clips[k])
            },
        }
    }

    /// Removes the tracks whose index is `index` and renumbers the rest by
    /// position. Their clips go with them.
    pub fn remove_track(&mut self, index: usize)
        ensures
            final(self)@ == old(self)@.without_track(index),
    {
        let mut rest: Vec<Track> = Vec::new();
        std::mem::swap(&mut rest, &mut self.tracks);
        let ghost orig = track_views(rest@);
        let ghost raw = rest@;
        let n = rest.len();
        let mut kept: Vec<Track> = Vec::new();
        let mut i: usize = 0;
        assert(orig.take(0) =~= Seq::<TrackView>::empty());
        assert(renumbered(Seq::<TrackView>::empty()) =~= Seq::<TrackView>::empty());
        assert(raw.skip(0) =~= raw);
        while i < n
            invariant
                i <= n,
                n == raw.len(),
                orig == track_views(raw),
                rest@ == raw.skip(i as int),
                track_views(kept@) == renumbered(kept_tracks(orig.take(i as int), index)),
                self.tracks@.len() == 0,
            decreases n - i,
        {
            let mut t = rest.remove(0);
            assert(t == raw[i as int]);
            assert(rest@ =~= raw.skip(i + 1));
            let ghost before = kept_tracks(orig.take(i as int), index);
            assert(orig.take(i + 1).drop_last() =~= orig.take(i as int));
            assert(orig.take(i + 1).last() == t@);
            if t.index != index {
                assert(renumbered(before).len() == before.len());
                assert(kept@.len() == before.len());
                let ghost kept0 = kept@;
                t.index = kept.len();
                let ghost tv = t@;
                assert(tv == TrackView { index: before.len() as usize, ..orig[i as int] });
                kept.push(t);
                assert(track_views(kept@) =~= track_views(kept0).push(tv));
                assert(renumbered(before.push(orig[i as int])) =~= renumbered(before).push(tv));
            }
            i = i + 1;
        }
        assert(orig.take(n as int) =~= orig);
        self.tracks = kept;
        self.update_duration();
    }

    /// All clips of all tracks, ordered by start time (clips that start
    /// together stay in track order).
    pub fn all_clips(&self) -> (r: Vec<&ClipData>)
        ensures
            sorted_by_start(flatten(self@.tracks), ref_views(r@)),
    {
        let ghost tv = self@.tracks;
        let mut r: Vec<&ClipData> = Vec::new();
        let ghost mut perm: Seq<int> = Seq::empty();
        let mut t: usize = 0;
        assert(flatten(tv.take(0)) =~= Seq::<ClipView>::empty());
        while t < self.tracks.len()
            invariant
                t <= self.tracks@.len(),
                tv == track_views(self.tracks@),
                tv.len() == self.tracks@.len(),
                is_stable_order(flatten(tv.take(t as int)), perm),
                r@.len() == perm.len(),
                forall|m: int| 0 <= m < r@.len() ==> (#[trigger] r@[m])@ == flatten(tv.take(t as int))[perm[m]],
            decreases self.tracks@.len() - t,
        {
            let ghost base = flatten(tv.take(t as int));
            let ghost cs = tv[t as int].clips;
            assert(cs == clip_views(self.tracks@[t as int].clips@));
            assert(base + cs.take(0) =~= base);
            let mut k: usize = 0;
            while k < self.tracks[t].clips.len()
                invariant
                    t < self.tracks@.len(),
                    k <= self.tracks@[t as int].clips@.len(),
                    cs == clip_views(self.tracks@[t as int].clips@),
                    cs.len() == self.tracks@[t as int].clips@.len(),
                    is_stable_order(base + cs.take(k as int), perm),
                    r@.len() == perm.len(),
                    forall|m: int| 0 <= m < r@.len() ==> (#[trigger] r@[m])@ == (base + cs.take(k as int))[perm[m]],
                decreases self.tracks@[t as int].clips@.len() - k,
            {
                let ghost pre = base + cs.take(k as int);
                let ghost pre2 = base + cs.take(k + 1);
                assert(pre2 =~= pre.push(cs[k as int]));
                let x: &ClipData = &self.tracks[t].clips[k];
                assert(x@ == cs[k as int]);
                let ghost i = pre.len() as int;
                // find where x goes: after every clip that starts no later
                let mut j: usize = 0;
                while j < r.len() && r[j].start_time <= x.start_time
                    invariant
                        j <= r@.len(),
                        r@.len() == perm.len(),
                        forall|m: int| 0 <= m < j ==> (#[trigger] r@[m]).start_time <= x.start_time,
                    decreases r@.len() - j,
                {
                    j = j + 1;
                }
                proof {
                    assert forall|m: int| j <= m < r@.len() implies (#[trigger] r@[m]).start_time > x.start_time by {
                        if m > j {
                            assert(start_before(pre, perm[j as int], perm[m]));
                        }
                    }
                }
                let ghost old_r = r@;
                let ghost old_perm = perm;
                r.insert(j, x);
                proof {
                    perm = perm.insert(j as int, i);
                    assert forall|m: int| 0 <= m < perm.len() implies 0 <= #[trigger] perm[m] < pre2.len() by {
                        if m < j {
                            assert(perm[m] == old_perm[m]);
                        } else if m > j {
                            assert(perm[m] == old_perm[m - 1]);
                        }
                    }
                    assert forall|a: int, b: int| 0 <= a < b < perm.len() implies start_before(pre2, #[trigger] perm[a], #[trigger] perm[b]) by {
                        if a < j {
                            assert(perm[a] == old_perm[a]);
                            assert(old_r[a]@ == pre[old_perm[a]]);
                            if b < j {
                                assert(perm[b] == old_perm[b]);
                            } else if b > j {
                                assert(perm[b] == old_perm[b - 1]);
                            }
                        } else if a == j {
                            assert(perm[b] == old_perm[b - 1]);
                            assert(old_r[b - 1]@ == pre[old_perm[b - 1]]);
                        } else {
                            assert(perm[a] == old_perm[a - 1]);
                            assert(perm[b] == old_perm[b - 1]);
                        }
                    }
                    assert forall|m: int| 0 <= m < r@.len() implies (#[trigger] r@[m])@ == pre2[perm[m]] by {
                        if m < j {
                            assert(r@[m] == old_r[m]);
                        } else if m > j {
                            assert(r@[m] == old_r[m - 1]);
                        }
                    }
                }
                k = k + 1;
            }
            proof {
                assert(cs.take(cs.len() as int) =~= cs);
                assert(tv.take(t + 1).drop_last() =~= tv.take(t as int));
                assert(flatten(tv.take(t + 1)) =~= base + cs);
            }
            t = t + 1;
        }
        assert(tv.take(tv.len() as int) =~= tv);
        assert(sorted_by_start(flatten(tv), ref_views(r@))) by {
            assert forall|k: int| 0 <= k < ref_views(r@).len() implies #[trigger] ref_views(r@)[k] == flatten(tv)[perm[k]] by {
                assert(ref_views(r@)[k] == r@[k]@);
            }
        }
        r
    }

    /// Applies the property edits to the first clip with this id and
    /// recomputes the duration; `false` when there is no such clip.
    pub fn edit_clip(
        &mut self,
        clip_id: u64,
        start: Option<i64>,
        duration: Option<i64>,
        in_point: Option<i64>,
        out_point: Option<i64>,
    ) -> (found: bool)
        ensures
            (final(self)@, found) == old(self)@.with_edit(clip_id, start, duration, in_point, out_point),
    {
        match self.locate(clip_id) {
            None => false,
            Some((t, k)) => {
                proof { lemma_clip_location_bounds(self@.tracks, clip_id); }
                let ghost tv = self@.tracks;
                let ghost c0 = tv[t as int].clips[k as int];
                if let Some(v) = start {
                    self.tracks[t].clips[k].start_time = v;
                }
                if let Some(v) = duration {
                    let d = if v >= 10_000 { v } else { 10_000 };
                    self.tracks[t].clips[k].duration = d;
                    let o = sat_add(self.tracks[t].clips[k].in_point, d);
                    self.tracks[t].clips[k].out_point = o;
                }
                if let Some(v) = in_point {
                    let i = if v >= 0 { v } else { 0 };
                    self.tracks[t].clips[k].in_point = i;
                    let d = sat_sub(self.tracks[t].clips[k].out_point, i);
                    self.tracks[t].clips[k].duration = d;
                }
                if let Some(v) = out_point {
                    let ip = self.tracks[t].clips[k].in_point;
                    let o = if v >= ip { v } else { ip };
                    self.tracks[t].clips[k].out_point = o;
                    self.tracks[t].clips[k].duration = sat_sub(o, ip);
                }
                let ghost c = edited_clip_view(c0, start, duration, in_point, out_point);
                assert(self.tracks@[t as int].clips@[k as int]@ == c);
                assert(clip_views(self.tracks@[t as int].clips@) =~= tv[t as int].clips.update(k as int, c));
                assert(track_views(self.tracks@) =~= tracks_set_clip(tv, t as int, k as int, c));
                self.update_duration();
                true
            },
        }
    }
}

impl Default for Project {
    fn default() -> (p: Project)
        ensures
            p@ == fresh_project("新規プロジェクト"@),
    {
        Project::new("新規プロジェクト")
    }
}

} // verus!

verus! {

// ---------------------------------------------------------------------------
// Laws of the project operations

/// A track set where some other track set's clips all stand, one track of
/// the first for one distinct track of the second.
proof fn lemma_kept_origin(ts: Seq<TrackView>, index: usize) -> (m: Seq<int>)
    ensures
        m.len() == kept_tracks(ts, index).len(),
        m.len() <= ts.len(),
        forall|i: int| 0 <= i < m.len() ==> 0 <= #[trigger] m[i] < ts.len() && kept_tracks(ts, index)[i] == ts[m[i]],
        forall|a: int, b: int| 0 <= a < b < m.len() ==> #[trigger] m[a] < #[trigger] m[b],
    decreases ts.len(),
{
    if ts.len() == 0 {
        Seq::empty()
    } else {
        let m0 = lemma_kept_origin(ts.drop_last(), index);
        if ts.last().index != index {
            let m = m0.push((ts.len() - 1) as int);
            assert forall|i: int| 0 <= i < m.len() implies 0 <= #[trigger] m[i] < ts.len() && kept_tracks(ts, index)[i] == ts[m[i]] by {
                if i < m0.len() {
                    assert(ts.drop_last()[m0[i]] == ts[m0[i]]);
                }
            }
            m
        } else {
            assert forall|i: int| 0 <= i < m0.len() implies 0 <= #[trigger] m0[i] < ts.len() && kept_tracks(ts, index)[i] == ts[m0[i]] by {
                assert(ts.drop_last()[m0[i]] == ts[m0[i]]);
            }
            m0
        }
    }
}

/// Adding a track keeps the project well formed.
pub proof fn lemma_add_track_wf(p: ProjectView, name: Seq<char>)
    requires
        p.wf(),
        p.tracks.len() < usize::MAX,
    ensures
        p.with_track(name).wf(),
{
    let q = p.with_track(name);
    assert forall|t: int, k: int| 0 <= t < q.tracks.len() && 0 <= k < q.tracks[t].clips.len()
        implies (#[trigger] q.tracks[t].clips[k]).id < q.next_clip_id by {
        assert(t < p.tracks.len());
    }
    assert forall|t: int, k: int, t2: int, k2: int|
        0 <= t < q.tracks.len() && 0 <= k < q.tracks[t].clips.len()
            && 0 <= t2 < q.tracks.len() && 0 <= k2 < q.tracks[t2].clips.len()
            && (t != t2 || k != k2)
        implies (#[trigger] q.tracks[t].clips[k]).id != (#[trigger] q.tracks[t2].clips[k2]).id by {
        assert(t < p.tracks.len() && t2 < p.tracks.len());
    }
}

/// Removing tracks keeps the project well formed: the remaining tracks are
/// renumbered by position and no clip id is duplicated.
pub proof fn lemma_remove_track_wf(p: ProjectView, index: usize)
    requires
        p.wf(),
        p.tracks.len() <= usize::MAX,
    ensures
        p.without_track(index).wf(),
{
    let q = p.without_track(index);
    let kt = kept_tracks(p.tracks, index);
    let m = lemma_kept_origin(p.tracks, index);
    assert forall|i: int| 0 <= i < q.tracks.len() implies (#[trigger] q.tracks[i]).index == i by {}
    assert forall|t: int, k: int| 0 <= t < q.tracks.len() && 0 <= k < q.tracks[t].clips.len()
        implies (#[trigger] q.tracks[t].clips[k]).id < q.next_clip_id by {
        assert(q.tracks[t].clips == p.tracks[m[t]].clips);
        assert(p.tracks[m[t]].clips[k].id < p.next_clip_id);
    }
    assert forall|t: int, k: int, t2: int, k2: int|
        0 <= t < q.tracks.len() && 0 <= k < q.tracks[t].clips.len()
            && 0 <= t2 < q.tracks.len() && 0 <= k2 < q.tracks[t2].clips.len()
            && (t != t2 || k != k2)
        implies (#[trigger] q.tracks[t].clips[k]).id != (#[trigger] q.tracks[t2].clips[k2]).id by {
        assert(q.tracks[t].clips == p.tracks[m[t]].clips);
        assert(q.tracks[t2].clips == p.tracks[m[t2]].clips);
        if t != t2 {
            if t < t2 { assert(m[t] < m[t2]); } else { assert(m[t2] < m[t]); }
        }
        assert(p.tracks[m[t]].clips[k].id != p.tracks[m[t2]].clips[k2].id);
    }
}

/// Adding a clip hands out an id that no clip had, and keeps the project
/// well formed.
pub proof fn lemma_add_clip_wf(
    p: ProjectView,
    file_path: Option<Seq<char>>,
    label: Seq<char>,
    start_time: i64,
    duration: i64,
    media_type: MediaType,
    ti: usize,
)
    requires
        p.wf(),
        p.next_clip_id < u64::MAX,
    ensures
        p.find(p.next_clip_id) is None,
        p.with_clip(file_path, label, start_time, duration, media_type, ti).wf(),
{
    lemma_clip_location_bounds(p.tracks, p.next_clip_id);
    if clip_location(p.tracks, p.next_clip_id) is Some {
        let (t, k) = clip_location(p.tracks, p.next_clip_id)->0;
        assert(p.tracks[t].clips[k].id < p.next_clip_id);
    }
    let q = p.with_clip(file_path, label, start_time, duration, media_type, ti);
    let c = new_clip_view(file_path, label, start_time, duration, media_type, ti, p.next_clip_id);
    assert forall|t: int, k: int| 0 <= t < q.tracks.len() && 0 <= k < q.tracks[t].clips.len()
        implies (#[trigger] q.tracks[t].clips[k]).id < q.next_clip_id by {
        if t == ti && k == p.tracks[t].clips.len() {
        } else {
            assert(q.tracks[t].clips[k] == p.tracks[t].clips[k]);
        }
    }
    assert forall|t: int, k: int, t2: int, k2: int|
        0 <= t < q.tracks.len() && 0 <= k < q.tracks[t].clips.len()
            && 0 <= t2 < q.tracks.len() && 0 <= k2 < q.tracks[t2].clips.len()
            && (t != t2 || k != k2)
        implies (#[trigger] q.tracks[t].clips[k]).id != (#[trigger] q.tracks[t2].clips[k2]).id by {
        let new1 = t == ti && k == p.tracks[t].clips.len();
        let new2 = t2 == ti && k2 == p.tracks[t2].clips.len();
        if !new1 {
            assert(q.tracks[t].clips[k] == p.tracks[t].clips[k]);
        }
        if !new2 {
            assert(q.tracks[t2].clips[k2] == p.tracks[t2].clips[k2]);
        }
    }
}

/// A clip just added to an existing track is what a search for its id finds.
pub proof fn lemma_add_then_find(
    p: ProjectView,
    file_path: Option<Seq<char>>,
    label: Seq<char>,
    start_time: i64,
    duration: i64,
    media_type: MediaType,
    ti: usize,
)
    requires
        p.wf(),
        p.next_clip_id < u64::MAX,
        ti < p.tracks.len(),
    ensures
        p.with_clip(file_path, label, start_time, duration, media_type, ti).find(p.next_clip_id)
            == Some(new_clip_view(file_path, label, start_time, duration, media_type, ti, p.next_clip_id)),
{
    let id = p.next_clip_id;
    let q = p.with_clip(file_path, label, start_time, duration, media_type, ti);
    lemma_add_clip_wf(p, file_path, label, start_time, duration, media_type, ti);
    lemma_clip_location_bounds(q.tracks, id);
    let k0 = p.tracks[ti as int].clips.len() as int;
    assert(q.tracks[ti as int].clips[k0].id == id);
    let (t, k) = clip_location(q.tracks, id)->0;
    assert(t == ti && k == k0);
}

/// Removing a clip just added to an existing track gives back that clip and
/// the tracks as they were.
pub proof fn lemma_add_then_remove(
    p: ProjectView,
    file_path: Option<Seq<char>>,
    label: Seq<char>,
    start_time: i64,
    duration: i64,
    media_type: MediaType,
    ti: usize,
)
    requires
        p.wf(),
        p.next_clip_id < u64::MAX,
        ti < p.tracks.len(),
    ensures
        ({
            let q = p.with_clip(file_path, label, start_time, duration, media_type, ti);
            &&& q.find(p.next_clip_id) == Some(new_clip_view(file_path, label, start_time, duration, media_type, ti, p.next_clip_id))
            &&& q.without_clip(p.next_clip_id) == (ProjectView {
                next_clip_id: (p.next_clip_id + 1) as u64,
                ..p.synced()
            })
        }),
{
    let id = p.next_clip_id;
    let q = p.with_clip(file_path, label, start_time, duration, media_type, ti);
    lemma_add_then_find(p, file_path, label, start_time, duration, media_type, ti);
    lemma_clip_location_bounds(q.tracks, id);
    let k0 = p.tracks[ti as int].clips.len() as int;
    let (t, k) = clip_location(q.tracks, id)->0;
    assert(q.tracks[t].clips[k].id == id);
    assert(t == ti && k == k0) by {
        lemma_add_clip_wf(p, file_path, label, start_time, duration, media_type, ti);
        assert(q.tracks[ti as int].clips[k0].id == id);
    }
    assert(q.tracks[t].clips.remove(k) =~= p.tracks[t].clips);
    assert(tracks_remove_clip(q.tracks, t, k) =~= p.tracks);
}

/// Removing a clip keeps the project well formed.
pub proof fn lemma_remove_clip_wf(p: ProjectView, id: u64)
    requires
        p.wf(),
    ensures
        p.without_clip(id).wf(),
        p.without_clip(id).find(id) is None,
{
    lemma_clip_location_bounds(p.tracks, id);
    let q = p.without_clip(id);
    if let Some((t0, k0)) = clip_location(p.tracks, id) {
        // position in q -> position in p
        assert forall|t: int, k: int| 0 <= t < q.tracks.len() && 0 <= k < q.tracks[t].clips.len()
            implies (#[trigger] q.tracks[t].clips[k]).id < q.next_clip_id by {
            if t == t0 && k >= k0 {
                assert(q.tracks[t].clips[k] == p.tracks[t].clips[k + 1]);
            } else {
                assert(q.tracks[t].clips[k] == p.tracks[t].clips[k]);
            }
        }
        assert forall|t: int, k: int, t2: int, k2: int|
            0 <= t < q.tracks.len() && 0 <= k < q.tracks[t].clips.len()
                && 0 <= t2 < q.tracks.len() && 0 <= k2 < q.tracks[t2].clips.len()
                && (t != t2 || k != k2)
            implies (#[trigger] q.tracks[t].clips[k]).id != (#[trigger] q.tracks[t2].clips[k2]).id by {
            let kk = if t == t0 && k >= k0 { k + 1 } else { k };
            let kk2 = if t2 == t0 && k2 >= k0 { k2 + 1 } else { k2 };
            assert(q.tracks[t].clips[k] == p.tracks[t].clips[kk]);
            assert(q.tracks[t2].clips[k2] == p.tracks[t2].clips[kk2]);
        }
        lemma_clip_location_bounds(q.tracks, id);
        if clip_location(q.tracks, id) is Some {
            let (t, k) = clip_location(q.tracks, id)->0;
            let kk = if t == t0 && k >= k0 { k + 1 } else { k };
            assert(q.tracks[t].clips[k] == p.tracks[t].clips[kk]);
        }
    }
}

} // verus!

verus! {

// ---------------------------------------------------------------------------
// The application state

/// What the player has to do after the play/pause button is pressed.
#[derive(Debug, Clone, Copy, PartialEq, Eq, Structural)]
pub enum PlaybackToggle {
    /// Seek to this position (microseconds) and start playing.
    Play { from: i64 },
    /// Pause playback.
    Pause,
}

/// The state of the running editor around the project. Times are
/// microseconds; the zoom level is thousandths of a pixel per second.
pub struct AppState {
    pub project: Project,
    pub undo_stack: crate::undo::UndoStack,
    pub playback_state: PlaybackState,
    /// Where playback stands.
    pub playback_position: i64,
    pub selected_clip_id: Option<u64>,
    pub selected_track_idx: Option<usize>,
    /// Pixels per second, in thousandths.
    pub zoom_level: u64,
    /// The time at the left edge of the timeline.
    pub scroll_offset: i64,
    /// Where the project was last saved.
    pub project_file_path: Option<String>,
    /// Whether there are unsaved changes.
    pub is_modified: bool,
}

/// `pos` clamped below at 0 and then above at `max`, in that order (a
/// negative `max` wins).
pub open spec fn clamp_position(pos: int, max: int) -> int {
    let p = if pos > 0 { pos } else { 0 };
    if p < max { p } else { max }
}

/// The name given to the `n`-th track added from the menu or toolbar.
pub open spec fn numbered_track_name(n: nat) -> Seq<char> {
    "トラック "@ + crate::text::decimal(n)
}

impl AppState {
    pub fn new() -> (s: AppState)
        ensures
            s.project@ == fresh_project("新規プロジェクト"@),
            s.undo_stack@ == (crate::undo::UndoView { undo: Seq::empty(), redo: Seq::empty(), max_depth: 100 }),
            s.playback_state == PlaybackState::Stopped,
            s.playback_position == 0,
            s.selected_clip_id is None,
            s.selected_track_idx is None,
            s.zoom_level == 100_000,
            s.scroll_offset == 0,
            s.project_file_path is None,
            !s.is_modified,
    {
        AppState {
            project: Project::default(),
            undo_stack: crate::undo::UndoStack::new(100),
            playback_state: PlaybackState::Stopped,
            playback_position: 0,
            selected_clip_id: None,
            selected_track_idx: None,
            zoom_level: 100_000,
            scroll_offset: 0,
            project_file_path: None,
            is_modified: false,
        }
    }

    /// Moves the playback position, kept within `[0, duration]`.
    pub fn set_playback_position(&mut self, pos: i64)
        ensures
            final(self).playback_position == clamp_position(pos as int, old(self).project@.duration as int),
            *final(self) == (AppState { playback_position: final(self).playback_position, ..*old(self) }),
    {
        let p = if pos > 0 { pos } else { 0 };
        let d = self.project.duration;
        assert(d == self.project@.duration);
        self.playback_position = if p < d { p } else { d };
    }

    /// The selected clip, if one is selected and still exists.
    pub fn selected_clip(&self) -> (r: Option<&ClipData>)
        ensures
            match self.selected_clip_id {
                Some(id) => match r {
                    Some(c) => self.project@.find(id) == Some(c@),
                    None => self.project@.find(id) is None,
                },
                None => r is None,
            },
    {
        match self.selected_clip_id {
            Some(id) => self.project.find_clip(id),
            None => None,
        }
    }

    /// Starts over with a new, unsaved project, at position 0 with nothing
    /// selected.
    pub fn start_new_project(&mut self)
        ensures
            final(self).project@ == fresh_project("新規プロジェクト"@),
            final(self).playback_position == 0,
            final(self).selected_clip_id is None,
            !final(self).is_modified,
            final(self).project_file_path is None,
            *final(self) == (AppState {
                project: final(self).project,
                playback_position: 0,
                selected_clip_id: None,
                is_modified: false,
                project_file_path: None,
                ..*old(self)
            }),
    {
        self.project = Project::new("新規プロジェクト");
        self.playback_position = 0;
        self.selected_clip_id = None;
        self.is_modified = false;
        self.project_file_path = None;
    }

    /// Adds a track named after its number (one more than the number of
    /// tracks) and marks the project modified; returns that number.
    pub fn add_numbered_track(&mut self) -> (n: usize)
        requires
            old(self).project@.tracks.len() < usize::MAX,
        ensures
            n == old(self).project@.tracks.len() + 1,
            final(self).project@ == old(self).project@.with_track(numbered_track_name(n as nat)),
            final(self).is_modified,
            *final(self) == (AppState { project: final(self).project, is_modified: true, ..*old(self) }),
    {
        assert(self.project.tracks@.len() == self.project@.tracks.len());
        let n = self.project.tracks.len() + 1;
        let mut name = String::from_str("トラック ");
        crate::text::append_decimal(&mut name, n as u128);
        self.project.add_track(name.as_str());
        self.is_modified = true;
        n
    }

    /// Stops playback and rewinds to the start.
    pub fn stop_playback(&mut self)
        ensures
            *final(self) == (AppState { playback_state: PlaybackState::Stopped, playback_position: 0, ..*old(self) }),
    {
        self.playback_state = PlaybackState::Stopped;
        self.playback_position = 0;
    }

    /// Switches between playing and paused: a stopped or paused player starts
    /// playing from the current position; a playing one pauses.
    pub fn toggle_playback(&mut self) -> (r: PlaybackToggle)
        ensures
            match old(self).playback_state {
                PlaybackState::Playing => r == PlaybackToggle::Pause
                    && *final(self) == (AppState { playback_state: PlaybackState::Paused, ..*old(self) }),
                _ => r == (PlaybackToggle::Play { from: old(self).playback_position })
                    && *final(self) == (AppState { playback_state: PlaybackState::Playing, ..*old(self) }),
            },
    {
        match self.playback_state {
            PlaybackState::Playing => {
                self.playback_state = PlaybackState::Paused;
                PlaybackToggle::Pause
            },
            _ => {
                self.playback_state = PlaybackState::Playing;
                PlaybackToggle::Play { from: self.playback_position }
            },
        }
    }

    /// Adds a clip without a source file to the timeline and marks the
    /// project modified; returns the clip's id.
    pub fn add_clip_to_timeline(
        &mut self,
        label: &str,
        start_time: i64,
        duration: i64,
        media_type: MediaType,
        track_idx: usize,
    ) -> (id: u64)
        requires
            old(self).project@.next_clip_id < u64::MAX,
        ensures
            id == old(self).project@.next_clip_id,
            final(self).project@ == old(self).project@.with_clip(None, label@, start_time, duration, media_type, track_idx),
            *final(self) == (AppState { project: final(self).project, is_modified: true, ..*old(self) }),
    {
        let id = self.project.add_clip(None, label, start_time, duration, media_type, track_idx);
        self.is_modified = true;
        id
    }

    /// Applies the property edits to the selected clip; when there is one,
    /// the duration is recomputed and the project marked modified.
    pub fn apply_clip_edits(
        &mut self,
        start: Option<i64>,
        duration: Option<i64>,
        in_point: Option<i64>,
        out_point: Option<i64>,
    ) -> (applied: bool)
        ensures
            match old(self).selected_clip_id {
                Some(id) => {
                    let (p, found) = old(self).project@.with_edit(id, start, duration, in_point, out_point);
                    &&& applied == found
                    &&& final(self).project@ == p
                    &&& *final(self) == (AppState {
                        project: final(self).project,
                        is_modified: old(self).is_modified || found,
                        ..*old(self)
                    })
                },
                None => !applied && *final(self) == *old(self),
            },
    {
        match self.selected_clip_id {
            None => false,
            Some(id) => {
                let found = self.project.edit_clip(id, start, duration, in_point, out_point);
                if found {
                    self.is_modified = true;
                }
                found
            },
        }
    }
}

} // verus!

verus! {

/// Moving a clip keeps the project well formed.
pub proof fn lemma_move_clip_wf(p: ProjectView, id: u64, ti: usize)
    requires
        p.wf(),
    ensures
        p.moved(id, ti).0.wf(),
{
    lemma_remove_clip_wf(p, id);
    lemma_clip_location_bounds(p.tracks, id);
    if let Some(c) = p.find(id) {
        let mid = p.without_clip(id);
        lemma_clip_location_bounds(mid.tracks, id);
        let (t0, k0) = clip_location(p.tracks, id)->0;
        assert(c.id == id && c.id < p.next_clip_id);
        if ti < mid.tracks.len() {
            let q = p.moved(id, ti).0;
            assert(q.tracks == tracks_push_clip(mid.tracks, ti as int, ClipView { track_idx: ti, ..c }));
            assert forall|t: int, k: int| 0 <= t < q.tracks.len() && 0 <= k < q.tracks[t].clips.len()
                implies (#[trigger] q.tracks[t].clips[k]).id < q.next_clip_id by {
                if !(t == ti && k == mid.tracks[t].clips.len()) {
                    assert(q.tracks[t].clips[k] == mid.tracks[t].clips[k]);
                }
            }
            assert forall|t: int, k: int, t2: int, k2: int|
                0 <= t < q.tracks.len() && 0 <= k < q.tracks[t].clips.len()
                    && 0 <= t2 < q.tracks.len() && 0 <= k2 < q.tracks[t2].clips.len()
                    && (t != t2 || k != k2)
                implies (#[trigger] q.tracks[t].clips[k]).id != (#[trigger] q.tracks[t2].clips[k2]).id by {
                let new1 = t == ti && k == mid.tracks[t].clips.len();
                let new2 = t2 == ti && k2 == mid.tracks[t2].clips.len();
                if !new1 {
                    assert(q.tracks[t].clips[k] == mid.tracks[t].clips[k]);
                }
                if !new2 {
                    assert(q.tracks[t2].clips[k2] == mid.tracks[t2].clips[k2]);
                }
            }
        }
    }
}

/// Editing a clip's times keeps the project well formed.
pub proof fn lemma_edit_clip_wf(
    p: ProjectView,
    id: u64,
    start: Option<i64>,
    duration: Option<i64>,
    in_point: Option<i64>,
    out_point: Option<i64>,
)
    requires
        p.wf(),
    ensures
        p.with_edit(id, start, duration, in_point, out_point).0.wf(),
{
    lemma_clip_location_bounds(p.tracks, id);
    if let Some((t0, k0)) = clip_location(p.tracks, id) {
        let q = p.with_edit(id, start, duration, in_point, out_point).0;
        assert forall|t: int, k: int| 0 <= t < q.tracks.len() && 0 <= k < q.tracks[t].clips.len()
            implies (#[trigger] q.tracks[t].clips[k]).id == p.tracks[t].clips[k].id by {}
    }
}

proof fn lemma_kept_tracks_indexed(ts: Seq<TrackView>, index: usize)
    requires
        forall|i: int| 0 <= i < ts.len() ==> (#[trigger] ts[i]).index == i,
    ensures
        kept_tracks(ts, index) == if index < ts.len() { ts.remove(index as int) } else { ts },
    decreases ts.len(),
{
    if ts.len() > 0 {
        let d = ts.drop_last();
        assert forall|i: int| 0 <= i < d.len() implies (#[trigger] d[i]).index == i by {
            assert(d[i] == ts[i]);
        }
        lemma_kept_tracks_indexed(d, index);
        assert(ts.last().index == ts.len() - 1);
        if index < ts.len() - 1 {
            assert(d.remove(index as int).push(ts.last()) =~= ts.remove(index as int));
        } else if index == ts.len() - 1 {
            assert(d =~= ts.remove(index as int));
        } else {
            assert(d.push(ts.last()) =~= ts);
        }
    }
}

/// Removing the track at `index` from a project whose track indices are
/// their positions removes exactly the track at that position (nothing when
/// there is none); the others keep their order, names, clips, visibility and
/// locks, and every track's index is again its position.
pub proof fn lemma_remove_track_positions(p: ProjectView, index: usize)
    requires
        p.tracks_indexed(),
    ensures
        p.without_track(index).tracks_indexed(),
        index < p.tracks.len() ==> {
            let q = p.without_track(index).tracks;
            &&& q.len() == p.tracks.len() - 1
            &&& forall|i: int| 0 <= i < q.len() ==>
                #[trigger] q[i] == (TrackView { index: i as usize, ..p.tracks.remove(index as int)[i] })
        },
        index >= p.tracks.len() ==> p.without_track(index).tracks == p.tracks,
{
    lemma_kept_tracks_indexed(p.tracks, index);
    let q = p.without_track(index).tracks;
    if index >= p.tracks.len() {
        assert(q =~= p.tracks);
    }
}

/// A new project is well formed and its duration is that of its clips: it
/// holds one visible, unlocked, empty track at index 0, its duration is 0 and
/// the first clip added gets id 0.
pub proof fn lemma_fresh_project_wf(name: Seq<char>)
    ensures
        fresh_project(name).wf(),
        fresh_project(name).duration_synced(),
        fresh_project(name).name == name,
        fresh_project(name).tracks.len() == 1,
        fresh_project(name).tracks[0].index == 0,
        fresh_project(name).tracks[0].visible,
        !fresh_project(name).tracks[0].locked,
        fresh_project(name).tracks[0].clips.len() == 0,
        fresh_project(name).duration == 0,
        fresh_project(name).next_clip_id == 0,
{
    let p = fresh_project(name);
    assert(p.tracks.drop_last() =~= Seq::<TrackView>::empty());
    assert(flatten(p.tracks.drop_last()) =~= Seq::<ClipView>::empty());
    assert(p.tracks.last().clips =~= Seq::<ClipView>::empty());
    assert(flatten(p.tracks) =~= Seq::<ClipView>::empty());
}

/// Every editing operation leaves the stored duration equal to the end of
/// the last clip: adding a track keeps it so, and adding, removing, moving
/// or editing a clip, removing a track, or recomputing, makes it so (a move
/// or an edit that finds no clip keeps it so).
pub proof fn lemma_duration_stays_synced(
    p: ProjectView,
    name: Seq<char>,
    file_path: Option<Seq<char>>,
    label: Seq<char>,
    start_time: i64,
    duration: i64,
    media_type: MediaType,
    ti: usize,
    id: u64,
    start: Option<i64>,
    new_duration: Option<i64>,
    in_point: Option<i64>,
    out_point: Option<i64>,
    index: usize,
)
    requires
        p.duration_synced(),
    ensures
        p.with_track(name).duration_synced(),
        p.with_clip(file_path, label, start_time, duration, media_type, ti).duration_synced(),
        p.without_clip(id).duration_synced(),
        p.moved(id, ti).0.duration_synced(),
        p.with_edit(id, start, new_duration, in_point, out_point).0.duration_synced(),
        p.without_track(index).duration_synced(),
        p.synced().duration_synced(),
{
    let q = p.with_track(name);
    assert(q.tracks.drop_last() =~= p.tracks);
    assert(flatten(q.tracks) =~= flatten(p.tracks));
    lemma_duration_nonneg(flatten(p.tracks));
    let c = new_clip_view(file_path, label, start_time, duration, media_type, ti, p.next_clip_id);
    lemma_duration_nonneg(flatten(tracks_push_clip(p.tracks, ti as int, c)));
    lemma_duration_nonneg(flatten(renumbered(kept_tracks(p.tracks, index))));
    if let Some((t, k)) = clip_location(p.tracks, id) {
        let removed = tracks_remove_clip(p.tracks, t, k);
        lemma_duration_nonneg(flatten(removed));
        let e = edited_clip_view(p.tracks[t].clips[k], start, new_duration, in_point, out_point);
        lemma_duration_nonneg(flatten(tracks_set_clip(p.tracks, t, k, e)));
        let cm = ClipView { track_idx: ti, ..p.tracks[t].clips[k] };
        lemma_duration_nonneg(flatten(tracks_push_clip(removed, ti as int, cm)));
    }
}

/// Adding a clip to a track that does not exist stores nothing but still
/// uses up an id: the tracks stay as they were, the id is not found, and the
/// next clip gets the following id.
pub proof fn lemma_add_clip_missing_track(
    p: ProjectView,
    file_path: Option<Seq<char>>,
    label: Seq<char>,
    start_time: i64,
    duration: i64,
    media_type: MediaType,
    ti: usize,
)
    requires
        p.wf(),
        p.next_clip_id < u64::MAX,
        ti >= p.tracks.len(),
    ensures
        ({
            let q = p.with_clip(file_path, label, start_time, duration, media_type, ti);
            &&& q.tracks == p.tracks
            &&& q.find(p.next_clip_id) is None
            &&& q.next_clip_id == p.next_clip_id + 1
        }),
{
    lemma_add_clip_wf(p, file_path, label, start_time, duration, media_type, ti);
}

/// The playback position stays within the project: never before 0 and never
/// past the duration (which a project keeps non-negative).
pub proof fn lemma_position_within(pos: int, duration: int)
    requires
        duration >= 0,
    ensures
        0 <= clamp_position(pos, duration) <= duration,
        0 <= pos <= duration ==> clamp_position(pos, duration) == pos,
        pos < 0 ==> clamp_position(pos, duration) == 0,
        pos > duration ==> clamp_position(pos, duration) == duration,
{
}

/// A synced project's duration is never negative.
pub proof fn lemma_duration_nonneg(cs: Seq<ClipView>)
    ensures
        0 <= max_end(cs) <= i64::MAX,
    decreases cs.len(),
{
    if cs.len() > 0 {
        lemma_duration_nonneg(cs.drop_last());
    }
}


// ---------------------------------------------------------------------------
// The duration as the latest clip end

/// The stored duration is the latest end (start plus length, saturated) of
/// any clip of any track, or 0 when no clip ends after 0.
pub open spec fn duration_is_latest_end(q: ProjectView) -> bool {
    &&& q.duration >= 0
    &&& forall|t: int, k: int| 0 <= t < q.tracks.len() && 0 <= k < q.tracks[t].clips.len()
        ==> q.duration >= sat_i64(#[trigger] q.tracks[t].clips[k].start_time + q.tracks[t].clips[k].duration)
    &&& q.duration == 0 || exists|t: int, k: int| 0 <= t < q.tracks.len() && 0 <= k < q.tracks[t].clips.len()
        && q.duration == sat_i64(#[trigger] q.tracks[t].clips[k].start_time + q.tracks[t].clips[k].duration)
}

proof fn lemma_max_end_bounds(cs: Seq<ClipView>) -> (w: int)
    ensures
        forall|i: int| 0 <= i < cs.len() ==> max_end(cs) >= sat_i64(#[trigger] cs[i].start_time + cs[i].duration),
        max_end(cs) >= 0,
        max_end(cs) == 0 || (0 <= w < cs.len() && max_end(cs) == sat_i64(cs[w].start_time + cs[w].duration)),
    decreases cs.len(),
{
    if cs.len() == 0 {
        0
    } else {
        let d = cs.drop_last();
        let w0 = lemma_max_end_bounds(d);
        assert forall|i: int| 0 <= i < cs.len() implies max_end(cs) >= sat_i64(#[trigger] cs[i].start_time + cs[i].duration) by {
            if i < d.len() {
                assert(cs[i] == d[i]);
            }
        }
        if clip_end(cs.last()) > max_end(d) {
            cs.len() - 1
        } else {
            if max_end(d) != 0 {
                assert(cs[w0] == d[w0]);
            }
            w0
        }
    }
}

proof fn lemma_flatten_has(ts: Seq<TrackView>, t: int, k: int) -> (i: int)
    requires
        0 <= t < ts.len(),
        0 <= k < ts[t].clips.len(),
    ensures
        0 <= i < flatten(ts).len(),
        flatten(ts)[i] == ts[t].clips[k],
    decreases ts.len(),
{
    let d = ts.drop_last();
    if t == ts.len() - 1 {
        flatten(d).len() + k
    } else {
        let i = lemma_flatten_has(d, t, k);
        assert(d[t] == ts[t]);
        i
    }
}

proof fn lemma_flatten_from(ts: Seq<TrackView>, i: int) -> (tk: (int, int))
    requires
        0 <= i < flatten(ts).len(),
    ensures
        0 <= tk.0 < ts.len(),
        0 <= tk.1 < ts[tk.0].clips.len(),
        flatten(ts)[i] == ts[tk.0].clips[tk.1],
    decreases ts.len(),
{
    let d = ts.drop_last();
    if i < flatten(d).len() {
        let (t, k) = lemma_flatten_from(d, i);
        assert(d[t] == ts[t]);
        (t, k)
    } else {
        ((ts.len() - 1) as int, i - flatten(d).len())
    }
}

/// Tracks whose duration is computed from their clips get the latest clip end.
proof fn lemma_tracks_duration_latest(q: ProjectView)
    requires
        q.duration == tracks_duration(q.tracks),
    ensures
        duration_is_latest_end(q),
{
    let f = flatten(q.tracks);
    let w = lemma_max_end_bounds(f);
    assert forall|t: int, k: int| 0 <= t < q.tracks.len() && 0 <= k < q.tracks[t].clips.len()
        implies q.duration >= sat_i64(#[trigger] q.tracks[t].clips[k].start_time + q.tracks[t].clips[k].duration) by {
        let i = lemma_flatten_has(q.tracks, t, k);
        assert(f[i] == q.tracks[t].clips[k]);
    }
    if q.duration != 0 {
        let (t, k) = lemma_flatten_from(q.tracks, w);
        assert(q.duration == sat_i64(q.tracks[t].clips[k].start_time + q.tracks[t].clips[k].duration));
    }
}

/// After every operation that recomputes it (adding, removing, moving or
/// editing a clip, removing a track, or recomputing outright), the duration
/// is at least the end of every clip of every track and equals one of those
/// ends, or 0. A move or an edit that finds no clip keeps a duration that was
/// so.
pub proof fn lemma_duration_latest_end(
    p: ProjectView,
    file_path: Option<Seq<char>>,
    label: Seq<char>,
    start_time: i64,
    duration: i64,
    media_type: MediaType,
    ti: usize,
    id: u64,
    start: Option<i64>,
    new_duration: Option<i64>,
    in_point: Option<i64>,
    out_point: Option<i64>,
    index: usize,
)
    ensures
        duration_is_latest_end(p.synced()),
        duration_is_latest_end(p.with_clip(file_path, label, start_time, duration, media_type, ti)),
        duration_is_latest_end(p.without_track(index)),
        duration_is_latest_end(p) ==> duration_is_latest_end(p.without_clip(id)),
        duration_is_latest_end(p) ==> duration_is_latest_end(p.moved(id, ti).0),
        duration_is_latest_end(p) ==> duration_is_latest_end(p.with_edit(id, start, new_duration, in_point, out_point).0),
{
    lemma_duration_nonneg(flatten(p.tracks));
    lemma_tracks_duration_latest(p.synced());
    let c = new_clip_view(file_path, label, start_time, duration, media_type, ti, p.next_clip_id);
    lemma_duration_nonneg(flatten(tracks_push_clip(p.tracks, ti as int, c)));
    lemma_tracks_duration_latest(p.with_clip(file_path, label, start_time, duration, media_type, ti));
    let kt = renumbered(kept_tracks(p.tracks, index));
    lemma_duration_nonneg(flatten(kt));
    lemma_tracks_duration_latest(p.without_track(index));
    if let Some((t, k)) = clip_location(p.tracks, id) {
        let removed = tracks_remove_clip(p.tracks, t, k);
        lemma_duration_nonneg(flatten(removed));
        lemma_tracks_duration_latest(p.without_clip(id));
        let e = edited_clip_view(p.tracks[t].clips[k], start, new_duration, in_point, out_point);
        lemma_duration_nonneg(flatten(tracks_set_clip(p.tracks, t, k, e)));
        lemma_tracks_duration_latest(p.with_edit(id, start, new_duration, in_point, out_point).0);
        if ti < p.tracks.len() {
            let cm = ClipView { track_idx: ti, ..p.tracks[t].clips[k] };
            lemma_duration_nonneg(flatten(tracks_push_clip(removed, ti as int, cm)));
            lemma_tracks_duration_latest(p.moved(id, ti).0);
        }
    }
}

/// Editing a clip's times from the properties panel: the clip keeps its id
/// and takes a given start. When an in or an out point is given, the length
/// becomes the out point minus the in point, the in point is not below 0 and
/// a given out point is not before the in point. A length given alone is at
/// least 10 ms and puts the out point that far after the in point. Fields
/// given nothing for stay as they were.
pub proof fn lemma_edit_clip_fields(
    p: ProjectView,
    id: u64,
    start: Option<i64>,
    duration: Option<i64>,
    in_point: Option<i64>,
    out_point: Option<i64>,
)
    requires
        p.find(id) is Some,
    ensures
        ({
            let (t, k) = clip_location(p.tracks, id)->0;
            let before = p.tracks[t].clips[k];
            let c = p.with_edit(id, start, duration, in_point, out_point).0.tracks[t].clips[k];
            &&& c.id == id
            &&& c.label == before.label
            &&& c.start_time == (match start { Some(v) => v, None => before.start_time })
            &&& (in_point is Some || out_point is Some) ==> c.duration == sat_i64(c.out_point - c.in_point)
            &&& (in_point matches Some(i) ==> c.in_point == (if i > 0 { i } else { 0 }))
            &&& (in_point is None ==> c.in_point == before.in_point)
            &&& (out_point matches Some(o) ==> c.out_point == (if o > c.in_point { o } else { c.in_point }))
            &&& (in_point is None && out_point is None) ==> (duration matches Some(d) ==> {
                &&& c.duration == (if d > 10_000 { d } else { 10_000 })
                &&& c.out_point == sat_i64(c.in_point + c.duration)
            })
            &&& (duration is None && in_point is None && out_point is None) ==> {
                &&& c.duration == before.duration
                &&& c.out_point == before.out_point
            }
        }),
{
    lemma_clip_location_bounds(p.tracks, id);
}

/// Adding a track appends one track with the given name, visible, unlocked
/// and without clips, whose index is its position; the tracks before it and
/// the rest of the project stay as they were.
pub proof fn lemma_add_track_shape(p: ProjectView, name: Seq<char>)
    requires
        p.tracks.len() < usize::MAX,
    ensures
        ({
            let q = p.with_track(name);
            let n = p.tracks.len();
            &&& q.tracks.len() == n + 1
            &&& forall|i: int| 0 <= i < n ==> #[trigger] q.tracks[i] == p.tracks[i]
            &&& q.tracks[n as int].name == name
            &&& q.tracks[n as int].index == n
            &&& q.tracks[n as int].visible
            &&& !q.tracks[n as int].locked
            &&& q.tracks[n as int].clips.len() == 0
            &&& q.duration == p.duration
            &&& q.next_clip_id == p.next_clip_id
            &&& q.name == p.name
            &&& q.settings == p.settings
        }),
{
}

} // verus!
