//! What the video decoder decides: the stream information read from a probe
//! of the file, the frame rate, the time of a frame, the cached last frame,
//! and the checks on a decoded frame. Running the external decoder is left to
//! the caller.
use vstd::prelude::*;
use crate::media::FrameRate;
use crate::parse::{chars_of, micros_in, micros_of, same_text, split_on, split_ranges, u64_in, u64_of};
use crate::utils::time::{round_div, round_div_i128};

verus! {

broadcast use vstd::string::group_string_axioms;

/// One stream as the probe describes it (each field absent when the probe
/// gave none of that kind).
#[derive(Debug)]
pub struct ProbeStream {
    pub codec_type: Option<String>,
    pub codec_name: Option<String>,
    pub width: Option<u64>,
    pub height: Option<u64>,
    pub r_frame_rate: Option<String>,
    pub avg_frame_rate: Option<String>,
    pub duration: Option<String>,
    pub nb_frames: Option<String>,
}

/// The probe of a media file: its streams and the container's duration.
#[derive(Debug)]
pub struct ProbeOutput {
    pub streams: Option<Vec<ProbeStream>>,
    pub format_duration: Option<String>,
}

/// Why no stream information could be read from a probe.
#[derive(Debug, Clone, Copy, PartialEq, Eq, Structural)]
pub enum ProbeError {
    /// The probe lists no streams.
    NoStreams,
    /// None of the streams is a video stream.
    NoVideoStream,
    /// The probe's output is not JSON.
    BadJson,
}

/// Information about a video stream. The duration is in microseconds.
#[derive(Debug)]
pub struct VideoInfo {
    pub width: u32,
    pub height: u32,
    pub fps: FrameRate,
    pub total_frames: u64,
    pub duration: i64,
    pub codec_name: String,
}

pub open spec fn opt_text(o: Option<String>) -> Option<Seq<char>> {
    match o {
        Some(s) => Some(s@),
        None => None,
    }
}

/// A fraction `NUM/DEN` of two decimal numbers, as a frame rate with a
/// positive denominator; `None` unless it has exactly two parts that read as
/// numbers and a non-zero denominator. (Each part is read to the
/// microsecond; both are counted in the same unit, so the ratio is kept.)
pub open spec fn fraction_of(s: Seq<char>) -> Option<FrameRate> {
    let p = split_on(s, '/');
    if p.len() == 2 {
        match (micros_of(p[0]), micros_of(p[1])) {
            (Some(a), Some(b)) => if b == 0 {
                None
            } else if b > 0 {
                Some(FrameRate { num: a as i64, den: b as i64 })
            } else {
                Some(FrameRate { num: (-a) as i64, den: (-b) as i64 })
            },
            _ => None,
        }
    } else {
        None
    }
}

/// The frame rate of a stream: its real frame rate if that reads as a
/// fraction, else its average frame rate if that does, else 30.
pub open spec fn stream_fps(st: ProbeStream) -> FrameRate {
    let r = match opt_text(st.r_frame_rate) { Some(t) => fraction_of(t), None => None };
    let a = match opt_text(st.avg_frame_rate) { Some(t) => fraction_of(t), None => None };
    match r {
        Some(f) => f,
        None => match a {
            Some(f) => f,
            None => FrameRate { num: 30, den: 1 },
        },
    }
}

/// Reads a fraction such as `30000/1001`.
pub fn parse_fraction(s: &str) -> (r: Option<FrameRate>)
    ensures
        r == fraction_of(s@),
        r matches Some(f) ==> f.wf(),
{
    let cs = chars_of(s);
    let n = cs.len();
    assert(cs@.subrange(0, n as int) =~= s@);
    let parts = split_ranges(&cs, 0, n, '/');
    if parts.len() != 2 {
        return None;
    }
    let (a0, a1) = parts[0];
    let (b0, b1) = parts[1];
    let a = match micros_in(&cs, a0, a1) { Some(v) => v, None => return None };
    let b = match micros_in(&cs, b0, b1) { Some(v) => v, None => return None };
    if b == 0 {
        None
    } else if b > 0 {
        Some(FrameRate { num: a, den: b })
    } else {
        Some(FrameRate { num: -a, den: -b })
    }
}

fn opt_fraction(o: &Option<String>) -> (r: Option<FrameRate>)
    ensures
        r == match opt_text(*o) { Some(t) => fraction_of(t), None => None },
{
    match o {
        Some(t) => parse_fraction(t.as_str()),
        None => None,
    }
}

/// The frame rate of a stream.
pub fn parse_fps(st: &ProbeStream) -> (r: FrameRate)
    ensures
        r == stream_fps(*st),
        r.wf(),
{
    match opt_fraction(&st.r_frame_rate) {
        Some(f) => f,
        None => match opt_fraction(&st.avg_frame_rate) {
            Some(f) => f,
            None => FrameRate::thirty(),
        },
    }
}

pub open spec fn is_video(st: ProbeStream) -> bool {
    opt_text(st.codec_type) == Some("video"@)
}

/// Decimal seconds, as microseconds.
pub open spec fn seconds_of(o: Option<Seq<char>>) -> Option<int> {
    match o {
        Some(t) => micros_of(t),
        None => None,
    }
}

/// The frame count stored with a stream, read as an integer.
pub open spec fn frames_of(o: Option<Seq<char>>) -> Option<int> {
    match o {
        Some(t) => u64_of(t),
        None => None,
    }
}

/// `v` saturated to the `u64` range (as a float-to-integer cast does).
pub open spec fn sat_u64(v: int) -> int {
    if v < 0 { 0 } else if v > u64::MAX { u64::MAX as int } else { v }
}

/// The video information of a probe: the first video stream's width and
/// height (640 x 480 when absent, cut to 32 bits), frame rate, codec
/// (`unknown` when absent); the duration of the container, else of the
/// stream, else 0; the stored frame count, else the duration times the
/// frame rate, rounded.
pub open spec fn spec_video_info(
    st: ProbeStream,
    format_duration: Option<String>,
) -> (u32, u32, FrameRate, int, int, Seq<char>) {
    let fps = stream_fps(st);
    let duration = match seconds_of(opt_text(format_duration)) {
        Some(d) => d,
        None => match seconds_of(opt_text(st.duration)) {
            Some(d) => d,
            None => 0,
        },
    };
    let frames = match frames_of(opt_text(st.nb_frames)) {
        Some(n) => n,
        None => sat_u64(round_div(duration * fps.num, fps.den * 1_000_000)),
    };
    let w = match st.width { Some(v) => v, None => 640 };
    let h = match st.height { Some(v) => v, None => 480 };
    let codec = match opt_text(st.codec_name) { Some(c) => c, None => "unknown"@ };
    (w as u32, h as u32, fps, frames, duration, codec)
}

/// The position of the first video stream.
pub open spec fn first_video(ss: Seq<ProbeStream>) -> Option<int>
    decreases ss.len(),
{
    if ss.len() == 0 {
        None
    } else {
        match first_video(ss.drop_last()) {
            Some(i) => Some(i),
            None => if is_video(ss.last()) { Some((ss.len() - 1) as int) } else { None },
        }
    }
}

proof fn lemma_first_video_extend(ss: Seq<ProbeStream>, j: int)
    requires
        0 <= j <= ss.len(),
        first_video(ss.take(j)) is Some,
    ensures
        first_video(ss) == first_video(ss.take(j)),
    decreases ss.len(),
{
    if j == ss.len() {
        assert(ss.take(j) =~= ss);
    } else {
        assert(ss.drop_last().take(j) =~= ss.take(j));
        lemma_first_video_extend(ss.drop_last(), j);
    }
}

/// What reading the video information from a probe gives: `NoStreams` when
/// it lists no streams, `NoVideoStream` when none is a video stream, else the
/// information of the first video stream.
pub open spec fn probe_outcome(probe: ProbeOutput, r: Result<VideoInfo, ProbeError>) -> bool {
    match probe.streams {
        None => r == Err::<VideoInfo, ProbeError>(ProbeError::NoStreams),
        Some(streams) => match first_video(streams@) {
            Some(i) => r matches Ok(info) && info.fps.wf()
                && info.matches(spec_video_info(streams@[i], probe.format_duration)),
            None => r == Err::<VideoInfo, ProbeError>(ProbeError::NoVideoStream),
        },
    }
}

/// What ffprobe's JSON output reads as: the `streams` array (each stream's
/// `codec_type`, `codec_name`, `r_frame_rate`, `avg_frame_rate`, `duration`
/// and `nb_frames` when they are strings, `width` and `height` when they are
/// unsigned integers) and `format.duration` when it is a string; `None` when
/// the text is not JSON.
pub uninterp spec fn probe_json(text: Seq<char>) -> Option<ProbeOutput>;

/// Parses the text with `serde_json::from_str` into a `serde_json::Value`
/// and reads the probe's fields from it with `as_array`, `as_str` and
/// `as_u64`; the contract only names the result.
#[verifier::external_body]
fn parse_probe_json(text: &str) -> (r: Option<ProbeOutput>)
    ensures
        r == probe_json(text@),
{
    let v: serde_json::Value = serde_json::from_str(text).ok()?;
    let s = |x: &serde_json::Value| x.as_str().map(String::from);
    let streams = v["streams"].as_array().map(|a| a.iter().map(|t| ProbeStream {
        codec_type: s(&t["codec_type"]), codec_name: s(&t["codec_name"]),
        width: t["width"].as_u64(), height: t["height"].as_u64(),
        r_frame_rate: s(&t["r_frame_rate"]), avg_frame_rate: s(&t["avg_frame_rate"]),
        duration: s(&t["duration"]), nb_frames: s(&t["nb_frames"]),
    }).collect());
    Some(ProbeOutput { streams, format_duration: s(&v["format"]["duration"]) })
}

impl VideoInfo {
    /// Reads the video information from ffprobe's JSON output: `BadJson`
    /// when it is not JSON, else as `from_probe` reads the probe.
    pub fn from_probe_text(text: &str) -> (r: Result<VideoInfo, ProbeError>)
        ensures
            match probe_json(text@) {
                None => r == Err::<VideoInfo, ProbeError>(ProbeError::BadJson),
                Some(p) => probe_outcome(p, r),
            },
    {
        match parse_probe_json(text) {
            None => Err(ProbeError::BadJson),
            Some(p) => VideoInfo::from_probe(&p),
        }
    }

    pub open spec fn matches(self, v: (u32, u32, FrameRate, int, int, Seq<char>)) -> bool {
        &&& self.width == v.0
        &&& self.height == v.1
        &&& self.fps == v.2
        &&& self.total_frames == v.3
        &&& self.duration == v.4
        &&& self.codec_name@ == v.5
    }

    /// Reads the video information from a probe of the file: that of its
    /// first video stream.
    pub fn from_probe(probe: &ProbeOutput) -> (r: Result<VideoInfo, ProbeError>)
        ensures
            probe_outcome(*probe, r),
    {
        let streams = match &probe.streams {
            None => return Err(ProbeError::NoStreams),
            Some(s) => s,
        };
        assert(probe.streams == Some(*streams));
        let ghost ss = streams@;
        let mut i: usize = 0;
        assert(ss.take(0) =~= Seq::<ProbeStream>::empty());
        while i < streams.len()
            invariant
                i <= streams@.len(),
                ss == streams@,
                probe.streams == Some(*streams),
                first_video(ss.take(i as int)) is None,
            decreases streams@.len() - i,
        {
            assert(ss.take(i + 1).drop_last() =~= ss.take(i as int));
            assert(ss.take(i + 1).last() == ss[i as int]);
            let is_v = match &streams[i].codec_type {
                Some(t) => same_text(t.as_str(), "video"),
                None => false,
            };
            if is_v {
                proof {
                    assert(first_video(ss.take(i + 1)) == Some(i as int));
                    lemma_first_video_extend(ss, i + 1);
                }
                return Ok(info_of_stream(&streams[i], &probe.format_duration));
            }
            i = i + 1;
        }
        assert(ss.take(ss.len() as int) =~= ss);
        Err(ProbeError::NoVideoStream)
    }
}

fn seconds_in(o: &Option<String>) -> (r: Option<i64>)
    ensures
        match r {
            Some(v) => seconds_of(opt_text(*o)) == Some(v as int),
            None => seconds_of(opt_text(*o)) is None,
        },
{
    match o {
        None => None,
        Some(t) => {
            let cs = chars_of(t.as_str());
            let n = cs.len();
            assert(cs@.subrange(0, n as int) =~= t@);
            micros_in(&cs, 0, n)
        },
    }
}

fn frames_in(o: &Option<String>) -> (r: Option<u64>)
    ensures
        match r {
            Some(v) => frames_of(opt_text(*o)) == Some(v as int),
            None => frames_of(opt_text(*o)) is None,
        },
{
    match o {
        None => None,
        Some(t) => {
            let cs = chars_of(t.as_str());
            let n = cs.len();
            assert(cs@.subrange(0, n as int) =~= t@);
            u64_in(&cs, 0, n)
        },
    }
}

/// `n / d` rounded halves away from zero, saturated to `u64` (`d > 0`).
fn round_to_u64(n: i128, d: i128) -> (r: u64)
    requires
        0 < d,
        i128::MIN < n,
    ensures
        r == sat_u64(round_div(n as int, d as int)),
{
    let q = round_div_i128(n, d);
    if q < 0 { 0 } else if q > u64::MAX as i128 { u64::MAX } else { q as u64 }
}

fn info_of_stream(st: &ProbeStream, format_duration: &Option<String>) -> (info: VideoInfo)
    ensures
        info.matches(spec_video_info(*st, *format_duration)),
        info.fps.wf(),
{
    let fps = parse_fps(st);
    let duration: i64 = match seconds_in(format_duration) {
        Some(d) => d,
        None => match seconds_in(&st.duration) {
            Some(d) => d,
            None => 0,
        },
    };
    let total_frames: u64 = match frames_in(&st.nb_frames) {
        Some(n) => n,
        None => {
            proof {
                let (di, ni, dei) = (duration as int, fps.num as int, fps.den as int);
                assert(-0x8000_0000_0000_0000 * 0x8000_0000_0000_0000 <= di * ni <= 0x8000_0000_0000_0000 * 0x8000_0000_0000_0000) by (nonlinear_arith)
                    requires -0x8000_0000_0000_0000 <= di <= 0x8000_0000_0000_0000, -0x8000_0000_0000_0000 <= ni <= 0x8000_0000_0000_0000;
                assert(0 < dei * 1_000_000 <= 0x8000_0000_0000_0000 * 1_000_000) by (nonlinear_arith)
                    requires 0 < dei <= 0x8000_0000_0000_0000;
            }
            round_to_u64((duration as i128) * (fps.num as i128), (fps.den as i128) * 1_000_000)
        },
    };
    let width: u32 = match st.width { Some(v) => v as u32, None => 640 };
    let height: u32 = match st.height { Some(v) => v as u32, None => 480 };
    let codec_name = match &st.codec_name {
        Some(c) => c.clone(),
        None => String::from_str("unknown"),
    };
    VideoInfo { width, height, fps, total_frames, duration, codec_name }
}

} // verus!

verus! {

/// The time (microseconds) of frame `frame` at this rate: frame / fps when
/// the rate is positive, else frame / 30; rounded to the microsecond and
/// saturated to the `i64` range.
pub open spec fn frame_time_us(frame: int, fps: FrameRate) -> int {
    if fps.num > 0 {
        crate::state::sat_i64(round_div(frame * 1_000_000 * fps.den, fps.num as int))
    } else {
        crate::state::sat_i64(round_div(frame * 1_000_000, 30))
    }
}

/// The frame number at time `t` (microseconds): time x fps, rounded and
/// saturated to the `u64` range.
pub open spec fn frame_at(t: int, fps: FrameRate) -> int {
    sat_u64(round_div(t * fps.num, fps.den * 1_000_000))
}

/// Reading a frame's time back as a frame number gives that frame again, for
/// a positive rate under a million frames per second and a time that fits
/// in an `i64` (above that rate two frames can share a microsecond).
pub proof fn lemma_frame_time_round_trip(frame: u64, fps: FrameRate)
    requires
        0 < fps.num,
        fps.num < 1_000_000 * fps.den,
        round_div(frame * 1_000_000 * fps.den, fps.num as int) <= i64::MAX,
    ensures
        frame_at(frame_time_us(frame as int, fps), fps) == frame,
{
    let f = frame as int;
    let den = fps.den as int;
    let num = fps.num as int;
    let big = den * 1_000_000;
    assert(den > 0);
    let n = f * 1_000_000 * den;
    assert(n == f * big) by (nonlinear_arith) requires n == f * 1_000_000 * den, big == den * 1_000_000;
    assert(n >= 0) by (nonlinear_arith) requires n == f * big, f >= 0, big > 0;
    let q = n / num;
    let r = n % num;
    vstd::arithmetic::div_mod::lemma_fundamental_div_mod(n, num);
    assert(n == num * q + r);
    assert(0 <= r < num);
    let t = round_div(n, num);
    assert(t == q + if 2 * r >= num { 1int } else { 0int });
    assert(frame_time_us(f, fps) == t);
    assert(t * num == if 2 * r >= num { n + (num - r) } else { n - r }) by (nonlinear_arith)
        requires
            t == q + if 2 * r >= num { 1int } else { 0int },
            n == num * q + r;
    if 2 * r >= num {
        let x = f * big + (num - r);
        assert(t * num == x);
        vstd::arithmetic::div_mod::lemma_fundamental_div_mod_converse(x, big, f, num - r);
        assert(x >= 0);
        assert(round_div(x, big) == f);
    } else if r == 0 {
        let x = f * big;
        assert(t * num == x);
        vstd::arithmetic::div_mod::lemma_fundamental_div_mod_converse(x, big, f, 0);
        assert(round_div(x, big) == f);
    } else {
        let x = f * big - r;
        assert(t * num == x);
        assert(x == (f - 1) * big + (big - r)) by (nonlinear_arith) requires x == f * big - r;
        assert(f >= 1) by (nonlinear_arith) requires n == f * big, n == num * q + r, r > 0, big > 0, f >= 0, q >= 0, num > 0;
        vstd::arithmetic::div_mod::lemma_fundamental_div_mod_converse(x, big, f - 1, big - r);
        assert(round_div(x, big) == f);
    }
    assert(t * num == t * fps.num);
    assert(frame_at(t, fps) == sat_u64(round_div(t * fps.num, fps.den * 1_000_000)));
}

/// A decoded frame had fewer bytes than the picture needs.
#[derive(Debug, Clone, Copy, PartialEq, Eq, Structural)]
pub enum FrameError {
    TooShort { expected: usize, actual: usize },
}

/// An opened video: its information, its path, and the last frame decoded
/// (by frame number).
#[derive(Debug)]
pub struct VideoDecoder {
    info: VideoInfo,
    path: String,
    cached_frame: Option<(u64, Vec<u8>)>,
}

fn copy_bytes(v: &Vec<u8>) -> (r: Vec<u8>)
    ensures
        r@ == v@,
{
    let mut r: Vec<u8> = Vec::new();
    let mut i: usize = 0;
    while i < v.len()
        invariant
            i <= v@.len(),
            r@ == v@.take(i as int),
        decreases v@.len() - i,
    {
        r.push(v[i]);
        i = i + 1;
        assert(r@ =~= v@.take(i as int));
    }
    assert(v@.take(v@.len() as int) =~= v@);
    r
}

fn i128_to_i64_sat(v: i128) -> (r: i64)
    ensures
        r == crate::state::sat_i64(v as int),
{
    if v > i64::MAX as i128 { i64::MAX } else if v < i64::MIN as i128 { i64::MIN } else { v as i64 }
}

impl VideoDecoder {
    #[verifier::type_invariant]
    spec fn inv(self) -> bool {
        self.info.fps.wf()
    }

    pub closed spec fn spec_info(self) -> VideoInfo {
        self.info
    }

    pub closed spec fn spec_path(self) -> Seq<char> {
        self.path@
    }

    /// The frame number and bytes of the last frame decoded.
    pub closed spec fn spec_cache(self) -> Option<(u64, Seq<u8>)> {
        match self.cached_frame {
            Some((i, d)) => Some((i, d@)),
            None => None,
        }
    }

    /// A decoder for the video at `path`, described by `info`, with nothing
    /// decoded yet.
    pub fn new(path: String, info: VideoInfo) -> (d: VideoDecoder)
        requires
            info.fps.wf(),
        ensures
            d.spec_info() == info,
            d.spec_path() == path@,
            d.spec_cache() is None,
    {
        VideoDecoder { info, path, cached_frame: None }
    }

    pub fn info(&self) -> (r: &VideoInfo)
        ensures
            *r == self.spec_info(),
            r.fps.wf(),
    {
        proof { use_type_invariant(self); }
        &self.info
    }

    pub fn path(&self) -> (r: &str)
        ensures
            r@ == self.spec_path(),
    {
        self.path.as_str()
    }

    /// The cached frame, when it is frame `frame_idx`: its bytes, width and
    /// height.
    pub fn cached(&self, frame_idx: u64) -> (r: Option<(Vec<u8>, u32, u32)>)
        ensures
            match self.spec_cache() {
                Some((i, d)) if i == frame_idx => r matches Some((v, w, h))
                    && v@ == d && w == self.spec_info().width && h == self.spec_info().height,
                _ => r is None,
            },
    {
        match &self.cached_frame {
            Some((i, d)) => {
                if *i == frame_idx {
                    Some((copy_bytes(d), self.info.width, self.info.height))
                } else {
                    None
                }
            },
            None => None,
        }
    }

    /// The time (microseconds) at which frame `frame_idx` is shown.
    pub fn frame_time(&self, frame_idx: u64) -> (t: i64)
        ensures
            t == frame_time_us(frame_idx as int, self.spec_info().fps),
    {
        proof { use_type_invariant(self); }
        let fps = self.info.fps;
        if fps.num > 0 {
            let a: i128 = (frame_idx as i128) * 1_000_000;
            match a.checked_mul(fps.den as i128) {
                None => {
                    proof {
                        let ai = a as int;
                        let di = fps.den as int;
                        let ni = fps.num as int;
                        assert(ai * di >= 0) by (nonlinear_arith) requires ai >= 0, di > 0;
                        assert(ai * di > 0x7fff_ffff_ffff_ffff_ffff_ffff_ffff_ffff);
                        let q = (ai * di) / ni;
                        assert(q >= 0x1_0000_0000_0000_0000) by (nonlinear_arith)
                            requires q == (ai * di) / ni, ai * di > 0x7fff_ffff_ffff_ffff_ffff_ffff_ffff_ffff, 0 < ni <= 0x8000_0000_0000_0000;
                        assert(ai * di == frame_idx * 1_000_000 * di);
                    }
                    i64::MAX
                },
                Some(n) => {
                    proof {
                        assert(n as int == frame_idx * 1_000_000 * fps.den);
                        assert(n >= 0) by (nonlinear_arith) requires n == frame_idx * 1_000_000 * fps.den, frame_idx >= 0, fps.den > 0;
                    }
                    let q = round_div_i128(n, fps.num as i128);
                    if q > i64::MAX as i128 { i64::MAX } else { q as i64 }
                },
            }
        } else {
            let n: i128 = (frame_idx as i128) * 1_000_000;
            let q = round_div_i128(n, 30);
            i128_to_i64_sat(q)
        }
    }

    /// The number of the frame shown at time `time_us`: time x fps, rounded
    /// (the frame under which a picture decoded for a time is cached).
    pub fn frame_at_time(&self, time_us: i64) -> (f: u64)
        ensures
            f == frame_at(time_us as int, self.spec_info().fps),
    {
        proof { use_type_invariant(self); }
        let fps = self.info.fps;
        proof {
            let t = time_us as int;
            let nm = fps.num as int;
            let d = fps.den as int;
            assert(-0x8000_0000_0000_0000 * 0x8000_0000_0000_0000 <= t * nm <= 0x8000_0000_0000_0000 * 0x8000_0000_0000_0000) by (nonlinear_arith)
                requires -0x8000_0000_0000_0000 <= t <= 0x8000_0000_0000_0000, -0x8000_0000_0000_0000 <= nm <= 0x8000_0000_0000_0000;
            assert(0 < d * 1_000_000 <= 0x8000_0000_0000_0000 * 1_000_000) by (nonlinear_arith)
                requires 0 < d <= 0x8000_0000_0000_0000;
        }
        round_to_u64((time_us as i128) * (fps.num as i128), (fps.den as i128) * 1_000_000)
    }

    /// Checks a decoded picture and keeps it as the cached frame, under the
    /// frame number `frame_idx` it was decoded for: the bytes must cover
    /// `width x height` RGB pixels; extra bytes are dropped.
    pub fn accept_frame(&mut self, frame_idx: u64, data: Vec<u8>) -> (r: Result<(Vec<u8>, u32, u32), FrameError>)
        requires
            (old(self).spec_info().width as int) * (old(self).spec_info().height as int) * 3 <= u32::MAX,
        ensures
            ({
                let info = old(self).spec_info();
                let expected = (info.width as int) * (info.height as int) * 3;
                if data@.len() < expected {
                    &&& r == Err::<(Vec<u8>, u32, u32), FrameError>(FrameError::TooShort {
                        expected: expected as usize,
                        actual: data@.len() as usize,
                    })
                    &&& final(self).spec_cache() == old(self).spec_cache()
                } else {
                    &&& r matches Ok((v, w, h)) && v@ == data@.take(expected) && w == info.width && h == info.height
                    &&& final(self).spec_cache() == Some((frame_idx, data@.take(expected)))
                }
            }),
            final(self).spec_info() == old(self).spec_info(),
            final(self).spec_path() == old(self).spec_path(),
    {
        proof { use_type_invariant(&*self); }
        let width = self.info.width;
        let height = self.info.height;
        let expected = (width * height * 3) as usize;
        if data.len() < expected {
            return Err(FrameError::TooShort { expected, actual: data.len() });
        }
        let mut rgb = data;
        rgb.truncate(expected);
        self.cached_frame = Some((frame_idx, copy_bytes(&rgb)));
        Ok((rgb, width, height))
    }
}

/// Microseconds written as seconds with six decimals (as `{:.6}` writes
/// seconds).
pub open spec fn micros_text(us: int) -> Seq<char> {
    let a = if us < 0 { -us } else { us };
    let f = a % 1_000_000;
    let sign = if us < 0 { seq!['-'] } else { Seq::<char>::empty() };
    let zeros = (if f < 100_000 { seq!['0'] } else { Seq::<char>::empty() })
        + (if f < 10_000 { seq!['0'] } else { Seq::<char>::empty() })
        + (if f < 1_000 { seq!['0'] } else { Seq::<char>::empty() })
        + (if f < 100 { seq!['0'] } else { Seq::<char>::empty() })
        + (if f < 10 { seq!['0'] } else { Seq::<char>::empty() });
    sign + crate::text::decimal((a / 1_000_000) as nat) + seq!['.'] + zeros + crate::text::decimal(f as nat)
}

/// The seek time handed to the decoder: seconds with six decimals.
pub fn seconds_arg(us: i64) -> (r: String)
    ensures
        r@ == micros_text(us as int),
{
    proof {
        reveal_strlit("-");
        reveal_strlit(".");
        reveal_strlit("0");
    }
    let a = crate::text::magnitude(us);
    let f = a % 1_000_000;
    let mut r = String::new();
    if us < 0 {
        r.append("-");
    }
    crate::text::append_decimal(&mut r, (a / 1_000_000) as u128);
    r.append(".");
    if f < 100_000 { r.append("0"); }
    if f < 10_000 { r.append("0"); }
    if f < 1_000 { r.append("0"); }
    if f < 100 { r.append("0"); }
    if f < 10 { r.append("0"); }
    crate::text::append_decimal(&mut r, f as u128);
    assert(r@ =~= micros_text(us as int));
    r
}

} // verus!
