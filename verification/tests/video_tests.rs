use lym::media::FrameRate;
use lym::video::{
    parse_fps, parse_fraction, seconds_arg, FrameError, ProbeError, ProbeOutput, ProbeStream,
    VideoDecoder, VideoInfo,
};

fn stream(kind: &str) -> ProbeStream {
    ProbeStream {
        codec_type: Some(kind.to_string()),
        codec_name: None,
        width: None,
        height: None,
        r_frame_rate: None,
        avg_frame_rate: None,
        duration: None,
        nb_frames: None,
    }
}

fn ntsc() -> FrameRate {
    FrameRate { num: 30_000_000_000, den: 1_001_000_000 }
}

fn info(width: u32, height: u32, fps: FrameRate) -> VideoInfo {
    VideoInfo { width, height, fps, total_frames: 0, duration: 0, codec_name: "h264".to_string() }
}

#[test]
fn fractions() {
    assert_eq!(parse_fraction("30000/1001"), Some(ntsc()));
    assert_eq!(parse_fraction("25/1"), Some(FrameRate { num: 25_000_000, den: 1_000_000 }));
    assert_eq!(parse_fraction("-30/-1"), Some(FrameRate { num: 30_000_000, den: 1_000_000 }));
    assert_eq!(parse_fraction("30/-2"), Some(FrameRate { num: -30_000_000, den: 2_000_000 }));
    assert_eq!(parse_fraction("0/0"), None);
    assert_eq!(parse_fraction("30"), None);
    assert_eq!(parse_fraction("1/2/3"), None);
    assert_eq!(parse_fraction("a/1"), None);
    assert_eq!(parse_fraction("23.976/1"), Some(FrameRate { num: 23_976_000, den: 1_000_000 }));
}

#[test]
fn fps_prefers_the_real_rate_then_the_average_then_thirty() {
    let mut st = stream("video");
    assert_eq!(parse_fps(&st), FrameRate { num: 30, den: 1 });
    st.avg_frame_rate = Some("24/1".to_string());
    assert_eq!(parse_fps(&st), FrameRate { num: 24_000_000, den: 1_000_000 });
    st.r_frame_rate = Some("0/0".to_string());
    assert_eq!(parse_fps(&st), FrameRate { num: 24_000_000, den: 1_000_000 });
    st.r_frame_rate = Some("30000/1001".to_string());
    assert_eq!(parse_fps(&st), ntsc());
}

#[test]
fn probe_without_streams_or_video() {
    let none = ProbeOutput { streams: None, format_duration: None };
    assert_eq!(VideoInfo::from_probe(&none).err(), Some(ProbeError::NoStreams));
    let audio_only = ProbeOutput { streams: Some(vec![stream("audio")]), format_duration: None };
    assert_eq!(VideoInfo::from_probe(&audio_only).err(), Some(ProbeError::NoVideoStream));
    let empty = ProbeOutput { streams: Some(vec![]), format_duration: None };
    assert_eq!(VideoInfo::from_probe(&empty).err(), Some(ProbeError::NoVideoStream));
}

#[test]
fn probe_of_a_video() {
    let mut v = stream("video");
    v.codec_name = Some("h264".to_string());
    v.width = Some(1920);
    v.height = Some(1080);
    v.r_frame_rate = Some("30000/1001".to_string());
    v.nb_frames = Some("1799".to_string());
    v.duration = Some("1.0".to_string());
    let probe = ProbeOutput { streams: Some(vec![stream("audio"), v]), format_duration: Some("60.06".to_string()) };
    let info = VideoInfo::from_probe(&probe).unwrap();
    assert_eq!((info.width, info.height), (1920, 1080));
    assert_eq!(info.fps, ntsc());
    assert_eq!(info.total_frames, 1799);
    assert_eq!(info.duration, 60_060_000);
    assert_eq!(info.codec_name, "h264");
}

#[test]
fn probe_defaults_and_derived_frame_count() {
    let mut v = stream("video");
    v.r_frame_rate = Some("30000/1001".to_string());
    v.duration = Some("60.06".to_string());
    v.nb_frames = Some("N/A".to_string());
    v.width = Some((1u64 << 32) + 5);
    let probe = ProbeOutput { streams: Some(vec![v, stream("video")]), format_duration: Some("bad".to_string()) };
    let info = VideoInfo::from_probe(&probe).unwrap();
    assert_eq!((info.width, info.height), (5, 480));
    assert_eq!(info.codec_name, "unknown");
    assert_eq!(info.duration, 60_060_000);
    assert_eq!(info.total_frames, 1800);
}

#[test]
fn probe_without_any_duration() {
    let probe = ProbeOutput { streams: Some(vec![stream("video")]), format_duration: None };
    let info = VideoInfo::from_probe(&probe).unwrap();
    assert_eq!((info.width, info.height), (640, 480));
    assert_eq!(info.fps, FrameRate { num: 30, den: 1 });
    assert_eq!(info.duration, 0);
    assert_eq!(info.total_frames, 0);
}

#[test]
fn decoder_keeps_path_and_info() {
    let d = VideoDecoder::new("/v/a.mp4".to_string(), info(4, 2, FrameRate { num: 30, den: 1 }));
    assert_eq!(d.path(), "/v/a.mp4");
    assert_eq!(d.info().width, 4);
    assert!(d.cached(0).is_none());
}

#[test]
fn frame_times() {
    let d = VideoDecoder::new("x".to_string(), info(1, 1, FrameRate { num: 30, den: 1 }));
    assert_eq!(d.frame_time(0), 0);
    assert_eq!(d.frame_time(30), 1_000_000);
    assert_eq!(d.frame_time(1), 33_333);
    assert_eq!(d.frame_time(2), 66_667);
    let n = VideoDecoder::new("x".to_string(), info(1, 1, ntsc()));
    assert_eq!(n.frame_time(1), 33_367);
    assert_eq!(n.frame_time(1800), 60_060_000);
    let z = VideoDecoder::new("x".to_string(), info(1, 1, FrameRate { num: 0, den: 1 }));
    assert_eq!(z.frame_time(3), 100_000);
    assert_eq!(n.frame_time(u64::MAX), i64::MAX);
}

#[test]
fn accepted_frames_are_cut_and_cached() {
    let mut d = VideoDecoder::new("x".to_string(), info(2, 2, ntsc()));
    let short = d.accept_frame(0, vec![0u8; 10]);
    assert_eq!(short.err(), Some(FrameError::TooShort { expected: 12, actual: 10 }));
    assert!(d.cached(0).is_none());
    let data: Vec<u8> = (0..15u8).collect();
    let (rgb, w, h) = d.accept_frame(7, data).unwrap();
    assert_eq!(rgb, (0..12u8).collect::<Vec<u8>>());
    assert_eq!((w, h), (2, 2));
    let (again, w2, h2) = d.cached(7).unwrap();
    assert_eq!(again, rgb);
    assert_eq!((w2, h2), (2, 2));
    assert!(d.cached(6).is_none());
}

#[test]
fn seek_arguments() {
    assert_eq!(seconds_arg(0), "0.000000");
    assert_eq!(seconds_arg(1_500_000), "1.500000");
    assert_eq!(seconds_arg(-250), "-0.000250");
    assert_eq!(seconds_arg(60_060_000), "60.060000");
    assert_eq!(seconds_arg(i64::MIN), "-9223372036854.775808");
}

#[test]
fn probe_text_of_ffprobe_json() {
    let text = r#"{
        "streams": [
            {"codec_type": "audio", "codec_name": "aac"},
            {"codec_type": "video", "codec_name": "h264", "width": 1920, "height": 1080,
             "r_frame_rate": "30000/1001", "avg_frame_rate": "0/0", "nb_frames": "1799"}
        ],
        "format": {"duration": "60.060000"}
    }"#;
    let info = VideoInfo::from_probe_text(text).unwrap();
    assert_eq!((info.width, info.height), (1920, 1080));
    assert_eq!(info.fps, ntsc());
    assert_eq!(info.total_frames, 1799);
    assert_eq!(info.duration, 60_060_000);
    assert_eq!(info.codec_name, "h264");
}

#[test]
fn probe_text_errors() {
    assert_eq!(VideoInfo::from_probe_text("not json").err(), Some(ProbeError::BadJson));
    assert_eq!(VideoInfo::from_probe_text("{}").err(), Some(ProbeError::NoStreams));
    assert_eq!(VideoInfo::from_probe_text(r#"{"streams": 3}"#).err(), Some(ProbeError::NoStreams));
    assert_eq!(
        VideoInfo::from_probe_text(r#"{"streams": [{"codec_type": "audio"}]}"#).err(),
        Some(ProbeError::NoVideoStream)
    );
}

#[test]
fn probe_text_ignores_fields_of_other_types() {
    let text = r#"{"streams": [{"codec_type": "video", "width": "wide", "height": -1, "duration": 12.5}]}"#;
    let info = VideoInfo::from_probe_text(text).unwrap();
    assert_eq!((info.width, info.height), (640, 480));
    assert_eq!(info.duration, 0);
}

#[test]
fn fractions_with_exponents() {
    assert_eq!(parse_fraction("3e1/1"), Some(FrameRate { num: 30_000_000, den: 1_000_000 }));
    assert_eq!(parse_fraction("3e4/1.001e3"), Some(ntsc()));
    assert_eq!(parse_fraction("1/0e5"), None);
}

#[test]
fn frames_are_cached_under_the_number_asked_for_at_any_rate() {
    let fast = FrameRate { num: 2_000_000, den: 1 };
    let mut d = VideoDecoder::new("x".to_string(), info(1, 1, fast));
    assert_eq!(d.frame_time(1), 1);
    assert_eq!(d.frame_at_time(d.frame_time(1)), 2);
    d.accept_frame(1, vec![1, 2, 3]).unwrap();
    assert_eq!(d.cached(1).unwrap().0, vec![1, 2, 3]);
    assert!(d.cached(2).is_none());
}

#[test]
fn frame_numbers_of_times() {
    let d = VideoDecoder::new("x".to_string(), info(1, 1, ntsc()));
    assert_eq!(d.frame_at_time(0), 0);
    assert_eq!(d.frame_at_time(d.frame_time(7)), 7);
    assert_eq!(d.frame_at_time(1_000_000), 30);
    assert_eq!(d.frame_at_time(-5_000_000), 0);
}
