use lym::media::FrameRate;
use lym::utils::file::{extension_lower, is_video_file, stem};
use lym::utils::time::{format_duration, frame_to_timecode, parse_duration};

const SEC: i64 = 1_000_000;

#[test]
fn test_format_duration() {
    assert_eq!(format_duration(0), "0:00");
    assert_eq!(format_duration(65 * SEC), "1:05");
    assert_eq!(format_duration(3661 * SEC), "1:01:01");
}

#[test]
fn test_parse_duration() {
    assert_eq!(parse_duration("1:05"), Some(65 * SEC));
    assert_eq!(parse_duration("0:00"), Some(0));
    assert_eq!(parse_duration("1:01:01"), Some(3661 * SEC));
    assert_eq!(parse_duration("abc"), None);
}

#[test]
fn format_duration_rounds_half_seconds_away_from_zero() {
    assert_eq!(format_duration(1_499_999), "0:01");
    assert_eq!(format_duration(1_500_000), "0:02");
    assert_eq!(format_duration(59_600_000), "1:00");
    assert_eq!(format_duration(-1_500_000), "0:-2");
}

#[test]
fn format_duration_negative_fields() {
    assert_eq!(format_duration(-65 * SEC), "-1:-5");
}

#[test]
fn format_duration_large_values() {
    assert_eq!(format_duration(36_000 * SEC), "10:00:00");
    assert_eq!(format_duration(3599 * SEC), "59:59");
    assert_eq!(format_duration(i64::MAX), "2562047788:00:55");
}

#[test]
fn parse_duration_fractions_and_signs() {
    assert_eq!(parse_duration("0:01.5"), Some(1_500_000));
    assert_eq!(parse_duration("1.5:00"), Some(90 * SEC));
    assert_eq!(parse_duration("-1:00"), Some(-60 * SEC));
    assert_eq!(parse_duration("+0:07"), Some(7 * SEC));
    assert_eq!(parse_duration("0:00.0000019"), Some(1));
}

#[test]
fn parse_duration_rejects_other_shapes() {
    assert_eq!(parse_duration(""), None);
    assert_eq!(parse_duration("5"), None);
    assert_eq!(parse_duration("1:2:3:4"), None);
    assert_eq!(parse_duration("1::2"), None);
    assert_eq!(parse_duration("a:00"), None);
    assert_eq!(parse_duration("1:."), None);
    assert_eq!(parse_duration("99999999999999:00"), None);
}

#[test]
fn format_then_parse_gives_the_rounded_duration() {
    for us in [0i64, 999_999, 65 * SEC, 3661 * SEC + 400_000, 86_399 * SEC, 123_456_789_012] {
        let text = format_duration(us);
        let rounded = (us + 500_000) / SEC * SEC;
        assert_eq!(parse_duration(&text), Some(rounded), "{}", text);
    }
}

#[test]
fn frame_to_timecode_uses_the_frame_rate() {
    let thirty = FrameRate { num: 30, den: 1 };
    assert_eq!(frame_to_timecode(0, thirty), "0:00");
    assert_eq!(frame_to_timecode(90, thirty), "0:03");
    assert_eq!(frame_to_timecode(45, thirty), "0:02");
    let ntsc = FrameRate { num: 30000, den: 1001 };
    assert_eq!(frame_to_timecode(1800, ntsc), "1:00");
    assert_eq!(frame_to_timecode(108_000, ntsc), "1:00:04");
}

#[test]
fn frame_to_timecode_with_a_zero_rate() {
    let zero = FrameRate { num: 0, den: 1 };
    assert_eq!(frame_to_timecode(0, zero), "0:00");
}

#[test]
fn stem_and_extension_of_paths() {
    assert_eq!(stem("/home/user/movie.MP4"), Some("movie".to_string()));
    assert_eq!(extension_lower("/home/user/movie.MP4"), Some("mp4".to_string()));
    assert_eq!(stem("archive.tar.gz"), Some("archive.tar".to_string()));
    assert_eq!(extension_lower("archive.tar.gz"), Some("gz".to_string()));
    assert_eq!(stem(".bashrc"), Some(".bashrc".to_string()));
    assert_eq!(extension_lower(".bashrc"), None);
    assert_eq!(stem("dir/sub/"), Some("sub".to_string()));
    assert_eq!(stem("dir/.."), None);
    assert_eq!(stem(""), None);
    assert_eq!(stem("name."), Some("name".to_string()));
    assert_eq!(extension_lower("name."), Some("".to_string()));
}

#[test]
fn stem_and_extension_agree_with_std_path() {
    let paths = [
        "a/b/c.txt", "c", "/", "", ".", "..", "a/./", "a/b/..", "x.y.z", ".hidden", "..two",
        "dir/file.", "a//b.C", "日本語/動画.MOV", "trailing/.", "a/b.c/", "./rel.mkv",
    ];
    for p in paths {
        let sp = std::path::Path::new(p);
        let want_stem = sp.file_stem().and_then(|s| s.to_str()).map(|s| s.to_string());
        let want_ext = sp.extension().and_then(|s| s.to_str()).map(|s| s.to_lowercase());
        assert_eq!(stem(p), want_stem, "stem of {:?}", p);
        assert_eq!(extension_lower(p), want_ext, "extension of {:?}", p);
        if let (Some(s), Some(e)) = (stem(p), sp.extension().and_then(|s| s.to_str())) {
            let name = sp.file_name().and_then(|s| s.to_str()).unwrap();
            assert_eq!(format!("{}.{}", s, e), name);
        }
    }
}

#[test]
fn video_files_by_extension() {
    for p in ["a.mp4", "b.MOV", "c.avi", "d.mkv", "e.webm", "f.wmv", "g.flv", "h.ts", "i.M4V", "j.mpg", "k.mpeg"] {
        assert!(is_video_file(p), "{}", p);
    }
    for p in ["a.mp3", "b", ".mp4", "c.mp4.txt", "mp4", "d.mp", "dir.mp4/"] {
        assert_eq!(is_video_file(p), p == "dir.mp4/", "{}", p);
    }
}

#[test]
fn parse_duration_with_exponents() {
    assert_eq!(parse_duration("1e1:00"), Some(600 * SEC));
    assert_eq!(parse_duration("0:1.5e1"), Some(15 * SEC));
    assert_eq!(parse_duration("1:0:2E1"), Some(3620 * SEC));
}
