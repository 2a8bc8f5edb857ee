use lym::labels::{
    clip_info, parse_seconds, playback_label, position_label, project_label, seconds_field, zoom_label,
};
use lym::media::MediaType;
use lym::state::AppState;

const SEC: i64 = 1_000_000;

#[test]
fn status_bar_texts() {
    assert_eq!(project_label("新規プロジェクト"), "プロジェクト: 新規プロジェクト");
    assert_eq!(position_label(0, 0), "0:00 / 0:00");
    assert_eq!(position_label(65 * SEC, 3661 * SEC), "1:05 / 1:01:01");
    assert_eq!(zoom_label(100_000), "100%");
    assert_eq!(zoom_label(115_000), "115%");
    assert_eq!(zoom_label(132_249), "132%");
    assert_eq!(zoom_label(132_500), "132%");
    assert_eq!(zoom_label(133_500), "134%");
    assert_eq!(zoom_label(0), "0%");
}

#[test]
fn seconds_fields_have_two_decimals() {
    assert_eq!(seconds_field(0), "0.00");
    assert_eq!(seconds_field(1_234_567), "1.23");
    assert_eq!(seconds_field(1_236_000), "1.24");
    assert_eq!(seconds_field(10_000), "0.01");
    assert_eq!(seconds_field(5 * SEC), "5.00");
    assert_eq!(seconds_field(-2_340_000), "-2.34");
    assert_eq!(seconds_field(99_996_000), "100.00");
    assert_eq!(seconds_field(-1), "-0.00");
}

#[test]
fn seconds_fields_agree_with_float_formatting_off_ties() {
    for us in [0i64, 1, 9_999, 123_456, 7_654_321, -42_424_242, 3_600_000_001] {
        let want = format!("{:.2}", us as f64 / 1e6);
        assert_eq!(seconds_field(us), want, "{}", us);
    }
}

#[test]
fn reading_typed_seconds() {
    assert_eq!(parse_seconds("1.5"), Some(1_500_000));
    assert_eq!(parse_seconds("-0.25"), Some(-250_000));
    assert_eq!(parse_seconds("+3"), Some(3 * SEC));
    assert_eq!(parse_seconds(".5"), Some(500_000));
    assert_eq!(parse_seconds("2."), Some(2 * SEC));
    assert_eq!(parse_seconds("1.2345678"), Some(1_234_567));
    assert_eq!(parse_seconds(""), None);
    assert_eq!(parse_seconds("."), None);
    assert_eq!(parse_seconds("1,5"), None);
    assert_eq!(parse_seconds(" 1"), None);
    assert_eq!(parse_seconds("9999999999999"), None);
}

#[test]
fn clip_summary() {
    let mut s = AppState::new();
    s.add_numbered_track();
    let id = s.add_clip_to_timeline("オープニング", 0, SEC, MediaType::Text, 1);
    let c = s.project.find_clip(id).unwrap();
    assert_eq!(clip_info(c), "クリップ: オープニング\nタイプ: テキスト | Trk2 | ID:0");
}

#[test]
fn properties_view_without_selection() {
    let s = AppState::new();
    let v = s.properties_view();
    assert_eq!(v.slider_max, SEC);
    assert_eq!(v.slider_value, 0);
    assert_eq!(v.position, "再生位置: 0:00");
    assert!(v.clip.is_none());
}

#[test]
fn properties_view_of_the_selected_clip() {
    let mut s = AppState::new();
    let id = s.add_clip_to_timeline("a", 1_500_000, 90 * SEC, MediaType::Video, 0);
    s.set_playback_position(61 * SEC);
    s.selected_clip_id = Some(id);
    let v = s.properties_view();
    assert_eq!(v.slider_max, 91_500_000);
    assert_eq!(v.slider_value, 61 * SEC);
    assert_eq!(v.position, playback_label(61 * SEC));
    assert_eq!(v.position, "再生位置: 1:01");
    let f = v.clip.unwrap();
    assert_eq!(f.info, "クリップ: a\nタイプ: 映像 | Trk1 | ID:0");
    assert_eq!(f.start, "1.50");
    assert_eq!(f.duration, "90.00");
    assert_eq!(f.in_point, "0.00");
    assert_eq!(f.out_point, "90.00");
    s.selected_clip_id = Some(id + 1);
    assert!(s.properties_view().clip.is_none());
}

#[test]
fn reading_exponent_forms() {
    assert_eq!(parse_seconds("1e1"), Some(10 * SEC));
    assert_eq!(parse_seconds("1E1"), Some(10 * SEC));
    assert_eq!(parse_seconds("1e+2"), Some(100 * SEC));
    assert_eq!(parse_seconds("1.5E-3"), Some(1_500));
    assert_eq!(parse_seconds(".5e1"), Some(5 * SEC));
    assert_eq!(parse_seconds("1.e1"), Some(10 * SEC));
    assert_eq!(parse_seconds("-2.5e0"), Some(-2_500_000));
    assert_eq!(parse_seconds("2e-7"), Some(0));
    assert_eq!(parse_seconds("12345e-10"), Some(1));
    assert_eq!(parse_seconds("0e999999999999999999999999999"), Some(0));
    assert_eq!(parse_seconds("5e-999999999999999999999999999"), Some(0));
    assert_eq!(parse_seconds("1e1000"), None);
    assert_eq!(parse_seconds("9.2e12"), Some(9_200_000_000_000_000_000));
    assert_eq!(parse_seconds("9.3e12"), None);
    assert_eq!(parse_seconds("e5"), None);
    assert_eq!(parse_seconds("1e"), None);
    assert_eq!(parse_seconds("1e+"), None);
    assert_eq!(parse_seconds("1e2e3"), None);
    assert_eq!(parse_seconds("1e2.5"), None);
    assert_eq!(parse_seconds("inf"), None);
    assert_eq!(parse_seconds("NaN"), None);
}

#[test]
fn exponent_forms_agree_with_f64_on_exact_values() {
    for t in ["1e1", "2.5E2", "-3e-1", "+4.25e3", "7e0", ".125e1", "0.5", "1234.5678e-2"] {
        let f: f64 = t.parse().unwrap();
        assert_eq!(parse_seconds(t), Some((f * 1e6).round() as i64), "{}", t);
    }
}

#[test]
fn clip_edit_with_an_exponent() {
    let mut s = AppState::new();
    let id = s.add_clip_to_timeline("x", 0, 4 * SEC, MediaType::Video, 0);
    s.selected_clip_id = Some(id);
    assert!(s.apply_clip_edits(parse_seconds("1e1"), None, None, None));
    assert_eq!(s.project.find_clip(id).unwrap().start_time, 10 * SEC);
}
