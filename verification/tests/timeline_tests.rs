use lym::media::MediaType;
use lym::state::AppState;
use lym::timeline::{
    calc_ruler_step, clip_at, clip_rects, drawing_layout, pixels, playhead_offset, pointer_layout,
    ruler_label, ruler_ticks, track_height, track_shade, Highlight, TrackShade, WheelDirection,
    HEADER_H,
};

const SEC: i64 = 1_000_000;

fn state_with_clip() -> (AppState, u64) {
    let mut s = AppState::new();
    let id = s.add_clip_to_timeline("a", SEC, 2 * SEC, MediaType::Video, 0);
    (s, id)
}

#[test]
fn pixels_scale_with_zoom_and_truncate() {
    assert_eq!(pixels(SEC as i128, 100_000), 100);
    assert_eq!(pixels(1_234_567, 100_000), 123);
    assert_eq!(pixels(-1_234_567, 100_000), -123);
    assert_eq!(pixels(SEC as i128, 0), 0);
    assert_eq!(pixels(i64::MAX as i128, 500_000), i32::MAX as i64);
    assert_eq!(pixels(i64::MIN as i128, 500_000), i32::MIN as i64);
}

#[test]
fn track_height_shares_the_area() {
    assert_eq!(track_height(200, 2), 80);
    assert_eq!(track_height(100, 0), 60);
    assert_eq!(track_height(50, 3), 20);
    assert_eq!(track_height(30, 1), 20);
    assert_eq!(track_height(1000, usize::MAX), 20);
}

#[test]
fn ruler_step_keeps_at_most_twenty_intervals() {
    assert_eq!(calc_ruler_step(1000, 100_000), 500_000);
    assert_eq!(calc_ruler_step(1000, 10_000), 5_000_000);
    assert_eq!(calc_ruler_step(10_000, 10_000), 60_000_000);
    assert_eq!(calc_ruler_step(2000, 100_000), 1_000_000);
    assert_eq!(calc_ruler_step(100_000, 10_000), 60_000_000);
    assert_eq!(calc_ruler_step(0, 0), 60_000_000);
    assert_eq!(calc_ruler_step(-5, 0), 500_000);
}

#[test]
fn ruler_labels() {
    assert_eq!(ruler_label(0), "0:00");
    assert_eq!(ruler_label(65_000_000), "1:05");
    assert_eq!(ruler_label(59 * 60 * SEC as i128 + 59 * SEC as i128), "59:59");
    assert_eq!(ruler_label(3_600_000_000), "1:00:00");
    assert_eq!(ruler_label(3_725_900_000), "1:02:05");
    assert_eq!(ruler_label(-1_500_000), "0:-1");
}

#[test]
fn ruler_ticks_cover_the_visible_span() {
    let ticks = ruler_ticks(0, 1000, 100_000);
    assert_eq!(ticks.len(), 21);
    for (k, t) in ticks.iter().enumerate() {
        assert_eq!(t.time, k as i128 * 500_000);
        assert_eq!(t.offset, k as i64 * 50);
    }
    assert_eq!(ticks[2].label, "0:01");
    let ticks = ruler_ticks(1_700_000, 100, 100_000);
    assert_eq!(ticks[0].time, 1_500_000);
    assert_eq!(ticks[0].offset, -20);
    assert_eq!(ticks.last().unwrap().time, 2_500_000);
}

#[test]
fn playhead_visible_only_in_view() {
    assert_eq!(playhead_offset(5 * SEC, 0, 1000, 100_000), Some(500));
    assert_eq!(playhead_offset(5 * SEC, 6 * SEC, 1000, 100_000), None);
    assert_eq!(playhead_offset(11 * SEC, 0, 1000, 100_000), None);
    assert_eq!(playhead_offset(10 * SEC, 0, 1000, 100_000), Some(1000));
}

#[test]
fn clip_geometry_and_hit_testing() {
    let (mut s, id) = state_with_clip();
    let l = pointer_layout(&s, 200);
    assert_eq!(l.area_top, HEADER_H);
    assert_eq!(l.track_h, 160);
    assert_eq!(clip_at(&s.project, &l, 150, 50), Some(id));
    assert_eq!(clip_at(&s.project, &l, 100, 27), Some(id));
    assert_eq!(clip_at(&s.project, &l, 300, 181), Some(id));
    assert_eq!(clip_at(&s.project, &l, 99, 50), None);
    assert_eq!(clip_at(&s.project, &l, 150, 182), None);
    assert_eq!(s.hovered_clip(200, 150, 50), Some(id));
    s.project.tracks[0].visible = false;
    assert_eq!(clip_at(&s.project, &l, 150, 50), None);
}

#[test]
fn drawn_rectangles() {
    let (mut s, id) = state_with_clip();
    s.selected_clip_id = Some(id);
    let l = drawing_layout(&s, 10, 20, 1000, 200, None);
    let rects = clip_rects(&s.project, &l);
    assert_eq!(rects.len(), 1);
    let r = rects[0];
    assert_eq!((r.clip_id, r.x, r.y, r.w, r.h), (id, 110, 47, 200, 154));
    assert_eq!(r.highlight, Highlight::Selected);
    assert!(r.show_label);
    assert_eq!(r.media_type, MediaType::Video);
    s.scroll_offset = 100 * SEC;
    let l = drawing_layout(&s, 10, 20, 1000, 200, None);
    assert!(clip_rects(&s.project, &l).is_empty());
}

#[test]
fn short_clips_get_a_minimum_width() {
    let mut s = AppState::new();
    let id = s.add_clip_to_timeline("tiny", 0, 1000, MediaType::Audio, 0);
    let l = drawing_layout(&s, 0, 0, 1000, 200, Some(id));
    let rects = clip_rects(&s.project, &l);
    assert_eq!(rects[0].w, 4);
    assert_eq!(rects[0].highlight, Highlight::Hovered);
    assert!(!rects[0].show_label);
}

#[test]
fn press_on_ruler_moves_the_playhead() {
    let (mut s, _) = state_with_clip();
    s.handle_press(200, 200, 10);
    assert_eq!(s.playback_position, 2 * SEC);
    s.handle_press(200, 900, 10);
    assert_eq!(s.playback_position, 3 * SEC);
    s.handle_press(200, -50, 10);
    assert_eq!(s.playback_position, 0);
}

#[test]
fn press_on_tracks_selects_or_clears() {
    let (mut s, id) = state_with_clip();
    s.handle_press(200, 150, 50);
    assert_eq!(s.selected_clip_id, Some(id));
    s.handle_press(200, 500, 50);
    assert_eq!(s.selected_clip_id, None);
}

#[test]
fn wheel_zooms_within_bounds() {
    let mut s = AppState::new();
    s.handle_wheel(WheelDirection::Up, false);
    assert_eq!(s.zoom_level, 115_000);
    s.handle_wheel(WheelDirection::Down, false);
    assert_eq!(s.zoom_level, 100_000);
    for _ in 0..40 {
        s.handle_wheel(WheelDirection::Up, false);
    }
    assert_eq!(s.zoom_level, 500_000);
    for _ in 0..60 {
        s.handle_wheel(WheelDirection::Down, false);
    }
    assert_eq!(s.zoom_level, 10_000);
}

#[test]
fn wheel_scrolls_never_before_zero() {
    let mut s = AppState::new();
    s.handle_wheel(WheelDirection::Up, true);
    assert_eq!(s.scroll_offset, 0);
    s.handle_wheel(WheelDirection::Right, false);
    assert_eq!(s.scroll_offset, 10 * SEC);
    s.handle_wheel(WheelDirection::Up, true);
    assert_eq!(s.scroll_offset, 9 * SEC);
    s.handle_wheel(WheelDirection::Down, true);
    assert_eq!(s.scroll_offset, 10 * SEC);
    s.handle_wheel(WheelDirection::Left, false);
    s.handle_wheel(WheelDirection::Left, false);
    assert_eq!(s.scroll_offset, 0);
    s.handle_wheel(WheelDirection::Still, false);
    assert_eq!((s.scroll_offset, s.zoom_level), (0, 100_000));
}

#[test]
fn track_shading_alternates() {
    let mut s = AppState::new();
    s.add_numbered_track();
    s.add_numbered_track();
    assert_eq!(track_shade(&s.project, 0), TrackShade::Odd);
    assert_eq!(track_shade(&s.project, 1), TrackShade::Even);
    s.project.tracks[2].locked = true;
    assert_eq!(track_shade(&s.project, 2), TrackShade::Locked);
    assert_eq!(track_shade(&s.project, 7), TrackShade::Even);
}
