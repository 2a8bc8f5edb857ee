use lym::media::{FrameRate, MediaType, PlaybackState};
use lym::state::{AppState, PlaybackToggle, Project, Track};

const SEC: i64 = 1_000_000;

fn clip_ids(p: &Project) -> Vec<Vec<u64>> {
    p.tracks.iter().map(|t| t.clips.iter().map(|c| c.id).collect()).collect()
}

#[test]
fn new_project_has_one_empty_track_and_defaults() {
    let p = Project::new("テスト");
    assert_eq!(p.name, "テスト");
    assert_eq!(p.version, "0.1.0");
    assert_eq!(p.tracks.len(), 1);
    assert_eq!(p.tracks[0].name, "トラック 1");
    assert_eq!(p.tracks[0].index, 0);
    assert!(p.tracks[0].clips.is_empty());
    assert!(p.tracks[0].visible);
    assert!(!p.tracks[0].locked);
    assert_eq!(p.duration, 0);
    assert_eq!(p.settings.width, 1280);
    assert_eq!(p.settings.height, 720);
    assert_eq!(p.settings.fps, FrameRate { num: 30, den: 1 });
    assert_eq!(p.settings.sample_rate, 44100);
    assert_eq!(p.script_text, "");
    assert_eq!(p.next_clip_id(), 0);
}

#[test]
fn default_project_is_named_shinki() {
    let p = Project::default();
    assert_eq!(p.name, "新規プロジェクト");
    assert_eq!(p.tracks.len(), 1);
}

#[test]
fn track_new_is_empty_and_visible() {
    let t = Track::new("BGM", 3);
    assert_eq!(t.name, "BGM");
    assert_eq!(t.index, 3);
    assert!(t.clips.is_empty());
    assert!(t.visible && !t.locked);
}

#[test]
fn add_track_appends_with_its_position() {
    let mut p = Project::new("p");
    assert_eq!(p.add_track("音声"), 1);
    assert_eq!(p.add_track("字幕"), 2);
    assert_eq!(p.tracks[2].name, "字幕");
    assert_eq!(p.tracks[2].index, 2);
}

#[test]
fn add_clip_assigns_ids_and_updates_duration() {
    let mut p = Project::new("p");
    p.add_track("2");
    let a = p.add_clip(Some("a.mp4".to_string()), "A", 0, 5 * SEC, MediaType::Video, 0);
    let b = p.add_clip(None, "B", 3 * SEC, 4 * SEC, MediaType::Audio, 1);
    assert_eq!((a, b), (0, 1));
    assert_eq!(p.next_clip_id(), 2);
    assert_eq!(p.duration, 7 * SEC);
    let c = p.find_clip(b).unwrap();
    assert_eq!(c.label, "B");
    assert_eq!(c.start_time, 3 * SEC);
    assert_eq!(c.duration, 4 * SEC);
    assert_eq!(c.in_point, 0);
    assert_eq!(c.out_point, 4 * SEC);
    assert_eq!(c.track_idx, 1);
    assert_eq!(c.media_type, MediaType::Audio);
    assert_eq!(p.find_clip(a).unwrap().file_path, Some("a.mp4".to_string()));
}

#[test]
fn add_clip_to_a_missing_track_still_uses_an_id() {
    let mut p = Project::new("p");
    let id = p.add_clip(None, "lost", 0, SEC, MediaType::Text, 7);
    assert_eq!(id, 0);
    assert_eq!(p.next_clip_id(), 1);
    assert!(p.find_clip(id).is_none());
    assert_eq!(p.duration, 0);
}

#[test]
fn add_then_find_then_remove() {
    let mut p = Project::new("p");
    let before = clip_ids(&p);
    let id = p.add_clip(None, "x", 2 * SEC, SEC, MediaType::Effect, 0);
    assert_eq!(p.find_clip(id).unwrap().label, "x");
    let removed = p.remove_clip(id).unwrap();
    assert_eq!(removed.id, id);
    assert_eq!(clip_ids(&p), before);
    assert_eq!(p.duration, 0);
    assert!(p.remove_clip(id).is_none());
}

#[test]
fn remove_clip_recomputes_duration() {
    let mut p = Project::new("p");
    let a = p.add_clip(None, "a", 0, 10 * SEC, MediaType::Video, 0);
    p.add_clip(None, "b", 0, 4 * SEC, MediaType::Video, 0);
    p.remove_clip(a);
    assert_eq!(p.duration, 4 * SEC);
}

#[test]
fn move_clip_to_another_track() {
    let mut p = Project::new("p");
    p.add_track("2");
    let a = p.add_clip(None, "a", 0, SEC, MediaType::Video, 0);
    let b = p.add_clip(None, "b", 0, SEC, MediaType::Video, 0);
    assert!(p.move_clip_to_track(a, 1));
    assert_eq!(clip_ids(&p), vec![vec![b], vec![a]]);
    assert_eq!(p.find_clip(a).unwrap().track_idx, 1);
}

#[test]
fn move_clip_to_a_missing_track_changes_nothing() {
    let mut p = Project::new("p");
    let a = p.add_clip(None, "a", 0, 3 * SEC, MediaType::Video, 0);
    assert!(!p.move_clip_to_track(a, 5));
    assert_eq!(clip_ids(&p), vec![vec![a]]);
    assert_eq!(p.find_clip(a).unwrap().track_idx, 0);
    assert_eq!(p.duration, 3 * SEC);
    assert!(!p.move_clip_to_track(99, 0));
    assert_eq!(clip_ids(&p), vec![vec![a]]);
}

#[test]
fn move_clip_keeps_the_duration_of_all_clips() {
    let mut p = Project::new("p");
    p.add_track("2");
    let a = p.add_clip(None, "a", 0, 10 * SEC, MediaType::Video, 0);
    assert_eq!(p.duration, 10 * SEC);
    assert!(p.move_clip_to_track(a, 1));
    assert_eq!(p.duration, 10 * SEC);
}

#[test]
fn find_clip_mut_edits_in_place() {
    let mut p = Project::new("p");
    let a = p.add_clip(None, "a", 0, SEC, MediaType::Video, 0);
    if let Some(c) = p.find_clip_mut(a) {
        c.label = "renamed".to_string();
        c.start_time = 9 * SEC;
    }
    assert_eq!(p.find_clip(a).unwrap().label, "renamed");
    p.update_duration();
    assert_eq!(p.duration, 10 * SEC);
    assert!(p.find_clip_mut(42).is_none());
}

#[test]
fn remove_track_renumbers_the_rest() {
    let mut p = Project::new("p");
    p.add_track("b");
    p.add_track("c");
    p.remove_track(1);
    assert_eq!(p.tracks.len(), 2);
    assert_eq!((p.tracks[0].name.as_str(), p.tracks[0].index), ("トラック 1", 0));
    assert_eq!((p.tracks[1].name.as_str(), p.tracks[1].index), ("c", 1));
    p.remove_track(7);
    assert_eq!(p.tracks.len(), 2);
}

#[test]
fn all_clips_sorted_by_start_stably() {
    let mut p = Project::new("p");
    p.add_track("2");
    let a = p.add_clip(None, "a", 5 * SEC, SEC, MediaType::Video, 0);
    let b = p.add_clip(None, "b", 1 * SEC, SEC, MediaType::Video, 0);
    let c = p.add_clip(None, "c", 5 * SEC, SEC, MediaType::Audio, 1);
    let d = p.add_clip(None, "d", 0, SEC, MediaType::Audio, 1);
    let order: Vec<u64> = p.all_clips().iter().map(|x| x.id).collect();
    assert_eq!(order, vec![d, b, a, c]);
}

#[test]
fn update_duration_is_latest_end_and_never_negative() {
    let mut p = Project::new("p");
    p.add_clip(None, "neg", -10 * SEC, SEC, MediaType::Video, 0);
    assert_eq!(p.duration, 0);
    p.add_clip(None, "x", 2 * SEC, 3 * SEC, MediaType::Video, 0);
    assert_eq!(p.duration, 5 * SEC);
    p.add_clip(None, "huge", i64::MAX, i64::MAX, MediaType::Video, 0);
    assert_eq!(p.duration, i64::MAX);
}

#[test]
fn edit_clip_applies_the_edits_in_order() {
    let mut p = Project::new("p");
    let a = p.add_clip(None, "a", 0, 10 * SEC, MediaType::Video, 0);
    assert!(p.edit_clip(a, Some(2 * SEC), Some(1000), None, None));
    let c = p.find_clip(a).unwrap();
    assert_eq!(c.start_time, 2 * SEC);
    assert_eq!(c.duration, 10_000);
    assert_eq!(c.out_point, 10_000);
    assert_eq!(p.duration, 2 * SEC + 10_000);
    assert!(p.edit_clip(a, None, None, Some(-5), Some(3 * SEC)));
    let c = p.find_clip(a).unwrap();
    assert_eq!(c.in_point, 0);
    assert_eq!(c.out_point, 3 * SEC);
    assert_eq!(c.duration, 3 * SEC);
    assert!(p.edit_clip(a, None, None, Some(4 * SEC), None));
    let c = p.find_clip(a).unwrap();
    assert_eq!(c.in_point, 4 * SEC);
    assert_eq!(c.duration, -SEC);
    assert!(!p.edit_clip(77, Some(0), None, None, None));
}

#[test]
fn app_state_starts_stopped_at_zero() {
    let s = AppState::new();
    assert_eq!(s.project.name, "新規プロジェクト");
    assert_eq!(s.playback_state, PlaybackState::Stopped);
    assert_eq!(s.playback_position, 0);
    assert_eq!(s.zoom_level, 100_000);
    assert_eq!(s.scroll_offset, 0);
    assert!(s.selected_clip_id.is_none());
    assert!(s.selected_track_idx.is_none());
    assert!(s.project_file_path.is_none());
    assert!(!s.is_modified);
    assert!(!s.undo_stack.can_undo());
}

#[test]
fn playback_position_is_clamped_to_the_project() {
    let mut s = AppState::new();
    s.set_playback_position(5 * SEC);
    assert_eq!(s.playback_position, 0);
    s.add_clip_to_timeline("x", 0, 8 * SEC, MediaType::Video, 0);
    s.set_playback_position(5 * SEC);
    assert_eq!(s.playback_position, 5 * SEC);
    s.set_playback_position(20 * SEC);
    assert_eq!(s.playback_position, 8 * SEC);
    s.set_playback_position(-3);
    assert_eq!(s.playback_position, 0);
}

#[test]
fn selected_clip_follows_the_selection() {
    let mut s = AppState::new();
    assert!(s.selected_clip().is_none());
    let id = s.add_clip_to_timeline("x", 0, SEC, MediaType::Video, 0);
    assert!(s.is_modified);
    s.selected_clip_id = Some(id);
    assert_eq!(s.selected_clip().unwrap().label, "x");
    s.selected_clip_id = Some(id + 1);
    assert!(s.selected_clip().is_none());
}

#[test]
fn toggle_and_stop_playback() {
    let mut s = AppState::new();
    s.add_clip_to_timeline("x", 0, 8 * SEC, MediaType::Video, 0);
    s.set_playback_position(3 * SEC);
    assert_eq!(s.toggle_playback(), PlaybackToggle::Play { from: 3 * SEC });
    assert_eq!(s.playback_state, PlaybackState::Playing);
    assert_eq!(s.toggle_playback(), PlaybackToggle::Pause);
    assert_eq!(s.playback_state, PlaybackState::Paused);
    assert_eq!(s.toggle_playback(), PlaybackToggle::Play { from: 3 * SEC });
    s.stop_playback();
    assert_eq!(s.playback_state, PlaybackState::Stopped);
    assert_eq!(s.playback_position, 0);
}

#[test]
fn numbered_tracks_and_new_project() {
    let mut s = AppState::new();
    assert_eq!(s.add_numbered_track(), 2);
    assert_eq!(s.project.tracks[1].name, "トラック 2");
    assert!(s.is_modified);
    s.project_file_path = Some("/tmp/x.lym".to_string());
    s.start_new_project();
    assert_eq!(s.project.tracks.len(), 1);
    assert!(!s.is_modified);
    assert!(s.project_file_path.is_none());
}

#[test]
fn apply_clip_edits_needs_a_selection() {
    let mut s = AppState::new();
    let id = s.add_clip_to_timeline("x", 0, 4 * SEC, MediaType::Video, 0);
    s.is_modified = false;
    assert!(!s.apply_clip_edits(Some(SEC), None, None, None));
    assert!(!s.is_modified);
    s.selected_clip_id = Some(id);
    assert!(s.apply_clip_edits(Some(SEC), None, None, None));
    assert!(s.is_modified);
    assert_eq!(s.project.duration, 5 * SEC);
}

#[test]
fn remove_track_recomputes_the_duration() {
    let mut p = Project::new("p");
    p.add_track("2");
    p.add_clip(None, "a", 0, 6 * SEC, MediaType::Video, 1);
    assert_eq!(p.duration, 6 * SEC);
    p.remove_track(1);
    assert!(p.tracks[0].clips.is_empty());
    assert_eq!(p.duration, 0);
}

#[test]
fn adding_to_a_missing_track_uses_up_an_id() {
    let mut p = Project::new("p");
    let lost = p.add_clip(None, "x", 0, SEC, MediaType::Video, 3);
    assert!(p.find_clip(lost).is_none());
    assert!(p.tracks[0].clips.is_empty());
    assert_eq!(p.add_clip(None, "y", 0, SEC, MediaType::Video, 0), lost + 1);
}

#[test]
fn adding_a_track_keeps_the_duration() {
    let mut p = Project::new("p");
    p.add_clip(None, "a", SEC, 2 * SEC, MediaType::Video, 0);
    p.add_track("2");
    assert_eq!(p.duration, 3 * SEC);
}
