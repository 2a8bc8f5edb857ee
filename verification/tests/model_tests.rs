use lym::media::{FrameRate, MediaType, PlaybackState};
use lym::preview::{fit_size, PreviewState};
use lym::project;
use lym::voice::{VoiceEngine, VoiceParams, VoiceResult};

#[test]
fn media_type_labels_and_colors() {
    assert_eq!(MediaType::Video.label(), "映像");
    assert_eq!(MediaType::Audio.label(), "音声");
    assert_eq!(MediaType::Text.label(), "テキスト");
    assert_eq!(MediaType::Effect.label(), "エフェクト");
    assert_eq!(MediaType::Video.default_color(), 0x4682B4);
    assert_eq!(MediaType::Audio.default_color(), 0x40C040);
    assert_eq!(MediaType::Text.default_color(), 0xDAA520);
    assert_eq!(MediaType::Effect.default_color(), 0xCD5C5C);
    assert_ne!(PlaybackState::Playing, PlaybackState::Paused);
}

#[test]
fn thirty_frames_per_second() {
    assert_eq!(FrameRate::thirty(), FrameRate { num: 30, den: 1 });
}

#[test]
fn fit_keeps_the_aspect_ratio() {
    assert_eq!(fit_size(1920, 1080, 640, 480), (640, 360));
    assert_eq!(fit_size(1080, 1920, 640, 480), (270, 480));
    assert_eq!(fit_size(100, 100, 300, 300), (300, 300));
    assert_eq!(fit_size(3, 1, 10, 10), (10, 3));
    assert_eq!(fit_size(u32::MAX, 1, u32::MAX, u32::MAX), (u32::MAX, 1));
}

#[test]
fn preview_takes_and_clears_pictures() {
    let mut p = PreviewState::new();
    assert!(!p.has_image());
    assert_eq!(p.image_dimensions(), (0, 0));
    assert_eq!(p.update_frame(&vec![1, 2, 3], 0, 5, 640, 480), None);
    assert!(!p.has_image());
    assert_eq!(p.update_frame(&vec![9; 12], 2, 2, 0, 480), None);
    assert_eq!(p.image_dimensions(), (2, 2));
    assert!(p.has_image());
    assert_eq!(p.update_frame(&vec![7; 6 * 4 * 3], 6, 4, 300, 300), Some((300, 200)));
    assert_eq!(p.image_dimensions(), (6, 4));
    p.clear();
    assert_eq!(p.image_dimensions(), (0, 0));
    assert!(!p.has_image());
}

#[test]
fn new_project_file() {
    let p = project::Project::new("動画1");
    assert_eq!(p.name, "動画1");
    assert_eq!(p.version, "0.1.0");
    assert!(p.timeline.clips.is_empty());
    assert_eq!(p.timeline.duration, 0);
    assert_eq!(p.settings, project::ProjectSettings { width: 1280, height: 720, fps: FrameRate { num: 30, den: 1 } });
    let d = project::Project::default();
    assert_eq!(d.name, "新規プロジェクト");
}

#[test]
fn voice_defaults() {
    let v = VoiceParams::default();
    assert_eq!(v, VoiceParams { pitch: 1000, speed: 1000, volume: 1000 });
    assert_ne!(VoiceEngine::AquesTalk, VoiceEngine::VoiceVox);
    let r = VoiceResult { wav_data: vec![0, 1], sample_rate: 44100, duration: 500_000 };
    assert_eq!(r.wav_data.len(), 2);
}
