use dart_piper_tts::audio::{
    frame_action, reports_completion, AudioPlayerCommand, AudioPlayerConfig, AudioSlot, FrameAction, Playback,
};
use dart_piper_tts::config::LanguageConfig;
use dart_piper_tts::error::TTSError;

#[test]
fn audio_config_defaults() {
    let c = AudioPlayerConfig::new(None, None);
    assert_eq!(c.sample_rate(), 22050);
    assert_eq!(c.ring_buffer_capacity(), 220500);
    let c = AudioPlayerConfig::new(Some(16000), Some(2));
    assert_eq!(c.ring_buffer_capacity(), 32000);
}

#[test]
fn frame_actions() {
    assert_eq!(frame_action(AudioPlayerCommand::Play.code(), false), FrameAction::Play);
    assert_eq!(frame_action(AudioPlayerCommand::Play.code(), true), FrameAction::Play);
    assert_eq!(frame_action(AudioPlayerCommand::Pause.code(), false), FrameAction::Silence);
    assert_eq!(frame_action(AudioPlayerCommand::Pause.code(), true), FrameAction::DrainThenSilence);
}

#[test]
fn playback_holds_last_sample_and_reports_markers() {
    let mut p = Playback::new(0.0f32);
    assert_eq!(p.play_frame(Some(AudioSlot::Sample(0.5))), (0.5, None));
    assert_eq!(p.play_frame(None), (0.5, None));
    assert_eq!(p.play_frame(Some(AudioSlot::Complete(7))), (0.5, Some(7)));
    let ports = p.drain(&vec![AudioSlot::Sample(0.2), AudioSlot::Complete(1), AudioSlot::Complete(-1)]);
    assert_eq!(ports, vec![1, -1]);
    assert_eq!(p.play_frame(None), (0.0, None));
    assert!(reports_completion(1));
    assert!(!reports_completion(-1));
}

#[test]
fn language_tag_defaults_to_english_and_uses_dashes() {
    assert_eq!(LanguageConfig { code: Some("en_US".to_string()) }.language_tag(), "en-US");
    assert_eq!(LanguageConfig { code: None }.language_tag(), "en");
}

#[test]
fn error_from_message() {
    let e = TTSError::from("boom".to_string());
    assert_eq!(e.to_string(), "boom");
    assert_eq!(e.message, "boom");
}

#[test]
fn completions_reported_once_in_queue_order() {
    // markers 3, -1, 5 queued among samples; two frames pop entries one by
    // one, then a drain empties the rest
    let queue = vec![
        AudioSlot::Sample(0.1f32),
        AudioSlot::Complete(3),
        AudioSlot::Sample(0.2),
        AudioSlot::Complete(-1),
        AudioSlot::Complete(5),
    ];
    let mut p = Playback::new(0.0f32);
    let mut reported = Vec::new();
    for slot in &queue[..2] {
        if let (_, Some(port)) = p.play_frame(Some(*slot)) {
            reported.push(port);
        }
    }
    reported.extend(p.drain(&queue[2..].to_vec()));
    assert_eq!(reported, vec![3, -1, 5]);
    let called: Vec<i64> = reported.into_iter().filter(|&port| reports_completion(port)).collect();
    assert_eq!(called, vec![3, 5]);
}

#[test]
fn audio_config_getters() {
    let c = AudioPlayerConfig::new(Some(8000), None);
    assert_eq!(c.sample_rate(), 8000);
    assert_eq!(c.buffer_duration_secs(), 10);
    assert_eq!(c.ring_buffer_capacity(), 80000);
}
