use audiosync_core::models::check_cancelled;
use audiosync_core::models::new_cancel_token;
use audiosync_core::models::Clip;
use audiosync_core::models::SyncConfig;
use audiosync_core::models::Track;
use audiosync_core::models::ANALYSIS_SR;

#[test]
fn test_clip_new() {
    let clip = Clip::new("test.wav".into(), "test.wav".into(), 48000, 2);
    assert_eq!(clip.sample_rate, ANALYSIS_SR);
    assert_eq!(clip.original_sr, 48000);
    assert_eq!(clip.original_channels, 2);
    assert!(!clip.analyzed);
    assert_eq!(clip.duration_us, 0);
}

#[test]
fn test_clip_length_at_sr() {
    let mut clip = Clip::new("test.wav".into(), "test.wav".into(), 48000, 1);
    clip.duration_us = 10_000_000;
    assert_eq!(clip.length_at_sr(48000), 480000);
    assert_eq!(clip.length_at_sr(44100), 441000);
}

#[test]
fn test_clip_timeline_offset_at_sr() {
    let mut clip = Clip::new("test.wav".into(), "test.wav".into(), 48000, 1);
    clip.timeline_offset_samples = 8000; // 1 s at the analysis rate
    assert_eq!(clip.timeline_offset_at_sr(48000), 48000);
}

#[test]
fn test_track_sort_clips_by_time() {
    let mut track = Track::new("Test".into());
    let mut c1 = Clip::new("a.wav".into(), "a.wav".into(), 48000, 1);
    c1.creation_time_us = Some(200_000_000);
    let mut c2 = Clip::new("b.wav".into(), "b.wav".into(), 48000, 1);
    c2.creation_time_us = Some(100_000_000);
    track.clips.push(c1);
    track.clips.push(c2);
    track.sort_clips_by_time();
    assert_eq!(track.clips[0].name, "b.wav");
    assert_eq!(track.clips[1].name, "a.wav");
}

#[test]
fn test_sync_config_defaults() {
    let cfg = SyncConfig::default();
    assert_eq!(cfg.export_format, "wav");
    assert_eq!(cfg.export_bit_depth, 24);
    assert!(cfg.drift_correction);
    assert!(!cfg.is_lossy());
}

#[test]
fn test_sync_config_lossy() {
    let mut cfg = SyncConfig::default();
    cfg.export_format = "mp3".into();
    assert!(cfg.is_lossy());
}

#[test]
fn test_cancel_token() {
    let token = new_cancel_token();
    assert!(check_cancelled(&Some(token.clone())).is_ok());
    token.store(true, std::sync::atomic::Ordering::Relaxed);
    assert!(check_cancelled(&Some(token)).is_err());
}

#[test]
fn test_check_cancelled_none() {
    assert!(check_cancelled(&None).is_ok());
}

#[test]
fn test_track_total_duration() {
    let mut track = Track::new("Test".into());
    let mut c1 = Clip::new("a.wav".into(), "a.wav".into(), 48000, 1);
    c1.duration_us = 5_000_000;
    let mut c2 = Clip::new("b.wav".into(), "b.wav".into(), 48000, 1);
    c2.duration_us = 10_000_000;
    track.clips.push(c1);
    track.clips.push(c2);
    assert_eq!(track.total_duration_us(), 15_000_000);
    assert_eq!(track.clip_count(), 2);
}

#[test]
fn test_sort_ties_break_by_name() {
    let mut track = Track::new("Test".into());
    for name in ["c.wav", "a.wav", "b.wav"] {
        let mut c = Clip::new(name.into(), name.into(), 48000, 1);
        c.creation_time_us = Some(50);
        track.clips.push(c);
    }
    track.sort_clips_by_time();
    assert_eq!(track.clips[0].name, "a.wav");
    assert_eq!(track.clips[1].name, "b.wav");
    assert_eq!(track.clips[2].name, "c.wav");
}

#[test]
fn test_subtype_labels() {
    let mut cfg = SyncConfig::default();
    cfg.export_bit_depth = 16;
    assert_eq!(cfg.subtype(), "PCM_16");
    cfg.export_bit_depth = 32;
    assert_eq!(cfg.subtype(), "FLOAT");
    cfg.export_bit_depth = 24;
    assert_eq!(cfg.subtype(), "PCM_24");
}

#[test]
fn test_request_cancel() {
    let token = audiosync_core::models::new_cancel_token();
    audiosync_core::models::request_cancel(&token);
    assert!(audiosync_core::models::check_cancelled(&Some(token)).is_err());
}
