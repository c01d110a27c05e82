use audiosync_core::models::Clip;
use audiosync_core::models::SyncConfig;
use audiosync_core::models::Track;
use audiosync_core::stitch::clip_start_at_rate;
use audiosync_core::stitch::detect_project_sample_rate;
use audiosync_core::stitch::drift_corrected_len;
use audiosync_core::stitch::export_rate;
use audiosync_core::stitch::mix_segment_bounds;
use audiosync_core::stitch::should_correct_drift;
use audiosync_core::stitch::total_output_len;

#[test]
fn test_detect_project_sample_rate() {
    let mut tracks = vec![Track::new("A".into()), Track::new("B".into())];
    let c1 = Clip::new("a.wav".into(), "a.wav".into(), 48000, 2);
    tracks[0].clips.push(c1);
    let c2 = Clip::new("b.wav".into(), "b.wav".into(), 96000, 2);
    tracks[1].clips.push(c2);
    assert_eq!(detect_project_sample_rate(&tracks), 96000);
}

#[test]
fn test_detect_project_sample_rate_empty() {
    let tracks: Vec<Track> = vec![];
    assert_eq!(detect_project_sample_rate(&tracks), 44100);
}

#[test]
fn test_detect_project_sample_rate_low_rate_clips() {
    // with clips present the auto rate is their maximum, even below 44100
    let mut tracks = vec![Track::new("A".into())];
    let c = Clip::new("a.wav".into(), "a.wav".into(), 8000, 1);
    tracks[0].clips.push(c);
    assert_eq!(detect_project_sample_rate(&tracks), 8000);
}

#[test]
fn test_export_rate_prefers_config() {
    let mut cfg = SyncConfig::default();
    cfg.export_sr = Some(22_050);
    assert_eq!(export_rate(&cfg, &vec![]), 22_050);
    cfg.export_sr = None;
    // with no clips at all the auto rate falls back to 44100
    assert_eq!(export_rate(&cfg, &vec![]), 44_100);
}

#[test]
fn test_total_output_len() {
    // 16000 analysis samples = 2 s, at 48 kHz: 96000 output samples
    assert_eq!(total_output_len(16_000, 48_000), 96_000);
}

#[test]
fn test_clip_start_clamped() {
    assert_eq!(clip_start_at_rate(-100, 8_000), 0);
    assert_eq!(clip_start_at_rate(8_000, 48_000), 48_000);
}

#[test]
fn test_mix_segment_bounds() {
    assert_eq!(mix_segment_bounds(10, 5, 100), (10, 5));
    assert_eq!(mix_segment_bounds(98, 5, 100), (98, 2));
    assert_eq!(mix_segment_bounds(100, 5, 100).1, 0);
}

#[test]
fn test_should_correct_drift() {
    let mut c = Clip::new("a.wav".into(), "a.wav".into(), 48000, 1);
    let cfg = SyncConfig::default();
    c.drift_ppm_milli = 5_000;
    c.drift_r2_milli = 900;
    assert!(should_correct_drift(&c, &cfg));
    c.drift_r2_milli = 400;
    assert!(!should_correct_drift(&c, &cfg));
    c.drift_r2_milli = 900;
    c.drift_ppm_milli = 100;
    assert!(!should_correct_drift(&c, &cfg));
}

#[test]
fn test_drift_corrected_len() {
    // +100 ppm: slightly shorter; -100 ppm: slightly longer
    let shorter = drift_corrected_len(10_000, 100_000);
    assert!(shorter < 10_000);
    assert!(shorter > 10_000 - 10);
    let longer = drift_corrected_len(10_000, -100_000);
    assert!(longer > 10_000);
    assert!(longer < 10_000 + 10);
    // zero drift keeps the length
    assert_eq!(drift_corrected_len(10_000, 0), 10_000);
}
