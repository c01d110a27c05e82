use audiosync_core::engine::apply_drift_measurement;
use audiosync_core::engine::apply_metadata_fallback;
use audiosync_core::engine::apply_pass1_result;
use audiosync_core::engine::apply_pass2_result;
use audiosync_core::engine::auto_select_reference;
use audiosync_core::engine::average_confidence;
use audiosync_core::engine::build_reference_from_metadata;
use audiosync_core::engine::build_sync_result;
use audiosync_core::engine::collect_clip_offsets;
use audiosync_core::engine::drift_eligible;
use audiosync_core::engine::fix_intra_track_overlaps;
use audiosync_core::engine::gap_samples;
use audiosync_core::engine::get_track_time_origin;
use audiosync_core::engine::inherit_drift_for_short_clips;
use audiosync_core::engine::normalize_timeline;
use audiosync_core::engine::select_reference_index;
use audiosync_core::engine::set_reference_flag;
use audiosync_core::engine::validate_input;
use audiosync_core::models::Clip;
use audiosync_core::models::SyncError;
use audiosync_core::models::Track;
use audiosync_core::models::Warning;

fn clip(name: &str, sample_len: usize, duration_us: i64, ct_us: Option<i64>) -> Clip {
    let mut c = Clip::new(name.into(), name.into(), 48000, 1);
    c.sample_len = sample_len;
    c.duration_us = duration_us;
    c.creation_time_us = ct_us;
    c
}

#[test]
fn test_select_reference_index_by_duration() {
    let mut tracks = vec![Track::new("Short".into()), Track::new("Long".into())];
    let mut c1 = clip("a.wav", 40_000, 5_000_000, None);
    c1.sample_len = 40_000;
    tracks[0].clips.push(c1);
    let c2 = clip("b.wav", 480_000, 60_000_000, None);
    tracks[1].clips.push(c2);
    let idx = select_reference_index(&tracks);
    assert_eq!(idx, 1, "Longer track should be reference");
}

#[test]
fn test_select_reference_user_override() {
    let mut tracks = vec![Track::new("Short".into()), Track::new("Long".into())];
    tracks[0].is_reference = true;
    tracks[0].clips.push(clip("a.wav", 0, 5_000_000, None));
    tracks[1].clips.push(clip("b.wav", 0, 60_000_000, None));
    let idx = select_reference_index(&tracks);
    assert_eq!(idx, 0, "User override should win");
}

#[test]
fn test_select_reference_by_coverage_span() {
    let mut tracks = vec![Track::new("A".into()), Track::new("B".into())];
    tracks[0].clips.push(clip("a.wav", 0, 10_000_000, Some(0)));
    tracks[1].clips.push(clip("b.wav", 0, 10_000_000, Some(0)));
    tracks[1].clips.push(clip("c.wav", 0, 10_000_000, Some(60_000_000)));
    assert_eq!(auto_select_reference(&tracks), 1);
}

#[test]
fn test_build_reference_single_clip() {
    // one two-second tone: placed at zero with reference confidence
    let mut track = Track::new("Cam".into());
    track.clips.push(clip("test.wav", 16_000, 2_000_000, None));
    let total = build_reference_from_metadata(&mut track).unwrap();
    assert_eq!(track.clips[0].timeline_offset_samples, 0);
    assert_eq!(track.clips[0].confidence_milli, 100_000);
    assert!(track.clips[0].analyzed);
    assert_eq!(total, 16_000);
}

#[test]
fn test_build_reference_metadata_gaps() {
    let mut track = Track::new("Cam".into());
    // second clip starts 3 s after the first ends (10 s long, started at 0)
    track.clips.push(clip("a.wav", 80_000, 10_000_000, Some(0)));
    track.clips.push(clip("b.wav", 80_000, 10_000_000, Some(13_000_000)));
    let total = build_reference_from_metadata(&mut track).unwrap();
    assert_eq!(track.clips[0].timeline_offset_samples, 0);
    // 80_000 samples + 3 s gap at 8 kHz
    assert_eq!(track.clips[1].timeline_offset_samples, 80_000 + 24_000);
    assert_eq!(total, 80_000 + 24_000 + 80_000);
}

#[test]
fn test_build_reference_default_gap() {
    let mut track = Track::new("Cam".into());
    track.clips.push(clip("a.wav", 8_000, 1_000_000, None));
    track.clips.push(clip("b.wav", 8_000, 1_000_000, None));
    build_reference_from_metadata(&mut track).unwrap();
    // half-second default gap = 4000 samples
    assert_eq!(track.clips[1].timeline_offset_samples, 8_000 + 4_000);
}

#[test]
fn test_build_reference_empty_track() {
    let mut track = Track::new("Cam".into());
    let r = build_reference_from_metadata(&mut track);
    assert_eq!(r, Err(SyncError::NoReferenceAudio));
}

#[test]
fn test_gap_samples_clamped() {
    // overlapping metadata clamps the gap at zero
    let a = clip("a.wav", 0, 10_000_000, Some(0));
    let b = clip("b.wav", 0, 10_000_000, Some(5_000_000));
    assert_eq!(gap_samples(&a, &b), 0);
}

#[test]
fn test_pass1_places_confident_clip() {
    let mut c = clip("t.wav", 8_000, 1_000_000, None);
    let mut warnings: Vec<Warning> = Vec::new();
    let placed = apply_pass1_result(&mut c, 800, 5_000, &mut warnings);
    assert!(placed);
    assert_eq!(c.timeline_offset_samples, 800);
    assert_eq!(c.confidence_milli, 5_000);
    assert!(c.analyzed);
    assert!(warnings.is_empty());
}

#[test]
fn test_pass1_low_confidence_warns() {
    let mut c = clip("t.wav", 8_000, 1_000_000, None);
    let mut warnings: Vec<Warning> = Vec::new();
    let placed = apply_pass1_result(&mut c, 800, 1_200, &mut warnings);
    assert!(!placed);
    assert_eq!(
        warnings,
        vec![Warning::LowConfidence { clip_name: "t.wav".into(), confidence_milli: 1_200 }]
    );
}

#[test]
fn test_pass2_accepts_only_improvement() {
    let mut c = clip("t.wav", 8_000, 1_000_000, None);
    let mut warnings: Vec<Warning> = Vec::new();
    apply_pass1_result(&mut c, 800, 1_200, &mut warnings);
    // a worse retry changes nothing
    let accepted = apply_pass2_result(&mut c, 900, 1_000, &mut warnings);
    assert!(!accepted);
    assert_eq!(c.timeline_offset_samples, 800);
    assert_eq!(warnings.len(), 1);
    // a better retry that crosses the threshold withdraws the warning
    let accepted = apply_pass2_result(&mut c, 950, 4_000, &mut warnings);
    assert!(accepted);
    assert_eq!(c.timeline_offset_samples, 950);
    assert_eq!(c.confidence_milli, 4_000);
    assert!(warnings.is_empty());
}

#[test]
fn test_metadata_fallback_places_clip() {
    // Track A origin at 1000 s, clip created at 1015 s: offset 120000
    let mut c = clip("noise.wav", 40_000, 5_000_000, Some(1_015_000_000));
    c.confidence_milli = 1_000;
    let mut warnings: Vec<Warning> = Vec::new();
    let applied = apply_metadata_fallback(&mut c, Some(1_000_000_000), &mut warnings);
    assert!(applied);
    assert_eq!(c.timeline_offset_samples, 120_000);
    assert_eq!(
        warnings,
        vec![Warning::MetadataFallback { clip_name: "noise.wav".into(), confidence_milli: 1_000 }]
    );
}

#[test]
fn test_metadata_fallback_rejects_negative() {
    let mut c = clip("n.wav", 0, 1_000_000, Some(900_000_000));
    c.confidence_milli = 0;
    let mut warnings: Vec<Warning> = Vec::new();
    let applied = apply_metadata_fallback(&mut c, Some(1_000_000_000), &mut warnings);
    assert!(!applied);
    assert_eq!(c.timeline_offset_samples, 0);
    assert!(warnings.is_empty());
}

#[test]
fn test_metadata_fallback_skips_confident() {
    let mut c = clip("n.wav", 0, 1_000_000, Some(1_001_000_000));
    c.confidence_milli = 9_000;
    let mut warnings: Vec<Warning> = Vec::new();
    assert!(!apply_metadata_fallback(&mut c, Some(1_000_000_000), &mut warnings));
}

#[test]
fn test_time_origin() {
    let mut track = Track::new("A".into());
    track.clips.push(clip("a.wav", 0, 0, Some(500)));
    track.clips.push(clip("b.wav", 0, 0, Some(200)));
    track.clips.push(clip("c.wav", 0, 0, None));
    assert_eq!(get_track_time_origin(&track), Some(200));
    let empty = Track::new("B".into());
    assert_eq!(get_track_time_origin(&empty), None);
}

#[test]
fn test_overlap_repair_sequences_clips() {
    // two 10 s clips mistakenly placed 2.5 s apart: 60000 samples overlap
    let mut track = Track::new("B".into());
    let mut c1 = clip("a.wav", 80_000, 10_000_000, Some(0));
    c1.timeline_offset_samples = 0;
    c1.confidence_milli = 9_000;
    let mut c2 = clip("b.wav", 80_000, 10_000_000, Some(12_000_000));
    c2.timeline_offset_samples = 20_000;
    c2.confidence_milli = 4_000;
    track.clips.push(c1);
    track.clips.push(c2);
    let mut warnings: Vec<Warning> = Vec::new();
    fix_intra_track_overlaps(&mut track, &mut warnings);
    // anchor is the more confident first clip; the second follows it after
    // the metadata gap of 2 s
    assert_eq!(track.clips[0].timeline_offset_samples, 0);
    assert_eq!(track.clips[1].timeline_offset_samples, 80_000 + 16_000);
    let end0 = track.clips[0].timeline_offset_samples + track.clips[0].sample_len as i128;
    assert!(end0 <= track.clips[1].timeline_offset_samples);
    assert_eq!(
        warnings,
        vec![Warning::OverlapRepaired { track_name: "B".into(), anchor_name: "a.wav".into() }]
    );
}

#[test]
fn test_overlap_repair_leaves_disjoint_clips() {
    let mut track = Track::new("B".into());
    let mut c1 = clip("a.wav", 8_000, 1_000_000, Some(0));
    c1.timeline_offset_samples = 0;
    let mut c2 = clip("b.wav", 8_000, 1_000_000, Some(2_000_000));
    c2.timeline_offset_samples = 16_000;
    track.clips.push(c1);
    track.clips.push(c2);
    let mut warnings: Vec<Warning> = Vec::new();
    fix_intra_track_overlaps(&mut track, &mut warnings);
    assert_eq!(track.clips[0].timeline_offset_samples, 0);
    assert_eq!(track.clips[1].timeline_offset_samples, 16_000);
    assert!(warnings.is_empty());
}

#[test]
fn test_normalize_shifts_negative_offsets() {
    // fallback placed a clip 5 s before zero: everything shifts by 40000
    let mut ta = Track::new("A".into());
    let mut a = clip("a.wav", 80_000, 10_000_000, None);
    a.timeline_offset_samples = 0;
    ta.clips.push(a);
    let mut tb = Track::new("B".into());
    let mut b = clip("b.wav", 40_000, 5_000_000, None);
    b.timeline_offset_samples = -40_000;
    tb.clips.push(b);
    let mut tracks = vec![ta, tb];
    let total = normalize_timeline(&mut tracks);
    assert_eq!(tracks[0].clips[0].timeline_offset_samples, 40_000);
    assert_eq!(tracks[1].clips[0].timeline_offset_samples, 0);
    assert_eq!(total, 40_000 + 80_000);
}

#[test]
fn test_normalize_keeps_nonnegative_timeline() {
    let mut ta = Track::new("A".into());
    let mut a = clip("a.wav", 16_000, 2_000_000, None);
    a.timeline_offset_samples = 100;
    ta.clips.push(a);
    let mut tracks = vec![ta];
    let total = normalize_timeline(&mut tracks);
    assert_eq!(tracks[0].clips[0].timeline_offset_samples, 100);
    assert_eq!(total, 16_100);
}

#[test]
fn test_drift_measurement_acceptance() {
    let mut c = clip("long.wav", 960_000, 120_000_000, None);
    c.analyzed = true;
    assert!(drift_eligible(&c));
    // weak fit: rejected
    assert!(!apply_drift_measurement(&mut c, 5_000, 400, 300));
    assert_eq!(c.drift_ppm_milli, 0);
    // strong fit above threshold: accepted
    assert!(apply_drift_measurement(&mut c, 5_000, 950, 300));
    assert_eq!(c.drift_ppm_milli, 5_000);
    assert_eq!(c.drift_r2_milli, 950);
    // magnitude below threshold: rejected
    let mut d = clip("short.wav", 0, 120_000_000, None);
    d.analyzed = true;
    assert!(!apply_drift_measurement(&mut d, 200, 950, 300));
}

#[test]
fn test_drift_inheritance() {
    // the long measured clip lends its drift to the short unmeasured one
    let mut ta = Track::new("A".into());
    ta.clips.push(clip("ref.wav", 0, 0, None));
    let mut tb = Track::new("B".into());
    let mut long = clip("long.wav", 960_000, 120_000_000, None);
    long.drift_ppm_milli = 5_000;
    long.drift_r2_milli = 950;
    let short = clip("short.wav", 80_000, 10_000_000, None);
    tb.clips.push(long);
    tb.clips.push(short);
    let mut tracks = vec![ta, tb];
    inherit_drift_for_short_clips(&mut tracks, 0);
    assert_eq!(tracks[1].clips[1].drift_ppm_milli, 5_000);
    assert_eq!(tracks[1].clips[1].drift_r2_milli, 950);
    assert_eq!(tracks[1].clips[0].drift_ppm_milli, 5_000);
}

#[test]
fn test_average_confidence() {
    assert_eq!(average_confidence(&vec![]), 0);
    assert_eq!(average_confidence(&vec![100_000, 3_000, 5_000]), 36_000);
}

#[test]
fn test_collect_clip_offsets() {
    let mut ta = Track::new("A".into());
    let mut a = clip("a.wav", 0, 0, None);
    a.timeline_offset_samples = 7;
    ta.clips.push(a);
    let mut b = clip("b.wav", 0, 0, None);
    b.timeline_offset_samples = 9;
    ta.clips.push(b);
    let tracks = vec![ta];
    let offsets = collect_clip_offsets(&tracks);
    assert_eq!(offsets, vec![("a.wav".to_string(), 7), ("b.wav".to_string(), 9)]);
}

#[test]
fn test_build_sync_result() {
    let mut ta = Track::new("Cam".into());
    let mut a = clip("test.wav", 16_000, 2_000_000, None);
    a.timeline_offset_samples = 0;
    a.confidence_milli = 100_000;
    ta.clips.push(a);
    let tracks = vec![ta];
    let offsets = collect_clip_offsets(&tracks);
    let result = build_sync_result(0, 16_000, offsets, &vec![100_000], Vec::new(), false);
    assert_eq!(result.reference_track_index, 0);
    assert_eq!(result.total_timeline_samples, 16_000);
    assert_eq!(result.sample_rate, 8000);
    assert_eq!(result.clip_offsets, vec![("test.wav".to_string(), 0)]);
    assert_eq!(result.avg_confidence_milli, 100_000);
    assert!(!result.drift_detected);
    assert!(result.warnings.is_empty());
}

#[test]
fn test_validate_input() {
    let empty: Vec<Track> = vec![];
    assert_eq!(validate_input(&empty), Err(SyncError::NoInput));
    let no_clips = vec![Track::new("A".into()), Track::new("B".into())];
    assert_eq!(validate_input(&no_clips), Err(SyncError::NoInput));
    let mut with_clip = vec![Track::new("A".into())];
    with_clip[0].clips.push(clip("a.wav", 8_000, 1_000_000, None));
    assert!(validate_input(&with_clip).is_ok());
}

#[test]
fn test_set_reference_flag() {
    let mut tracks = vec![Track::new("A".into()), Track::new("B".into())];
    set_reference_flag(&mut tracks, 1);
    assert!(!tracks[0].is_reference);
    assert!(tracks[1].is_reference);
}
