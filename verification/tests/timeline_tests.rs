use audiosync_core::models::Clip;
use audiosync_core::models::Track;
use audiosync_core::timeline::escape_xml;
use audiosync_core::timeline::export_edl;
use audiosync_core::timeline::format_milli1;
use audiosync_core::timeline::format_seconds6;
use audiosync_core::timeline::sanitize_edl_reel;
use audiosync_core::timeline::export_fcpxml;
use audiosync_core::timeline::seconds_to_timecode;

#[test]
fn test_timecode() {
    assert_eq!(seconds_to_timecode(0, 30_000), "00:00:00:00");
    assert_eq!(seconds_to_timecode(61_500_000, 30_000), "00:01:01:15");
}

#[test]
fn test_timecode_ndf_rate() {
    assert_eq!(seconds_to_timecode(1_000_000, 29_970), "00:00:01:00");
}

#[test]
fn test_escape_xml() {
    assert_eq!(escape_xml("a<b>c&d"), "a&lt;b&gt;c&amp;d");
}

#[test]
fn test_sanitize_reel() {
    assert_eq!(sanitize_edl_reel("CamA_001.mp4"), "CamA_001");
    assert_eq!(sanitize_edl_reel(""), "AX");
}

#[test]
fn test_format_seconds6() {
    assert_eq!(format_seconds6(0), "0.000000");
    assert_eq!(format_seconds6(1_500_000), "1.500000");
    assert_eq!(format_seconds6(125), "0.000125");
}

#[test]
fn test_format_milli1() {
    assert_eq!(format_milli1(3_100), "3.1");
    assert_eq!(format_milli1(100_000), "100.0");
}

#[test]
fn test_export_edl_single_clip() {
    let mut track = Track::new("Cam".into());
    let mut clip = Clip::new("p".into(), "a".into(), 48000, 1);
    clip.duration_us = 1_000_000;
    clip.timeline_offset_samples = 0;
    track.clips.push(clip);
    let tracks = vec![track];
    let doc = export_edl(&tracks, "T");
    let expected = "TITLE: T\nFCM: NON-DROP FRAME\n\n001  a AA/V  C        \
                    00:00:00:00 00:00:01:00 00:00:00:00 00:00:01:00\n\
                    * FROM CLIP NAME: a\n* SOURCE FILE: p\n";
    assert_eq!(doc, expected);
}

#[test]
fn test_export_fcpxml_structure() {
    let mut ta = Track::new("Cam".into());
    let mut a = Clip::new("a.wav".into(), "a&b".into(), 48000, 1);
    a.duration_us = 2_000_000;
    a.timeline_offset_samples = 0;
    ta.clips.push(a);
    let mut tb = Track::new("Mic".into());
    let mut b = Clip::new("b.wav".into(), "b".into(), 48000, 1);
    b.duration_us = 1_000_000;
    b.timeline_offset_samples = 8_000;
    tb.clips.push(b);
    let tracks = vec![ta, tb];
    let doc = export_fcpxml(&tracks, 16_000, "My Project");
    assert!(doc.starts_with("<?xml version=\"1.0\" encoding=\"UTF-8\"?>\n<!DOCTYPE fcpxml>\n"));
    assert!(doc.ends_with("</fcpxml>\n"));
    // escaped clip name in its asset resource
    assert!(doc.contains("<asset id=\"r2\" name=\"a&amp;b\" src=\"file://a.wav\""));
    assert!(doc.contains("<asset id=\"r3\" name=\"b\" src=\"file://b.wav\""));
    // the primary storyline carries the first track's clip
    assert!(doc.contains(
        "<asset-clip ref=\"r2\" name=\"a&amp;b\" offset=\"0.000000s\" duration=\"2.000000s\" start=\"0s\"/>"
    ));
    // the second track's clip is connected on lane 1 at one second
    assert!(doc.contains(
        "<asset-clip ref=\"r3\" name=\"b\" offset=\"1.000000s\" duration=\"1.000000s\" start=\"0s\" lane=\"1\"/>"
    ));
    assert!(doc.contains("duration=\"2.000000s\" tcStart=\"0s\" tcFormat=\"NDF\""));
}

#[test]
fn test_export_fcpxml_gap_insertion() {
    let mut ta = Track::new("Cam".into());
    let mut a = Clip::new("a.wav".into(), "a".into(), 48000, 1);
    a.duration_us = 1_000_000;
    a.timeline_offset_samples = 16_000; // starts two seconds in
    ta.clips.push(a);
    let tracks = vec![ta];
    let doc = export_fcpxml(&tracks, 40_000, "P");
    // dead time before the clip and after it becomes gap elements
    assert!(doc.contains(
        "<gap name=\"Gap\" offset=\"0.000000s\" duration=\"2.000000s\" start=\"3600s\"/>"
    ));
    assert!(doc.contains(
        "<gap name=\"Gap\" offset=\"3.000000s\" duration=\"2.000000s\" start=\"3600s\"/>"
    ));
}
