use audiosync_core::files::is_audio_file;
use audiosync_core::files::is_supported_file;
use audiosync_core::files::is_video_file;
use audiosync_core::files::sanitize_filename;

#[test]
fn test_is_audio_file() {
    assert!(is_audio_file("test.wav"));
    assert!(is_audio_file("path/to/file.MP3"));
    assert!(is_audio_file("file.flac"));
    assert!(is_audio_file("file.aiff"));
    assert!(!is_audio_file("file.mp4"));
    assert!(!is_audio_file("file.txt"));
    assert!(!is_audio_file(""));
}

#[test]
fn test_is_video_file() {
    assert!(is_video_file("test.mp4"));
    assert!(is_video_file("path/to/file.MOV"));
    assert!(is_video_file("file.mkv"));
    assert!(!is_video_file("file.wav"));
    assert!(!is_video_file("file.txt"));
}

#[test]
fn test_is_supported_file() {
    assert!(is_supported_file("test.wav"));
    assert!(is_supported_file("test.mp4"));
    assert!(!is_supported_file("test.txt"));
    assert!(!is_supported_file("test.pdf"));
}

#[test]
fn test_extension_edge_cases() {
    assert!(!is_audio_file(".wav"));
    assert!(!is_audio_file("wav"));
    assert!(is_audio_file("dir.mp4/file.ogg"));
    assert!(is_audio_file("a.b.opus"));
}

#[test]
fn test_sanitize_filename_replaces_specials() {
    assert_eq!(sanitize_filename("My Track (1).wav"), "My_Track__1_.wav");
    assert_eq!(sanitize_filename("ok_name-2.flac"), "ok_name-2.flac");
}
