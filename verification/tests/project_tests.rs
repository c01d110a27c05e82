use audiosync_core::models::SyncConfig;
use audiosync_core::models::Track;
use audiosync_core::project::version_supported;
use audiosync_core::project::ProjectFile;
use audiosync_core::project::PROJECT_VERSION;

#[test]
fn test_project_record() {
    let p = ProjectFile::new(
        vec![Track::new("Test".into())],
        SyncConfig::default(),
        None,
        "3.1.1".into(),
        "now".into(),
    );
    assert_eq!(p.version, PROJECT_VERSION);
    assert_eq!(p.tracks.len(), 1);
    assert_eq!(p.tracks[0].name, "Test");
}

#[test]
fn test_version_rule() {
    assert!(version_supported(PROJECT_VERSION));
    assert!(version_supported(1));
    assert!(!version_supported(PROJECT_VERSION + 1));
}

#[test]
fn test_cloud_config_default() {
    let c = audiosync_core::cloud::CloudConfig::default();
    assert_eq!(c.endpoint, "https://api.audiosync.pro");
    assert!(c.api_key.is_none());
}
