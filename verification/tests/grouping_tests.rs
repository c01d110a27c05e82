use audiosync_core::grouping::device_key;
use audiosync_core::grouping::group_files_by_device;

#[test]
fn test_group_gopro_files() {
    let files = vec!["GH010045.MP4".to_string(), "GH010046.MP4".to_string()];
    let groups = group_files_by_device(&files);
    assert_eq!(groups.len(), 1);
    assert!(groups.iter().any(|g| g.0 == "GH"));
    let gh = groups.iter().find(|g| g.0 == "GH").unwrap();
    assert_eq!(gh.1.len(), 2);
}

#[test]
fn test_group_mixed_devices() {
    let files = vec![
        "CamA_001.mp4".to_string(),
        "CamA_002.mp4".to_string(),
        "ZOOM0001.WAV".to_string(),
        "ZOOM0002.WAV".to_string(),
    ];
    let groups = group_files_by_device(&files);
    assert_eq!(groups.len(), 2);
    assert!(groups.iter().any(|g| g.0 == "CamA"));
    assert!(groups.iter().any(|g| g.0 == "ZOOM"));
}

#[test]
fn test_device_key_rules() {
    assert_eq!(device_key("CamA_001.mp4"), "CamA");
    assert_eq!(device_key("GH010045.MP4"), "GH");
    assert_eq!(device_key("0045.MP4"), "0045");
    assert_eq!(device_key("take - 12.wav"), "take");
}

#[test]
fn test_groups_sorted_and_files_ordered() {
    let files = vec![
        "z/CamA_2.wav".to_string(),
        "y/CamA_10.wav".to_string(),
        "Alpha_1.wav".to_string(),
    ];
    let groups = group_files_by_device(&files);
    // group keys come back sorted
    assert_eq!(groups[0].0, "Alpha");
    assert_eq!(groups[1].0, "CamA");
    // files within a group are ordered by their folded file names
    assert_eq!(groups[1].1[0], "y/CamA_10.wav");
    assert_eq!(groups[1].1[1], "z/CamA_2.wav");
}
