use audiosync_core::correlate::delay_from_peak;
use audiosync_core::correlate::max_offset_samples;
use audiosync_core::correlate::search_window;

#[test]
fn test_max_offset_samples() {
    // one second of search range is 8000 analysis samples
    assert_eq!(max_offset_samples(1_000_000), 8_000);
    assert_eq!(max_offset_samples(0), 0);
    // conversion rounds to the nearest sample
    assert_eq!(max_offset_samples(63), 1);
    assert_eq!(max_offset_samples(62), 0);
}

#[test]
fn test_search_window_clipped() {
    assert_eq!(search_window(100, 10, 1000), (90, 111));
    assert_eq!(search_window(5, 10, 1000), (0, 16));
    assert_eq!(search_window(995, 10, 1000), (985, 1000));
}

#[test]
fn test_delay_from_peak() {
    // peak at the center names delay zero
    assert_eq!(delay_from_peak(3999, 4000), 0);
    assert_eq!(delay_from_peak(4799, 4000), 800);
    assert_eq!(delay_from_peak(0, 4000), -3999);
}
