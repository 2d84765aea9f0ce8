use pixelblaze_rs::spectrum::{analyze, scale_frequency, scale_magnitude};

#[test]
fn average_truncates_and_max_is_first_occurrence() {
    let spectrum = analyze(vec![100, 500, 300, 500], 48000, 8);
    assert_eq!(spectrum.avg, 350);
    // Two bins share the maximum; the first wins.
    assert_eq!(spectrum.max_index, 1);
    assert_eq!(spectrum.max_magnitude(), 500);
}

#[test]
fn average_rounds_down() {
    // (1 + 2) / 2 = 1.5 truncates to 1.
    let spectrum = analyze(vec![1, 2], 1, 4);
    assert_eq!(spectrum.avg, 1);
    assert_eq!(spectrum.max_index, 1);
}

#[test]
fn scale_magnitude_clamps_instead_of_wrapping() {
    assert_eq!(scale_magnitude(0), 0);
    assert_eq!(scale_magnitude(42), 42);
    assert_eq!(scale_magnitude(0xffff), 0xffff);
    assert_eq!(scale_magnitude(70_000), 0xffff);
    assert_eq!(scale_magnitude(u32::MAX), 0xffff);
}

#[test]
fn scale_frequency_clamps_at_one_hertz() {
    // Bin 0 is 0 Hz.
    assert_eq!(scale_frequency(0, 48000, 1024), 0);
    // Bin 1 at 48 kHz over 1024 samples is about 47 Hz, far above 1 Hz.
    assert_eq!(scale_frequency(1, 48000, 1024), 0xffff);
    // Half a hertz maps to the middle of the range, truncating:
    // 1 * 2 / 4 = 0.5, and 0.5 * 65535 truncates to 32767.
    assert_eq!(scale_frequency(1, 2, 4), 32767);
}
