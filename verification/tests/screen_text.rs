use fomu::text::{decimal_text, two_digits};
use fomu::tracks::downloader::DownloadProgress;
use fomu::ui::render::{gradient, percent, BLUE_FALL, BRIGHTEST, GREEN_FALL, HUNDRED};

#[test]
fn the_colour_numbers_are_the_patterns_they_are_named_for() {
    assert_eq!(HUNDRED, 100.0f32.to_bits());
    assert_eq!(BRIGHTEST, 255.0f32.to_bits());
    assert_eq!(GREEN_FALL, 135.0f32.to_bits());
    assert_eq!(BLUE_FALL, 115.0f32.to_bits());
}

#[test]
fn a_level_is_shown_in_whole_percent() {
    assert_eq!(percent(0.8f32.to_bits()), 80);
    assert_eq!(percent(0.85f32.to_bits()), 85);
    assert_eq!(percent(1.0f32.to_bits()), 100);
    assert_eq!(percent(0.0f32.to_bits()), 0);
    assert_eq!(percent(0.999f32.to_bits()), 99);
    assert_eq!(percent((-0.5f32).to_bits()), 0);
    assert_eq!(percent(f32::NAN.to_bits()), 0);
    assert_eq!(percent(f32::INFINITY.to_bits()), u32::MAX);
    let mut volume = 0.0f32;
    while volume <= 1.0 {
        assert_eq!(percent(volume.to_bits()), (volume * 100.0) as u32, "volume {}", volume);
        volume += 0.001;
    }
}

#[test]
fn the_rows_run_from_cyan_to_blue_grey() {
    assert_eq!(gradient(0, 7), (0, 255, 255));
    assert_eq!(gradient(7, 7), (100, 120, 140));
    assert_eq!(gradient(0, 0), (0, 255, 255));
    for height in 0..40usize {
        for row in 0..=height + 2 {
            let t = row as f32 / height.max(1) as f32;
            let expected =
                ((0.0 + t * 100.0) as u8, (255.0 - t * 135.0) as u8, (255.0 - t * 115.0) as u8);
            assert_eq!(gradient(row, height), expected, "row {} of {}", row, height);
        }
    }
    assert_eq!(gradient(1000, 1), (255, 0, 0));
}

#[test]
fn numbers_as_text() {
    assert_eq!(decimal_text(0), "0");
    assert_eq!(decimal_text(7), "7");
    assert_eq!(decimal_text(10), "10");
    assert_eq!(decimal_text(1234567890), "1234567890");
    assert_eq!(decimal_text(u64::MAX), "18446744073709551615");
    assert_eq!(two_digits(0), "00");
    assert_eq!(two_digits(9), "09");
    assert_eq!(two_digits(10), "10");
    assert_eq!(two_digits(123), "123");
}

#[test]
fn a_waiting_preset_shows_how_far_its_track_has_come() {
    let nothing = DownloadProgress::default();
    assert_eq!(nothing.track_name, "");
    assert_eq!(nothing.progress, 0.0f32.to_bits());
    assert!(!nothing.completed);
    assert_eq!(nothing.label("relax"), "  → [relax] downloading...");
    let mut progress = DownloadProgress::begin("Aurora");
    assert_eq!(progress.track_name, "Aurora");
    assert_eq!(progress.label("deep"), "  → [deep] downloading...");
    progress.progress = 0.42f32.to_bits();
    assert_eq!(progress.label("deep"), "  → [deep] 42%");
    progress.progress = 0.05f32.to_bits();
    assert_eq!(progress.label("deep"), "  → [deep] 5%");
    progress.progress = f32::NAN.to_bits();
    assert_eq!(progress.label("deep"), "  → [deep] downloading...");
    progress.finish();
    assert_eq!(progress.progress, 1.0f32.to_bits());
    assert!(progress.completed);
    assert_eq!(progress.track_name, "Aurora");
    assert_eq!(progress.label("deep"), "  → [deep] downloading...");
}
