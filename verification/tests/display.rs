use rustlock::display::{highlight_degrees, media_label, uptime_label, uptime_refresh_due};
use rustlock::surface::{placeholder_background, valid_dimensions, FeedbackLatch};
use rustlock::theme::{theme_changes, theme_preset, ThemeColor, ThemeInputs, ThemePreset};
use rustlock::timer::{fade_complete, FadeTimer};
use std::time::Duration;

#[test]
fn uptime_is_shown_in_hours_and_minutes() {
    assert_eq!(uptime_label(7500), "up 2h 5m");
    assert_eq!(uptime_label(0), "up 0h 0m");
    assert_eq!(uptime_label(59), "up 0h 0m");
    assert_eq!(uptime_label(90061), "up 25h 1m");
}

#[test]
fn uptime_refreshes_every_ten_seconds() {
    assert!(uptime_refresh_due(None));
    assert!(!uptime_refresh_due(Some(9)));
    assert!(uptime_refresh_due(Some(10)));
}

#[test]
fn highlight_angle_follows_the_generator() {
    assert_eq!(highlight_degrees(0), 1);
    assert_eq!(highlight_degrees(1), 286);
    assert_eq!(highlight_degrees(12345), 302);
    assert_eq!(highlight_degrees(u64::MAX), 92);
}

#[test]
fn media_label_joins_artist_and_title() {
    assert_eq!(media_label(Some("Artist"), "Song"), "Artist - Song");
    assert_eq!(media_label(None, "Song"), "Song");
    assert_eq!(media_label(Some(""), ""), " - ");
}

#[test]
fn surfaces_need_positive_sizes() {
    assert!(valid_dimensions(1, 1));
    assert!(!valid_dimensions(0, 10));
    assert!(!valid_dimensions(10, -1));
}

#[test]
fn placeholder_is_dark_grey_and_opaque() {
    let data = placeholder_background(3, 2);
    assert_eq!(data.len(), 24);
    for px in data.chunks(4) {
        assert_eq!(px, &[40, 44, 52, 255]);
    }
}

#[test]
fn feedback_starts_once_per_activation() {
    let mut latch = FeedbackLatch::new();
    assert!(!latch.is_shown());
    assert!(latch.observe(true));
    assert!(!latch.observe(true));
    assert!(latch.is_shown());
    assert!(!latch.observe(false));
    assert!(!latch.is_shown());
    assert!(latch.observe(true));
}

fn nothing_set() -> ThemeInputs {
    ThemeInputs {
        blur_set: false,
        vignette_set: false,
        pixelate_set: false,
        blur_on_cli: false,
        vignette_on_cli: false,
        pixelate_on_cli: false,
        radius_on_cli: false,
        ring_on_cli: false,
        inside_on_cli: false,
        radius_in_file: false,
        ring_in_file: false,
        inside_in_file: false,
    }
}

#[test]
fn presets_are_found_by_name() {
    assert_eq!(theme_preset("modern"), Some(ThemePreset::Modern));
    assert_eq!(theme_preset("pixel"), Some(ThemePreset::Pixel));
    assert_eq!(theme_preset("glass"), Some(ThemePreset::Glass));
    assert_eq!(theme_preset("dark"), Some(ThemePreset::Dark));
    assert_eq!(theme_preset("light"), Some(ThemePreset::Light));
    assert_eq!(theme_preset("nord"), Some(ThemePreset::Nord));
    assert_eq!(theme_preset("dracula"), Some(ThemePreset::Dracula));
    assert_eq!(theme_preset("Modern"), None);
    assert_eq!(theme_preset(""), None);
}

#[test]
fn presets_fill_in_their_settings() {
    let modern = theme_changes(ThemePreset::Modern, nothing_set());
    assert_eq!(modern.blur, Some((10, 3)));
    assert!(modern.default_vignette);
    assert_eq!(modern.pixelate, None);
    assert_eq!(modern.indicator_radius, Some(120));
    assert_eq!(modern.ring_color, Some(ThemeColor::ModernRing));

    let pixel = theme_changes(ThemePreset::Pixel, nothing_set());
    assert_eq!(pixel.blur, None);
    assert_eq!(pixel.pixelate, Some(10));
    assert_eq!(pixel.indicator_radius, Some(80));
    assert_eq!(pixel.ring_color, Some(ThemeColor::PixelRing));

    let glass = theme_changes(ThemePreset::Glass, nothing_set());
    assert_eq!(glass.blur, Some((20, 5)));
    assert_eq!(glass.indicator_radius, None);
    assert_eq!(glass.ring_color, Some(ThemeColor::GlassRing));
    assert_eq!(glass.inside_color, Some(ThemeColor::GlassInside));
}

#[test]
fn presets_leave_command_line_settings_alone() {
    let mut inputs = nothing_set();
    inputs.blur_on_cli = true;
    inputs.vignette_set = true;
    inputs.radius_on_cli = true;
    inputs.ring_on_cli = true;
    let modern = theme_changes(ThemePreset::Modern, inputs);
    assert_eq!(modern.blur, None);
    assert!(!modern.default_vignette);
    assert_eq!(modern.indicator_radius, None);
    assert_eq!(modern.ring_color, None);

    let mut inputs = nothing_set();
    inputs.pixelate_set = true;
    inputs.inside_on_cli = true;
    assert_eq!(theme_changes(ThemePreset::Pixel, inputs).pixelate, None);
    assert_eq!(theme_changes(ThemePreset::Glass, inputs).inside_color, None);
}

#[test]
fn presets_leave_file_settings_alone() {
    let mut inputs = nothing_set();
    inputs.radius_in_file = true;
    inputs.ring_in_file = true;
    inputs.inside_in_file = true;
    let modern = theme_changes(ThemePreset::Modern, inputs);
    assert_eq!(modern.indicator_radius, None);
    assert_eq!(modern.ring_color, None);
    assert_eq!(modern.blur, Some((10, 3)));
    let glass = theme_changes(ThemePreset::Glass, inputs);
    assert_eq!(glass.ring_color, None);
    assert_eq!(glass.inside_color, None);
}

#[test]
fn fade_completes_after_its_duration() {
    assert!(!fade_complete(0, 1000));
    assert!(!fade_complete(999, 1000));
    assert!(fade_complete(1000, 1000));
    assert!(fade_complete(5000, 1000));
    assert!(!fade_complete(0, 0));
    assert!(fade_complete(1, 0));
}

#[test]
fn long_fade_is_not_complete_at_once() {
    let mut timer = FadeTimer::new(Duration::from_secs(3600));
    assert!(!timer.update());
    assert_eq!(timer.duration(), Duration::from_secs(3600));
}

#[test]
fn empty_fade_completes() {
    let mut timer = FadeTimer::new(Duration::from_nanos(0));
    let start = std::time::Instant::now();
    while start.elapsed() < Duration::from_millis(2) {}
    assert!(timer.update());
}

#[test]
fn colour_presets_set_ring_and_inside() {
    let nord = theme_changes(ThemePreset::Nord, nothing_set());
    assert_eq!(nord.ring_color, Some(ThemeColor::NordRing));
    assert_eq!(nord.inside_color, Some(ThemeColor::NordInside));
    assert_eq!(nord.blur, None);
    assert_eq!(nord.indicator_radius, None);
    let dracula = theme_changes(ThemePreset::Dracula, nothing_set());
    assert_eq!(dracula.ring_color, Some(ThemeColor::DraculaRing));
    assert_eq!(theme_changes(ThemePreset::Dark, nothing_set()).inside_color, Some(ThemeColor::DarkInside));
    let mut inputs = nothing_set();
    inputs.ring_in_file = true;
    inputs.inside_on_cli = true;
    let light = theme_changes(ThemePreset::Light, inputs);
    assert_eq!(light.ring_color, None);
    assert_eq!(light.inside_color, None);
}
