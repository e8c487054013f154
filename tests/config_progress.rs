use photon::config::{OutputMode, RenderConfig, ScenePreset, ToneMapOp};
use photon::progress::{bar_cells, ProgressBar, BAR_CELLS};

#[test]
fn default_config_values() {
    let c = RenderConfig::default();
    assert_eq!(c.width, 160);
    assert_eq!(c.height, 80);
    assert_eq!(c.samples_per_pixel, 50);
    assert_eq!(c.max_bounces, 12);
    assert_eq!(c.output_mode, OutputMode::TrueColor);
    assert!(c.gamma);
    assert_eq!(c.tone_map, ToneMapOp::Clamp);
}

#[test]
fn total_rays_is_pixels_times_samples() {
    let mut c = RenderConfig::default();
    assert_eq!(c.pixel_count(), 12800);
    assert_eq!(c.total_rays(), 640000);
    c.width = 100_000;
    c.height = 100_000;
    c.samples_per_pixel = 1000;
    assert_eq!(c.total_rays(), 10_000_000_000_000);
}

#[test]
fn labels_name_each_mode() {
    assert_eq!(OutputMode::Braille.label(), "Braille (2\u{d7}4 subpixel)");
    assert_eq!(OutputMode::TrueColor.label(), "TrueColor (24-bit)");
    assert_eq!(OutputMode::HalfBlock.label(), "HalfBlock (2\u{d7} vertical)");
    assert_eq!(OutputMode::Ascii.label(), "ASCII grayscale");
    assert_eq!(ToneMapOp::Clamp.label(), "None (clamp)");
    assert_eq!(ToneMapOp::Reinhard.label(), "Reinhard");
    assert_eq!(ToneMapOp::Aces.label(), "ACES Filmic");
    assert_ne!(ScenePreset::Cornell, ScenePreset::Stress);
}

#[test]
fn progress_reports_only_changed_percentages() {
    let mut p = ProgressBar::new(3);
    assert_eq!(p.total(), 3);
    assert_eq!(p.done(), 0);
    assert_eq!(p.tick(), Some(33));
    assert_eq!(p.tick(), Some(66));
    assert_eq!(p.tick(), Some(100));
    assert_eq!(p.done(), 3);
}

#[test]
fn progress_stays_quiet_within_one_percent() {
    let mut p = ProgressBar::new(400);
    let mut reports = Vec::new();
    for _ in 0..400 {
        if let Some(pct) = p.tick() {
            reports.push(pct);
        }
    }
    assert_eq!(reports.len(), 100);
    assert_eq!(reports[0], 1);
    assert_eq!(reports[99], 100);
    let _ = p.started().elapsed();
}

#[test]
fn bar_cells_split_the_bar() {
    assert_eq!(BAR_CELLS, 24);
    assert_eq!(bar_cells(0), (0, 24));
    assert_eq!(bar_cells(50), (12, 12));
    assert_eq!(bar_cells(99), (23, 1));
    assert_eq!(bar_cells(100), (24, 0));
}
