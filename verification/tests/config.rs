use spritesheet_cutter::{
    Color, CutterConfig, DetectionThresholds, FailureKind, Reaction, SpritesheetCutter,
};

#[test]
fn test_config_default() {
    let config = CutterConfig::default();
    assert_eq!(config.min_sprite_size, 16);
    assert_eq!(config.max_sprite_size, 512);
    assert_eq!(config.background_tolerance, 10);
    assert!(config.remove_background);
    assert_eq!(config.output_dir, "assets2");
}

#[test]
fn test_background_pixel_detection() {
    let config = CutterConfig::default();
    let cutter = SpritesheetCutter::new(config);

    let background = Color::new(255, 255, 255, 255);
    let similar_pixel = Color::new(250, 250, 250, 255);
    let different_pixel = Color::new(100, 100, 100, 255);

    assert!(cutter.is_background_pixel(&similar_pixel, &background));
    assert!(!cutter.is_background_pixel(&different_pixel, &background));
}

#[test]
fn main_test_config_default() {
    let config = CutterConfig::default();
    assert_eq!(config.min_sprite_size, 16);
    assert_eq!(config.max_sprite_size, 512);
    assert_eq!(config.background_tolerance, 10);
    assert!(config.remove_background);
    assert_eq!(config.output_dir, "assets2");
}

#[test]
fn main_test_background_pixel_detection() {
    let config = CutterConfig::default();
    let cutter = SpritesheetCutter::new(config);

    let background = Color::new(255, 255, 255, 255);
    let similar_pixel = Color::new(250, 250, 250, 255);
    let different_pixel = Color::new(100, 100, 100, 255);

    assert!(cutter.is_background_pixel(&similar_pixel, &background));
    assert!(!cutter.is_background_pixel(&different_pixel, &background));
}

#[test]
fn default_config_uses_strict_thresholds() {
    let config = CutterConfig::default();
    assert_eq!(config.thresholds, DetectionThresholds::strict());
    assert_eq!(config.thresholds.darkness, 10);
    assert_eq!(config.thresholds.edge_delta, 50);
    assert_eq!(config.thresholds.dark_percent, 80);
    assert_eq!(config.thresholds.edge_percent, 30);
    assert_eq!(config.thresholds.content_percent, 5);
    assert_eq!(config.thresholds.empty_percent, 85);
}

#[test]
fn relaxed_config_uses_relaxed_thresholds() {
    let config = CutterConfig::relaxed();
    assert_eq!(config.min_sprite_size, 8);
    assert_eq!(config.max_sprite_size, 1024);
    assert_eq!(config.background_tolerance, 20);
    assert!(config.remove_background);
    assert_eq!(config.output_dir, "assets2");
    assert_eq!(config.thresholds, DetectionThresholds::relaxed());
    assert_eq!(config.thresholds.darkness, 10);
    assert_eq!(config.thresholds.edge_delta, 30);
    assert_eq!(config.thresholds.dark_percent, 60);
    assert_eq!(config.thresholds.edge_percent, 20);
    assert_eq!(config.thresholds.content_percent, 2);
    assert_eq!(config.thresholds.empty_percent, 85);
}

#[test]
fn directory_failures_end_the_run() {
    assert_eq!(FailureKind::DirectoryAccessFailure.reaction(), Reaction::AbortRun);
}

#[test]
fn image_failures_skip_the_image() {
    assert_eq!(FailureKind::ImageDecodeFailure.reaction(), Reaction::SkipImage);
    assert_eq!(FailureKind::ImageSaveFailure.reaction(), Reaction::SkipImage);
}
