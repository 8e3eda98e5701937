use spritesheet_cutter::{Axis, Color, CutterConfig, GrayscaleView, RasterImage, SpritesheetCutter};

fn image(width: u32, height: u32, pixel: impl Fn(u32, u32) -> [u8; 4]) -> RasterImage {
    let mut data = Vec::new();
    for y in 0..height {
        for x in 0..width {
            data.extend_from_slice(&pixel(x, y));
        }
    }
    RasterImage::from_raw(width, height, data).unwrap()
}

fn cutter_with_tolerance(tolerance: u8) -> SpritesheetCutter {
    let mut config = CutterConfig::default();
    config.background_tolerance = tolerance;
    SpritesheetCutter::new(config)
}

#[test]
fn pixel_at_tolerance_is_background() {
    for tolerance in [0u8, 1, 10, 20, 100] {
        let cutter = cutter_with_tolerance(tolerance);
        let background = Color::new(120, 120, 120, 255);
        let above = Color::new(120 + tolerance, 120 + tolerance, 120 + tolerance, 255);
        let below = Color::new(120 - tolerance, 120 - tolerance, 120 - tolerance, 0);
        let mixed = Color::new(120 + tolerance, 120 - tolerance, 120 + tolerance, 17);
        assert!(cutter.is_background_pixel(&above, &background));
        assert!(cutter.is_background_pixel(&below, &background));
        assert!(cutter.is_background_pixel(&mixed, &background));
    }
}

#[test]
fn pixel_beyond_tolerance_is_not_background() {
    for tolerance in [0u8, 1, 10, 20, 100] {
        let cutter = cutter_with_tolerance(tolerance);
        let background = Color::new(120, 120, 120, 255);
        let far = 120 + tolerance + 1;
        let near = 120 - tolerance - 1;
        assert!(!cutter.is_background_pixel(&Color::new(far, 120, 120, 255), &background));
        assert!(!cutter.is_background_pixel(&Color::new(120, far, 120, 255), &background));
        assert!(!cutter.is_background_pixel(&Color::new(120, 120, far, 255), &background));
        assert!(!cutter.is_background_pixel(&Color::new(near, 120, 120, 255), &background));
        assert!(!cutter.is_background_pixel(&Color::new(120, near, 120, 255), &background));
        assert!(!cutter.is_background_pixel(&Color::new(120, 120, near, 255), &background));
    }
}

#[test]
fn background_match_is_symmetric() {
    let cutter = cutter_with_tolerance(10);
    let colors = [
        Color::new(0, 0, 0, 0),
        Color::new(10, 10, 10, 255),
        Color::new(11, 0, 0, 255),
        Color::new(250, 250, 250, 255),
        Color::new(255, 255, 255, 3),
        Color::new(100, 110, 120, 9),
        Color::new(90, 120, 110, 200),
    ];
    for p in colors.iter() {
        for q in colors.iter() {
            assert_eq!(cutter.is_background_pixel(p, q), cutter.is_background_pixel(q, p));
        }
    }
}

#[test]
fn background_match_ignores_alpha() {
    let cutter = cutter_with_tolerance(10);
    let background = Color::new(255, 255, 255, 255);
    assert!(cutter.is_background_pixel(&Color::new(250, 250, 250, 0), &background));
    assert!(!cutter.is_background_pixel(&Color::new(100, 100, 100, 255), &background));
}

#[test]
fn within_tolerance_compares_each_channel() {
    let reference = Color::new(50, 60, 70, 80);
    assert!(Color::new(55, 55, 75, 0).within_tolerance(&reference, 5));
    assert!(!Color::new(56, 60, 70, 80).within_tolerance(&reference, 5));
    assert!(!Color::new(50, 54, 70, 80).within_tolerance(&reference, 5));
    assert!(!Color::new(50, 60, 76, 80).within_tolerance(&reference, 5));
    assert!(Color::new(0, 255, 0, 0).within_tolerance(&reference, 255));
}

#[test]
fn from_raw_checks_the_buffer_length() {
    assert!(RasterImage::from_raw(2, 3, vec![0; 24]).is_some());
    assert!(RasterImage::from_raw(2, 3, vec![0; 23]).is_none());
    assert!(RasterImage::from_raw(2, 3, vec![0; 25]).is_none());
    assert!(RasterImage::from_raw(0, 7, Vec::new()).is_some());
    assert!(GrayscaleView::from_raw(2, 3, vec![0; 6]).is_some());
    assert!(GrayscaleView::from_raw(2, 3, vec![0; 5]).is_none());
    assert!(GrayscaleView::from_raw(2, 3, vec![0; 24]).is_none());
}

#[test]
fn get_pixel_reads_row_by_row() {
    let img = image(3, 2, |x, y| [x as u8, y as u8, (10 * y + x) as u8, 200]);
    assert_eq!(img.width(), 3);
    assert_eq!(img.height(), 2);
    assert_eq!(img.get_pixel(0, 0), Some(Color::new(0, 0, 0, 200)));
    assert_eq!(img.get_pixel(2, 0), Some(Color::new(2, 0, 2, 200)));
    assert_eq!(img.get_pixel(1, 1), Some(Color::new(1, 1, 11, 200)));
    assert_eq!(img.get_pixel(2, 1), Some(Color::new(2, 1, 12, 200)));
    assert_eq!(img.pixel(2, 1), Color::new(2, 1, 12, 200));
    assert_eq!(img.get_alpha(2, 1), Some(200));
}

#[test]
fn get_pixel_outside_the_image_is_none() {
    let img = image(3, 2, |_, _| [1, 2, 3, 4]);
    assert_eq!(img.get_pixel(3, 0), None);
    assert_eq!(img.get_pixel(0, 2), None);
    assert_eq!(img.get_pixel(u32::MAX, u32::MAX), None);
    assert_eq!(img.get_alpha(3, 1), None);
    let gray = img.to_luma8();
    assert_eq!(gray.get_luma(3, 0), None);
    assert_eq!(gray.get_luma(0, 2), None);
}

#[test]
fn put_pixel_changes_one_pixel() {
    let mut img = image(3, 2, |_, _| [1, 2, 3, 4]);
    img.put_pixel(1, 1, Color::new(9, 8, 7, 6));
    for y in 0..2 {
        for x in 0..3 {
            let expected =
                if (x, y) == (1, 1) { Color::new(9, 8, 7, 6) } else { Color::new(1, 2, 3, 4) };
            assert_eq!(img.get_pixel(x, y), Some(expected));
        }
    }
}

#[test]
fn luma_is_the_weighted_mean_of_the_channels() {
    let colors: [[u8; 4]; 8] = [
        [255, 0, 0, 255],
        [0, 255, 0, 255],
        [0, 0, 255, 255],
        [255, 255, 255, 255],
        [0, 0, 0, 0],
        [100, 100, 100, 7],
        [10, 20, 30, 255],
        [200, 100, 50, 0],
    ];
    let img = image(8, 1, |x, _| colors[x as usize]);
    let gray = img.to_luma8();
    assert_eq!(gray.width(), 8);
    assert_eq!(gray.height(), 1);
    assert_eq!(gray.data, vec![54, 182, 18, 255, 0, 100, 18, 117]);
}

#[test]
fn luma_follows_the_weights_for_many_colours() {
    let levels: Vec<u32> = (0..256).step_by(5).chain(250..256).collect();
    let side = levels.len() as u32;
    let level = |i: u32| levels[i as usize];
    let channels = |x: u32, y: u32| (level(x / side), level(x % side), level(y));
    let img = image(side * side, side, |x, y| {
        let (r, g, b) = channels(x, y);
        [r as u8, g as u8, b as u8, (r + g + b) as u8]
    });
    let gray = img.to_luma8();
    for y in 0..side {
        for x in 0..side * side {
            let (r, g, b) = channels(x, y);
            let expected = (2126 * r + 7152 * g + 722 * b) / 10000;
            assert_eq!(gray.get_luma(x, y), Some(expected as u8));
        }
    }
}

#[test]
fn luma_keeps_the_positions() {
    let img = image(3, 2, |x, y| {
        let level = (40 * x) as u8;
        [level, level, level + 100 * y as u8, 255]
    });
    let gray = img.to_luma8();
    assert_eq!(gray.get_luma(0, 0), Some(0));
    assert_eq!(gray.get_luma(1, 0), Some(40));
    assert_eq!(gray.get_luma(2, 0), Some(80));
    assert_eq!(gray.get_luma(0, 1), Some(7));
    assert_eq!(gray.get_luma(1, 1), Some(47));
    assert_eq!(gray.get_luma(2, 1), Some(87));
    assert_eq!(gray.luma(2, 1), 87);
}

#[test]
fn alpha_plays_no_part_in_luma() {
    let opaque = image(2, 2, |x, y| [50 * x as u8, 90 * y as u8, 33, 255]);
    let clear = image(2, 2, |x, y| [50 * x as u8, 90 * y as u8, 33, 0]);
    assert_eq!(opaque.to_luma8().data, clear.to_luma8().data);
}

#[test]
fn lines_of_a_view_run_along_the_axis() {
    let gray = GrayscaleView::from_raw(3, 2, vec![1, 2, 3, 4, 5, 6]).unwrap();
    assert_eq!(gray.extent(Axis::Columns), 3);
    assert_eq!(gray.line_len(Axis::Columns), 2);
    assert_eq!(gray.extent(Axis::Rows), 2);
    assert_eq!(gray.line_len(Axis::Rows), 3);
    assert_eq!(gray.sample(Axis::Columns, 2, 0), 3);
    assert_eq!(gray.sample(Axis::Columns, 2, 1), 6);
    assert_eq!(gray.sample(Axis::Rows, 1, 0), 4);
    assert_eq!(gray.sample(Axis::Rows, 1, 2), 6);
}

#[test]
fn crop_takes_the_pixels_under_the_rectangle() {
    let img = image(4, 3, |x, y| [x as u8, y as u8, (10 * y + x) as u8, 255]);
    let cut = img.crop_imm(1, 1, 2, 2);
    assert_eq!(cut.width(), 2);
    assert_eq!(cut.height(), 2);
    assert_eq!(cut.get_pixel(0, 0), Some(Color::new(1, 1, 11, 255)));
    assert_eq!(cut.get_pixel(1, 0), Some(Color::new(2, 1, 12, 255)));
    assert_eq!(cut.get_pixel(0, 1), Some(Color::new(1, 2, 21, 255)));
    assert_eq!(cut.get_pixel(1, 1), Some(Color::new(2, 2, 22, 255)));
    assert_eq!(cut.data.len(), 16);
}

#[test]
fn crop_is_clipped_to_the_image() {
    let img = image(4, 3, |x, y| [x as u8, y as u8, (10 * y + x) as u8, 255]);
    let corner = img.crop_imm(3, 2, 5, 5);
    assert_eq!((corner.width(), corner.height()), (1, 1));
    assert_eq!(corner.get_pixel(0, 0), Some(Color::new(3, 2, 23, 255)));
    let right = img.crop_imm(2, 0, 10, 2);
    assert_eq!((right.width(), right.height()), (2, 2));
    assert_eq!(right.get_pixel(1, 1), Some(Color::new(3, 1, 13, 255)));
    let outside = img.crop_imm(10, 10, 2, 2);
    assert_eq!((outside.width(), outside.height()), (0, 0));
    assert!(outside.data.is_empty());
    let edge = img.crop_imm(4, 0, 1, 3);
    assert_eq!((edge.width(), edge.height()), (0, 3));
    assert!(edge.data.is_empty());
}

#[test]
fn crop_matches_the_source_for_every_rectangle() {
    let img = image(5, 4, |x, y| [x as u8, y as u8, (10 * y + x) as u8, (x * y) as u8]);
    for x in 0..7 {
        for y in 0..6 {
            for w in 0..7 {
                for h in 0..6 {
                    let cut = img.crop_imm(x, y, w, h);
                    let width = w.min(5 - x.min(5));
                    let height = h.min(4 - y.min(4));
                    assert_eq!((cut.width(), cut.height()), (width, height));
                    assert_eq!(cut.data.len() as u32, 4 * width * height);
                    for j in 0..height {
                        for i in 0..width {
                            assert_eq!(cut.get_pixel(i, j), img.get_pixel(x + i, y + j));
                        }
                    }
                }
            }
        }
    }
}

#[test]
fn duplicate_copies_the_image() {
    let img = image(3, 2, |x, y| [x as u8, y as u8, 7, 8]);
    let copy = img.duplicate();
    assert_eq!(copy.width, img.width);
    assert_eq!(copy.height, img.height);
    assert_eq!(copy.data, img.data);
}
