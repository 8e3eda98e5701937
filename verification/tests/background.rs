use spritesheet_cutter::{Color, CutterConfig, RasterImage, SpritesheetCutter};

fn image(width: u32, height: u32, pixel: impl Fn(u32, u32) -> [u8; 4]) -> RasterImage {
    let mut data = Vec::new();
    for y in 0..height {
        for x in 0..width {
            data.extend_from_slice(&pixel(x, y));
        }
    }
    RasterImage::from_raw(width, height, data).unwrap()
}

const WHITE: [u8; 4] = [255, 255, 255, 255];
const RED: [u8; 4] = [255, 0, 0, 255];

#[test]
fn white_background_is_stripped_and_red_pixel_stays() {
    let cutter = SpritesheetCutter::new(CutterConfig::default());
    assert_eq!(cutter.config.background_tolerance, 10);
    let img = image(20, 20, |x, y| if (x, y) == (10, 10) { RED } else { WHITE });
    assert_eq!(cutter.detect_background_color(&img), Color::new(255, 255, 255, 255));
    let out = cutter.remove_background(&img);
    assert_eq!((out.width(), out.height()), (20, 20));
    for y in 0..20 {
        for x in 0..20 {
            let expected = if (x, y) == (10, 10) {
                Color::new(255, 0, 0, 255)
            } else {
                Color::new(0, 0, 0, 0)
            };
            assert_eq!(out.get_pixel(x, y), Some(expected));
        }
    }
}

#[test]
fn stripping_leaves_the_source_unchanged() {
    let cutter = SpritesheetCutter::new(CutterConfig::default());
    let img = image(4, 4, |x, _| if x == 3 { RED } else { WHITE });
    let before = img.data.clone();
    let out = cutter.remove_background(&img);
    assert_eq!(img.data, before);
    assert_ne!(out.data, before);
}

#[test]
fn pixels_within_the_tolerance_are_stripped() {
    let cutter = SpritesheetCutter::new(CutterConfig::default());
    // The corner block is white; the last column holds colours at and
    // beyond the tolerance of 10.
    let last: [[u8; 4]; 4] =
        [[245, 245, 245, 255], [244, 255, 255, 255], [255, 245, 250, 30], [255, 255, 244, 0]];
    let img = image(12, 4, |x, y| if x == 11 { last[y as usize] } else { WHITE });
    let out = cutter.remove_background(&img);
    assert_eq!(out.get_pixel(11, 0), Some(Color::new(0, 0, 0, 0)));
    assert_eq!(out.get_pixel(11, 1), Some(Color::new(244, 255, 255, 255)));
    assert_eq!(out.get_pixel(11, 2), Some(Color::new(0, 0, 0, 0)));
    assert_eq!(out.get_pixel(11, 3), Some(Color::new(255, 255, 244, 0)));
    assert_eq!(out.get_pixel(0, 0), Some(Color::new(0, 0, 0, 0)));
}

#[test]
fn background_is_the_mode_of_the_corner_block() {
    let cutter = SpritesheetCutter::new(CutterConfig::default());
    // Of the hundred pixels of the corner block, 51 are blue and 49 green;
    // the rest of the image is red.
    let img = image(30, 30, |x, y| if x < 10 && y < 10 {
        if 10 * y + x < 49 { [0, 255, 0, 255] } else { [0, 0, 255, 255] }
    } else {
        RED
    });
    assert_eq!(cutter.detect_background_color(&img), Color::new(0, 0, 255, 255));
}

#[test]
fn background_of_a_tie_is_the_colour_that_comes_first() {
    let cutter = SpritesheetCutter::new(CutterConfig::default());
    let row: [[u8; 4]; 4] = [[9, 9, 9, 255], [1, 1, 1, 255], [1, 1, 1, 255], [9, 9, 9, 255]];
    let img = image(4, 1, |x, _| row[x as usize]);
    assert_eq!(cutter.detect_background_color(&img), Color::new(9, 9, 9, 255));
    let other = image(2, 2, |x, y| [x as u8, y as u8, 0, 255]);
    assert_eq!(cutter.detect_background_color(&other), Color::new(0, 0, 0, 255));
}

#[test]
fn background_colours_differ_by_alpha() {
    let cutter = SpritesheetCutter::new(CutterConfig::default());
    let img = image(3, 1, |x, _| [5, 5, 5, if x == 0 { 0 } else { 255 }]);
    assert_eq!(cutter.detect_background_color(&img), Color::new(5, 5, 5, 255));
}

#[test]
fn corner_block_is_clipped_to_the_image() {
    let cutter = SpritesheetCutter::new(CutterConfig::default());
    let narrow = image(3, 40, |_, y| if y < 10 { [7, 7, 7, 255] } else { RED });
    assert_eq!(cutter.detect_background_color(&narrow), Color::new(7, 7, 7, 255));
    let wide = image(40, 2, |x, _| if x < 10 { [7, 7, 7, 255] } else { RED });
    assert_eq!(cutter.detect_background_color(&wide), Color::new(7, 7, 7, 255));
}

#[test]
fn background_of_an_image_without_pixels_is_white() {
    let cutter = SpritesheetCutter::new(CutterConfig::default());
    for (width, height) in [(0, 0), (0, 5), (5, 0)] {
        let empty = image(width, height, |_, _| RED);
        assert_eq!(cutter.detect_background_color(&empty), Color::new(255, 255, 255, 255));
        let out = cutter.remove_background(&empty);
        assert_eq!((out.width(), out.height()), (width, height));
        assert!(out.data.is_empty());
    }
}
