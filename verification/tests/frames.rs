use spritesheet_cutter::{CutterConfig, RasterImage, SpriteFrame, SpritesheetCutter};

fn image(width: u32, height: u32, pixel: impl Fn(u32, u32) -> [u8; 4]) -> RasterImage {
    let mut data = Vec::new();
    for y in 0..height {
        for x in 0..width {
            data.extend_from_slice(&pixel(x, y));
        }
    }
    RasterImage::from_raw(width, height, data).unwrap()
}

fn frame(x: u32, y: u32, width: u32, height: u32) -> SpriteFrame {
    SpriteFrame { x, y, width, height }
}

fn sized(min: u32, max: u32) -> SpritesheetCutter {
    let mut config = CutterConfig::default();
    config.min_sprite_size = min;
    config.max_sprite_size = max;
    SpritesheetCutter::new(config)
}

const WHITE: [u8; 4] = [255, 255, 255, 255];
const CLEAR: [u8; 4] = [0, 0, 0, 0];
const GRAY: [u8; 4] = [128, 128, 128, 255];

fn three_columns() -> RasterImage {
    image(104, 32, |x, _| if (32..40).contains(&x) || (72..80).contains(&x) {
        CLEAR
    } else {
        WHITE
    })
}

/// Four blocks of 20 by 20 pixels in two rows, with gutters of four pixels
/// between them.
fn four_blocks() -> RasterImage {
    image(44, 44, |x, y| if (20..24).contains(&x) || (20..24).contains(&y) {
        CLEAR
    } else {
        WHITE
    })
}

/// Two white sprites, eight pixels long, on an opaque gray background: side
/// by side in a sheet of 40 by `across` pixels, or, if `upright`, one above
/// the other in a sheet of `across` by 40 pixels.
fn two_sprites(across: u32, upright: bool) -> RasterImage {
    let (width, height) = if upright { (across, 40) } else { (40, across) };
    image(width, height, |x, y| {
        let along = if upright { y } else { x };
        if (4..12).contains(&along) || (20..28).contains(&along) {
            WHITE
        } else {
            GRAY
        }
    })
}

fn count_visible(img: &RasterImage, f: &SpriteFrame) -> u64 {
    let mut visible = 0;
    for y in f.y..f.y + f.height {
        for x in f.x..f.x + f.width {
            if img.get_alpha(x, y).unwrap() > 10 {
                visible += 1;
            }
        }
    }
    visible
}

fn assert_frames_pass_the_filter(cutter: &SpritesheetCutter, img: &RasterImage) {
    let config = &cutter.config;
    for f in cutter.detect_sprite_frames(img).iter() {
        assert!(config.min_sprite_size <= f.width && f.width <= config.max_sprite_size);
        assert!(config.min_sprite_size <= f.height && f.height <= config.max_sprite_size);
        assert!(f.x + f.width <= img.width());
        assert!(f.y + f.height <= img.height());
        let area = f.width as u64 * f.height as u64;
        assert!(100 * count_visible(img, f) > config.thresholds.content_percent as u64 * area);
    }
}

#[test]
fn three_column_sheet_yields_three_frames() {
    let cutter = SpritesheetCutter::new(CutterConfig::default());
    let frames = cutter.detect_sprite_frames(&three_columns());
    assert_eq!(frames, vec![frame(0, 0, 32, 32), frame(39, 0, 33, 32), frame(79, 0, 25, 32)]);
}

#[test]
fn three_column_sheet_under_the_relaxed_configuration() {
    let cutter = SpritesheetCutter::new(CutterConfig::relaxed());
    let frames = cutter.detect_sprite_frames(&three_columns());
    assert_eq!(frames, vec![frame(0, 0, 32, 32), frame(39, 0, 33, 32), frame(79, 0, 25, 32)]);
}

#[test]
fn frames_come_row_after_row() {
    let img = four_blocks();
    let cutter = SpritesheetCutter::new(CutterConfig::default());
    let frames = cutter.detect_sprite_frames(&img);
    assert_eq!(
        frames,
        vec![
            frame(0, 0, 20, 20),
            frame(23, 0, 21, 20),
            frame(0, 23, 20, 21),
            frame(23, 23, 21, 21),
        ]
    );
}

#[test]
fn frames_pass_the_size_and_content_filter() {
    let images = [
        three_columns(),
        four_blocks(),
        two_sprites(8, false),
        two_sprites(8, true),
        image(64, 64, |x, y| [(x * 4) as u8, (y * 4) as u8, (x * y) as u8, ((x + y) * 2) as u8]),
        image(50, 30, |x, y| if (x / 5 + y / 5) % 2 == 0 { CLEAR } else { [9, 200, 30, 11] }),
        image(33, 17, |x, y| if x % 11 == 10 || y % 6 == 5 { CLEAR } else { GRAY }),
    ];
    let mut cutters = vec![
        SpritesheetCutter::new(CutterConfig::default()),
        SpritesheetCutter::new(CutterConfig::relaxed()),
        sized(4, 30),
        sized(1, 8),
        sized(0, 1000),
    ];
    let mut dense = CutterConfig::relaxed();
    dense.thresholds.content_percent = 90;
    dense.min_sprite_size = 2;
    cutters.push(SpritesheetCutter::new(dense));
    for img in images.iter() {
        for cutter in cutters.iter() {
            assert_frames_pass_the_filter(cutter, img);
        }
    }
}

#[test]
fn content_must_exceed_the_fraction() {
    let strict = SpritesheetCutter::new(CutterConfig::default());
    let relaxed = SpritesheetCutter::new(CutterConfig::relaxed());
    // Of the hundred pixels of each block of 10 by 10, the block at x = 0
    // shows two, the one at x = 10 three, the one at x = 20 five and the one
    // at x = 30 six.
    let shown = [2u32, 3, 5, 6];
    let img = image(40, 10, |x, y| if y == 0 && x % 10 < shown[(x / 10) as usize] {
        WHITE
    } else {
        CLEAR
    });
    assert!(!relaxed.frame_has_content(&img, 0, 0, 10, 10));
    assert!(relaxed.frame_has_content(&img, 10, 0, 10, 10));
    assert!(relaxed.frame_has_content(&img, 20, 0, 10, 10));
    assert!(!strict.frame_has_content(&img, 10, 0, 10, 10));
    assert!(!strict.frame_has_content(&img, 20, 0, 10, 10));
    assert!(strict.frame_has_content(&img, 30, 0, 10, 10));
}

#[test]
fn alpha_of_ten_is_not_visible() {
    let cutter = SpritesheetCutter::new(CutterConfig::default());
    let faint = image(8, 8, |_, _| [255, 255, 255, 10]);
    let visible = image(8, 8, |_, _| [0, 0, 0, 11]);
    assert!(!cutter.frame_has_content(&faint, 0, 0, 8, 8));
    assert!(cutter.frame_has_content(&visible, 0, 0, 8, 8));
}

#[test]
fn positions_outside_the_image_hold_no_content() {
    let cutter = SpritesheetCutter::new(CutterConfig::default());
    let img = image(4, 4, |_, _| WHITE);
    // Sixteen visible pixels in a rectangle of 400, and in one of 300.
    assert!(!cutter.frame_has_content(&img, 0, 0, 20, 20));
    assert!(cutter.frame_has_content(&img, 0, 0, 20, 15));
    assert!(!cutter.frame_has_content(&img, 4, 0, 4, 4));
    assert!(!cutter.frame_has_content(&img, 0, 0, 0, 4));
    assert!(!cutter.frame_has_content(&img, 0, 0, 4, 0));
    assert!(!cutter.frame_has_content(&img, u32::MAX, u32::MAX, 3, 3));
}

#[test]
fn assemble_frames_filters_the_cells_of_the_grid() {
    let cutter = sized(2, 5);
    let img = image(10, 10, |x, _| if x < 6 { WHITE } else { CLEAR });
    let xs = vec![0, 1, 3, 6, 8, 10];
    let ys = vec![0, 5, 6, 10];
    assert_eq!(
        cutter.assemble_frames(&img, &xs, &ys),
        vec![frame(1, 0, 2, 5), frame(3, 0, 3, 5), frame(1, 6, 2, 4), frame(3, 6, 3, 4)]
    );
    assert_eq!(cutter.assemble_frames(&img, &vec![0], &ys), Vec::new());
    assert_eq!(cutter.assemble_frames(&img, &xs, &Vec::new()), Vec::new());
}

#[test]
fn transparent_uniform_image_yields_no_frames() {
    for cutter in [
        SpritesheetCutter::new(CutterConfig::default()),
        SpritesheetCutter::new(CutterConfig::relaxed()),
        sized(0, 1000),
        sized(1, 4),
    ] {
        for color in [[0, 0, 0, 0], [255, 255, 255, 0], [40, 90, 200, 10]] {
            for (width, height) in [(0, 0), (1, 1), (32, 32), (100, 20), (20, 100)] {
                let img = image(width, height, |_, _| color);
                assert!(cutter.detect_sprite_frames(&img).is_empty());
                assert!(cutter.fallback_detection(&img).is_empty());
                assert!(cutter.process_spritesheet(&img).is_empty());
            }
        }
    }
}

#[test]
fn opaque_uniform_image_of_inadmissible_size_yields_no_frames() {
    let cutter = SpritesheetCutter::new(CutterConfig::default());
    for (width, height) in [(15, 15), (8, 100), (100, 8), (15, 600), (600, 15)] {
        let img = image(width, height, |_, _| WHITE);
        assert!(cutter.detect_sprite_frames(&img).is_empty());
        assert!(cutter.fallback_detection(&img).is_empty());
    }
}

#[test]
fn opaque_uniform_image_of_admissible_size_is_one_frame() {
    let cutter = SpritesheetCutter::new(CutterConfig::default());
    let img = image(32, 32, |_, _| WHITE);
    assert_eq!(cutter.detect_sprite_frames(&img), vec![frame(0, 0, 32, 32)]);
}

#[test]
fn fallback_cuts_vertical_strips_at_empty_columns() {
    let cutter = sized(4, 30);
    let img = two_sprites(8, false);
    let gray = img.to_luma8();
    assert_eq!(cutter.detect_most_common_color(&gray), 128);
    assert_eq!(cutter.find_vertical_boundaries(&gray), vec![0, 40]);
    assert_eq!(cutter.find_horizontal_boundaries(&gray), vec![0, 8]);
    assert_eq!(
        cutter.find_empty_space_boundaries_horizontal(&img),
        vec![0, 12, 16, 28, 32, 36, 40]
    );
    let expected = vec![
        frame(0, 0, 12, 8),
        frame(12, 0, 4, 8),
        frame(16, 0, 12, 8),
        frame(28, 0, 4, 8),
        frame(32, 0, 4, 8),
        frame(36, 0, 4, 8),
    ];
    assert_eq!(cutter.fallback_detection(&img), expected);
    assert_eq!(cutter.detect_sprite_frames(&img), expected);
}

#[test]
fn fallback_cuts_horizontal_bands_where_no_strip_is_accepted() {
    let cutter = sized(4, 30);
    let img = two_sprites(8, true);
    assert_eq!(cutter.find_empty_space_boundaries_horizontal(&img), vec![0, 8]);
    assert_eq!(
        cutter.find_empty_space_boundaries_vertical(&img),
        vec![0, 12, 16, 28, 32, 36, 40]
    );
    let expected = vec![
        frame(0, 0, 8, 12),
        frame(0, 12, 8, 4),
        frame(0, 16, 8, 12),
        frame(0, 28, 8, 4),
        frame(0, 32, 8, 4),
        frame(0, 36, 8, 4),
    ];
    assert_eq!(cutter.fallback_detection(&img), expected);
    assert_eq!(cutter.detect_sprite_frames(&img), expected);
}

#[test]
fn fallback_checks_the_height_of_a_strip() {
    // The strips are 12 and 4 wide, but 40 high, which is more than the
    // maximum of 30; the bands are 40 wide.
    let cutter = sized(4, 30);
    let img = two_sprites(40, false);
    assert_eq!(
        cutter.find_empty_space_boundaries_horizontal(&img),
        vec![0, 12, 16, 28, 32, 36, 40]
    );
    assert!(cutter.fallback_detection(&img).is_empty());
    assert!(cutter.detect_sprite_frames(&img).is_empty());
}

#[test]
fn empty_space_fraction_must_be_exceeded() {
    // Of the twenty samples of each column, column 1 is background in 17 and
    // column 2 in 18; a luma of 143 lies within 15 of 128, one of 144 does
    // not.
    let img = image(8, 20, |x, y| match x {
        1 => if y < 17 { [143, 143, 143, 255] } else { [144, 144, 144, 255] },
        2 => if y < 18 { [113, 113, 113, 255] } else { [112, 112, 112, 255] },
        3 | 5 | 6 => WHITE,
        _ => GRAY,
    });
    let cutter = sized(1, 30);
    assert_eq!(cutter.detect_most_common_color(&img.to_luma8()), 128);
    assert_eq!(cutter.find_empty_space_boundaries_horizontal(&img), vec![0, 2, 4, 8]);
    let mut config = CutterConfig::default();
    config.min_sprite_size = 1;
    config.thresholds.empty_percent = 84;
    let cutter = SpritesheetCutter::new(config);
    assert_eq!(cutter.find_empty_space_boundaries_horizontal(&img), vec![0, 1, 2, 4, 8]);
}

#[test]
fn fallback_is_not_tried_where_the_grid_yields_frames() {
    let cutter = sized(4, 40);
    let img = two_sprites(8, false);
    assert_eq!(cutter.detect_sprite_frames(&img), vec![frame(0, 0, 40, 8)]);
    assert_eq!(cutter.fallback_detection(&img).len(), 6);
}

#[test]
fn dominant_luma_is_the_mode_of_every_fourth_pixel() {
    let cutter = SpritesheetCutter::new(CutterConfig::default());
    // Only the pixels at x = 0, 4, 8 of the rows 0 and 4 are sampled.
    let img = image(9, 5, |x, y| if x % 4 == 0 && y % 4 == 0 {
        if x == 8 && y == 4 { [70, 70, 70, 255] } else { [30, 30, 30, 255] }
    } else {
        [200, 200, 200, 255]
    });
    assert_eq!(cutter.detect_most_common_color(&img.to_luma8()), 30);
}

#[test]
fn dominant_luma_of_a_tie_is_the_smallest() {
    let cutter = SpritesheetCutter::new(CutterConfig::default());
    let img = image(8, 1, |x, _| if x < 4 { [50, 50, 50, 255] } else { [30, 30, 30, 255] });
    assert_eq!(cutter.detect_most_common_color(&img.to_luma8()), 30);
    let empty = image(0, 0, |_, _| CLEAR);
    assert_eq!(cutter.detect_most_common_color(&empty.to_luma8()), 0);
}
