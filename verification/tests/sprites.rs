use spritesheet_cutter::naming::{frame_file_name, is_supported_extension};
use spritesheet_cutter::{
    Color, CutterConfig, OutputFile, RasterImage, SheetOutput, SpriteFrame, SpritesheetCutter,
};

fn image(width: u32, height: u32, pixel: impl Fn(u32, u32) -> [u8; 4]) -> RasterImage {
    let mut data = Vec::new();
    for y in 0..height {
        for x in 0..width {
            data.extend_from_slice(&pixel(x, y));
        }
    }
    RasterImage::from_raw(width, height, data).unwrap()
}

const WHITE: [u8; 4] = [255, 255, 255, 255];
const CLEAR: [u8; 4] = [0, 0, 0, 0];

fn three_columns() -> RasterImage {
    image(104, 32, |x, y| if (32..40).contains(&x) || (72..80).contains(&x) {
        CLEAR
    } else if (x, y) == (50, 7) {
        [200, 30, 30, 255]
    } else {
        WHITE
    })
}

fn frames_of(output: SheetOutput) -> Vec<OutputFile> {
    match output {
        SheetOutput::Frames(files) => files,
        SheetOutput::Whole(file) => panic!("the sheet was written whole, as {}", file.name),
    }
}

fn whole_of(output: SheetOutput) -> OutputFile {
    match output {
        SheetOutput::Frames(files) => panic!("the sheet was cut into {} frames", files.len()),
        SheetOutput::Whole(file) => file,
    }
}

fn keeping_background() -> SpritesheetCutter {
    let mut config = CutterConfig::default();
    config.remove_background = false;
    SpritesheetCutter::new(config)
}

#[test]
fn cropped_frame_has_the_size_of_the_frame() {
    let cutter = SpritesheetCutter::new(CutterConfig::default());
    let img = image(30, 20, |x, y| [x as u8, y as u8, 0, 255]);
    let frames = [
        SpriteFrame { x: 0, y: 0, width: 30, height: 20 },
        SpriteFrame { x: 3, y: 5, width: 16, height: 8 },
        SpriteFrame { x: 29, y: 19, width: 1, height: 1 },
        SpriteFrame { x: 10, y: 0, width: 20, height: 20 },
        SpriteFrame { x: 30, y: 20, width: 0, height: 0 },
    ];
    for f in frames.iter() {
        let cut = cutter.extract_frame(&img, f);
        assert_eq!(cut.width(), f.width);
        assert_eq!(cut.height(), f.height);
        assert_eq!(cut.data.len() as u32, 4 * f.width * f.height);
        for j in 0..f.height {
            for i in 0..f.width {
                assert_eq!(cut.get_pixel(i, j), img.get_pixel(f.x + i, f.y + j));
            }
        }
    }
}

#[test]
fn detected_frames_keep_their_size_when_cropped() {
    let cutter = SpritesheetCutter::new(CutterConfig::default());
    let img = three_columns();
    let frames = cutter.detect_sprite_frames(&img);
    assert_eq!(frames.len(), 3);
    let sprites = cutter.process_spritesheet(&img);
    assert_eq!(sprites.len(), 3);
    for (f, sprite) in frames.iter().zip(sprites.iter()) {
        let cut = cutter.extract_frame(&img, f);
        assert_eq!((cut.width(), cut.height()), (f.width, f.height));
        assert_eq!((sprite.width(), sprite.height()), (f.width, f.height));
    }
}

#[test]
fn frame_beyond_the_image_is_clipped() {
    let cutter = SpritesheetCutter::new(CutterConfig::default());
    let img = image(30, 20, |x, y| [x as u8, y as u8, 0, 255]);
    let cut = cutter.extract_frame(&img, &SpriteFrame { x: 25, y: 15, width: 10, height: 10 });
    assert_eq!((cut.width(), cut.height()), (5, 5));
    assert_eq!(cut.get_pixel(4, 4), Some(Color::new(29, 19, 0, 255)));
}

#[test]
fn sprites_are_cut_out_and_stripped() {
    let cutter = SpritesheetCutter::new(CutterConfig::default());
    let sprites = cutter.process_spritesheet(&three_columns());
    assert_eq!(sprites.len(), 3);
    assert_eq!((sprites[0].width(), sprites[0].height()), (32, 32));
    assert_eq!((sprites[1].width(), sprites[1].height()), (33, 32));
    assert_eq!((sprites[2].width(), sprites[2].height()), (25, 32));
    // The corner of the first sprite is white, so all of it is stripped.
    assert!(sprites[0].data.iter().all(|b| *b == 0));
    // The corner block of the second sprite holds one clear column of the
    // gutter and nine white ones: white is stripped, and the red pixel stays.
    for y in 0..32 {
        for x in 0..33 {
            let expected = if (x, y) == (11, 7) {
                Color::new(200, 30, 30, 255)
            } else {
                Color::new(0, 0, 0, 0)
            };
            assert_eq!(sprites[1].get_pixel(x, y), Some(expected));
        }
    }
}

#[test]
fn sprites_keep_their_background_where_stripping_is_off() {
    let cutter = keeping_background();
    let img = three_columns();
    let sprites = cutter.process_spritesheet(&img);
    assert_eq!(sprites.len(), 3);
    for y in 0..32 {
        for x in 0..32 {
            assert_eq!(sprites[0].get_pixel(x, y), Some(Color::new(255, 255, 255, 255)));
        }
    }
    let whole = cutter.copy_single_sprite(&img);
    assert_eq!(whole.data, img.data);
}

#[test]
fn single_sprite_is_stripped_where_stripping_is_on() {
    let cutter = SpritesheetCutter::new(CutterConfig::default());
    let img = image(12, 12, |x, y| if (x, y) == (6, 6) { [255, 0, 0, 255] } else { WHITE });
    let whole = cutter.copy_single_sprite(&img);
    assert_eq!((whole.width(), whole.height()), (12, 12));
    assert_eq!(whole.get_pixel(6, 6), Some(Color::new(255, 0, 0, 255)));
    assert_eq!(whole.get_pixel(0, 0), Some(Color::new(0, 0, 0, 0)));
    assert_eq!(whole.data.iter().filter(|b| **b != 0).count(), 2);
}

#[test]
fn sheet_with_frames_is_written_frame_by_frame() {
    let cutter = keeping_background();
    let outputs = frames_of(cutter.process_image(&three_columns(), "ships", "ships.PNG"));
    assert_eq!(outputs.len(), 3);
    assert_eq!(outputs[0].name, "ships_frame_001.png");
    assert_eq!(outputs[1].name, "ships_frame_002.png");
    assert_eq!(outputs[2].name, "ships_frame_003.png");
    assert_eq!((outputs[0].image.width(), outputs[0].image.height()), (32, 32));
    assert_eq!((outputs[1].image.width(), outputs[1].image.height()), (33, 32));
    assert_eq!((outputs[2].image.width(), outputs[2].image.height()), (25, 32));
    assert_eq!(outputs[1].image.get_pixel(11, 7), Some(Color::new(200, 30, 30, 255)));
}

#[test]
fn sheet_without_frames_is_written_whole() {
    let img = image(12, 12, |x, y| if (x, y) == (6, 6) { [255, 0, 0, 255] } else { WHITE });
    let stripping = SpritesheetCutter::new(CutterConfig::default());
    assert!(stripping.detect_sprite_frames(&img).is_empty());
    let whole = whole_of(stripping.process_image(&img, "icon", "icon.bmp"));
    assert_eq!(whole.name, "icon.bmp");
    assert_eq!(whole.image.get_pixel(6, 6), Some(Color::new(255, 0, 0, 255)));
    assert_eq!(whole.image.get_pixel(5, 6), Some(Color::new(0, 0, 0, 0)));
    let whole = whole_of(keeping_background().process_image(&img, "icon", "icon.bmp"));
    assert_eq!(whole.name, "icon.bmp");
    assert_eq!(whole.image.data, img.data);
}

#[test]
fn frame_files_are_numbered_in_three_digits() {
    assert_eq!(frame_file_name("sheet", 1), "sheet_frame_001.png");
    assert_eq!(frame_file_name("sheet", 9), "sheet_frame_009.png");
    assert_eq!(frame_file_name("sheet", 10), "sheet_frame_010.png");
    assert_eq!(frame_file_name("sheet", 99), "sheet_frame_099.png");
    assert_eq!(frame_file_name("sheet", 100), "sheet_frame_100.png");
    assert_eq!(frame_file_name("sheet", 999), "sheet_frame_999.png");
    assert_eq!(frame_file_name("sheet", 1000), "sheet_frame_1000.png");
    assert_eq!(frame_file_name("sheet", 1234567), "sheet_frame_1234567.png");
    assert_eq!(frame_file_name("sheet", 0), "sheet_frame_000.png");
    assert_eq!(frame_file_name("", 7), "_frame_007.png");
    assert_eq!(frame_file_name("a b.c", 42), "a b.c_frame_042.png");
    assert_eq!(frame_file_name("sheet", 42), format!("{}_frame_{:03}.png", "sheet", 42));
}

#[test]
fn image_extensions_are_told_without_regard_to_case() {
    for ext in ["png", "jpg", "jpeg", "bmp", "gif", "tiff", "webp"] {
        assert!(is_supported_extension(ext));
        assert!(is_supported_extension(&ext.to_uppercase()));
    }
    assert!(is_supported_extension("Png"));
    assert!(is_supported_extension("jPeG"));
    for ext in ["", "txt", "pn", "pngs", "tif", "jpe", "svg", "ico", "p\u{f1}g", "web p", ".png"] {
        assert!(!is_supported_extension(ext));
    }
}
