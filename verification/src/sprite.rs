//! From frames to sprites: each frame is cut out of the image and, if the
//! configuration asks for it, stripped of its background.

use vstd::prelude::*;
use crate::background::{background_estimate, stripped};
use crate::config::{CutterConfig, SpritesheetCutter};
use crate::detect::detected_frames;
use crate::frame::{all_fit, SpriteFrame};
use crate::grid::PixelGrid;
use crate::naming::{frame_file_name, frame_name};
use crate::raster::RasterImage;

verus! {

/// What the cutter makes of a grid that is to be saved: the grid stripped of
/// its background if the configuration asks for that, the grid itself
/// otherwise.
pub open spec fn finished(cfg: CutterConfig, grid: PixelGrid) -> PixelGrid {
    if cfg.remove_background {
        stripped(grid, background_estimate(grid), cfg.background_tolerance)
    } else {
        grid
    }
}

/// The sprite of a frame: the cut-out of the image under the frame,
/// finished.
pub open spec fn sprite_of(cfg: CutterConfig, grid: PixelGrid, f: SpriteFrame) -> PixelGrid {
    finished(cfg, grid.crop(f.x as nat, f.y as nat, f.width as nat, f.height as nat))
}

/// An image that is to be written, with the name of its file.
#[derive(Debug)]
pub struct OutputFile {
    pub name: String,
    pub image: RasterImage,
}

/// What the cutter writes for one sheet.
#[derive(Debug)]
pub enum SheetOutput {
    /// The sprites of the sheet, one for each detected frame.
    Frames(Vec<OutputFile>),
    /// The whole sheet, in which no frame was detected.
    Whole(OutputFile),
}

/// Whether `files` holds the sprites of a sheet: one for each detected frame,
/// in the order of detection, named after the stem of the sheet and the
/// number of the frame, counted from 1.
pub open spec fn holds_sprites(
    cfg: CutterConfig,
    grid: PixelGrid,
    stem: Seq<char>,
    files: Seq<OutputFile>,
) -> bool {
    let frames = detected_frames(cfg, grid);
    &&& files.len() == frames.len()
    &&& forall|i: int|
        0 <= i < files.len() ==> {
            &&& (#[trigger] files[i]).name@ == frame_name(stem, (i + 1) as nat)
            &&& files[i].image.wf()
            &&& files[i].image@ == sprite_of(cfg, grid, frames[i])
        }
}

/// Whether `output` is what the cutter writes for a sheet: its sprites, where
/// a frame is detected, and otherwise the whole sheet, finished, under its
/// own file name.
pub open spec fn is_output_of(
    cfg: CutterConfig,
    grid: PixelGrid,
    stem: Seq<char>,
    file_name: Seq<char>,
    output: SheetOutput,
) -> bool {
    match output {
        SheetOutput::Frames(files) => {
            &&& detected_frames(cfg, grid).len() > 0
            &&& holds_sprites(cfg, grid, stem, files@)
        },
        SheetOutput::Whole(file) => {
            &&& detected_frames(cfg, grid).len() == 0
            &&& file.name@ == file_name
            &&& file.image.wf()
            &&& file.image@ == finished(cfg, grid)
        },
    }
}

/// Whether `sprites` holds the sprite of each frame of `frames`, in the order
/// of the frames, each with the width and the height of its frame.
pub open spec fn are_sprites_of(
    cfg: CutterConfig,
    grid: PixelGrid,
    frames: Seq<SpriteFrame>,
    sprites: Seq<RasterImage>,
) -> bool {
    &&& sprites.len() == frames.len()
    &&& forall|i: int|
        0 <= i < sprites.len() ==> {
            &&& (#[trigger] sprites[i]).wf()
            &&& sprites[i]@ == sprite_of(cfg, grid, frames[i])
            &&& sprites[i].width == frames[i].width
            &&& sprites[i].height == frames[i].height
        }
}

/// The cut-out of a grid under a frame that lies inside it has the width and
/// the height of the frame.
pub proof fn lemma_crop_keeps_frame_size(grid: PixelGrid, f: SpriteFrame)
    requires
        f.fits(grid),
    ensures
        grid.crop(f.x as nat, f.y as nat, f.width as nat, f.height as nat).width == f.width,
        grid.crop(f.x as nat, f.y as nat, f.width as nat, f.height as nat).height == f.height,
{
}

/// The sprite of a frame that lies inside the grid has the width and the
/// height of the frame, whether its background is stripped or not.
pub proof fn lemma_sprite_keeps_frame_size(cfg: CutterConfig, grid: PixelGrid, f: SpriteFrame)
    requires
        f.fits(grid),
    ensures
        sprite_of(cfg, grid, f).width == f.width,
        sprite_of(cfg, grid, f).height == f.height,
{
}

impl SpritesheetCutter {
    /// Cuts a frame out of an image. A frame that lies inside the image gives
    /// a cut-out of exactly its own width and height; one that reaches beyond
    /// the image is clipped to it.
    pub fn extract_frame(&self, img: &RasterImage, frame: &SpriteFrame) -> (cut: RasterImage)
        requires
            img.wf(),
        ensures
            cut.wf(),
            cut@ == img@.crop(
                frame.x as nat,
                frame.y as nat,
                frame.width as nat,
                frame.height as nat,
            ),
            frame.fits(img@) ==> cut.width == frame.width && cut.height == frame.height,
    {
        img.crop_imm(frame.x, frame.y, frame.width, frame.height)
    }

    /// Finishes an image that is to be saved: strips its background if the
    /// configuration asks for that, and copies it otherwise.
    fn finish(&self, img: RasterImage) -> (out: RasterImage)
        requires
            img.wf(),
        ensures
            out.wf(),
            out@ == finished(self.config, img@),
    {
        if self.config.remove_background {
            self.remove_background(&img)
        } else {
            img
        }
    }

    /// Cuts a spritesheet into its sprites: one image for each detected
    /// frame, in the order of detection, each cut out of the sheet and
    /// finished. The result is empty where no frame is detected.
    pub fn process_spritesheet(&self, img: &RasterImage) -> (sprites: Vec<RasterImage>)
        requires
            img.wf(),
        ensures
            are_sprites_of(self.config, img@, detected_frames(self.config, img@), sprites@),
    {
        let frames = self.detect_sprite_frames(img);
        let mut sprites: Vec<RasterImage> = Vec::new();
        let mut i: usize = 0;
        while i < frames.len()
            invariant
                img.wf(),
                frames@ == detected_frames(self.config, img@),
                i <= frames@.len(),
                sprites@.len() == i,
                all_fit(img@, frames@),
                forall|k: int|
                    0 <= k < i ==> {
                        &&& (#[trigger] sprites@[k]).wf()
                        &&& sprites@[k]@ == sprite_of(self.config, img@, frames@[k])
                        &&& sprites@[k].width == frames@[k].width
                        &&& sprites@[k].height == frames@[k].height
                    },
            decreases frames@.len() - i,
        {
            let cropped = self.extract_frame(img, &frames[i]);
            let processed = self.finish(cropped);
            sprites.push(processed);
            i = i + 1;
        }
        sprites
    }

    /// Decides what is written for a sheet: its sprites, each under the name
    /// of its frame, or the whole sheet under its own name where no frame is
    /// detected.
    pub fn process_image(&self, img: &RasterImage, stem: &str, file_name: &str) -> (output:
        SheetOutput)
        requires
            img.wf(),
        ensures
            is_output_of(self.config, img@, stem@, file_name@, output),
    {
        let frames = self.detect_sprite_frames(img);
        if frames.len() == 0 {
            let image = self.copy_single_sprite(img);
            return SheetOutput::Whole(OutputFile { name: file_name.to_owned(), image });
        }
        let mut files: Vec<OutputFile> = Vec::new();
        let mut i: usize = 0;
        while i < frames.len()
            invariant
                img.wf(),
                frames@ == detected_frames(self.config, img@),
                i <= frames@.len(),
                files@.len() == i,
                forall|k: int|
                    0 <= k < i ==> {
                        &&& (#[trigger] files@[k]).name@ == frame_name(stem@, (k + 1) as nat)
                        &&& files@[k].image.wf()
                        &&& files@[k].image@ == sprite_of(self.config, img@, frames@[k])
                    },
            decreases frames@.len() - i,
        {
            let cropped = self.extract_frame(img, &frames[i]);
            let image = self.finish(cropped);
            files.push(OutputFile { name: frame_file_name(stem, i + 1), image });
            i = i + 1;
        }
        SheetOutput::Frames(files)
    }

    /// Prepares an image in which no frame was detected for being saved
    /// whole: the image itself, finished.
    pub fn copy_single_sprite(&self, img: &RasterImage) -> (out: RasterImage)
        requires
            img.wf(),
        ensures
            out.wf(),
            out@ == finished(self.config, img@),
    {
        if self.config.remove_background {
            self.remove_background(img)
        } else {
            img.duplicate()
        }
    }
}

} // verus!
