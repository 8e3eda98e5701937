//! Parameters of the cutter.

use vstd::prelude::*;

verus! {

/// Alpha above which a pixel counts as visible content.
pub const OPAQUE_ALPHA: u8 = 10;

/// The tunable thresholds of boundary detection and of the content filter.
///
/// Fractions are given in percent, and a count exceeds a fraction of a total
/// when a hundred times the count is more than the percentage times the total.
/// Two sets of values are in use, a strict one and a relaxed one; see
/// [`DetectionThresholds::strict`] and [`DetectionThresholds::relaxed`].
#[derive(Clone, Copy, Debug, PartialEq, Eq, Structural)]
pub struct DetectionThresholds {
    /// A sample is dark when its luma is below this value.
    pub darkness: u8,
    /// Two adjacent samples form an edge when their luma differs by more than
    /// this value.
    pub edge_delta: u8,
    /// A line is a separator when more than this percentage of its samples is
    /// dark.
    pub dark_percent: u32,
    /// A line is a separator when its edges number more than this percentage
    /// of its length.
    pub edge_percent: u32,
    /// A frame holds content when more than this percentage of its pixels is
    /// visible.
    pub content_percent: u32,
    /// A line is empty space when more than this percentage of its samples
    /// lies close to the dominant luma.
    pub empty_percent: u32,
}

impl DetectionThresholds {
    /// The strict set: 80% dark, edges of more than 50 on 30% of a line, 5%
    /// content, 85% empty space.
    pub fn strict() -> (t: DetectionThresholds)
        ensures
            t == Self::strict_spec(),
    {
        DetectionThresholds {
            darkness: 10,
            edge_delta: 50,
            dark_percent: 80,
            edge_percent: 30,
            content_percent: 5,
            empty_percent: 85,
        }
    }

    /// The relaxed set: 60% dark, edges of more than 30 on 20% of a line, 2%
    /// content, 85% empty space.
    pub fn relaxed() -> (t: DetectionThresholds)
        ensures
            t == Self::relaxed_spec(),
    {
        DetectionThresholds {
            darkness: 10,
            edge_delta: 30,
            dark_percent: 60,
            edge_percent: 20,
            content_percent: 2,
            empty_percent: 85,
        }
    }

    /// The values of the strict set.
    pub open spec fn strict_spec() -> DetectionThresholds {
        DetectionThresholds {
            darkness: 10,
            edge_delta: 50,
            dark_percent: 80,
            edge_percent: 30,
            content_percent: 5,
            empty_percent: 85,
        }
    }

    /// The values of the relaxed set.
    pub open spec fn relaxed_spec() -> DetectionThresholds {
        DetectionThresholds {
            darkness: 10,
            edge_delta: 30,
            dark_percent: 60,
            edge_percent: 20,
            content_percent: 2,
            empty_percent: 85,
        }
    }
}

/// The parameters of one run of the cutter.
#[derive(Clone, Debug)]
pub struct CutterConfig {
    /// Minimum width and height of a sprite frame.
    pub min_sprite_size: u32,
    /// Maximum width and height of a sprite frame.
    pub max_sprite_size: u32,
    /// Largest difference per colour channel at which a pixel still counts as
    /// background.
    pub background_tolerance: u8,
    /// Whether the background of each frame is made transparent.
    pub remove_background: bool,
    /// Name of the directory that receives the frames.
    pub output_dir: String,
    /// Thresholds of boundary detection and of the content filter.
    pub thresholds: DetectionThresholds,
}

impl CutterConfig {
    /// Frames of 16 to 512 pixels, a background tolerance of 10, and the
    /// strict thresholds.
    pub open spec fn is_default(&self) -> bool {
        &&& self.min_sprite_size == 16
        &&& self.max_sprite_size == 512
        &&& self.background_tolerance == 10
        &&& self.remove_background
        &&& self.output_dir@ == "assets2"@
        &&& self.thresholds == DetectionThresholds::strict_spec()
    }

    /// Frames of 8 to 1024 pixels, a background tolerance of 20, and the
    /// relaxed thresholds.
    pub open spec fn is_relaxed(&self) -> bool {
        &&& self.min_sprite_size == 8
        &&& self.max_sprite_size == 1024
        &&& self.background_tolerance == 20
        &&& self.remove_background
        &&& self.output_dir@ == "assets2"@
        &&& self.thresholds == DetectionThresholds::relaxed_spec()
    }

    /// The relaxed configuration, which catches smaller and larger sprites
    /// and fainter separators than the default one.
    pub fn relaxed() -> (c: CutterConfig)
        ensures
            c.is_relaxed(),
    {
        CutterConfig {
            min_sprite_size: 8,
            max_sprite_size: 1024,
            background_tolerance: 20,
            remove_background: true,
            output_dir: "assets2".to_owned(),
            thresholds: DetectionThresholds::relaxed(),
        }
    }

    /// Whether a frame of the given size is neither too small nor too large.
    pub open spec fn admits_size(&self, width: int, height: int) -> bool {
        &&& self.min_sprite_size <= width <= self.max_sprite_size
        &&& self.min_sprite_size <= height <= self.max_sprite_size
    }
}

impl Default for CutterConfig {
    fn default() -> (c: CutterConfig)
        ensures
            c.is_default(),
    {
        CutterConfig {
            min_sprite_size: 16,
            max_sprite_size: 512,
            background_tolerance: 10,
            remove_background: true,
            output_dir: "assets2".to_owned(),
            thresholds: DetectionThresholds::strict(),
        }
    }
}

/// The spritesheet cutter: the detection and stripping routines, run under
/// one configuration.
#[derive(Debug)]
pub struct SpritesheetCutter {
    pub config: CutterConfig,
}

impl SpritesheetCutter {
    /// A cutter that works under `config`.
    pub fn new(config: CutterConfig) -> (cutter: SpritesheetCutter)
        ensures
            cutter.config == config,
    {
        SpritesheetCutter { config }
    }
}

} // verus!
