//! Cuts spritesheets into individual sprite frames.
//!
//! The crate infers the grid of a spritesheet from its pixels: it looks for
//! separator columns and rows, crosses them into candidate rectangles, keeps
//! the rectangles that are large enough and hold visible content, and can
//! strip the dominant background colour from each frame.

pub mod background;
pub mod boundary;
pub mod color;
pub mod config;
pub mod count;
pub mod detect;
pub mod estimate;
pub mod failure;
pub mod fallback;
pub mod frame;
pub mod grid;
pub mod naming;
pub mod raster;
pub mod scan;
pub mod sprite;
pub mod uniform;

pub use color::Color;
pub use config::{CutterConfig, DetectionThresholds, SpritesheetCutter};
pub use failure::{FailureKind, Reaction};
pub use frame::SpriteFrame;
pub use grid::{Axis, LumaGrid, PixelGrid};
pub use raster::{GrayscaleView, RasterImage};
pub use sprite::{OutputFile, SheetOutput};
