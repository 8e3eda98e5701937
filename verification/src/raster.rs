//! Decoded images as the cutter holds them: raw 8-bit RGBA pixels, and the
//! single-channel luma projection derived from them.

use vstd::prelude::*;
use crate::color::{luma_of, Color};
use crate::grid::{
    clipped, lemma_area_bound, lemma_cropped_is_crop, lemma_position_index, pixel_index, Axis,
    LumaGrid, PixelGrid,
};

verus! {

/// The colour stored in the four bytes of pixel number `k` of an RGBA buffer.
pub open spec fn color_at(bytes: Seq<u8>, k: int) -> Color {
    Color { r: bytes[4 * k], g: bytes[4 * k + 1], b: bytes[4 * k + 2], a: bytes[4 * k + 3] }
}

/// The grid of colours that a row-by-row RGBA buffer of the given width and
/// height holds.
pub open spec fn rgba_grid(width: u32, height: u32, bytes: Seq<u8>) -> PixelGrid {
    PixelGrid {
        width: width as nat,
        height: height as nat,
        pixels: Seq::new((bytes.len() / 4) as nat, |k: int| color_at(bytes, k)),
    }
}

/// A decoded bitmap: `width * height` pixels of four bytes each, red, green,
/// blue and alpha, stored row by row.
#[derive(Debug)]
pub struct RasterImage {
    pub width: u32,
    pub height: u32,
    pub data: Vec<u8>,
}

/// The luma of each pixel of an image: one byte per pixel, stored row by row.
#[derive(Debug)]
pub struct GrayscaleView {
    pub width: u32,
    pub height: u32,
    pub data: Vec<u8>,
}

impl View for RasterImage {
    type V = PixelGrid;

    open spec fn view(&self) -> PixelGrid {
        rgba_grid(self.width, self.height, self.data@)
    }
}

impl View for GrayscaleView {
    type V = LumaGrid;

    open spec fn view(&self) -> LumaGrid {
        LumaGrid { width: self.width as nat, height: self.height as nat, luma: self.data@ }
    }
}

/// Converts an RGBA buffer to luma with `image::DynamicImage::to_luma8`.
///
/// Trusted: the result holds one byte per pixel, in the order of the pixels,
/// and each byte is the weighted mean `luma_of` of the red, green and blue
/// bytes of its pixel. The buffer must hold exactly `width * height` pixels,
/// so that `image::RgbaImage::from_raw` accepts it.
#[verifier::external_body]
fn rgba_to_luma(width: u32, height: u32, rgba: &Vec<u8>) -> (luma: Vec<u8>)
    requires
        rgba@.len() == 4 * width * height,
    ensures
        luma@.len() == width * height,
        forall|k: int|
            0 <= k < width * height ==> #[trigger] luma@[k] == luma_of(
                rgba@[4 * k],
                rgba@[4 * k + 1],
                rgba@[4 * k + 2],
            ),
{
    let buffer = image::RgbaImage::from_raw(width, height, rgba.clone()).unwrap();
    image::DynamicImage::ImageRgba8(buffer).to_luma8().into_raw()
}

/// Cuts a rectangle out of an RGBA buffer with
/// `image::DynamicImage::crop_imm`, and returns the width, the height and the
/// bytes of the cut-out.
///
/// Trusted: the rectangle is clipped to the image; the cut-out has the size
/// of the clipped rectangle and holds four bytes for each of its pixels, row
/// by row; and its pixel at `(i, j)` is the pixel of the source at
/// `(x + i, y + j)`. The buffer must hold exactly `width * height` pixels, so
/// that `image::RgbaImage::from_raw` accepts it.
#[verifier::external_body]
fn rgba_crop(width: u32, height: u32, rgba: &Vec<u8>, x: u32, y: u32, w: u32, h: u32) -> (out: (
    u32,
    u32,
    Vec<u8>,
))
    requires
        rgba@.len() == 4 * width * height,
    ensures
        out.0 == clipped(w as int, x as int, width as int),
        out.1 == clipped(h as int, y as int, height as int),
        out.2@.len() == 4 * out.0 * out.1,
        forall|i: int, j: int|
            0 <= i < out.0 && 0 <= j < out.1 ==> #[trigger] color_at(
                out.2@,
                pixel_index(out.0 as int, i, j),
            ) == color_at(rgba@, pixel_index(width as int, x + i, y + j)),
{
    let buffer = image::RgbaImage::from_raw(width, height, rgba.clone()).unwrap();
    let cut = image::DynamicImage::ImageRgba8(buffer).crop_imm(x, y, w, h).into_rgba8();
    (cut.width(), cut.height(), cut.into_raw())
}

impl RasterImage {
    /// The buffer holds four bytes for each pixel.
    pub open spec fn wf(&self) -> bool {
        self.data@.len() == 4 * self.width * self.height
    }

    /// An image over a raw RGBA buffer, if the buffer holds exactly
    /// `width * height` pixels.
    pub fn from_raw(width: u32, height: u32, data: Vec<u8>) -> (img: Option<RasterImage>)
        ensures
            img is Some <==> data@.len() == 4 * width * height,
            img matches Some(i) ==> i.wf() && i.width == width && i.height == height && i.data@
                == data@,
    {
        proof {
            lemma_area_bound(width, height);
        }
        let needed: u128 = 4 * ((width as u128) * (height as u128));
        if data.len() as u128 == needed {
            Some(RasterImage { width, height, data })
        } else {
            None
        }
    }

    /// Width of the image in pixels.
    pub fn width(&self) -> (w: u32)
        ensures
            w == self@.width,
    {
        self.width
    }

    /// Height of the image in pixels.
    pub fn height(&self) -> (h: u32)
        ensures
            h == self@.height,
    {
        self.height
    }

    /// The model of a well-formed image is a well-formed grid.
    pub proof fn lemma_wf(&self)
        requires
            self.wf(),
        ensures
            self@.wf(),
    {
        lemma_area_bound(self.width, self.height);
    }

    /// The model of a well-formed image is a well-formed grid, and the pixel
    /// at a position lies in the four bytes at its place in the buffer.
    pub proof fn lemma_view(&self, x: int, y: int)
        requires
            self.wf(),
            self@.contains(x, y),
        ensures
            self@.wf(),
            0 <= y * self.width <= y * self.width + x < self.width * self.height,
            4 * (y * self.width + x) + 3 < self.data@.len() <= usize::MAX,
            self@.at(x, y) == color_at(self.data@, y * self.width + x),
    {
        assert(self.data.len() == self.data@.len());
        lemma_position_index(x, y, self.width as int, self.height as int);
    }

    /// Pixel number `k` of the image, counted row by row.
    fn nth_pixel(&self, k: usize) -> (c: Color)
        requires
            k < self@.pixels.len(),
        ensures
            c == self@.pixels[k as int],
    {
        assert(self.data.len() == self.data@.len());
        Color {
            r: self.data[4 * k],
            g: self.data[4 * k + 1],
            b: self.data[4 * k + 2],
            a: self.data[4 * k + 3],
        }
    }

    /// Replaces pixel number `k` of the image, counted row by row.
    fn set_nth_pixel(&mut self, k: usize, c: Color)
        requires
            old(self).wf(),
            k < old(self)@.pixels.len(),
        ensures
            final(self).wf(),
            final(self).width == old(self).width,
            final(self).height == old(self).height,
            final(self)@.pixels == old(self)@.pixels.update(k as int, c),
    {
        assert(self.data.len() == self.data@.len());
        self.data.set(4 * k, c.r);
        self.data.set(4 * k + 1, c.g);
        self.data.set(4 * k + 2, c.b);
        self.data.set(4 * k + 3, c.a);
        assert(self@.pixels =~= old(self)@.pixels.update(k as int, c));
    }

    /// The pixel at `(x, y)`, which must lie inside the image.
    pub fn pixel(&self, x: u32, y: u32) -> (c: Color)
        requires
            self.wf(),
            self@.contains(x as int, y as int),
        ensures
            c == self@.at(x as int, y as int),
    {
        proof {
            self.lemma_view(x as int, y as int);
        }
        self.nth_pixel((y as usize) * (self.width as usize) + (x as usize))
    }

    /// The pixel at `(x, y)`, or `None` if the position lies outside the
    /// image.
    pub fn get_pixel(&self, x: u32, y: u32) -> (c: Option<Color>)
        requires
            self.wf(),
        ensures
            self@.contains(x as int, y as int) ==> c == Some(self@.at(x as int, y as int)),
            !self@.contains(x as int, y as int) ==> c is None,
    {
        if x < self.width && y < self.height {
            Some(self.pixel(x, y))
        } else {
            None
        }
    }

    /// The alpha of the pixel at `(x, y)`, or `None` if the position lies
    /// outside the image.
    pub fn get_alpha(&self, x: u32, y: u32) -> (a: Option<u8>)
        requires
            self.wf(),
        ensures
            self@.contains(x as int, y as int) ==> a == Some(self@.at(x as int, y as int).a),
            !self@.contains(x as int, y as int) ==> a is None,
    {
        if x < self.width && y < self.height {
            Some(self.pixel(x, y).a)
        } else {
            None
        }
    }

    /// Replaces the pixel at `(x, y)`, which must lie inside the image.
    pub fn put_pixel(&mut self, x: u32, y: u32, c: Color)
        requires
            old(self).wf(),
            old(self)@.contains(x as int, y as int),
        ensures
            final(self).wf(),
            final(self).width == old(self).width,
            final(self).height == old(self).height,
            final(self)@.pixels == old(self)@.pixels.update(y * old(self)@.width + x, c),
    {
        proof {
            self.lemma_view(x as int, y as int);
        }
        self.set_nth_pixel((y as usize) * (self.width as usize) + (x as usize), c);
    }

    /// A copy of the image.
    pub fn duplicate(&self) -> (copy: RasterImage)
        ensures
            copy.width == self.width,
            copy.height == self.height,
            copy.data@ == self.data@,
    {
        let data = self.data.clone();
        assert(data@ =~= self.data@);
        RasterImage { width: self.width, height: self.height, data }
    }

    /// The luma of every pixel of the image.
    pub fn to_luma8(&self) -> (gray: GrayscaleView)
        requires
            self.wf(),
        ensures
            gray.wf(),
            gray@ == self@.to_luma(),
    {
        let data = rgba_to_luma(self.width, self.height, &self.data);
        let gray = GrayscaleView { width: self.width, height: self.height, data };
        proof {
            lemma_area_bound(self.width, self.height);
            assert(gray@.luma =~= self@.to_luma().luma);
        }
        gray
    }

    /// The cut-out of the image under the rectangle at `(x, y)` of size
    /// `width` by `height`, clipped to the image.
    pub fn crop_imm(&self, x: u32, y: u32, width: u32, height: u32) -> (cut: RasterImage)
        requires
            self.wf(),
        ensures
            cut.wf(),
            cut@ == self@.crop(x as nat, y as nat, width as nat, height as nat),
    {
        let (w, h, data) = rgba_crop(self.width, self.height, &self.data, x, y, width, height);
        let cut = RasterImage { width: w, height: h, data };
        proof {
            cut.lemma_wf();
            assert forall|i: int, j: int| cut@.contains(i, j) implies #[trigger] cut@.at(i, j)
                == self@.at(x + i, y + j) by {
                cut.lemma_view(i, j);
                self.lemma_view(x + i, y + j);
            }
            lemma_cropped_is_crop(self@, cut@, x as nat, y as nat, width as nat, height as nat);
        }
        cut
    }
}

impl GrayscaleView {
    /// The buffer holds one byte for each pixel.
    pub open spec fn wf(&self) -> bool {
        self.data@.len() == self.width * self.height
    }

    /// A luma view over a raw buffer, if the buffer holds exactly
    /// `width * height` bytes.
    pub fn from_raw(width: u32, height: u32, data: Vec<u8>) -> (gray: Option<GrayscaleView>)
        ensures
            gray is Some <==> data@.len() == width * height,
            gray matches Some(g) ==> g.wf() && g.width == width && g.height == height && g.data@
                == data@,
    {
        proof {
            lemma_area_bound(width, height);
        }
        let needed: u64 = (width as u64) * (height as u64);
        if data.len() as u64 == needed {
            Some(GrayscaleView { width, height, data })
        } else {
            None
        }
    }

    /// Width of the view in pixels.
    pub fn width(&self) -> (w: u32)
        ensures
            w == self@.width,
    {
        self.width
    }

    /// Height of the view in pixels.
    pub fn height(&self) -> (h: u32)
        ensures
            h == self@.height,
    {
        self.height
    }

    /// The luma at `(x, y)`, which must lie inside the view.
    pub fn luma(&self, x: u32, y: u32) -> (l: u8)
        requires
            self.wf(),
            self@.contains(x as int, y as int),
        ensures
            l == self@.at(x as int, y as int),
    {
        proof {
            lemma_position_index(x as int, y as int, self.width as int, self.height as int);
            assert(self.data.len() == self.data@.len());
        }
        let k: usize = (y as usize) * (self.width as usize) + (x as usize);
        self.data[k]
    }

    /// Number of lines along `axis`.
    pub fn extent(&self, axis: Axis) -> (n: u32)
        ensures
            n == self@.extent(axis),
    {
        match axis {
            Axis::Columns => self.width,
            Axis::Rows => self.height,
        }
    }

    /// Number of samples in each line along `axis`.
    pub fn line_len(&self, axis: Axis) -> (n: u32)
        ensures
            n == self@.line_len(axis),
    {
        match axis {
            Axis::Columns => self.height,
            Axis::Rows => self.width,
        }
    }

    /// Sample number `pos` of line number `line` along `axis`.
    pub fn sample(&self, axis: Axis, line: u32, pos: u32) -> (l: u8)
        requires
            self.wf(),
            line < self@.extent(axis),
            pos < self@.line_len(axis),
        ensures
            l == self@.sample(axis, line as int, pos as int),
    {
        match axis {
            Axis::Columns => self.luma(line, pos),
            Axis::Rows => self.luma(pos, line),
        }
    }

    /// The luma at `(x, y)`, or `None` if the position lies outside the view.
    pub fn get_luma(&self, x: u32, y: u32) -> (l: Option<u8>)
        requires
            self.wf(),
        ensures
            self@.contains(x as int, y as int) ==> l == Some(self@.at(x as int, y as int)),
            !self@.contains(x as int, y as int) ==> l is None,
    {
        if x < self.width && y < self.height {
            Some(self.luma(x, y))
        } else {
            None
        }
    }
}

} // verus!
