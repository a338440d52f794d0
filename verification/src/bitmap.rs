//! Pictures held as plain bytes, and the two services that the `image` crate
//! provides on them: scaling and conversion to grayscale.

use crate::geometry::{lemma_proportions_kept, resolve_dimensions, resolved, RenderError};
use vstd::prelude::*;

verus! {

/// A picture as the contracts see it: `width` by `height` pixels, row after
/// row from the top, each pixel as its red, green and blue sample.
pub struct Raster {
    pub width: nat,
    pub height: nat,
    pub samples: Seq<u8>,
}

impl Raster {
    /// There are exactly three samples for every pixel.
    pub open spec fn wf(self) -> bool {
        self.samples.len() == 3 * self.width * self.height
    }

    /// True if `(x, y)` is a pixel of the picture.
    pub open spec fn contains(self, x: int, y: int) -> bool {
        0 <= x < self.width && 0 <= y < self.height
    }

    /// Position among the samples of channel `channel` of the pixel `(x, y)`.
    pub open spec fn offset(self, x: int, y: int, channel: int) -> int {
        3 * (y * self.width + x) + channel
    }

    /// The sample of channel `channel` (0 red, 1 green, 2 blue) at `(x, y)`.
    pub open spec fn sample(self, x: int, y: int, channel: int) -> u8 {
        self.samples[self.offset(x, y, channel)]
    }

    /// True if every sample is 0 or 1.
    pub open spec fn two_valued(self) -> bool {
        forall|i: int| 0 <= i < self.samples.len() ==> #[trigger] self.samples[i] <= 1
    }
}

/// A picture of 8-bit RGB pixels.
#[derive(Clone, Debug)]
pub struct Bitmap {
    width: u32,
    height: u32,
    data: Vec<u8>,
}

impl View for Bitmap {
    type V = Raster;

    closed spec fn view(&self) -> Raster {
        Raster { width: self.width as nat, height: self.height as nat, samples: self.data@ }
    }
}

/// The samples of the picture that `DynamicImage::resize_exact` of the `image`
/// crate makes with its triangle filter from an 8-bit RGB picture of `width`
/// by `height` pixels with the samples `samples`, asked for `new_width` by
/// `new_height` pixels.
pub uninterp spec fn triangle_resized(
    samples: Seq<u8>,
    width: u32,
    height: u32,
    new_width: u32,
    new_height: u32,
) -> Seq<u8>;

/// The picture scaled to `width` by `height` pixels. Scaled to its own
/// dimensions it is left as it is.
pub open spec fn scaled(source: Raster, width: u32, height: u32) -> Raster {
    if width == source.width && height == source.height {
        source
    } else {
        Raster {
            width: width as nat,
            height: height as nat,
            samples: triangle_resized(
                source.samples,
                source.width as u32,
                source.height as u32,
                width,
                height,
            ),
        }
    }
}

/// Longest side, in pixels, of a picture that is scaled or scaled to: 2^22.
///
/// The `image` crate scales one direction after the other (`vertical_sample`
/// and `horizontal_sample` in its `imageops/sample.rs`), in single-precision
/// arithmetic. For position `x` of `n` in the result of a source side `w` it
/// computes the centre `c = (x + 0.5) * (w / n)`, a window of source positions
/// from `floor(c - s)` up to `ceil(c + s)`, clamped to the source, where `s`
/// is the larger of 1 and `w / n`, and for each position `i` of the window the
/// weight `1 - |i - (c - 0.5)| / s`, or 0 where that is not positive. It then
/// divides by the sum of the weights, and panics on the result where the sum
/// is zero.
///
/// With `w` and `n` up to 2^22 the sum is never zero. The exact centre lies
/// at least `w / 2n`, a part in 2^23 of `w`, below `w`; `c` is rounded twice,
/// once in `w / n` and once in the product, which adds less than that, so
/// `c < w` and `floor(c)` is a position of the source. It lies in the window,
/// whose bounds are rounded towards it at worst. Positions and `c - 0.5` are
/// exact at this size (but for a `c` below 0.25, where `c - 0.5` is off by
/// 2^-26 at most), so `floor(c)` is no further than 0.5 from `c - 0.5` and
/// its weight is at least 0.5. A source side of zero leaves the window empty,
/// and nothing is divided.
///
/// Beyond 2^23 halves are lost and the guarantee with them: a strip 8,388,610
/// pixels wide scaled to 16,777,216 has a last position without any weight,
/// and the crate panics on it.
pub const LONGEST_SIDE: u32 = 0x40_0000;

/// True if a picture of `source_width` by `source_height` pixels can be scaled
/// to `width` by `height` pixels: no side is longer than [`LONGEST_SIDE`], and
/// the buffers are no longer than a buffer can be, which is `isize::MAX`
/// bytes. The scaled picture takes three bytes per pixel, and on the way there
/// is a picture as wide as the source and as tall as the target with sixteen
/// bytes per pixel.
pub open spec fn scaling_fits(source_width: nat, source_height: nat, width: nat, height: nat) -> bool {
    &&& source_width <= LONGEST_SIDE
    &&& source_height <= LONGEST_SIDE
    &&& width <= LONGEST_SIDE
    &&& height <= LONGEST_SIDE
    &&& 16 * source_width * height <= isize::MAX
    &&& 3 * width * height <= isize::MAX
}

/// The grid that a request of `width` by `height` pixels gives for the picture
/// `source`: the resolved dimensions, if the picture can be scaled to them.
pub open spec fn target_grid(width: u32, height: u32, source: Raster) -> Result<
    (u32, u32),
    RenderError,
> {
    match resolved(width, height, source.width as u32, source.height as u32) {
        Ok((w, h)) => if scaling_fits(source.width, source.height, w as nat, h as nat) {
            Ok((w, h))
        } else {
            Err(RenderError::TooLarge)
        },
        Err(e) => Err(e),
    }
}

/// Brightness of a colour: the weighted mean of its samples, rounded down.
pub open spec fn luma(red: u8, green: u8, blue: u8) -> u8 {
    ((2126 * red + 7152 * green + 722 * blue) / 10000) as u8
}

/// The picture in shades of gray: every sample of a pixel is the brightness of
/// the pixel's colour.
pub open spec fn grayscaled(source: Raster) -> Raster {
    Raster {
        width: source.width,
        height: source.height,
        samples: Seq::new(
            source.samples.len(),
            |i: int|
                luma(
                    source.samples[i - i % 3],
                    source.samples[i - i % 3 + 1],
                    source.samples[i - i % 3 + 2],
                ),
        ),
    }
}

/// The samples that are left of pixels with four samples each when the
/// fourth, the opacity, is dropped.
pub open spec fn without_alpha(rgba: Seq<u8>) -> Seq<u8> {
    Seq::new((rgba.len() / 4 * 3) as nat, |i: int| rgba[4 * (i / 3) + i % 3])
}

/// The value that stands for a sample once it is reduced to on or off.
pub open spec fn binary(sample: u8, threshold: u8, invert: u8) -> u8 {
    if sample < threshold {
        invert
    } else {
        (1 - invert) as u8
    }
}

/// The picture reduced to two values: every sample of a pixel is `invert`
/// where the pixel's red sample is below `threshold`, and `1 - invert`
/// elsewhere.
pub open spec fn binarized(source: Raster, threshold: u8, invert: u8) -> Raster {
    Raster {
        width: source.width,
        height: source.height,
        samples: Seq::new(
            source.samples.len(),
            |i: int| binary(source.samples[i - i % 3], threshold, invert),
        ),
    }
}

impl Bitmap {
    /// The picture is consistent: three samples for every pixel.
    pub open spec fn wf(&self) -> bool {
        &&& self@.wf()
        &&& self@.width <= u32::MAX
        &&& self@.height <= u32::MAX
    }

    /// Makes a picture of `width` by `height` pixels from its samples, three
    /// for each pixel, row after row. There is no picture if the number of
    /// samples does not match.
    pub fn from_rgb(width: u32, height: u32, data: Vec<u8>) -> (picture: Option<Bitmap>)
        ensures
            picture is Some <==> data@.len() == 3 * width * height,
            picture matches Some(p) ==> p.wf() && p@ == (Raster {
                width: width as nat,
                height: height as nat,
                samples: data@,
            }),
    {
        assert(width * height <= u64::MAX) by (nonlinear_arith)
            requires
                width <= u32::MAX,
                height <= u32::MAX,
        ;
        let pixels: u64 = (width as u64) * (height as u64);
        let len = data.len();
        if len % 3 == 0 && (len / 3) as u64 == pixels {
            assert(3 * width * height == 3 * (width * height)) by (nonlinear_arith);
            Some(Bitmap { width, height, data })
        } else {
            assert(3 * width * height == 3 * (width * height)) by (nonlinear_arith);
            None
        }
    }

    /// Width in pixels.
    pub fn width(&self) -> (width: u32)
        ensures
            width == self@.width,
    {
        self.width
    }

    /// Height in pixels.
    pub fn height(&self) -> (height: u32)
        ensures
            height == self@.height,
    {
        self.height
    }

    /// The samples, three for each pixel, row after row.
    pub fn samples(&self) -> (samples: &Vec<u8>)
        ensures
            samples@ == self@.samples,
    {
        &self.data
    }

    /// Makes a picture of `width` by `height` pixels from red, green, blue and
    /// opacity samples, four for each pixel, row after row. The opacity is
    /// dropped. There is no picture if the number of samples does not match.
    pub fn from_rgba(width: u32, height: u32, data: &[u8]) -> (picture: Option<Bitmap>)
        ensures
            picture is Some <==> data@.len() == 4 * width * height,
            picture matches Some(p) ==> p.wf() && p@ == (Raster {
                width: width as nat,
                height: height as nat,
                samples: without_alpha(data@),
            }),
    {
        assert(width * height <= u64::MAX) by (nonlinear_arith)
            requires
                width <= u32::MAX,
                height <= u32::MAX,
        ;
        assert(4 * width * height == 4 * (width * height)) by (nonlinear_arith);
        assert(3 * width * height == 3 * (width * height)) by (nonlinear_arith);
        let len = data.len();
        if len % 4 != 0 || (len / 4) as u64 != (width as u64) * (height as u64) {
            return None;
        }
        let pixels: usize = len / 4;
        let mut rgb: Vec<u8> = Vec::new();
        let mut p: usize = 0;
        while p < pixels
            invariant
                p <= pixels,
                data@.len() == 4 * pixels,
                4 * pixels <= usize::MAX,
                rgb@.len() == 3 * p,
                forall|i: int| 0 <= i < 3 * p ==> #[trigger] rgb@[i] == data@[4 * (i / 3) + i % 3],
            decreases pixels - p,
        {
            rgb.push(data[4 * p]);
            rgb.push(data[4 * p + 1]);
            rgb.push(data[4 * p + 2]);
            p += 1;
        }
        assert(rgb@ =~= without_alpha(data@));
        Some(Bitmap { width, height, data: rgb })
    }

    /// The sample of channel `channel` (0 red, 1 green, 2 blue) at `(x, y)`.
    pub fn sample(&self, x: u32, y: u32, channel: u8) -> (sample: u8)
        requires
            self.wf(),
            self@.contains(x as int, y as int),
            channel < 3,
        ensures
            sample == self@.sample(x as int, y as int, channel as int),
    {
        let len = self.data.len();
        proof {
            lemma_offset_in_range(self@, x as int, y as int, channel as int);
            assert(0 <= y * self.width) by (nonlinear_arith)
                requires
                    0 <= y,
                    0 <= self.width,
            ;
            assert(3 * (y * self.width + x) + channel < len);
        }
        let pixel: usize = (y as usize) * (self.width as usize) + (x as usize);
        self.data[3 * pixel + (channel as usize)]
    }

    /// Scales the picture to `width` by `height` pixels with the triangle
    /// filter of the `image` crate.
    ///
    /// This is `DynamicImage::resize_exact` on an 8-bit RGB picture, which
    /// returns an 8-bit RGB picture of the dimensions asked for. Asked for
    /// the picture's own dimensions it copies the picture pixel by pixel.
    /// What the samples are otherwise is left to the crate: they depend on
    /// nothing but the picture and the dimensions. It does not panic on what
    /// [`scaling_fits`] admits: its buffers can be allocated, and no sum of
    /// filter weights is zero (see [`LONGEST_SIDE`]).
    #[verifier::external_body]
    pub(crate) fn resize_exact(self, width: u32, height: u32) -> (picture: Bitmap)
        requires
            self.wf(),
            scaling_fits(self@.width, self@.height, width as nat, height as nat),
            width > 0,
            height > 0,
        ensures
            picture.wf(),
            picture@.width == width,
            picture@.height == height,
            picture@.samples == triangle_resized(
                self@.samples,
                self@.width as u32,
                self@.height as u32,
                width,
                height,
            ),
            width == self@.width && height == self@.height ==> picture@.samples == self@.samples,
    {
        let source = image::RgbImage::from_raw(self.width, self.height, self.data).unwrap();
        let scaled = image::DynamicImage::ImageRgb8(source).resize_exact(
            width,
            height,
            image::imageops::FilterType::Triangle,
        ).into_rgb8();
        Bitmap { width: scaled.width(), height: scaled.height(), data: scaled.into_raw() }
    }

    /// Scales the picture to the grid asked for, where zero for a side asks
    /// for the one that keeps the picture's proportions.
    pub fn scale_to(self, width: u32, height: u32) -> (grid: Result<Bitmap, RenderError>)
        requires
            self.wf(),
        ensures
            match target_grid(width, height, self@) {
                Ok((w, h)) => grid matches Ok(g) && g.wf() && g@ == scaled(self@, w, h) && w > 0
                    && h > 0,
                Err(e) => grid matches Err(f) && f == e,
            },
    {
        match resolve_dimensions(width, height, self.width, self.height) {
            Ok((w, h)) => {
                if can_scale(self.width, self.height, w, h) {
                    Ok(self.resize_exact(w, h))
                } else {
                    Err(RenderError::TooLarge)
                }
            },
            Err(e) => Err(e),
        }
    }

    /// Turns the picture into shades of gray.
    ///
    /// This is `DynamicImage::grayscale` of the `image` crate on an 8-bit RGB
    /// picture, read back as RGB: the crate computes the brightness of a
    /// pixel as [`luma`] does, in integers, and the three samples of the gray
    /// pixel all hold it. A picture without pixels is left out: the crate's
    /// walk over the pixels leaves a picture that has rows but no columns.
    #[verifier::external_body]
    pub(crate) fn grayscale(self) -> (picture: Bitmap)
        requires
            self.wf(),
            self@.width > 0,
            self@.height > 0,
        ensures
            picture.wf(),
            picture@ == grayscaled(self@),
    {
        let source = image::RgbImage::from_raw(self.width, self.height, self.data).unwrap();
        let gray = image::DynamicImage::ImageRgb8(source).grayscale().into_rgb8();
        Bitmap { width: gray.width(), height: gray.height(), data: gray.into_raw() }
    }

    /// Reduces every pixel to on or off: all its samples become `invert` if
    /// its red sample is below `threshold`, and `1 - invert` otherwise.
    pub fn binarize(&mut self, threshold: u8, invert: u8)
        requires
            old(self).wf(),
            invert <= 1,
        ensures
            final(self).wf(),
            final(self)@ == binarized(old(self)@, threshold, invert),
            final(self)@.two_valued(),
    {
        let pixels: usize = self.data.len() / 3;
        proof {
            lemma_samples_in_threes(self@);
        }
        let mut p: usize = 0;
        while p < pixels
            invariant
                p <= pixels,
                invert <= 1,
                self.width == old(self).width,
                self.height == old(self).height,
                self.data@.len() == old(self).data@.len(),
                self.data@.len() == 3 * pixels,
                3 * pixels <= usize::MAX,
                forall|i: int|
                    0 <= i < 3 * p ==> #[trigger] self.data@[i] == binary(
                        old(self).data@[i - i % 3],
                        threshold,
                        invert,
                    ),
                forall|i: int|
                    3 * p <= i < self.data@.len() ==> #[trigger] self.data@[i] == old(
                        self,
                    ).data@[i],
            decreases pixels - p,
        {
            let value: u8 = if self.data[3 * p] < threshold {
                invert
            } else {
                1 - invert
            };
            self.data.set(3 * p, value);
            self.data.set(3 * p + 1, value);
            self.data.set(3 * p + 2, value);
            p += 1;
        }
        assert(self.data@ =~= binarized(old(self)@, threshold, invert).samples);
    }
}

/// Tests [`scaling_fits`].
fn can_scale(source_width: u32, source_height: u32, width: u32, height: u32) -> (fits: bool)
    ensures
        fits == scaling_fits(
            source_width as nat,
            source_height as nat,
            width as nat,
            height as nat,
        ),
{
    if source_width > LONGEST_SIDE || source_height > LONGEST_SIDE || width > LONGEST_SIDE
        || height > LONGEST_SIDE {
        return false;
    }
    let limit: u128 = isize::MAX as u128;
    assert(16 * source_width * height <= u128::MAX && 3 * width * height <= u128::MAX)
        by (nonlinear_arith)
        requires
            source_width <= u32::MAX,
            width <= u32::MAX,
            height <= u32::MAX,
    ;
    assert(16 * source_width * height == 16 * (source_width * height)) by (nonlinear_arith);
    assert(3 * width * height == 3 * (width * height)) by (nonlinear_arith);
    let tall: u128 = (source_width as u128) * (height as u128);
    let flat: u128 = (width as u128) * (height as u128);
    16 * tall <= limit && 3 * flat <= limit
}

/// Turning a picture to grayscale and reducing it to two values keep it
/// consistent, and the reduced picture is two-valued.
pub proof fn lemma_binarized_two_valued(source: Raster, threshold: u8, invert: u8)
    requires
        source.wf(),
        invert <= 1,
    ensures
        grayscaled(source).wf(),
        binarized(source, threshold, invert).wf(),
        binarized(source, threshold, invert).two_valued(),
        binarized(grayscaled(source), threshold, invert).wf(),
        binarized(grayscaled(source), threshold, invert).two_valued(),
{
}

/// The grid of a missing width keeps the proportions of a source whose width
/// is `ratio` times its height, wherever the source can be scaled to it: for
/// a height of 40 and a source twice as wide as tall it is 80 by 40.
pub proof fn lemma_grid_keeps_proportions(source: Raster, height: u32, ratio: u32)
    requires
        source.height > 0,
        ratio > 0,
        source.width == ratio * source.height,
        source.width <= u32::MAX,
        height > 0,
        ratio * height <= u32::MAX,
    ensures
        target_grid(0, height, source) == if scaling_fits(
            source.width,
            source.height,
            (ratio * height) as nat,
            height as nat,
        ) {
            Ok::<(u32, u32), RenderError>(((ratio * height) as u32, height))
        } else {
            Err::<(u32, u32), RenderError>(RenderError::TooLarge)
        },
{
    assert(source.height <= source.width) by (nonlinear_arith)
        requires
            source.width == ratio * source.height,
            ratio >= 1,
    ;
    lemma_proportions_kept(height, ratio, source.height as u32);
}

/// A picture without pixels is its own grayscale.
pub proof fn lemma_grayscaled_empty(picture: Raster)
    requires
        picture.wf(),
        picture.width == 0 || picture.height == 0,
    ensures
        grayscaled(picture) == picture,
{
    assert(3 * picture.width * picture.height == 0) by (nonlinear_arith)
        requires
            picture.width == 0 || picture.height == 0,
    ;
    assert(grayscaled(picture).samples =~= picture.samples);
}

/// The samples of a consistent picture come in threes.
pub proof fn lemma_samples_in_threes(picture: Raster)
    requires
        picture.wf(),
    ensures
        picture.samples.len() % 3 == 0,
        picture.samples.len() / 3 == picture.width * picture.height,
{
    assert(3 * picture.width * picture.height == 3 * (picture.width * picture.height))
        by (nonlinear_arith);
}

/// The pixels of a consistent picture are numbered row after row without
/// gaps, and the samples of each lie among the picture's samples.
pub proof fn lemma_offset_in_range(picture: Raster, x: int, y: int, channel: int)
    requires
        picture.wf(),
        picture.contains(x, y),
        0 <= channel < 3,
    ensures
        0 <= y * picture.width + x < picture.width * picture.height,
        0 <= picture.offset(x, y, channel) < picture.samples.len(),
{
    let w = picture.width as int;
    let h = picture.height as int;
    assert(0 <= y * w) by (nonlinear_arith)
        requires
            0 <= y,
            0 <= w,
    ;
    assert(y * w + w <= h * w) by (nonlinear_arith)
        requires
            y + 1 <= h,
            0 <= w,
    ;
    assert(h * w == w * h) by (nonlinear_arith);
    assert(3 * picture.width * picture.height == 3 * (w * h)) by (nonlinear_arith)
        requires
            w == picture.width,
            h == picture.height,
    ;
}

} // verus!
