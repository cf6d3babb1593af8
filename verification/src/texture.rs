//! Baking a field of samples into a pixel buffer.
//!
//! Pixels are stored row by row, four bytes each: the pixel in column `x` of
//! row `y` starts at byte `(y * width + x) * 4`.

use crate::gradient::{
    lemma_nebula_valid, lemma_ramp_alpha, nebula_points, ramp_color, ColorRamp, Rgba,
};
use crate::noise_field::{compose_layers, composed};
use vstd::prelude::*;

verus! {

/// Width of the background texture, in pixels.
pub const WIDTH: u32 = 1000;

/// Height of the background texture: six square faces stacked.
pub const HEIGHT: u32 = 6000;

/// The order in which the channels of a pixel are stored.
#[derive(Clone, Copy, Debug, PartialEq, Eq, Structural)]
pub enum PixelFormat {
    /// Red, green, blue, alpha.
    Rgba,
    /// Blue, green, red, alpha.
    Bgra,
}

/// Why a texture was not baked.
#[derive(Clone, Copy, Debug, PartialEq, Eq, Structural)]
pub enum TextureError {
    /// The width or the height is zero.
    ZeroSize,
    /// The buffer would hold more bytes than can be addressed.
    TooLarge,
    /// The number of samples is not `width * height`.
    SampleCount,
}

/// The four bytes of a pixel of colour `c`.
pub open spec fn encode(format: PixelFormat, c: Rgba) -> Seq<u8> {
    match format {
        PixelFormat::Rgba => seq![c.r, c.g, c.b, c.a],
        PixelFormat::Bgra => seq![c.b, c.g, c.r, c.a],
    }
}

/// The index of the first byte of the pixel in column `x` of row `y`.
pub open spec fn pixel_offset(width: int, x: int, y: int) -> int {
    (y * width + x) * 4
}

/// The four bytes of the pixel in column `x` of row `y`.
pub open spec fn pixel_at(buf: Seq<u8>, width: int, x: int, y: int) -> Seq<u8> {
    buf.subrange(pixel_offset(width, x, y), pixel_offset(width, x, y) + 4)
}

/// Which error, if any, the sizes of a bake give.
pub open spec fn size_error(width: u32, height: u32, samples: int) -> Option<TextureError> {
    if width == 0 || height == 0 {
        Some(TextureError::ZeroSize)
    } else if width * height * 4 > usize::MAX {
        Some(TextureError::TooLarge)
    } else if samples != width * height {
        Some(TextureError::SampleCount)
    } else {
        None
    }
}

/// Which error, if any, the sizes of a background bake give.
pub open spec fn field_error(width: u32, height: u32, fractal: int, cellular: int) -> Option<
    TextureError,
> {
    if size_error(width, height, fractal) is Some {
        size_error(width, height, fractal)
    } else if cellular != fractal {
        Some(TextureError::SampleCount)
    } else {
        None
    }
}

/// A pixel inside the image has its index below the number of pixels.
pub proof fn lemma_pixel_in_range(width: int, height: int, x: int, y: int)
    requires
        0 <= x < width,
        0 <= y < height,
    ensures
        0 <= y * width + x < width * height,
{
    assert(y * width + x < width * height) by (nonlinear_arith)
        requires
            0 <= x < width,
            0 <= y < height,
    {
        assert((y + 1) * width <= height * width);
    }
    assert(0 <= y * width) by (nonlinear_arith)
        requires
            0 <= y,
            0 < width,
    ;
}

fn check_sizes(width: u32, height: u32, samples: usize) -> (res: Result<usize, TextureError>)
    ensures
        res is Err <==> size_error(width, height, samples as int) is Some,
        res matches Err(e) ==> size_error(width, height, samples as int) == Some(e),
        res matches Ok(n) ==> n == width * height,
{
    if width == 0 || height == 0 {
        return Err(TextureError::ZeroSize);
    }
    assert(width * height <= 0xffff_ffff * 0xffff_ffff) by (nonlinear_arith)
        requires
            width <= 0xffff_ffff,
            height <= 0xffff_ffff,
    ;
    let pixels: u128 = (width as u128) * (height as u128);
    if pixels * 4 > usize::MAX as u128 {
        return Err(TextureError::TooLarge);
    }
    if samples as u128 != pixels {
        return Err(TextureError::SampleCount);
    }
    Ok(pixels as usize)
}

fn push_pixel(buf: &mut Vec<u8>, format: PixelFormat, c: Rgba)
    ensures
        final(buf)@ == old(buf)@ + encode(format, c),
{
    match format {
        PixelFormat::Rgba => {
            buf.push(c.r);
            buf.push(c.g);
            buf.push(c.b);
            buf.push(c.a);
        },
        PixelFormat::Bgra => {
            buf.push(c.b);
            buf.push(c.g);
            buf.push(c.r);
            buf.push(c.a);
        },
    }
    assert(buf@ =~= old(buf)@ + encode(format, c));
}

/// Maps every sample through `ramp` and stores the colours row by row in
/// `format`. `samples` holds one value per pixel, row by row.
pub fn bake(
    width: u32,
    height: u32,
    samples: &Vec<i64>,
    ramp: &ColorRamp,
    format: PixelFormat,
) -> (res: Result<Vec<u8>, TextureError>)
    requires
        ramp.wf(),
    ensures
        res is Err <==> size_error(width, height, samples.len() as int) is Some,
        res matches Err(e) ==> size_error(width, height, samples.len() as int) == Some(e),
        res matches Ok(buf) ==> {
            &&& buf.len() == width * height * 4
            &&& forall|x: int, y: int|
                0 <= x < width && 0 <= y < height ==> #[trigger] pixel_at(
                    buf@,
                    width as int,
                    x,
                    y,
                ) == encode(format, ramp_color(ramp@, samples[y * width + x] as int))
            &&& forall|q: int|
                0 <= q < width * height ==> #[trigger] buf@.subrange(q * 4, q * 4 + 4) == encode(
                    format,
                    ramp_color(ramp@, samples[q] as int),
                )
        },
{
    let pixels: usize = match check_sizes(width, height, samples.len()) {
        Ok(n) => n,
        Err(e) => {
            return Err(e);
        },
    };
    let mut buf: Vec<u8> = Vec::with_capacity(pixels * 4);
    let mut p: usize = 0;
    while p < pixels
        invariant
            ramp.wf(),
            p <= pixels,
            pixels == samples.len(),
            pixels * 4 <= usize::MAX,
            buf.len() == p * 4,
            forall|q: int|
                0 <= q < p ==> #[trigger] buf@.subrange(q * 4, q * 4 + 4) == encode(
                    format,
                    ramp_color(ramp@, samples[q] as int),
                ),
        decreases pixels - p,
    {
        let c: Rgba = ramp.color_at(samples[p]);
        let ghost before = buf@;
        push_pixel(&mut buf, format, c);
        proof {
            assert forall|q: int| 0 <= q < p + 1 implies #[trigger] buf@.subrange(q * 4, q * 4 + 4)
                == encode(format, ramp_color(ramp@, samples[q] as int)) by {
                if q < p {
                    assert(buf@.subrange(q * 4, q * 4 + 4) =~= before.subrange(q * 4, q * 4 + 4));
                } else {
                    assert(buf@.subrange(q * 4, q * 4 + 4) =~= encode(format, c));
                }
            }
        }
        p += 1;
    }
    proof {
        assert forall|x: int, y: int| 0 <= x < width && 0 <= y < height implies #[trigger] pixel_at(
            buf@,
            width as int,
            x,
            y,
        ) == encode(format, ramp_color(ramp@, samples[y * width + x] as int)) by {
            lemma_pixel_in_range(width as int, height as int, x, y);
            let q = y * width + x;
            assert(buf@.subrange(q * 4, q * 4 + 4) == encode(
                format,
                ramp_color(ramp@, samples[q] as int),
            ));
        }
    }
    Ok(buf)
}

/// Bakes the nebula background: composes the two noise layers sample by
/// sample, maps the result through the nebula ramp and stores red, green,
/// blue, alpha. Every pixel is opaque.
pub fn build_image(width: u32, height: u32, fractal: &Vec<i64>, cellular: &Vec<i64>) -> (res:
    Result<Vec<u8>, TextureError>)
    ensures
        res is Err <==> field_error(width, height, fractal.len() as int, cellular.len() as int)
            is Some,
        res matches Err(e) ==> field_error(
            width,
            height,
            fractal.len() as int,
            cellular.len() as int,
        ) == Some(e),
        res matches Ok(buf) ==> {
            &&& buf.len() == width * height * 4
            &&& forall|x: int, y: int|
                0 <= x < width && 0 <= y < height ==> #[trigger] pixel_at(
                    buf@,
                    width as int,
                    x,
                    y,
                ) == encode(
                    PixelFormat::Rgba,
                    ramp_color(
                        nebula_points(),
                        composed(fractal[y * width + x], cellular[y * width + x]) as int,
                    ),
                )
            &&& forall|q: int| 0 <= q < width * height ==> #[trigger] buf[q * 4 + 3] == 255
        },
{
    match check_sizes(width, height, fractal.len()) {
        Ok(_) => {},
        Err(e) => {
            return Err(e);
        },
    }
    let field: Vec<i64> = match compose_layers(fractal, cellular) {
        Some(field) => field,
        None => {
            return Err(TextureError::SampleCount);
        },
    };
    let ramp: ColorRamp = ColorRamp::nebula();
    let res = bake(width, height, &field, &ramp, PixelFormat::Rgba);
    proof {
        if res is Ok {
            let buf = res->Ok_0;
            lemma_nebula_valid();
            assert forall|q: int| 0 <= q < width * height implies #[trigger] buf[q * 4 + 3]
                == 255 by {
                lemma_ramp_alpha(nebula_points(), field[q] as int, 255);
                let px = buf@.subrange(q * 4, q * 4 + 4);
                assert(px == encode(PixelFormat::Rgba, ramp_color(ramp@, field[q] as int)));
                assert(buf[q * 4 + 3] == px[3]);
            }
            assert forall|x: int, y: int|
                0 <= x < width && 0 <= y < height implies #[trigger] pixel_at(
                buf@,
                width as int,
                x,
                y,
            ) == encode(
                PixelFormat::Rgba,
                ramp_color(
                    nebula_points(),
                    composed(fractal[y * width + x], cellular[y * width + x]) as int,
                ),
            ) by {
                lemma_pixel_in_range(width as int, height as int, x, y);
                assert(field[y * width + x] == composed(
                    fractal[y * width + x],
                    cellular[y * width + x],
                ));
            }
        }
    }
    res
}

} // verus!
