//! The placeholder image: a small tile of one flat colour, encoded as PNG.

use crate::entry::Failure;
use vstd::prelude::*;

verus! {

/// Width of the placeholder image in pixels.
pub const PLACEHOLDER_WIDTH: u32 = 100;

/// Height of the placeholder image in pixels.
pub const PLACEHOLDER_HEIGHT: u32 = 100;

/// The value of each colour channel of the placeholder image, a light grey.
pub const PLACEHOLDER_SHADE: u8 = 200;

/// The pixels of a `width` by `height` tile of the colour (`r`, `g`, `b`),
/// row by row, three bytes to the pixel.
pub open spec fn flat_pixels(width: nat, height: nat, r: u8, g: u8, b: u8) -> Seq<u8> {
    Seq::new(
        width * height * 3,
        |i: int|
            if i % 3 == 0 {
                r
            } else if i % 3 == 1 {
                g
            } else {
                b
            },
    )
}

/// Builds the pixels of a `width` by `height` tile of the colour
/// (`r`, `g`, `b`).
pub fn flat_tile(width: u32, height: u32, r: u8, g: u8, b: u8) -> (pixels: Vec<u8>)
    requires
        width * height * 3 <= usize::MAX,
    ensures
        pixels@ == flat_pixels(width as nat, height as nat, r, g, b),
{
    assert(width * height <= width * height * 3) by (nonlinear_arith);
    let count: usize = (width as usize) * (height as usize);
    let mut pixels: Vec<u8> = Vec::new();
    let mut done: usize = 0;
    while done < count
        invariant
            done <= count,
            count * 3 <= usize::MAX,
            pixels@ == flat_pixels(done as nat, 1, r, g, b),
        decreases count - done,
    {
        pixels.push(r);
        pixels.push(g);
        pixels.push(b);
        done = done + 1;
    }
    pixels
}

/// The PNG file that the `image` crate writes for the 8-bit RGB pixels
/// `pixels` of a `width` by `height` image, or `None` where it reports an
/// error instead. The encoder writes to memory and reads nothing but its
/// arguments, so they alone decide the outcome. Nothing more is claimed of
/// it here: that the bytes are a PNG file which decodes to the pixels is
/// for the tests to show.
pub uninterp spec fn png_encoding(width: u32, height: u32, pixels: Seq<u8>) -> Option<Seq<u8>>;

/// The error type of the `image` crate.
#[verifier::external_type_specification]
#[verifier::external_body]
pub struct ExImageError(image::ImageError);

/// Calls `image::write_buffer_with_format` on an in-memory writer, with the
/// colour type 8-bit RGB and the format PNG. The contract only gives the
/// outcome its name, [`png_encoding`]: the bytes written on success, `None`
/// on an error. The call panics unless `pixels` holds three bytes for each
/// pixel, so callers must see to that.
#[verifier::external_body]
fn encode_png_rgb8(pixels: &Vec<u8>, width: u32, height: u32) -> (r: Result<
    Vec<u8>,
    image::ImageError,
>)
    requires
        pixels@.len() == width * height * 3,
    ensures
        match r {
            Ok(bytes) => png_encoding(width, height, pixels@) == Some(bytes@),
            Err(_) => png_encoding(width, height, pixels@) is None,
        },
{
    let mut out = std::io::Cursor::new(Vec::new());
    match image::write_buffer_with_format(
        &mut out,
        pixels.as_slice(),
        width,
        height,
        image::ExtendedColorType::Rgb8,
        image::ImageFormat::Png,
    ) {
        Ok(()) => Ok(out.into_inner()),
        Err(e) => Err(e),
    }
}

/// The placeholder image as a PNG file, if it can be encoded.
pub open spec fn placeholder_png() -> Option<Seq<u8>> {
    png_encoding(
        PLACEHOLDER_WIDTH,
        PLACEHOLDER_HEIGHT,
        flat_pixels(
            PLACEHOLDER_WIDTH as nat,
            PLACEHOLDER_HEIGHT as nat,
            PLACEHOLDER_SHADE,
            PLACEHOLDER_SHADE,
            PLACEHOLDER_SHADE,
        ),
    )
}

/// Produces the placeholder image: a 100 by 100 tile of light grey, as a PNG
/// file. Fails when the encoder reports an error.
pub fn placeholder_image() -> (r: Result<Vec<u8>, Failure>)
    ensures
        match r {
            Ok(bytes) => placeholder_png() == Some(bytes@),
            Err(f) => placeholder_png() is None && f is Placeholder,
        },
{
    let pixels = flat_tile(
        PLACEHOLDER_WIDTH,
        PLACEHOLDER_HEIGHT,
        PLACEHOLDER_SHADE,
        PLACEHOLDER_SHADE,
        PLACEHOLDER_SHADE,
    );
    match encode_png_rgb8(&pixels, PLACEHOLDER_WIDTH, PLACEHOLDER_HEIGHT) {
        Ok(bytes) => Ok(bytes),
        Err(_) => Err(Failure::Placeholder),
    }
}

} // verus!
