use vstd::prelude::*;

use crate::color::RGBA;
use crate::error::RasterError;
use crate::grid::GridSize;
use crate::plane::ImagePlane;
use crate::svg::{rasterize, rasterized_text};

verus! {

#[verifier::external_type_specification]
pub struct ExImageKind(imghdr::Type);

#[verifier::external_type_specification]
#[verifier::external_body]
pub struct ExDynamicImage(image::DynamicImage);

#[verifier::external_type_specification]
#[verifier::external_body]
pub struct ExImageError(image::ImageError);

/// The first eight bytes are the PNG signature.
pub open spec fn has_png_signature(b: Seq<u8>) -> bool {
    b.len() >= 8 && b.take(8) == seq![0x89u8, 0x50u8, 0x4eu8, 0x47u8, 0x0du8, 0x0au8, 0x1au8, 0x0au8]
}

/// Bytes 6 to 9 read `JFIF` or `Exif`.
pub open spec fn has_jpeg_marker(b: Seq<u8>) -> bool {
    b.len() >= 10 && (b.subrange(6, 10) == seq![0x4au8, 0x46u8, 0x49u8, 0x46u8]
        || b.subrange(6, 10) == seq![0x45u8, 0x78u8, 0x69u8, 0x66u8])
}

/// The input carries enough header bytes to be recognized, and they mark
/// it as PNG or JPEG.
pub open spec fn is_accepted_format(b: Seq<u8>) -> bool {
    b.len() >= 12 && (has_png_signature(b) || has_jpeg_marker(b))
}

/// Relies on imghdr::from_bytes, which tests the PNG signature first and
/// the JPEG markers second, and reports neither type when both fail. It
/// slices up to the twelfth byte and panics on shorter input.
#[verifier::external_body]
fn sniff(bytes: &[u8]) -> (r: Option<imghdr::Type>)
    requires
        bytes@.len() >= 12,
    ensures
        has_png_signature(bytes@) ==> r == Some(imghdr::Type::Png),
        !has_png_signature(bytes@) && has_jpeg_marker(bytes@) ==> r == Some(imghdr::Type::Jpeg),
        !has_png_signature(bytes@) && !has_jpeg_marker(bytes@) ==> r != Some(imghdr::Type::Png)
            && r != Some(imghdr::Type::Jpeg),
{
    imghdr::from_bytes(bytes)
}

/// Relies on image::load_from_memory to guess the encoding from the bytes
/// and decode them.
#[verifier::external_body]
fn decode(bytes: &[u8]) -> (r: Result<image::DynamicImage, image::ImageError>) {
    image::load_from_memory(bytes)
}

/// Relies on image::DynamicImage::to_rgba8 to convert a decoded image to
/// 8-bit RGBA; hands back the converted buffer's width, height and samples.
#[verifier::external_body]
fn rgba_samples(img: &image::DynamicImage) -> (r: (u32, u32, Vec<u8>)) {
    let buf = img.to_rgba8();
    (buf.width(), buf.height(), buf.into_raw())
}

/// Whether the input bytes are of an accepted image encoding: at least
/// twelve bytes, marked PNG or JPEG.
pub fn is_supported_image(bytes: &[u8]) -> (r: bool)
    ensures
        r == is_accepted_format(bytes@),
{
    if bytes.len() < 12 {
        return false;
    }
    match sniff(bytes) {
        Some(imghdr::Type::Png) => true,
        Some(imghdr::Type::Jpeg) => true,
        _ => false,
    }
}

/// Renders decoded RGBA samples, four per pixel and row by row, under
/// `grid`. Fails with a configuration error on a grid with a zero
/// dimension, and with a decode error when the samples do not describe a
/// non-empty image of `width` by `height`.
pub fn render_rgba(width: u32, height: u32, raw: &[u8], grid: GridSize) -> (r: Result<
    String,
    RasterError,
>)
    ensures
        !grid.valid() ==> r == Err::<String, RasterError>(RasterError::Configuration),
        grid.valid() && !(width > 0 && height > 0 && raw@.len() >= 4 * (width as int
            * height as int)) ==> r == Err::<String, RasterError>(RasterError::Decode),
        grid.valid() && width > 0 && height > 0 && raw@.len() >= 4 * (width as int
            * height as int) ==> r is Ok,
        r matches Ok(s) ==> exists|img: ImagePlane|
            {
                &&& img.wf()
                &&& img.width == width
                &&& img.height == height
                &&& forall|i: int|
                    0 <= i < img.pixels@.len() ==> #[trigger] img.pixels@[i] == RGBA(
                        raw@[4 * i],
                        raw@[4 * i + 1],
                        raw@[4 * i + 2],
                        raw@[4 * i + 3],
                    )
                &&& s@ == rasterized_text(img, grid)
            },
{
    if grid.width == 0 || grid.height == 0 {
        return Err(RasterError::Configuration);
    }
    match ImagePlane::from_rgba_bytes(width, height, raw) {
        Some(img) => Ok(rasterize(&img, grid)),
        None => Err(RasterError::Decode),
    }
}

/// Renders an encoded image file's bytes under `grid`. A grid with a zero
/// dimension is a configuration error, checked before the bytes are looked
/// at; input that is not PNG or JPEG is an unsupported format; input that
/// is but does not decode to a non-empty image is a decode error.
pub fn render_image_bytes(bytes: &[u8], grid: GridSize) -> (r: Result<String, RasterError>)
    ensures
        !grid.valid() ==> r == Err::<String, RasterError>(RasterError::Configuration),
        grid.valid() && !is_accepted_format(bytes@) ==> r == Err::<String, RasterError>(
            RasterError::UnsupportedFormat,
        ),
        grid.valid() && is_accepted_format(bytes@) && r is Err ==> r == Err::<
            String,
            RasterError,
        >(RasterError::Decode),
        r matches Ok(s) ==> exists|img: ImagePlane| img.wf() && s@ == rasterized_text(img, grid),
{
    if grid.width == 0 || grid.height == 0 {
        return Err(RasterError::Configuration);
    }
    if !is_supported_image(bytes) {
        return Err(RasterError::UnsupportedFormat);
    }
    match decode(bytes) {
        Ok(img) => {
            let (width, height, raw) = rgba_samples(&img);
            render_rgba(width, height, raw.as_slice(), grid)
        },
        Err(_) => Err(RasterError::Decode),
    }
}

} // verus!
