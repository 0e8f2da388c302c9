//! The boundary to the `image` crate. Nothing in this module is proved: each
//! contract restates what the crate's source and documentation show of the
//! function that the item calls.

use vstd::prelude::*;

verus! {

/// A decoded raster of the `image` crate, opaque to the verifier.
#[verifier::external_type_specification]
#[verifier::external_body]
pub struct ExDynamicImage(image::DynamicImage);

/// An encoded-image format tag of the `image` crate, opaque to the verifier.
#[verifier::external_type_specification]
#[verifier::external_body]
pub struct ExImageFormat(image::ImageFormat);

/// The format that `image::guess_format` finds from the signature at the start
/// of the bytes, if it finds one.
pub uninterp spec fn sniffed_format(bytes: Seq<u8>) -> Option<image::ImageFormat>;

/// Whether the bytes begin with the signature of a format that the codec
/// knows.
pub open spec fn has_known_signature(bytes: Seq<u8>) -> bool {
    sniffed_format(bytes) is Some
}

/// The width and height of the raster that
/// `image::load_from_memory_with_format` gives for the bytes in the format,
/// where it succeeds.
pub uninterp spec fn decoded_size(bytes: Seq<u8>, format: image::ImageFormat) -> (nat, nat);

/// The number of pixel columns that `image::DynamicImage::width` reports.
pub uninterp spec fn raster_width(raster: image::DynamicImage) -> nat;

/// The number of pixel rows that `image::DynamicImage::height` reports.
pub uninterp spec fn raster_height(raster: image::DynamicImage) -> nat;

/// The bytes that `image::DynamicImage::write_to` writes for a raster in the
/// PNG format, where it succeeds.
pub uninterp spec fn png_encoding(raster: image::DynamicImage) -> Seq<u8>;

/// The longest source side that resampling is asked to handle.
///
/// The resampler places each sample in single precision, as the sample's index
/// and one half, times the ratio of source to target length. The position is
/// below the source length and off by at most the fraction 2^-23 of itself.
/// Up to this length that is less than seven sixteenths of a pixel, so the
/// source pixel nearest to the sample is less than fifteen sixteenths of a
/// pixel from its centre: inside the main lobe of the filter, where its weight
/// outweighs the side lobes, and the weights of the sample sum to a positive
/// number. Past four million pixels a sample at the far edge can miss the
/// filter's support; its weights then sum to zero, and the crate panics on
/// the quotient.
pub const MAX_SOURCE_LENGTH: u32 = 0x38_0000;

/// The longest target side that resampling is asked to handle: up to this
/// length a sample's index and one half is exact in single precision.
pub const MAX_TARGET_LENGTH: u32 = 0x80_0000;

/// Whether the buffers that resampling allocates can be addressed: a working
/// buffer of `source_width` by `height` pixels and the result of `width` by
/// `height` pixels, at up to sixteen bytes a pixel.
pub open spec fn resample_fits(source_width: nat, width: nat, height: nat) -> bool {
    &&& 16 * source_width * height <= isize::MAX
    &&& 16 * width * height <= isize::MAX
}

/// Whether the resampler places its samples well in one direction, from a
/// side of `source` pixels to a side of `target` pixels.
pub open spec fn resample_places(source: nat, target: nat) -> bool {
    source <= MAX_SOURCE_LENGTH && target <= MAX_TARGET_LENGTH
}

/// Whether an image of `source_width` by `source_height` pixels can be
/// resampled to `width` by `height` pixels: the buffers can be addressed, and
/// the samples are placed well across and down.
pub open spec fn resample_admits(
    source_width: nat,
    source_height: nat,
    width: nat,
    height: nat,
) -> bool {
    &&& resample_fits(source_width, width, height)
    &&& resample_places(source_width, width)
    &&& resample_places(source_height, height)
}

/// Calls `image::guess_format`, which compares the leading bytes with a fixed
/// table of signatures. The result is a function of the bytes alone.
#[verifier::external_body]
pub(crate) fn sniff_format(bytes: &[u8]) -> (found: Option<image::ImageFormat>)
    ensures
        found == sniffed_format(bytes@),
{
    image::guess_format(bytes).ok()
}

/// Calls `image::load_from_memory_with_format`, which decodes the bytes as the
/// given format under the crate's default limits, and hands over the raster or
/// the text of the crate's error.
///
/// The size of a decoded raster is read from the bytes, so it is a function
/// of them. Whether the call succeeds is not: the decoders report an
/// allocation that the machine refuses as an error, so the same bytes can
/// decode in one process and fail in another. The pixels are not stated.
#[verifier::external_body]
pub(crate) fn decode_as(bytes: &[u8], format: image::ImageFormat) -> (outcome: Result<
    image::DynamicImage,
    String,
>)
    ensures
        outcome matches Ok(raster) ==> (raster_width(raster), raster_height(raster))
            == decoded_size(bytes@, format),
{
    match image::load_from_memory_with_format(bytes, format) {
        Ok(raster) => Ok(raster),
        Err(error) => Err(format!("{error}")),
    }
}

/// Calls `image::DynamicImage::width`.
#[verifier::external_body]
pub(crate) fn pixel_columns(raster: &image::DynamicImage) -> (columns: u32)
    ensures
        columns == raster_width(*raster),
{
    raster.width()
}

/// Calls `image::DynamicImage::height`.
#[verifier::external_body]
pub(crate) fn pixel_rows(raster: &image::DynamicImage) -> (rows: u32)
    ensures
        rows == raster_height(*raster),
{
    raster.height()
}

/// Calls `image::DynamicImage::resize_exact` with the Lanczos filter of
/// support 3. The result has exactly the requested size; nothing is stated of
/// its pixels, which pass through the machine's sine. The crate panics where a
/// buffer cannot be addressed and where the weights of a sample sum to zero;
/// the precondition leaves both out.
#[verifier::external_body]
pub(crate) fn resample_lanczos3(raster: &image::DynamicImage, width: u32, height: u32) -> (resampled:
    image::DynamicImage)
    requires
        resample_admits(
            raster_width(*raster),
            raster_height(*raster),
            width as nat,
            height as nat,
        ),
    ensures
        raster_width(resampled) == width,
        raster_height(resampled) == height,
{
    raster.resize_exact(width, height, image::imageops::FilterType::Lanczos3)
}

/// Calls `image::DynamicImage::write_to` with the PNG format on a buffer in
/// memory, and hands over the bytes or the text of the crate's error.
///
/// The bytes that the encoder writes are drawn from nothing but the raster, so
/// the bytes of a success are a function of it. Whether the call succeeds is
/// not: for samples of sixteen bits the encoder allocates a second buffer and
/// reports a refusal of the machine as an error, so the same raster can be
/// encoded in one process and fail in another.
#[verifier::external_body]
pub(crate) fn encode_png(raster: &image::DynamicImage) -> (outcome: Result<Vec<u8>, String>)
    ensures
        outcome matches Ok(bytes) ==> bytes@ == png_encoding(*raster),
{
    let mut sink = std::io::Cursor::new(Vec::new());
    match raster.write_to(&mut sink, image::ImageFormat::Png) {
        Ok(()) => Ok(sink.into_inner()),
        Err(error) => Err(format!("{error}")),
    }
}

} // verus!
