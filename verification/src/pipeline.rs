//! The pipeline: decode, compute the target size, resample, encode, assemble.
//!
//! Each stage is a function of its inputs alone; nothing is shared between
//! requests. What the codec decides (whether a payload decodes, what the
//! pixels and the encoded bytes are) is taken as it comes: the stages state
//! what they do with every outcome.

use vstd::prelude::*;
use crate::codec::{
    decode_as, decoded_size, encode_png, has_known_signature, pixel_columns, pixel_rows,
    png_encoding, raster_height, raster_width, resample_admits, resample_lanczos3, sniff_format,
    sniffed_format, MAX_SOURCE_LENGTH, MAX_TARGET_LENGTH,
};
use crate::error::ResizeError;
use crate::scale::{
    compute_target, effective_long_edge, lemma_long_edge_met, longest_side, target_of,
    TargetGeometry,
};

verus! {

/// A decoded image: a pixel raster whose width and height are positive.
pub struct DecodedImage {
    pixels: image::DynamicImage,
}

impl DecodedImage {
    /// The raster that this image holds.
    pub closed spec fn raster(self) -> image::DynamicImage {
        self.pixels
    }

    /// The width of the image in pixels.
    pub open spec fn spec_width(self) -> nat {
        raster_width(self.raster())
    }

    /// The height of the image in pixels.
    pub open spec fn spec_height(self) -> nat {
        raster_height(self.raster())
    }

    /// The invariant of a decoded image: neither side is zero, and both are
    /// within the range that the codec reports sizes in.
    pub open spec fn wf(self) -> bool {
        0 < self.spec_width() <= u32::MAX && 0 < self.spec_height() <= u32::MAX
    }

    /// Returns the width of the image in pixels.
    pub fn width(&self) -> (w: u32)
        ensures
            w == self.spec_width(),
    {
        pixel_columns(&self.pixels)
    }

    /// Returns the height of the image in pixels.
    pub fn height(&self) -> (h: u32)
        ensures
            h == self.spec_height(),
    {
        pixel_rows(&self.pixels)
    }

    /// Hands out the raster.
    pub fn into_raster(self) -> (raster: image::DynamicImage)
        ensures
            raster == self.raster(),
    {
        self.pixels
    }
}

/// The record that a result stands for.
pub struct ResizeRecord {
    pub data: Seq<u8>,
    pub width: u32,
    pub height: u32,
    pub original_width: u32,
    pub original_height: u32,
    pub resized: bool,
}

/// The outcome of a request: the encoded image, its size, the size of the
/// source, and whether the image was resampled.
#[derive(Debug)]
pub struct ResizeResult {
    data: Vec<u8>,
    width: u32,
    height: u32,
    original_width: u32,
    original_height: u32,
    resized: bool,
}

impl View for ResizeResult {
    type V = ResizeRecord;

    closed spec fn view(&self) -> ResizeRecord {
        ResizeRecord {
            data: self.data@,
            width: self.width,
            height: self.height,
            original_width: self.original_width,
            original_height: self.original_height,
            resized: self.resized,
        }
    }
}

impl ResizeResult {
    /// The width of the encoded image.
    pub fn width(&self) -> (w: u32)
        ensures
            w == self@.width,
    {
        self.width
    }

    /// The height of the encoded image.
    pub fn height(&self) -> (h: u32)
        ensures
            h == self@.height,
    {
        self.height
    }

    /// The width of the source image.
    pub fn original_width(&self) -> (w: u32)
        ensures
            w == self@.original_width,
    {
        self.original_width
    }

    /// The height of the source image.
    pub fn original_height(&self) -> (h: u32)
        ensures
            h == self@.original_height,
    {
        self.original_height
    }

    /// Whether the encoded image differs in size from the source.
    pub fn resized(&self) -> (r: bool)
        ensures
            r == self@.resized,
    {
        self.resized
    }

    /// The encoded image.
    pub fn data(&self) -> (bytes: &[u8])
        ensures
            bytes@ == self@.data,
    {
        self.data.as_slice()
    }
}

/// What becomes of a decoding outcome: a codec error is a malformed image
/// that carries the codec's text, a raster with a zero side is rejected, and
/// any other raster is accepted as it is.
pub fn accept_decoded(outcome: Result<image::DynamicImage, String>) -> (result: Result<
    DecodedImage,
    ResizeError,
>)
    ensures
        match outcome {
            Err(text) => result == Err::<DecodedImage, ResizeError>(
                ResizeError::MalformedImage(text),
            ),
            Ok(raster) => if raster_width(raster) == 0 || raster_height(raster) == 0 {
                result == Err::<DecodedImage, ResizeError>(ResizeError::ZeroDimension)
            } else {
                result is Ok && result->Ok_0.raster() == raster && result->Ok_0.wf()
            },
        },
{
    match outcome {
        Err(text) => Err(ResizeError::MalformedImage(text)),
        Ok(raster) => {
            if pixel_columns(&raster) == 0 || pixel_rows(&raster) == 0 {
                Err(ResizeError::ZeroDimension)
            } else {
                Ok(DecodedImage { pixels: raster })
            }
        },
    }
}

/// The width of the raster that the codec decodes from the bytes, in the
/// format found from their signature, where it decodes one.
pub open spec fn decoded_width(bytes: Seq<u8>) -> nat {
    decoded_size(bytes, sniffed_format(bytes)->Some_0).0
}

/// The height of the raster that the codec decodes from the bytes, in the
/// format found from their signature, where it decodes one.
pub open spec fn decoded_height(bytes: Seq<u8>) -> nat {
    decoded_size(bytes, sniffed_format(bytes)->Some_0).1
}

/// Decodes an encoded image. The format is found from the content alone.
///
/// An empty buffer and a buffer without a known signature are rejected, each
/// with its own error and on no other input. Every other buffer goes to the
/// codec in the format found, and the outcome is the one that
/// `accept_decoded` gives: an image has the size that the bytes decode to,
/// and a zero dimension is reported only where that size has a zero side.
/// Whether the codec decodes the bytes rests with the codec and the machine.
pub fn decode(bytes: &[u8]) -> (result: Result<DecodedImage, ResizeError>)
    ensures
        bytes@.len() == 0 <==> result == Err::<DecodedImage, ResizeError>(
            ResizeError::EmptyInput,
        ),
        bytes@.len() > 0 && !has_known_signature(bytes@) <==> result == Err::<
            DecodedImage,
            ResizeError,
        >(ResizeError::UnsupportedFormat),
        result matches Ok(image) ==> {
            &&& image.wf()
            &&& image.spec_width() == decoded_width(bytes@)
            &&& image.spec_height() == decoded_height(bytes@)
        },
        result == Err::<DecodedImage, ResizeError>(ResizeError::ZeroDimension) ==> decoded_width(
            bytes@,
        ) == 0 || decoded_height(bytes@) == 0,
        result matches Err(error) ==> !(error is EncodeFailure),
        result is Ok || (result matches Err(error) && (error is MalformedImage
            || error is ZeroDimension)) ==> bytes@.len() > 0 && has_known_signature(bytes@),
{
    if bytes.len() == 0 {
        return Err(ResizeError::EmptyInput);
    }
    match sniff_format(bytes) {
        None => Err(ResizeError::UnsupportedFormat),
        Some(format) => accept_decoded(decode_as(bytes, format)),
    }
}

/// Tells whether an image of `source_width` by `source_height` pixels can be
/// resampled to the target size: whether the buffers can be addressed on this
/// machine, and the resampler places its samples well across and down.
pub fn can_resample(source_width: u32, source_height: u32, target: &TargetGeometry) -> (admitted:
    bool)
    ensures
        admitted == resample_admits(
            source_width as nat,
            source_height as nat,
            target.width as nat,
            target.height as nat,
        ),
{
    let limit: u128 = isize::MAX as u128;
    let height: u128 = target.height as u128;
    assert((source_width as nat) * (target.height as nat) <= 0xffff_ffff * 0xffff_ffff
        && (target.width as nat) * (target.height as nat) <= 0xffff_ffff * 0xffff_ffff)
        by (nonlinear_arith)
        requires
            source_width <= 0xffff_ffff,
            target.width <= 0xffff_ffff,
            target.height <= 0xffff_ffff,
    ;
    let working: u128 = 16 * ((source_width as u128) * height);
    let output: u128 = 16 * ((target.width as u128) * height);
    assert(16 * (source_width as nat) * (target.height as nat) == 16 * ((source_width as nat) * (
        target.height as nat))) by (nonlinear_arith);
    assert(16 * (target.width as nat) * (target.height as nat) == 16 * ((target.width as nat) * (
        target.height as nat))) by (nonlinear_arith);
    working <= limit && output <= limit && source_width <= MAX_SOURCE_LENGTH && target.width
        <= MAX_TARGET_LENGTH && source_height <= MAX_SOURCE_LENGTH && target.height
        <= MAX_TARGET_LENGTH
}

/// Brings a decoded image to the target size. An image that needs no resizing
/// is handed back as it is; any other is resampled with a Lanczos filter of
/// support 3 to exactly the target size.
pub fn resample(image: DecodedImage, target: &TargetGeometry) -> (result: DecodedImage)
    requires
        image.wf(),
        target.width > 0,
        target.height > 0,
        target.resized ==> resample_admits(
            image.spec_width(),
            image.spec_height(),
            target.width as nat,
            target.height as nat,
        ),
    ensures
        !target.resized ==> result == image,
        target.resized ==> result.spec_width() == target.width && result.spec_height()
            == target.height,
        result.wf(),
{
    if target.resized {
        DecodedImage { pixels: resample_lanczos3(&image.pixels, target.width, target.height) }
    } else {
        image
    }
}

/// What becomes of an encoding outcome: the bytes are kept as they are, and a
/// codec error is an encode failure that carries the codec's text.
pub fn accept_encoded(outcome: Result<Vec<u8>, String>) -> (result: Result<Vec<u8>, ResizeError>)
    ensures
        match outcome {
            Ok(bytes) => result == Ok::<Vec<u8>, ResizeError>(bytes),
            Err(text) => result == Err::<Vec<u8>, ResizeError>(ResizeError::EncodeFailure(text)),
        },
{
    match outcome {
        Ok(bytes) => Ok(bytes),
        Err(text) => Err(ResizeError::EncodeFailure(text)),
    }
}

/// Encodes an image as PNG. A success holds the PNG encoding of the image's
/// raster; the only error is an encode failure.
pub fn encode(image: &DecodedImage) -> (result: Result<Vec<u8>, ResizeError>)
    ensures
        result matches Ok(bytes) ==> bytes@ == png_encoding(image.raster()),
        result matches Err(error) ==> error is EncodeFailure,
{
    accept_encoded(encode_png(&image.pixels))
}

/// Packs the encoded image with the target geometry and the size of the
/// source.
pub fn assemble(
    encoded: Vec<u8>,
    target: TargetGeometry,
    original_width: u32,
    original_height: u32,
) -> (result: ResizeResult)
    ensures
        result@ == (ResizeRecord {
            data: encoded@,
            width: target.width,
            height: target.height,
            original_width,
            original_height,
            resized: target.resized,
        }),
{
    ResizeResult {
        data: encoded,
        width: target.width,
        height: target.height,
        original_width,
        original_height,
        resized: target.resized,
    }
}

/// Whether `data` is the PNG encoding of some raster of `width` by `height`
/// pixels.
pub open spec fn is_png_of_size(data: Seq<u8>, width: nat, height: nat) -> bool {
    exists|raster: image::DynamicImage| #[trigger]
        png_encoding(raster) == data && raster_width(raster) == width && raster_height(raster)
            == height
}

/// Whether a result reports the target geometry of its own source size for
/// the requested long edge.
pub open spec fn reports_target(record: ResizeRecord, long_edge: u32) -> bool {
    &&& record.original_width > 0
    &&& record.original_height > 0
    &&& (TargetGeometry {
        width: record.width,
        height: record.height,
        resized: record.resized,
    }) == target_of(
        record.original_width as nat,
        record.original_height as nat,
        long_edge as nat,
    )
}

/// What becomes of an encoding outcome at the end of a request: the bytes are
/// packed with the target geometry and the size of the source, and a codec
/// error is an encode failure that carries the codec's text.
pub fn finish_encoded(
    outcome: Result<Vec<u8>, String>,
    target: TargetGeometry,
    original_width: u32,
    original_height: u32,
) -> (result: Result<ResizeResult, ResizeError>)
    ensures
        match outcome {
            Ok(bytes) => result is Ok && result->Ok_0@ == (ResizeRecord {
                data: bytes@,
                width: target.width,
                height: target.height,
                original_width,
                original_height,
                resized: target.resized,
            }),
            Err(text) => result == Err::<ResizeResult, ResizeError>(
                ResizeError::EncodeFailure(text),
            ),
        },
{
    match accept_encoded(outcome) {
        Ok(bytes) => Ok(assemble(bytes, target, original_width, original_height)),
        Err(error) => Err(error),
    }
}

/// Whether an image of `width` by `height` pixels can be brought to the target
/// size for the requested long edge: either nothing is to be resampled, or
/// the resampler admits the two sizes.
pub open spec fn request_admitted(width: nat, height: nat, long_edge: u32) -> bool {
    let target = target_of(width, height, long_edge as nat);
    target.resized ==> resample_admits(width, height, target.width as nat, target.height as nat)
}

/// Serves a request on a decoded image: computes the target geometry for the
/// image's size, resamples to it where it differs, and encodes the outcome as
/// PNG.
///
/// A request that the resampler does not admit fails with an encode failure of
/// a fixed text, and every other request goes to the encoder. The only error
/// is an encode failure. A result reports the size of the image and the target
/// geometry for it; its data is the PNG encoding of the image itself where
/// nothing was resampled, and of a raster of the target size in any case.
pub fn resize_decoded(image: DecodedImage, long_edge: u32) -> (result: Result<
    ResizeResult,
    ResizeError,
>)
    requires
        image.wf(),
    ensures
        !request_admitted(image.spec_width(), image.spec_height(), long_edge) ==> (result
            matches Err(ResizeError::EncodeFailure(detail)) && detail@
            == "image too large to resample"@),
        result matches Err(error) ==> error is EncodeFailure,
        result matches Ok(done) ==> {
            let target = target_of(image.spec_width(), image.spec_height(), long_edge as nat);
            &&& request_admitted(image.spec_width(), image.spec_height(), long_edge)
            &&& done@.original_width == image.spec_width()
            &&& done@.original_height == image.spec_height()
            &&& done@.width == target.width
            &&& done@.height == target.height
            &&& done@.resized == target.resized
            &&& !target.resized ==> done@.data == png_encoding(image.raster())
            &&& is_png_of_size(done@.data, done@.width as nat, done@.height as nat)
        },
{
    let original_width: u32 = image.width();
    let original_height: u32 = image.height();
    let target = compute_target(original_width, original_height, long_edge);
    if target.resized && !can_resample(original_width, original_height, &target) {
        return Err(ResizeError::EncodeFailure("image too large to resample".to_owned()));
    }
    let sized = resample(image, &target);
    let outcome = encode_png(&sized.pixels);
    assert(outcome matches Ok(bytes) ==> png_encoding(sized.raster()) == bytes@ && raster_width(
        sized.raster(),
    ) == target.width && raster_height(sized.raster()) == target.height);
    finish_encoded(outcome, target, original_width, original_height)
}

/// Normalises an encoded image: decodes it, scales it so that its longer side
/// is the requested long edge (at least 1), and encodes it as PNG.
///
/// An empty buffer and a buffer without a known signature are rejected, each
/// with its own error and on no other input. Every other buffer goes to the
/// codec; what it decodes is served as `resize_decoded` says. A result
/// reports the size that the bytes decode to and the target geometry for it;
/// its longer side is the effective long edge, it is marked as resized
/// exactly when its size differs from the source size, and its data is the
/// PNG encoding of a raster of the size it reports. Where the bytes decode to
/// a size that the resampler does not admit for the request, the request
/// fails: with the fixed text of `resize_decoded`, or earlier in the decoder.
/// Whether decoder and encoder succeed rests with the codec and the machine.
pub fn resize_image(bytes: &[u8], long_edge: u32) -> (result: Result<ResizeResult, ResizeError>)
    ensures
        bytes@.len() == 0 <==> result == Err::<ResizeResult, ResizeError>(
            ResizeError::EmptyInput,
        ),
        bytes@.len() > 0 && !has_known_signature(bytes@) <==> result == Err::<
            ResizeResult,
            ResizeError,
        >(ResizeError::UnsupportedFormat),
        result is Ok || (result matches Err(error) && (error is MalformedImage
            || error is ZeroDimension || error is EncodeFailure)) ==> bytes@.len() > 0
            && has_known_signature(bytes@),
        result == Err::<ResizeResult, ResizeError>(ResizeError::ZeroDimension) ==> decoded_width(
            bytes@,
        ) == 0 || decoded_height(bytes@) == 0,
        0 < decoded_width(bytes@) <= u32::MAX && 0 < decoded_height(bytes@) <= u32::MAX
            && !request_admitted(decoded_width(bytes@), decoded_height(bytes@), long_edge) ==> {
            ||| result matches Err(ResizeError::MalformedImage(_))
            ||| (result matches Err(ResizeError::EncodeFailure(detail)) && detail@
                == "image too large to resample"@)
            ||| bytes@.len() == 0
            ||| !has_known_signature(bytes@)
        },
        result matches Ok(done) ==> {
            &&& done@.original_width == decoded_width(bytes@)
            &&& done@.original_height == decoded_height(bytes@)
            &&& reports_target(done@, long_edge)
            &&& done@.width >= 1
            &&& done@.height >= 1
            &&& longest_side(done@.width as nat, done@.height as nat) == effective_long_edge(
                long_edge as nat,
            )
            &&& done@.resized == (done@.width != done@.original_width || done@.height
                != done@.original_height)
            &&& request_admitted(
                done@.original_width as nat,
                done@.original_height as nat,
                long_edge,
            )
            &&& is_png_of_size(done@.data, done@.width as nat, done@.height as nat)
        },
{
    match decode(bytes) {
        Ok(image) => {
            proof {
                lemma_long_edge_met(
                    image.spec_width() as u32,
                    image.spec_height() as u32,
                    long_edge,
                );
            }
            resize_decoded(image, long_edge)
        },
        Err(error) => Err(error),
    }
}

} // verus!
