//! The raster codec boundary: decoding an encoded image into a
//! [`RasterBuffer`] and encoding one back into bytes.
//!
//! The codec itself is the `png` crate; this module states what its calls
//! return and narrows the decoded image to the formats the buffer arithmetic
//! is defined for (8-bit samples, see [`RasterFormat::wf`]).

use crate::raster::{RasterBuffer, RasterFormat};
use vstd::prelude::*;

verus! {

/// A codec-level failure, or an image outside the supported formats.
#[derive(Clone, Copy, Debug, PartialEq, Eq, Structural)]
pub enum CodecError {
    /// The bytes are not a decodable image.
    Decode,
    /// The image decoded, but not to a format the buffer arithmetic covers.
    Unsupported,
    /// The buffer's format cannot be handed to the encoder as it stands.
    Encode,
}

/// The frame the codec decodes from `bytes`: `None` when the bytes are not a
/// decodable image, otherwise the decoded geometry and pixel bytes. Decoding
/// is a function of the bytes alone.
pub uninterp spec fn png_frame_of(bytes: Seq<u8>) -> Option<RasterBuffer>;

/// The bytes the codec produces for an image of the given geometry and pixel
/// bytes, at 8 bits per sample and without row padding. Encoding is a
/// function of these arguments alone.
pub uninterp spec fn png_bytes_of(
    width: u32,
    height: u32,
    samples_per_pixel: u32,
    pixels: Seq<u8>,
) -> Seq<u8>;

/// Relies on png's `Decoder`, `Reader::next_frame` and
/// `OutputInfo::buffer_size`: the decoded buffer holds `line_size` bytes per
/// row for `height` rows, and the decode depends on the bytes alone.
#[verifier::external_body]
fn decode_png(bytes: &[u8]) -> (r: Result<RasterBuffer, CodecError>)
    ensures
        r is Ok <==> png_frame_of(bytes@) is Some,
        r is Ok ==> r->Ok_0 == png_frame_of(bytes@)->Some_0,
        r is Ok ==> r->Ok_0.pixels@.len() == r->Ok_0.format.stride * r->Ok_0.format.height,
        r is Err ==> r->Err_0 is Decode,
{
    let decoder = png::Decoder::new(std::io::Cursor::new(bytes));
    let mut reader = decoder.read_info().map_err(|_| CodecError::Decode)?;
    let size = reader.output_buffer_size().ok_or(CodecError::Decode)?;
    let mut pixels = vec![0u8; size];
    let info = reader.next_frame(&mut pixels).map_err(|_| CodecError::Decode)?;
    pixels.truncate(info.buffer_size());
    let format = RasterFormat {
        width: info.width,
        height: info.height,
        samples_per_pixel: info.color_type.samples() as u32,
        bit_depth: info.bit_depth as u8,
        stride: info.line_size,
    };
    Ok(RasterBuffer { format, pixels })
}

/// Relies on png's `Encoder`, `Writer::write_image_data` and
/// `Writer::finish`: writing one image of nonzero size, 8-bit depth, one to
/// four samples per pixel and a buffer of exactly `width * samples_per_pixel`
/// bytes per row succeeds, and the output depends on these values alone.
#[verifier::external_body]
fn encode_png(buf: &RasterBuffer) -> (r: Result<Vec<u8>, CodecError>)
    requires
        buf.wf(),
        buf.format.stride == buf.format.width * buf.format.samples_per_pixel,
        buf.format.samples_per_pixel <= 4,
    ensures
        r is Ok,
        r is Ok ==> r->Ok_0@ == png_bytes_of(
            buf.format.width,
            buf.format.height,
            buf.format.samples_per_pixel,
            buf.pixels@,
        ),
{
    let color = match buf.format.samples_per_pixel {
        1 => png::ColorType::Grayscale,
        2 => png::ColorType::GrayscaleAlpha,
        3 => png::ColorType::Rgb,
        _ => png::ColorType::Rgba,
    };
    let mut out: Vec<u8> = Vec::new();
    let mut encoder = png::Encoder::new(&mut out, buf.format.width, buf.format.height);
    encoder.set_color(color);
    encoder.set_depth(png::BitDepth::Eight);
    let mut writer = encoder.write_header().map_err(|_| CodecError::Encode)?;
    writer.write_image_data(&buf.pixels).map_err(|_| CodecError::Encode)?;
    writer.finish().map_err(|_| CodecError::Encode)?;
    Ok(out)
}

/// The formats the encoder is handed directly: packed rows and one of the
/// four sample layouts of the codec.
pub open spec fn encodable(f: RasterFormat) -> bool {
    &&& f.stride == f.width * f.samples_per_pixel
    &&& f.samples_per_pixel <= 4
}

/// Decodes one encoded frame into a well-formed buffer.
///
/// Returns `Ok` exactly when the bytes decode and the decoded format is one
/// the buffer arithmetic covers; `Decode` when they do not decode at all, and
/// `Unsupported` when they decode to a format outside [`RasterFormat::wf`].
pub fn decode_frame(bytes: &[u8]) -> (r: Result<RasterBuffer, CodecError>)
    ensures
        match r {
            Ok(buf) => png_frame_of(bytes@) is Some && buf == png_frame_of(bytes@)->Some_0
                && buf.wf(),
            Err(e) => match e {
                CodecError::Decode => png_frame_of(bytes@) is None,
                CodecError::Unsupported => png_frame_of(bytes@) is Some && !png_frame_of(
                    bytes@,
                )->Some_0.format.wf(),
                CodecError::Encode => false,
            },
        },
{
    let buf = match decode_png(bytes) {
        Ok(buf) => buf,
        Err(_) => return Err(CodecError::Decode),
    };
    if !buf.format.supported() {
        return Err(CodecError::Unsupported);
    }
    Ok(buf)
}

/// Encodes a well-formed buffer into the codec's byte form.
///
/// Returns `Ok` exactly when the format is [`encodable`]: rows packed with no
/// padding and at most four samples per pixel.
pub fn encode_frame(buf: &RasterBuffer) -> (r: Result<Vec<u8>, CodecError>)
    requires
        buf.wf(),
    ensures
        match r {
            Ok(bytes) => encodable(buf.format) && bytes@ == png_bytes_of(
                buf.format.width,
                buf.format.height,
                buf.format.samples_per_pixel,
                buf.pixels@,
            ),
            Err(e) => e is Encode && !encodable(buf.format),
        },
{
    let packed = (buf.format.width as u64) * (buf.format.samples_per_pixel as u64) == (
    buf.format.stride as u64);
    if !(packed && buf.format.samples_per_pixel <= 4) {
        return Err(CodecError::Encode);
    }
    encode_png(buf)
}

} // verus!
