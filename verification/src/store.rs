//! An ordered, format-homogeneous sequence of decoded frames.

use crate::codec::{png_frame_of, CodecError};
use crate::codec::decode_frame;
use crate::raster::{RasterBuffer, RasterFormat};
use vstd::prelude::*;

verus! {

/// The format field on which a later frame first disagrees with the first
/// frame, in the order the fields are checked.
#[derive(Clone, Copy, Debug, PartialEq, Eq, Structural)]
pub enum FormatField {
    Width,
    Height,
    SampleLayout,
    BitDepth,
    Stride,
}

/// Why a load aborted, and at which frame (counted from 0 in input order).
#[derive(Clone, Copy, Debug, PartialEq, Eq, Structural)]
pub enum LoadError {
    /// The frame's bytes are not a decodable image.
    Decode { frame_index: usize },
    /// The frame decoded, but to a format outside the supported ones.
    Unsupported { frame_index: usize },
    /// The frame's format disagrees with the first frame's.
    FormatMismatch { frame_index: usize, field: FormatField },
}

/// The frame the codec decodes from `bytes`, where it decodes at all.
pub open spec fn decoded_frame(bytes: Vec<u8>) -> RasterBuffer {
    png_frame_of(bytes@)->Some_0
}

/// Frames `0 .. k` of `encoded` all decode, to supported formats that agree
/// with the first frame's.
pub open spec fn loads_clean_upto(encoded: Seq<Vec<u8>>, k: int) -> bool {
    forall|i: int|
        0 <= i < k ==> {
            &&& png_frame_of((#[trigger] encoded[i])@) is Some
            &&& decoded_frame(encoded[i]).format.wf()
            &&& decoded_frame(encoded[i]).format == decoded_frame(encoded[0]).format
        }
}

/// The first field, in checking order, on which `got` differs from
/// `expected`. Meaningful only when the two differ.
pub open spec fn first_mismatch(expected: RasterFormat, got: RasterFormat) -> FormatField {
    if got.width != expected.width {
        FormatField::Width
    } else if got.height != expected.height {
        FormatField::Height
    } else if got.samples_per_pixel != expected.samples_per_pixel {
        FormatField::SampleLayout
    } else if got.bit_depth != expected.bit_depth {
        FormatField::BitDepth
    } else {
        FormatField::Stride
    }
}

/// An ordered sequence of frames sharing one format: the read-only source
/// the displacement transforms draw from.
#[derive(Debug)]
pub struct FrameStore {
    pub frames: Vec<RasterBuffer>,
    pub format: RasterFormat,
}

impl FrameStore {
    /// At least one frame, and every frame well formed with exactly the
    /// shared format.
    pub open spec fn wf(self) -> bool {
        &&& self.format.wf()
        &&& self.frames@.len() >= 1
        &&& forall|i: int|
            0 <= i < self.frames@.len() ==> (#[trigger] self.frames@[i]).wf()
                && self.frames@[i].format == self.format
    }

    /// Number of frames held.
    pub fn frame_count(&self) -> (n: usize)
        ensures
            n == self.frames@.len(),
    {
        self.frames.len()
    }

    /// Decodes `encoded` (one element per frame, in frame order) and
    /// validates that every frame carries the first frame's format.
    ///
    /// The first frame establishes the shared format; each later frame is
    /// compared against it field by field and the first disagreement aborts
    /// the load, naming the frame and the field. Any decode failure aborts
    /// the load as well: no partial store is ever returned.
    pub fn load(encoded: &Vec<Vec<u8>>) -> (r: Result<FrameStore, LoadError>)
        requires
            encoded@.len() >= 1,
        ensures
            match r {
                Ok(store) => {
                    &&& loads_clean_upto(encoded@, encoded@.len() as int)
                    &&& store.wf()
                    &&& store.frames@.len() == encoded@.len()
                    &&& store.format == decoded_frame(encoded@[0]).format
                    &&& forall|i: int|
                        0 <= i < encoded@.len() ==> #[trigger] store.frames@[i] == decoded_frame(
                            encoded@[i],
                        )
                },
                Err(e) => match e {
                    LoadError::Decode { frame_index } => {
                        &&& frame_index < encoded@.len()
                        &&& loads_clean_upto(encoded@, frame_index as int)
                        &&& png_frame_of(encoded@[frame_index as int]@) is None
                    },
                    LoadError::Unsupported { frame_index } => {
                        &&& frame_index < encoded@.len()
                        &&& loads_clean_upto(encoded@, frame_index as int)
                        &&& png_frame_of(encoded@[frame_index as int]@) is Some
                        &&& !decoded_frame(encoded@[frame_index as int]).format.wf()
                    },
                    LoadError::FormatMismatch { frame_index, field } => {
                        &&& 1 <= frame_index < encoded@.len()
                        &&& loads_clean_upto(encoded@, frame_index as int)
                        &&& png_frame_of(encoded@[frame_index as int]@) is Some
                        &&& decoded_frame(encoded@[frame_index as int]).format.wf()
                        &&& decoded_frame(encoded@[frame_index as int]).format != decoded_frame(
                            encoded@[0],
                        ).format
                        &&& field == first_mismatch(
                            decoded_frame(encoded@[0]).format,
                            decoded_frame(encoded@[frame_index as int]).format,
                        )
                    },
                },
            },
    {
        let first = match decode_frame(encoded[0].as_slice()) {
            Ok(first) => first,
            Err(CodecError::Unsupported) => {
                return Err(LoadError::Unsupported { frame_index: 0 });
            },
            Err(_) => {
                return Err(LoadError::Decode { frame_index: 0 });
            },
        };
        let format = first.format;
        let mut frames: Vec<RasterBuffer> = Vec::new();
        frames.push(first);
        let mut k: usize = 1;
        while k < encoded.len()
            invariant
                1 <= k <= encoded@.len(),
                frames@.len() == k,
                format == decoded_frame(encoded@[0]).format,
                format.wf(),
                loads_clean_upto(encoded@, k as int),
                forall|i: int|
                    0 <= i < k ==> #[trigger] frames@[i] == decoded_frame(encoded@[i]),
                forall|i: int|
                    0 <= i < k ==> (#[trigger] frames@[i]).wf() && frames@[i].format == format,
            decreases encoded@.len() - k,
        {
            let frame = match decode_frame(encoded[k].as_slice()) {
                Ok(frame) => frame,
                Err(CodecError::Unsupported) => {
                    return Err(LoadError::Unsupported { frame_index: k });
                },
                Err(_) => {
                    return Err(LoadError::Decode { frame_index: k });
                },
            };
            if frame.format.width != format.width {
                return Err(
                    LoadError::FormatMismatch { frame_index: k, field: FormatField::Width },
                );
            }
            if frame.format.height != format.height {
                return Err(
                    LoadError::FormatMismatch { frame_index: k, field: FormatField::Height },
                );
            }
            if frame.format.samples_per_pixel != format.samples_per_pixel {
                return Err(
                    LoadError::FormatMismatch { frame_index: k, field: FormatField::SampleLayout },
                );
            }
            if frame.format.bit_depth != format.bit_depth {
                return Err(
                    LoadError::FormatMismatch { frame_index: k, field: FormatField::BitDepth },
                );
            }
            if frame.format.stride != format.stride {
                return Err(
                    LoadError::FormatMismatch { frame_index: k, field: FormatField::Stride },
                );
            }
            frames.push(frame);
            k = k + 1;
        }
        Ok(FrameStore { frames, format })
    }
}

} // verus!
