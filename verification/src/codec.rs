//! The PNG codec: the calls into the `png` crate.

use vstd::prelude::*;

verus! {

/// One decoded frame: its size, the codes that PNG has for its colour type and
/// its bit depth, and its rows.
pub struct Frame {
    pub width: u32,
    pub height: u32,
    pub colour: u8,
    pub depth: u8,
    pub bytes: Vec<u8>,
}

impl View for Frame {
    type V = (u32, u32, u8, u8, Seq<u8>);

    open spec fn view(&self) -> (u32, u32, u8, u8, Seq<u8>) {
        (self.width, self.height, self.colour, self.depth, self.bytes@)
    }
}

/// The colour codes of PNG.
pub const GRAYSCALE: u8 = 0;

pub const RGB: u8 = 2;

pub const INDEXED: u8 = 3;

pub const GRAYSCALE_ALPHA: u8 = 4;

pub const RGBA: u8 = 6;

/// Samples per pixel, by colour code.
pub open spec fn samples(colour: u8) -> int {
    if colour == RGB {
        3
    } else if colour == GRAYSCALE_ALPHA {
        2
    } else if colour == RGBA {
        4
    } else {
        1
    }
}

/// `f` is a frame that a PNG file can hold: its codes are PNG's, and where a
/// sample is one or two whole bytes, its rows are packed without gaps.
pub open spec fn framed(f: (u32, u32, u8, u8, Seq<u8>)) -> bool {
    let (width, height, colour, depth, bytes) = f;
    &&& colour == GRAYSCALE || colour == RGB || colour == INDEXED || colour == GRAYSCALE_ALPHA
        || colour == RGBA
    &&& depth == 1 || depth == 2 || depth == 4 || depth == 8 || depth == 16
    &&& depth == 8 ==> bytes.len() == width * height * samples(colour)
    &&& depth == 16 ==> bytes.len() == width * height * samples(colour) * 2
}

/// What `png::Decoder` makes of a file on a machine with words of `bits` bits:
/// the first frame, or the text of the error. (The words decide whether a frame
/// of more than 4 GiB is refused.)
pub uninterp spec fn png_decoded(file: Seq<u8>, bits: int) -> Result<
    (u32, u32, u8, u8, Seq<u8>),
    Seq<char>,
>;

/// What `png::Encoder` makes of `width` by `height` interleaved RGB bytes, where
/// that many can be counted: a file, or the text of the error.
pub uninterp spec fn png_encoded(width: u32, height: u32, rgb: Seq<u8>) -> Result<
    Seq<u8>,
    Seq<char>,
>;

/// A decoder's result, by its views.
pub open spec fn frame_of(r: Result<Frame, String>) -> Result<
    (u32, u32, u8, u8, Seq<u8>),
    Seq<char>,
> {
    match r {
        Ok(f) => Ok(f@),
        Err(e) => Err(e@),
    }
}

/// An encoder's result, by its views.
pub open spec fn file_of(r: Result<Vec<u8>, String>) -> Result<Seq<u8>, Seq<char>> {
    match r {
        Ok(f) => Ok(f@),
        Err(e) => Err(e@),
    }
}

/// The bytes fill an image of this size, which is not empty.
pub open spec fn encodable(width: u32, height: u32, rgb: Seq<u8>) -> bool {
    width > 0 && height > 0 && rgb.len() == width * height * 3
}

/// The decoder reads the RGB bytes back from the file, if one line of them is
/// within its limit of 64 MiB.
pub open spec fn reads_back(file: Seq<u8>, width: u32, height: u32, rgb: Seq<u8>) -> bool {
    width * 3 <= 0x4000000 ==> png_decoded(file, usize::BITS as int) == Ok::<
        (u32, u32, u8, u8, Seq<u8>),
        Seq<char>,
    >((width, height, RGB, 8u8, rgb))
}

/// `png::Decoder` with its default limits and no transformation: `read_info`, and
/// `next_frame` into a buffer of `output_buffer_size` bytes, of which the frame's
/// `buffer_size` are kept.
///
/// The result is named. Of a frame it is claimed besides that its codes are
/// PNG's, and that its rows are packed: `OutputInfo::buffer_size` is the line size
/// times the height, and the line size at 8 and 16 bits is the width times the
/// samples, in bytes.
#[verifier::external_body]
pub(crate) fn png_decode(file: &[u8]) -> (r: Result<Frame, String>)
    ensures
        frame_of(r) == png_decoded(file@, usize::BITS as int),
        r matches Ok(f) ==> framed(f@),
{
    let mut reader = png::Decoder::new(file).read_info().map_err(|e| e.to_string())?;
    let mut bytes = vec![0u8; reader.output_buffer_size()];
    let info = reader.next_frame(&mut bytes).map_err(|e| e.to_string())?;
    bytes.truncate(info.buffer_size());
    Ok(Frame {
        width: info.width,
        height: info.height,
        colour: info.color_type as u8,
        depth: info.bit_depth as u8,
        bytes,
    })
}

/// `png::Encoder` for 8-bit RGB: `write_header`, `write_image_data`, `finish`.
///
/// The encoder multiplies a line's bytes and one more by the lines in `usize`,
/// unchecked, so the image's bytes are to be countable.
///
/// The result is named. Besides it is claimed when there is a file: the encoder
/// refuses a width or a height of zero and bytes that do not fill the image, and
/// nothing else, since writing into memory does not fail. And the decoder reads
/// back what was encoded, where one line is within the decoder's limit of 64 MiB.
#[verifier::external_body]
pub(crate) fn png_encode_rgb8(width: u32, height: u32, rgb: &[u8]) -> (r: Result<Vec<u8>, String>)
    requires
        width * height * 3 < usize::MAX,
    ensures
        file_of(r) == png_encoded(width, height, rgb@),
        r.is_ok() == encodable(width, height, rgb@),
        r matches Ok(file) ==> reads_back(file@, width, height, rgb@),
{
    let mut file = Vec::new();
    let mut enc = png::Encoder::new(&mut file, width, height);
    enc.set_color(png::ColorType::Rgb);
    enc.set_depth(png::BitDepth::Eight);
    let mut writer = enc.write_header().map_err(|e| e.to_string())?;
    writer.write_image_data(rgb).map_err(|e| e.to_string())?;
    writer.finish().map_err(|e| e.to_string())?;
    Ok(file)
}

} // verus!
