//! A codec for the netpbm family of raster image formats: PBM (bitmap),
//! PGM (graymap) and PPM (pixmap), each in an ascii and a binary encoding.
//!
//! The crate is organised around three verified cores: the header tokenizer
//! in [`tools`], the ascii number codec in [`ascii`] and the bit packer for
//! binary bitmaps in [`bitpack`]. The [`pnm`] module ties them together into
//! whole-buffer `decode` and `encode` operations, and the [`pbm`], [`pgm`]
//! and [`ppm`] modules expose the per-format byte-level encoders and
//! decoders.

use vstd::prelude::*;

pub mod ascii;
pub mod bitpack;
pub mod pbm;
pub mod pgm;
pub mod pnm;
pub mod ppm;
pub mod tools;

verus! {

/// Whether pixel data is stored as ascii decimal tokens or as raw binary.
#[derive(PartialEq, Eq, Structural, Debug, Clone, Copy)]
pub enum Mode {
    ASCII,
    BINARY,
}

/// How many bytes one sample occupies in a graymap or pixmap: one byte for a
/// maximum value up to 255, two bytes (big-endian) above that.
#[derive(PartialEq, Eq, Structural, Debug, Clone, Copy)]
pub enum WordSize {
    EIGHT,
    SIXTEEN,
}

/// Sample depth as recorded in a parsed header; the counterpart of
/// [`WordSize`] on the header side of the API.
#[derive(PartialEq, Eq, Structural, Debug, Clone, Copy)]
pub enum BitDepth {
    EIGHT,
    SIXTEEN,
}

/// The word size a header's bit depth selects for the decoded image.
pub open spec fn word_size_of(d: BitDepth) -> WordSize {
    match d {
        BitDepth::EIGHT => WordSize::EIGHT,
        BitDepth::SIXTEEN => WordSize::SIXTEEN,
    }
}

/// The bit depth an encoder writes for an image's word size: the inverse
/// of [`word_size_of`].
pub open spec fn bit_depth_of(w: WordSize) -> BitDepth {
    match w {
        WordSize::EIGHT => BitDepth::EIGHT,
        WordSize::SIXTEEN => BitDepth::SIXTEEN,
    }
}

/// The colour layout of a decoded image.
#[derive(PartialEq, Eq, Structural, Debug, Clone, Copy)]
#[allow(non_camel_case_types)]
pub enum ImageType {
    BLACKANDWHITE,
    GRAYSCALE,
    RGB,
    BLACKANDWHITE_ALPHA,
    GRAYSCALE_ALPHA,
    RGB_ALPHA,
}

/// Everything that can go wrong while decoding or encoding a netpbm buffer.
#[derive(PartialEq, Eq, Structural, Debug, Clone, Copy)]
pub enum NetpbmError {
    /// The buffer does not begin with `P` followed by a digit `1`..`7`.
    NotNetpbmFile,
    /// The magic digit is netpbm-like but names no supported format.
    UnsupportedNetpbmType,
    /// A byte that is no digit, whitespace or comment appeared in the header;
    /// carries the offending byte.
    UnexpectedHeaderCharacter(u8),
    /// A numeric field beyond those the format defines appeared in the header.
    HeaderOverrun,
    /// An ascii encode was asked for an image more than 70 pixels wide.
    WidthTooWideForAscii,
    /// An ascii encode would have put more than 70 token characters on a line.
    LineTooWide,
    /// A per-format decoder was handed a buffer of a different netpbm format;
    /// carries the format the buffer actually has.
    WrongNetpbmType(tools::ImageType),
}

impl NetpbmError {
    /// A human-readable message for the error; for an unexpected header
    /// character it carries the byte's decimal value.
    pub fn description(&self) -> (r: String)
        ensures
            r@ == self.description_spec(),
    {
        match self {
            NetpbmError::NotNetpbmFile => String::from_str("Input file is not a netbpm file."),
            NetpbmError::UnsupportedNetpbmType => String::from_str(
                "Input file is an unsupported netbpm type.",
            ),
            NetpbmError::UnexpectedHeaderCharacter(b) => {
                let mut s = String::from_str("Unexpected character in file header. Character: ");
                ascii::append_decimal(&mut s, *b as u32);
                s
            },
            NetpbmError::HeaderOverrun => String::from_str("Loader reading past end of header."),
            NetpbmError::WidthTooWideForAscii => String::from_str(
                "Width can not be greater than 70 for ascii files.",
            ),
            NetpbmError::LineTooWide => String::from_str(
                "Line can not be greater than 70 characters for ascii files.",
            ),
            NetpbmError::WrongNetpbmType(tools::ImageType::PBM) => String::from_str(
                "Input file is not a pbm file.",
            ),
            NetpbmError::WrongNetpbmType(tools::ImageType::PGM) => String::from_str(
                "Input file is not a pgm file.",
            ),
            NetpbmError::WrongNetpbmType(tools::ImageType::PPM) => String::from_str(
                "Input file is not a ppm file.",
            ),
        }
    }

    /// The message `description` returns, as a sequence of characters.
    pub open spec fn description_spec(self) -> Seq<char> {
        match self {
            NetpbmError::NotNetpbmFile => "Input file is not a netbpm file."@,
            NetpbmError::UnsupportedNetpbmType => "Input file is an unsupported netbpm type."@,
            NetpbmError::UnexpectedHeaderCharacter(b) => "Unexpected character in file header. Character: "@
                + ascii::dec_chars(b as int),
            NetpbmError::HeaderOverrun => "Loader reading past end of header."@,
            NetpbmError::WidthTooWideForAscii => "Width can not be greater than 70 for ascii files."@,
            NetpbmError::LineTooWide => "Line can not be greater than 70 characters for ascii files."@,
            NetpbmError::WrongNetpbmType(tools::ImageType::PBM) => "Input file is not a pbm file."@,
            NetpbmError::WrongNetpbmType(tools::ImageType::PGM) => "Input file is not a pgm file."@,
            NetpbmError::WrongNetpbmType(tools::ImageType::PPM) => "Input file is not a ppm file."@,
        }
    }
}

/// A decoded raster image: dimensions, colour layout, sample depth and the
/// flat sample buffer (row-major, one or two bytes per sample, channels
/// interleaved).
pub struct Image {
    pub width: u32,
    pub height: u32,
    pub image_type: ImageType,
    /// A coarse numeric format tag kept alongside `image_type`: 1 for a bitmap,
    /// 2 for a graymap, 3 for a pixmap.
    pub depth: u8,
    pub word_size: WordSize,
    pub data: Vec<u8>,
}

/// The mathematical view of an [`Image`]: the same fields over `int` and
/// `Seq` so that contracts can speak of them without machine-width concerns.
#[verifier::ext_equal]
pub struct ImageModel {
    pub width: int,
    pub height: int,
    pub image_type: ImageType,
    pub depth: int,
    pub word_size: WordSize,
    pub data: Seq<u8>,
}

impl View for Image {
    type V = ImageModel;

    open spec fn view(&self) -> ImageModel {
        ImageModel {
            width: self.width as int,
            height: self.height as int,
            image_type: self.image_type,
            depth: self.depth as int,
            word_size: self.word_size,
            data: self.data@,
        }
    }
}

impl ImageModel {
    /// Samples per pixel for each colour layout.
    pub open spec fn channels(self) -> int {
        match self.image_type {
            ImageType::BLACKANDWHITE => 1,
            ImageType::GRAYSCALE => 1,
            ImageType::RGB => 3,
            ImageType::BLACKANDWHITE_ALPHA => 2,
            ImageType::GRAYSCALE_ALPHA => 2,
            ImageType::RGB_ALPHA => 4,
        }
    }

    /// Bytes per sample: a bitmap stores one byte per sample whatever its
    /// word size says; the other formats follow the word size.
    pub open spec fn bytes_per_sample(self) -> int {
        match self.image_type {
            ImageType::BLACKANDWHITE | ImageType::BLACKANDWHITE_ALPHA => 1,
            _ => match self.word_size {
                WordSize::EIGHT => 1,
                WordSize::SIXTEEN => 2,
            },
        }
    }

    /// The sample buffer holds exactly one row-major grid of pixels.
    pub open spec fn wf(self) -> bool {
        self.data.len() == self.width * self.height * self.channels() * self.bytes_per_sample()
    }
}

impl Image {
    /// An empty placeholder image.
    pub fn new() -> (r: Image)
        ensures
            r@.width == 0,
            r@.height == 0,
            r@.image_type == ImageType::RGB,
            r@.depth == 0,
            r@.word_size == WordSize::EIGHT,
            r@.data == Seq::<u8>::empty(),
            r@.wf(),
    {
        Image {
            width: 0,
            height: 0,
            image_type: ImageType::RGB,
            depth: 0,
            word_size: WordSize::EIGHT,
            data: Vec::new(),
        }
    }
}

} // verus!
