//! The byte-level PGM codec: saving a graymap as ascii decimal tokens or
//! as raw sample bytes, and loading either form back from a whole file
//! buffer.
//!
//! The pgm (Portable GrayMap) format is gray scale with eight- or
//! sixteen-bit samples, so the maximum value is either 255 or 65535;
//! sixteen-bit samples are stored big-endian.

use vstd::prelude::*;

use crate::BitDepth;
use crate::Image;
use crate::ImageModel;
use crate::ImageType;
use crate::Mode;
use crate::NetpbmError;
use crate::ascii::decode_samples;
use crate::ascii::encode_rows;
use crate::ascii::encode_samples;
use crate::ascii::ascii_samples;
use crate::ascii::header_bytes;
use crate::ascii::maxval_bytes;
use crate::ascii::sample_width;
use crate::ascii::write_header;
use crate::ascii::write_maxval;
use crate::tools;
use crate::tools::get_header;
use crate::tools::lemma_parse_header_data_start;
use crate::tools::parse_header;
use crate::word_size_of;

verus! {

/// What an ascii save produces: the `P2` header, the maximum-value line
/// and the token body, or `WidthTooWideForAscii` for an image more than
/// 70 pixels wide, or `LineTooWide` from the body.
pub open spec fn save_ascii_model(
    data: Seq<u8>,
    width: int,
    height: int,
    depth: BitDepth,
) -> Result<Seq<u8>, NetpbmError> {
    if width > 70 {
        Result::Err(NetpbmError::WidthTooWideForAscii)
    } else {
        match encode_rows(data, width, height, depth) {
            Result::Ok(body) => Result::Ok(
                header_bytes(50, width, height) + maxval_bytes(depth) + body,
            ),
            Result::Err(e) => Result::Err(e),
        }
    }
}

/// Saves a pgm image in ascii format: the `P2` header, `255` or `65535`
/// on its own line, then one decimal token per sample, space-separated
/// within a row and one newline per row, with at most 70 token characters
/// on a line.
pub fn save_ascii(dat: &[u8], width: u32, height: u32, depth: BitDepth) -> (r: Result<
    Vec<u8>,
    NetpbmError,
>)
    requires
        dat@.len() == width * height * sample_width(depth),
    ensures
        match r {
            Result::Ok(v) => save_ascii_model(dat@, width as int, height as int, depth)
                == Result::Ok::<Seq<u8>, NetpbmError>(v@),
            Result::Err(e) => save_ascii_model(dat@, width as int, height as int, depth)
                == Result::Err::<Seq<u8>, NetpbmError>(e),
        },
{
    // In theory we can ignore this with no downside but it would no longer
    // be conformant.
    if width > 70 {
        return Result::Err(NetpbmError::WidthTooWideForAscii);
    }
    proof {
        assert((height as int) * (width as int) * sample_width(depth) == (width as int) * (
        height as int) * sample_width(depth)) by (nonlinear_arith);
    }
    let body = match encode_samples(dat, width as usize, height as usize, depth) {
        Result::Ok(v) => v,
        Result::Err(e) => {
            return Result::Err(e);
        },
    };
    let mut out: Vec<u8> = Vec::new();
    write_header(&mut out, 50, width, height);
    write_maxval(&mut out, depth);
    let mut b = body;
    let ghost bodyv = b@;
    out.append(&mut b);
    proof {
        assert(out@ =~= header_bytes(50, width as int, height as int) + maxval_bytes(depth)
            + bodyv);
    }
    Result::Ok(out)
}

/// What a binary save produces: the `P5` header, the maximum-value line
/// and the raw sample bytes unchanged.
pub open spec fn save_binary_model(
    data: Seq<u8>,
    width: int,
    height: int,
    depth: BitDepth,
) -> Seq<u8> {
    header_bytes(53, width, height) + maxval_bytes(depth) + data
}

/// Save a pgm image in binary format: the `P5` header, the maximum-value
/// line, then the sample bytes written through unchanged.
pub fn save_binary(dat: &[u8], width: u32, height: u32, depth: BitDepth) -> (r: Vec<u8>)
    ensures
        r@ == save_binary_model(dat@, width as int, height as int, depth),
{
    let mut out: Vec<u8> = Vec::new();
    write_header(&mut out, 53, width, height);
    write_maxval(&mut out, depth);
    out.extend_from_slice(dat);
    proof {
        assert(out@ =~= header_bytes(53, width as int, height as int) + maxval_bytes(depth)
            + dat@);
    }
    out
}

/// What loading a whole pgm file buffer yields: the parsed header's
/// dimensions and the decoded samples, or the header's error, or
/// `WrongNetpbmType` if the buffer is some other netpbm format.
pub open spec fn load_model(s: Seq<u8>) -> Result<ImageModel, NetpbmError> {
    match parse_header(s) {
        Result::Err(e) => Result::Err(e),
        Result::Ok(h) => {
            if h.image_type != tools::ImageType::PGM {
                Result::Err(NetpbmError::WrongNetpbmType(tools::ImageType::PGM))
            } else {
                let tail = s.subrange(h.data_start, s.len() as int);
                Result::Ok(
                    ImageModel {
                        width: h.width,
                        height: h.height,
                        image_type: ImageType::GRAYSCALE,
                        depth: 2,
                        word_size: word_size_of(h.depth),
                        data: if h.mode == Mode::ASCII {
                            ascii_samples(tail, h.depth)
                        } else {
                            tail
                        },
                    },
                )
            }
        },
    }
}

/// Loads a pgm image from a whole file buffer, in either ASCII or binary
/// format, exactly as [`load_model`] says. Binary sample data is taken
/// over unchanged.
pub fn load(dat: &Vec<u8>) -> (r: Result<Image, NetpbmError>)
    requires
        dat.len() >= 2,
    ensures
        match r {
            Result::Ok(img) => load_model(dat@) matches Result::Ok(m) && img@ == m,
            Result::Err(e) => load_model(dat@) == Result::Err::<ImageModel, NetpbmError>(e),
        },
{
    let header = match get_header(dat) {
        Result::Ok(h) => h,
        Result::Err(e) => {
            return Result::Err(e);
        },
    };
    // check the magic number.
    if header.image_type != tools::ImageType::PGM {
        return Result::Err(NetpbmError::WrongNetpbmType(tools::ImageType::PGM));
    }
    proof {
        lemma_parse_header_data_start(dat@);
    }
    let tail: &[u8] = &dat[header.dat_start..dat.len()];
    let data = match header.mode {
        Mode::ASCII => decode_samples(tail, header.depth),
        // unlike with the pbm file format we can take raw binary data with
        // no processing.
        Mode::BINARY => {
            let mut raw: Vec<u8> = Vec::new();
            raw.extend_from_slice(tail);
            proof {
                assert(raw@ =~= tail@);
            }
            raw
        },
    };
    Result::Ok(
        Image {
            width: header.width,
            height: header.height,
            image_type: ImageType::GRAYSCALE,
            depth: 2,
            word_size: match header.depth {
                BitDepth::EIGHT => crate::WordSize::EIGHT,
                BitDepth::SIXTEEN => crate::WordSize::SIXTEEN,
            },
            data: data,
        },
    )
}

} // verus!
