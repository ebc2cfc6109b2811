//! The whole-buffer decoder: reads the magic number, parses the header and
//! routes the pixel bytes to the right codec for the format and mode.

use vstd::prelude::*;

use crate::Image;
use crate::ImageModel;
use crate::ImageType;
use crate::Mode;
use crate::NetpbmError;
use crate::WordSize;
use crate::ascii::ascii_samples;
use crate::ascii::decode_samples;
use crate::bitpack::unpack_bits;
use crate::pnm::pbm::load_ascii;
use crate::pnm::pbm::load_binary;
use crate::pnm::pbm::pbm_samples;
use crate::tools;
use crate::tools::get_header;
use crate::tools::lemma_parse_header_data_start;
use crate::tools::parse_header;
use crate::word_size_of;
use crate::BitDepth;

verus! {

/// The colour layout each netpbm format decodes to.
pub open spec fn type_of_format(t: tools::ImageType) -> ImageType {
    match t {
        tools::ImageType::PBM => ImageType::BLACKANDWHITE,
        tools::ImageType::PGM => ImageType::GRAYSCALE,
        tools::ImageType::PPM => ImageType::RGB,
    }
}

/// The numeric format tag each netpbm format decodes to.
pub open spec fn tag_of_format(t: tools::ImageType) -> int {
    match t {
        tools::ImageType::PBM => 1,
        tools::ImageType::PGM => 2,
        tools::ImageType::PPM => 3,
    }
}

/// What decoding a whole file buffer yields: the header's error if its
/// parse fails, else an image with the header's dimensions and the pixel
/// bytes decoded by the format's codec — the `0`/`1` filter for ascii
/// bitmaps, the bit unpacker for binary bitmaps, the ascii sample decoder
/// for ascii graymaps and pixmaps, and the raw bytes unchanged for binary
/// ones.
pub open spec fn decode_model(s: Seq<u8>) -> Result<ImageModel, NetpbmError> {
    match parse_header(s) {
        Result::Err(e) => Result::Err(e),
        Result::Ok(h) => {
            let tail = s.subrange(h.data_start, s.len() as int);
            Result::Ok(
                ImageModel {
                    width: h.width,
                    height: h.height,
                    image_type: type_of_format(h.image_type),
                    depth: tag_of_format(h.image_type),
                    word_size: word_size_of(h.depth),
                    data: if h.image_type == tools::ImageType::PBM {
                        if h.mode == Mode::ASCII {
                            pbm_samples(tail)
                        } else {
                            unpack_bits(tail, h.width)
                        }
                    } else {
                        if h.mode == Mode::ASCII {
                            ascii_samples(tail, h.depth)
                        } else {
                            tail
                        }
                    },
                },
            )
        },
    }
}

/// Header comment skipping, seen from the decoder: inserting a comment at
/// any point the header tokenizer reaches outside another comment gives a
/// buffer that decodes to exactly the same image, or fails with exactly
/// the same error. The premises are those of
/// [`crate::tools::lemma_header_comment_skipping`].
pub proof fn lemma_decode_comment_skipping(pre: Seq<u8>, text: Seq<u8>, suf: Seq<u8>)
    requires
        pre.len() >= 2,
        pre[0] == 80,
        49 <= pre[1] <= 55,
        tools::magic_type(pre[1]) is Some,
        tools::scan(
            tools::field_count(tools::magic_type(pre[1])->Some_0),
            tools::init_scan_state(),
            pre,
            2,
        ) matches tools::ScanOutcome::Ran(st) && !st.in_comment,
        forall|k: int| 0 <= k < text.len() ==> #[trigger] text[k] != 10,
    ensures
        decode_model(pre + suf) == decode_model(pre + (seq![35u8] + text + seq![10u8]) + suf),
{
    tools::lemma_header_comment_skipping(pre, text, suf);
    let c = seq![35u8] + text + seq![10u8];
    let s1 = pre + suf;
    let s2 = pre + c + suf;
    match parse_header(s1) {
        Result::Err(_) => {},
        Result::Ok(h1) => {
            let h2 = parse_header(s2)->Ok_0;
            tools::lemma_parse_header_data_start(s1);
            tools::lemma_parse_header_data_start(s2);
            assert(s1.subrange(h1.data_start, s1.len() as int) =~= s1.skip(h1.data_start));
            assert(s2.subrange(h2.data_start, s2.len() as int) =~= s2.skip(h2.data_start));
            assert(decode_model(s1)->Ok_0 =~= decode_model(s2)->Ok_0);
        },
    }
}

/// Decodes a whole netpbm file buffer into an image, exactly as
/// [`decode_model`] says: the same image on success and the same error
/// otherwise.
pub fn decode(dat: &Vec<u8>) -> (r: Result<Image, NetpbmError>)
    requires
        dat.len() >= 2,
    ensures
        match r {
            Result::Ok(img) => decode_model(dat@) matches Result::Ok(m) && img@ == m,
            Result::Err(e) => decode_model(dat@) == Result::Err::<ImageModel, NetpbmError>(e),
        },
{
    let header = match get_header(dat) {
        Result::Ok(h) => h,
        Result::Err(e) => {
            return Result::Err(e);
        },
    };
    proof {
        lemma_parse_header_data_start(dat@);
    }
    let tail: &[u8] = &dat[header.dat_start..dat.len()];
    let final_dat: Vec<u8> = match header.image_type {
        tools::ImageType::PBM => match header.mode {
            Mode::ASCII => load_ascii(tail),
            Mode::BINARY => load_binary(tail, header.width),
        },
        _ => match header.mode {
            Mode::ASCII => decode_samples(tail, header.depth),
            Mode::BINARY => {
                let mut raw: Vec<u8> = Vec::new();
                raw.extend_from_slice(tail);
                proof {
                    assert(raw@ =~= tail@);
                }
                raw
            },
        },
    };
    let (image_type, image_depth): (ImageType, u8) = match header.image_type {
        tools::ImageType::PBM => (ImageType::BLACKANDWHITE, 1),
        tools::ImageType::PGM => (ImageType::GRAYSCALE, 2),
        tools::ImageType::PPM => (ImageType::RGB, 3),
    };
    Result::Ok(
        Image {
            width: header.width,
            height: header.height,
            image_type: image_type,
            depth: image_depth,
            word_size: match header.depth {
                BitDepth::EIGHT => WordSize::EIGHT,
                BitDepth::SIXTEEN => WordSize::SIXTEEN,
            },
            data: final_dat,
        },
    )
}

} // verus!
