//! The whole-buffer encoder: writes the magic number, the header text and
//! the pixel bytes for an image, and the proofs that decoding an encoded
//! buffer gives the image back.

use vstd::prelude::*;

use crate::BitDepth;
use crate::Image;
use crate::ImageModel;
use crate::ImageType;
use crate::Mode;
use crate::NetpbmError;
use crate::WordSize;
use crate::ascii::dec_digits;
use crate::ascii::fold_digits_mod;
use crate::ascii::header_bytes;
use crate::ascii::lemma_dec_digits_are_digits;
use crate::ascii::lemma_decode_encoded_rows;
use crate::ascii::lemma_fold_dec_digits;
use crate::ascii::maxval_bytes;
use crate::ascii::sample_width;
use crate::bit_depth_of;
use crate::bitpack::lemma_unpack_pack;
use crate::pbm;
use crate::pbm::lemma_pbm_samples_body;
use crate::pgm;
use crate::pnm::decoder::decode_model;
use crate::ppm;
use crate::tools;
use crate::tools::HeaderModel;
use crate::tools::ScanOutcome;
use crate::tools::ScanState;
use crate::tools::ScanStep;
use crate::tools::depth_of_maxval;
use crate::tools::field_count;
use crate::tools::init_scan_state;
use crate::tools::is_digit_byte;
use crate::tools::magic_mode;
use crate::tools::magic_type;
use crate::tools::parse_header;
use crate::tools::scan;
use crate::tools::scan_step;
use crate::word_size_of;

verus! {

/// The state a digit run leaves the tokenizer in: the run folded into the
/// accumulator the field index selects.
spec fn fold_state(st: ScanState, ds: Seq<u8>) -> ScanState {
    if st.field_index == 0 {
        ScanState { width: fold_digits_mod(st.width, ds, 0x1_0000_0000), ..st }
    } else if st.field_index == 1 {
        ScanState { height: fold_digits_mod(st.height, ds, 0x1_0000_0000), ..st }
    } else {
        ScanState { maxval: fold_digits_mod(st.maxval, ds, 0x1_0000_0000), ..st }
    }
}

/// Scanning across a run of digits only folds them into the current
/// field's accumulator.
proof fn lemma_scan_digits(fields: int, st: ScanState, s: Seq<u8>, i: int, j: int)
    requires
        0 <= i <= j <= s.len(),
        forall|k: int| i <= k < j ==> is_digit_byte(#[trigger] s[k]),
        !st.in_comment,
        st.field_index == 0 || st.field_index == 1 || (st.field_index == 2 && fields == 3),
    ensures
        scan(fields, st, s, i) == scan(fields, fold_state(st, s.subrange(i, j)), s, j),
    decreases j - i,
{
    if i == j {
        assert(s.subrange(i, j) =~= Seq::<u8>::empty());
        assert(fold_state(st, Seq::<u8>::empty()) =~= st);
    } else {
        let d = s[i];
        assert(is_digit_byte(d));
        let st2 = if st.field_index == 0 {
            ScanState { width: tools::accum_u32(st.width, d - 48), ..st }
        } else if st.field_index == 1 {
            ScanState { height: tools::accum_u32(st.height, d - 48), ..st }
        } else {
            ScanState { maxval: tools::accum_u32(st.maxval, d - 48), ..st }
        };
        assert(scan_step(fields, st, d) == ScanStep::Next(st2));
        assert(scan(fields, st, s, i) == scan(fields, st2, s, i + 1));
        lemma_scan_digits(fields, st2, s, i + 1, j);
        assert(s.subrange(i, j).skip(1) =~= s.subrange(i + 1, j));
        assert(fold_state(st, s.subrange(i, j)) =~= fold_state(st2, s.subrange(i + 1, j)));
    }
}

/// The maximum sample value each bit depth allows.
pub open spec fn maxval_value(depth: BitDepth) -> int {
    match depth {
        BitDepth::EIGHT => 255,
        BitDepth::SIXTEEN => 65535,
    }
}

/// The maximum-value line is that value's decimal rendering and a newline.
proof fn lemma_maxval_digits(depth: BitDepth)
    ensures
        maxval_bytes(depth) == dec_digits(maxval_value(depth)) + seq![10u8],
{
    reveal_with_fuel(dec_digits, 7);
    match depth {
        BitDepth::EIGHT => {
            assert(maxval_bytes(depth) =~= dec_digits(255) + seq![10u8]);
        },
        BitDepth::SIXTEEN => {
            assert(maxval_bytes(depth) =~= dec_digits(65535) + seq![10u8]);
        },
    }
}

/// The header prefix an encoder writes for a format: the header text, plus
/// the maximum-value line for a graymap or pixmap.
pub open spec fn encoded_prefix(t: tools::ImageType, d: u8, w: int, h: int, depth: BitDepth) -> Seq<
    u8,
> {
    if t == tools::ImageType::PBM {
        header_bytes(d, w, h)
    } else {
        header_bytes(d, w, h) + maxval_bytes(depth)
    }
}

/// The maximum-value accumulator a parsed encoded header ends with: zero
/// for a bitmap, which has no such line.
pub open spec fn encoded_maxval(t: tools::ImageType, depth: BitDepth) -> int {
    if t == tools::ImageType::PBM {
        0
    } else {
        maxval_value(depth)
    }
}

/// Parsing the header of an encoded buffer finds exactly the dimensions,
/// mode and depth that were written, and puts the pixel data right after
/// the prefix, whatever the pixel bytes are.
pub proof fn lemma_parse_encoded(
    t: tools::ImageType,
    d: u8,
    w: int,
    h: int,
    depth: BitDepth,
    body: Seq<u8>,
)
    requires
        magic_type(d) == Option::Some(t),
        0 <= w < 0x1_0000_0000,
        0 <= h < 0x1_0000_0000,
    ensures
        ({
            let pre = encoded_prefix(t, d, w, h, depth);
            let mv = encoded_maxval(t, depth);
            parse_header(pre + body) == Result::Ok::<HeaderModel, NetpbmError>(
                HeaderModel {
                    width: w,
                    height: h,
                    maxval: mv,
                    data_start: pre.len() as int,
                    image_type: t,
                    mode: magic_mode(d),
                    depth: depth_of_maxval(mv),
                },
            )
        }),
{
    let pre = encoded_prefix(t, d, w, h, depth);
    let mv = encoded_maxval(t, depth);
    let s = pre + body;
    let dw = dec_digits(w);
    let dh = dec_digits(h);
    let wl = dw.len() as int;
    let hl = dh.len() as int;
    lemma_dec_digits_are_digits(w);
    lemma_dec_digits_are_digits(h);
    lemma_fold_dec_digits(w, 0x1_0000_0000);
    lemma_fold_dec_digits(h, 0x1_0000_0000);
    let hb = header_bytes(d, w, h);
    assert(hb.len() == 5 + wl + hl);
    assert(s[0] == 80 && s[1] == d && s[2] == 10);
    assert(s.subrange(3, 3 + wl) =~= dw);
    assert(s[3 + wl] == 32);
    assert(s.subrange(4 + wl, 4 + wl + hl) =~= dh);
    assert(s[4 + wl + hl] == 10);

    let fc = field_count(t);
    let st0 = init_scan_state();
    // the newline after the magic number opens the width field
    let st1 = ScanState { field_index: 0, ..st0 };
    assert(scan_step(fc, st0, s[2]) == ScanStep::Next(st1));
    assert(scan(fc, st0, s, 2) == scan(fc, st1, s, 3));
    // the width digits
    lemma_scan_digits(fc, st1, s, 3, 3 + wl);
    let st2 = fold_state(st1, dw);
    assert(st2 == ScanState { field_index: 0, in_comment: false, width: w, height: 0, maxval: 0 });
    // the space between the fields
    let st3 = ScanState { field_index: 1, ..st2 };
    assert(scan_step(fc, st2, s[3 + wl]) == ScanStep::Next(st3));
    assert(scan(fc, st2, s, 3 + wl) == scan(fc, st3, s, 4 + wl));
    // the height digits
    lemma_scan_digits(fc, st3, s, 4 + wl, 4 + wl + hl);
    let st4 = fold_state(st3, dh);
    assert(st4 == ScanState { field_index: 1, in_comment: false, width: w, height: h, maxval: 0 });
    // the newline after the height
    if t == tools::ImageType::PBM {
        assert(scan_step(fc, st4, s[4 + wl + hl]) == ScanStep::Stop);
        assert(scan(fc, st0, s, 2) == ScanOutcome::Stopped(st4, 5 + wl + hl));
        assert(pre.len() == 5 + wl + hl);
    } else {
        let dm = dec_digits(mv);
        let ml = dm.len() as int;
        lemma_maxval_digits(depth);
        lemma_dec_digits_are_digits(mv);
        lemma_fold_dec_digits(mv, 0x1_0000_0000);
        assert(s.subrange(5 + wl + hl, 5 + wl + hl + ml) =~= dm);
        assert(s[5 + wl + hl + ml] == 10);
        let st5 = ScanState { field_index: 2, ..st4 };
        assert(scan_step(fc, st4, s[4 + wl + hl]) == ScanStep::Next(st5));
        assert(scan(fc, st4, s, 4 + wl + hl) == scan(fc, st5, s, 5 + wl + hl));
        // the maximum-value digits
        lemma_scan_digits(fc, st5, s, 5 + wl + hl, 5 + wl + hl + ml);
        let st6 = fold_state(st5, dm);
        assert(st6 == ScanState {
            field_index: 2,
            in_comment: false,
            width: w,
            height: h,
            maxval: mv,
        });
        // the newline after the maximum value
        assert(scan_step(fc, st6, s[5 + wl + hl + ml]) == ScanStep::Stop);
        assert(scan(fc, st0, s, 2) == ScanOutcome::Stopped(st6, 6 + wl + hl + ml));
        assert(pre.len() == 6 + wl + hl + ml);
    }
    assert(49 <= d <= 55);
    assert(parse_header(s) matches Result::Ok(m) && m =~= HeaderModel {
        width: w,
        height: h,
        maxval: mv,
        data_start: pre.len() as int,
        image_type: t,
        mode: magic_mode(d),
        depth: depth_of_maxval(mv),
    });
}

/// What encoding an image yields: the format's own byte-level save for the
/// image's colour layout and the chosen mode. The alpha layouts belong to
/// no netpbm format and are refused.
pub open spec fn encode_model(m: ImageModel, mode: Mode) -> Result<Seq<u8>, NetpbmError> {
    match m.image_type {
        ImageType::BLACKANDWHITE => {
            if mode == Mode::ASCII {
                pbm::save_ascii_model(m.data, m.width, m.height)
            } else {
                Result::Ok(pbm::save_binary_model(m.data, m.width, m.height))
            }
        },
        ImageType::GRAYSCALE => {
            if mode == Mode::ASCII {
                pgm::save_ascii_model(m.data, m.width, m.height, bit_depth_of(m.word_size))
            } else {
                Result::Ok(pgm::save_binary_model(m.data, m.width, m.height, bit_depth_of(m.word_size)))
            }
        },
        ImageType::RGB => {
            if mode == Mode::ASCII {
                ppm::save_ascii_model(m.data, m.width, m.height, bit_depth_of(m.word_size))
            } else {
                Result::Ok(ppm::save_binary_model(m.data, m.width, m.height, bit_depth_of(m.word_size)))
            }
        },
        _ => Result::Err(NetpbmError::UnsupportedNetpbmType),
    }
}

/// Round trip: decoding an encoded image gives the image back, for every
/// format, mode and depth on which the encode succeeds.
///
/// The premises pin the image to the decoder's range: the numeric tag
/// matches the colour layout, a bitmap is eight-bit with zero-or-one
/// samples, and an ascii graymap or pixmap is not zero pixels wide above a
/// positive height (the encoding of such an image is one bare newline per
/// row, and decoding those newlines yields spurious zero samples).
pub proof fn lemma_round_trip(m: ImageModel, mode: Mode, b: Seq<u8>)
    requires
        m.wf(),
        0 <= m.width < 0x1_0000_0000,
        0 <= m.height < 0x1_0000_0000,
        m.image_type == ImageType::BLACKANDWHITE ==> m.depth == 1 && m.word_size == WordSize::EIGHT
            && (forall|k: int| 0 <= k < m.data.len() ==> m.data[k] < 2),
        m.image_type == ImageType::GRAYSCALE ==> m.depth == 2,
        m.image_type == ImageType::RGB ==> m.depth == 3,
        m.image_type != ImageType::BLACKANDWHITE && mode == Mode::ASCII ==> m.width >= 1
            || m.height == 0,
        encode_model(m, mode) == Result::Ok::<Seq<u8>, NetpbmError>(b),
    ensures
        decode_model(b) == Result::Ok::<ImageModel, NetpbmError>(m),
{
    let w = m.width;
    let h = m.height;
    let depth = bit_depth_of(m.word_size);
    match m.image_type {
        ImageType::BLACKANDWHITE => {
            assert(m.data.len() == w * h) by (nonlinear_arith)
                requires
                    m.data.len() == w * h * 1 * 1,
            ;
            let t = tools::ImageType::PBM;
            let d: u8 = if mode == Mode::ASCII {
                49
            } else {
                52
            };
            let body = if mode == Mode::ASCII {
                pbm::pbm_ascii_body(m.data, w, 0, 1)
            } else {
                crate::bitpack::pack_bits(m.data, w, h)
            };
            assert(b == encoded_prefix(t, d, w, h, BitDepth::EIGHT) + body);
            lemma_parse_encoded(t, d, w, h, BitDepth::EIGHT, body);
            let pre = encoded_prefix(t, d, w, h, BitDepth::EIGHT);
            assert(b.subrange(pre.len() as int, b.len() as int) =~= body);
            if mode == Mode::ASCII {
                lemma_pbm_samples_body(m.data, w, 0, 1);
            } else {
                lemma_unpack_pack(m.data, w, h);
            }
            assert(m.data.subrange(0, m.data.len() as int) =~= m.data);
            let dm = decode_model(b);
            assert(dm is Ok && dm->Ok_0 =~= m);
            assert(dm == Result::Ok::<ImageModel, NetpbmError>(m));
        },
        ImageType::GRAYSCALE | ImageType::RGB => {
            let gray = m.image_type == ImageType::GRAYSCALE;
            let t = if gray {
                tools::ImageType::PGM
            } else {
                tools::ImageType::PPM
            };
            let d: u8 = if gray {
                if mode == Mode::ASCII {
                    50
                } else {
                    53
                }
            } else {
                if mode == Mode::ASCII {
                    51
                } else {
                    54
                }
            };
            let tpr: int = if gray {
                w
            } else {
                w * 3
            };
            let mv = maxval_value(depth);
            assert(depth_of_maxval(mv) == depth);
            assert(word_size_of(depth) == m.word_size);
            assert(m.data.len() == h * tpr * sample_width(depth)) by (nonlinear_arith)
                requires
                    (m.data.len() == w * h * 1 * sample_width(depth) && tpr == w) || (m.data.len()
                        == w * h * 3 * sample_width(depth) && tpr == w * 3),
            ;
            let pre = encoded_prefix(t, d, w, h, depth);
            let body = if mode == Mode::ASCII {
                crate::ascii::encode_rows(m.data, tpr, h, depth)->Ok_0
            } else {
                m.data
            };
            if mode == Mode::ASCII {
                assert(crate::ascii::encode_rows(m.data, tpr, h, depth) == Result::Ok::<
                    Seq<u8>,
                    NetpbmError,
                >(body));
                lemma_decode_encoded_rows(m.data, tpr, h, depth, 0, 0, 0, body);
                assert(crate::ascii::ascii_samples(body, depth) == m.data.subrange(
                    0,
                    m.data.len() as int,
                ));
            }
            assert(b =~= pre + body);
            lemma_parse_encoded(t, d, w, h, depth, body);
            assert(b.subrange(pre.len() as int, b.len() as int) =~= body);
            assert(m.data.subrange(0, m.data.len() as int) =~= m.data);
            let dm = decode_model(b);
            assert(dm is Ok && dm->Ok_0 =~= m);
            assert(dm == Result::Ok::<ImageModel, NetpbmError>(m));
        },
        _ => {
            assert(false);
        },
    }
}

/// Idempotence: re-encoding a decoded image with the same mode reproduces
/// the byte-identical buffer, header text and all — encoding is
/// deterministic, so this follows from the round trip.
pub proof fn lemma_encode_idempotent(m: ImageModel, mode: Mode, b: Seq<u8>, m2: ImageModel)
    requires
        m.wf(),
        0 <= m.width < 0x1_0000_0000,
        0 <= m.height < 0x1_0000_0000,
        m.image_type == ImageType::BLACKANDWHITE ==> m.depth == 1 && m.word_size == WordSize::EIGHT
            && (forall|k: int| 0 <= k < m.data.len() ==> m.data[k] < 2),
        m.image_type == ImageType::GRAYSCALE ==> m.depth == 2,
        m.image_type == ImageType::RGB ==> m.depth == 3,
        m.image_type != ImageType::BLACKANDWHITE && mode == Mode::ASCII ==> m.width >= 1
            || m.height == 0,
        encode_model(m, mode) == Result::Ok::<Seq<u8>, NetpbmError>(b),
        decode_model(b) == Result::Ok::<ImageModel, NetpbmError>(m2),
    ensures
        encode_model(m2, mode) == Result::Ok::<Seq<u8>, NetpbmError>(b),
{
    lemma_round_trip(m, mode, b);
}

/// Encodes an image as a whole netpbm file buffer, exactly as
/// [`encode_model`] says: the magic number for the image's format and the
/// chosen mode, the header text, then the encoded pixel bytes.
pub fn encode(img: &Image, mode: Mode) -> (r: Result<Vec<u8>, NetpbmError>)
    requires
        img@.wf(),
    ensures
        match r {
            Result::Ok(v) => encode_model(img@, mode) == Result::Ok::<Seq<u8>, NetpbmError>(v@),
            Result::Err(e) => encode_model(img@, mode) == Result::Err::<Seq<u8>, NetpbmError>(e),
        },
{
    let depth: BitDepth = match img.word_size {
        WordSize::EIGHT => BitDepth::EIGHT,
        WordSize::SIXTEEN => BitDepth::SIXTEEN,
    };
    match img.image_type {
        ImageType::BLACKANDWHITE => {
            proof {
                assert(img@.data.len() == img@.width * img@.height) by (nonlinear_arith)
                    requires
                        img@.data.len() == img@.width * img@.height * 1 * 1,
                ;
            }
            match mode {
                Mode::ASCII => pbm::save_ascii(img.data.as_slice(), img.width, img.height),
                Mode::BINARY => Result::Ok(
                    pbm::save_binary(img.data.as_slice(), img.width, img.height),
                ),
            }
        },
        ImageType::GRAYSCALE => {
            proof {
                assert(img@.data.len() == img@.width * img@.height * sample_width(depth))
                    by (nonlinear_arith)
                    requires
                        img@.data.len() == img@.width * img@.height * 1 * sample_width(depth),
                ;
            }
            match mode {
                Mode::ASCII => pgm::save_ascii(img.data.as_slice(), img.width, img.height, depth),
                Mode::BINARY => Result::Ok(
                    pgm::save_binary(img.data.as_slice(), img.width, img.height, depth),
                ),
            }
        },
        ImageType::RGB => {
            match mode {
                Mode::ASCII => ppm::save_ascii(img.data.as_slice(), img.width, img.height, depth),
                Mode::BINARY => Result::Ok(
                    ppm::save_binary(img.data.as_slice(), img.width, img.height, depth),
                ),
            }
        },
        _ => Result::Err(NetpbmError::UnsupportedNetpbmType),
    }
}

} // verus!
