//! The byte-level PBM codec: saving a bitmap as ascii `0`/`1` tokens or as
//! MSB-first packed binary rows, and loading either form back from a whole
//! file buffer.
//!
//! The pbm (Portable BitMap) format is black and white only; any nonzero
//! sample byte is written as a one.

use vstd::prelude::*;

use crate::Image;
use crate::ImageType;
use crate::NetpbmError;
use crate::ascii::header_bytes;
use crate::ascii::write_header;
use crate::bitpack::bytes_per_row;
use crate::bitpack::pack_acc;
use crate::bitpack::pack_bits;
use crate::bitpack::pow2t;
use crate::bitpack::row_bits;
use crate::bitpack::row_byte;
use crate::bitpack::lemma_pack_acc_bound;
use crate::bitpack::lemma_pow2t_add;
use crate::bitpack::lemma_pow2t_pos;
use crate::bitpack::unpack_bits;
use crate::pnm::pbm::load_ascii;
use crate::pnm::pbm::load_binary;
use crate::pnm::pbm::pbm_samples;
use crate::tools;
use crate::tools::get_header;
use crate::tools::lemma_parse_header_data_start;
use crate::tools::parse_header;
use crate::word_size_of;
use crate::ImageModel;
use crate::Mode;

verus! {

/// The ascii token for one bitmap sample: `0` for zero, `1` for anything
/// else.
pub open spec fn pbm_tok(v: u8) -> u8 {
    if v == 0 {
        48
    } else {
        49
    }
}

/// The ascii body from sample `i` on: each sample's token followed by one
/// separator, a space until `nl` reaches the width and then a newline,
/// exactly as the flat writer tracks it.
pub open spec fn pbm_ascii_body(data: Seq<u8>, width: int, i: int, nl: int) -> Seq<u8>
    decreases data.len() - i,
{
    if i >= data.len() {
        Seq::<u8>::empty()
    } else {
        let sep: u8 = if nl < width {
            32
        } else {
            10
        };
        let nl2: int = if nl < width {
            nl + 1
        } else {
            1
        };
        seq![pbm_tok(data[i]), sep] + pbm_ascii_body(data, width, i + 1, nl2)
    }
}

/// Decoding an encoded ascii bitmap body gives the samples back: the
/// tokens survive the `0`/`1` filter and the separators are dropped.
pub proof fn lemma_pbm_samples_body(data: Seq<u8>, width: int, i: int, nl: int)
    requires
        0 <= i <= data.len(),
        forall|k: int| 0 <= k < data.len() ==> data[k] < 2,
    ensures
        pbm_samples(pbm_ascii_body(data, width, i, nl)) == data.subrange(i, data.len() as int),
    decreases data.len() - i,
{
    if i >= data.len() {
        assert(pbm_samples(pbm_ascii_body(data, width, i, nl)) =~= data.subrange(
            i,
            data.len() as int,
        ));
    } else {
        let sep: u8 = if nl < width {
            32
        } else {
            10
        };
        let nl2: int = if nl < width {
            nl + 1
        } else {
            1
        };
        lemma_pbm_samples_body(data, width, i + 1, nl2);
        let rest = pbm_ascii_body(data, width, i + 1, nl2);
        let body = seq![pbm_tok(data[i]), sep] + rest;
        assert(body[0] == pbm_tok(data[i]));
        assert(body.skip(1) =~= seq![sep] + rest);
        assert((seq![sep] + rest)[0] == sep);
        assert((seq![sep] + rest).skip(1) =~= rest);
        assert(pbm_samples(seq![sep] + rest) == Seq::<u8>::empty() + pbm_samples(rest));
        assert(Seq::<u8>::empty() + pbm_samples(rest) =~= pbm_samples(rest));
        assert(pbm_samples(body) == seq![data[i]] + pbm_samples(seq![sep] + rest)) by {
            assert(body.len() > 0);
            assert(pbm_tok(data[i]) == 48 ==> data[i] == 0);
            assert(pbm_tok(data[i]) == 49 ==> data[i] == 1);
            assert(seq![data[i]] =~= (if body[0] == 48 {
                seq![0u8]
            } else if body[0] == 49 {
                seq![1u8]
            } else {
                Seq::<u8>::empty()
            }));
        }
        assert(seq![data[i]] + data.subrange(i + 1, data.len() as int) =~= data.subrange(
            i,
            data.len() as int,
        ));
    }
}

/// What an ascii save produces: the `P1` header and the token body, or
/// `WidthTooWideForAscii` for an image more than 70 pixels wide.
pub open spec fn save_ascii_model(data: Seq<u8>, width: int, height: int) -> Result<
    Seq<u8>,
    NetpbmError,
> {
    if width > 70 {
        Result::Err(NetpbmError::WidthTooWideForAscii)
    } else {
        Result::Ok(header_bytes(49, width, height) + pbm_ascii_body(data, width, 0, 1))
    }
}

/// Saves a pbm image in ASCII format: the `P1` header, then one `0` or `1`
/// token per sample, space-separated within a row and one newline per row.
pub fn save_ascii(dat: &[u8], width: u32, height: u32) -> (r: Result<Vec<u8>, NetpbmError>)
    ensures
        match r {
            Result::Ok(v) => save_ascii_model(dat@, width as int, height as int) == Result::Ok::<
                Seq<u8>,
                NetpbmError,
            >(v@),
            Result::Err(e) => save_ascii_model(dat@, width as int, height as int) == Result::Err::<
                Seq<u8>,
                NetpbmError,
            >(e),
        },
{
    // In theory we can ignore this with no downside but it would no longer
    // be conformant.
    if width > 70 {
        return Result::Err(NetpbmError::WidthTooWideForAscii);
    }
    let mut out: Vec<u8> = Vec::new();
    write_header(&mut out, 49, width, height);
    let ghost whole = header_bytes(49, width as int, height as int) + pbm_ascii_body(
        dat@,
        width as int,
        0,
        1,
    );
    // track if we need to insert a new line character at the end of a row.
    let mut nl: u32 = 1;
    let mut i: usize = 0;
    proof {
        assert(out@ + pbm_ascii_body(dat@, width as int, 0, 1) =~= whole);
    }
    while i < dat.len()
        invariant
            i <= dat.len(),
            1 <= nl <= 71,
            width <= 70,
            out@ + pbm_ascii_body(dat@, width as int, i as int, nl as int) == whole,
        decreases dat.len() - i,
    {
        let ghost pre = out@;
        let ghost sep: u8 = if nl < width {
            32u8
        } else {
            10u8
        };
        let x = dat[i];
        if x == 0 {
            out.push(48);
        } else {
            out.push(49);
        }
        if nl < width {
            out.push(32);
            nl = nl + 1;
        } else {
            out.push(10);
            nl = 1;
        }
        proof {
            assert forall|rest: Seq<u8>|
                out@ + rest =~= pre + (seq![pbm_tok(dat@[i as int]), sep] + rest) by {}
        }
        i = i + 1;
    }
    proof {
        assert(out@ + Seq::<u8>::empty() =~= out@);
    }
    Result::Ok(out)
}

/// What a binary save produces: the `P4` header and the packed rows.
pub open spec fn save_binary_model(data: Seq<u8>, width: int, height: int) -> Seq<u8> {
    header_bytes(52, width, height) + pack_bits(data, width, height)
}

/// Two raised to a small exponent, as a byte.
fn pow2_u8(e: usize) -> (r: u8)
    requires
        e <= 7,
    ensures
        r as int == pow2t(e as int),
{
    proof {
        reveal_with_fuel(pow2t, 9);
    }
    if e == 0 {
        1
    } else if e == 1 {
        2
    } else if e == 2 {
        4
    } else if e == 3 {
        8
    } else if e == 4 {
        16
    } else if e == 5 {
        32
    } else {
        if e == 6 {
            64
        } else {
            128
        }
    }
}

/// Saves a pbm image in binary format: the `P4` header, then each row's
/// samples packed eight to a byte MSB-first, the final byte of a row
/// padded with zero bits to the byte boundary.
pub fn save_binary(dat: &[u8], width: u32, height: u32) -> (r: Vec<u8>)
    requires
        dat@.len() == width * height,
    ensures
        r@ == save_binary_model(dat@, width as int, height as int),
{
    let mut out: Vec<u8> = Vec::new();
    write_header(&mut out, 52, width, height);
    let ghost hdr = out@;
    let ghost packed = pack_bits(dat@, width as int, height as int);
    let bpr64: u64 = ((width as u64) + 7) / 8;
    let bpr: usize = bpr64 as usize;
    let dlen: usize = dat.len();
    proof {
        assert(bpr as int == bytes_per_row(width as int));
        assert(out@ =~= hdr + packed.take(0));
    }
    let mut r: u32 = 0;
    while r < height
        invariant
            r <= height,
            dlen == dat@.len(),
            dat@.len() == width * height,
            bpr as int == bytes_per_row(width as int),
            packed == pack_bits(dat@, width as int, height as int),
            out@ == hdr + packed.take(r as int * bpr as int),
        decreases height - r,
    {
        let mut k: usize = 0;
        while k < bpr
            invariant
                k <= bpr,
                r < height,
                dlen == dat@.len(),
                dat@.len() == width * height,
                bpr as int == bytes_per_row(width as int),
                packed == pack_bits(dat@, width as int, height as int),
                out@ == hdr + packed.take(r as int * bpr as int + k as int),
            decreases bpr - k,
        {
            let rem: u64 = (width as u64) - 8 * (k as u64);
            let n: usize = if rem >= 8 {
                8
            } else {
                rem as usize
            };
            let ghost start = r as int * width as int + 8 * k as int;
            proof {
                assert(8 * (k as int) < width as int) by (nonlinear_arith)
                    requires
                        0 <= (k as int) && (k as int) <= bpr as int - 1,
                        bpr as int == (width as int + 7) / 8,
                ;
                assert(n as int == row_bits(width as int, k as int));
                crate::ascii::lemma_grid_index(r as int, 8 * k as int, height as int, width as int);
                assert(start + n <= (r as int + 1) * (width as int) <= dat@.len())
                    by (nonlinear_arith)
                    requires
                        start == r as int * width as int + 8 * k as int,
                        n as int <= width as int - 8 * k as int,
                        0 <= (r as int) && (r as int) < height as int,
                        dat@.len() == width * height,
                        0 <= 8 * k as int,
                ;
            }
            let base: usize = (r as usize) * (width as usize) + 8 * k;
            let mut acc: u8 = 0;
            let mut t: usize = 0;
            while t < n
                invariant
                    t <= n,
                    n <= 8,
                    start + n <= dat@.len(),
                    dlen == dat@.len(),
                    base == start,
                    acc as int == pack_acc(dat@, start, t as int),
                decreases n - t,
            {
                proof {
                    lemma_pack_acc_bound(dat@, start, t as int);
                    lemma_pow2t_le_128(t as int);
                }
                let bit: u8 = if dat[base + t] == 0 {
                    0
                } else {
                    1
                };
                acc = acc * 2 + bit;
                t = t + 1;
            }
            proof {
                lemma_pack_acc_bound(dat@, start, n as int);
                lemma_pow2t_pos(8 - n as int);
                lemma_pow2t_add(n as int, 8 - n as int);
                assert(pow2t(8) == 256) by {
                    reveal_with_fuel(pow2t, 9);
                }
                assert(acc as int * pow2t(8 - n as int) < 256) by (nonlinear_arith)
                    requires
                        0 <= (acc as int) && (acc as int) < pow2t(n as int),
                        pow2t(n as int) * pow2t(8 - n as int) == 256,
                        pow2t(8 - n as int) >= 1,
                ;
            }
            let byte: u8 = acc * pow2_u8(8 - n);
            let ghost m = r as int * bpr as int + k as int;
            proof {
                assert(byte == row_byte(dat@, width as int, r as int, k as int));
                crate::ascii::lemma_grid_index(r as int, k as int, height as int, bpr as int);
                vstd::arithmetic::div_mod::lemma_fundamental_div_mod_converse(
                    m,
                    bpr as int,
                    r as int,
                    k as int,
                );
                assert(packed[m] == byte);
            }
            out.push(byte);
            proof {
                assert(out@ =~= hdr + packed.take(m + 1));
            }
            k = k + 1;
        }
        proof {
            assert(r as int * bpr as int + bpr as int == (r as int + 1) * bpr as int)
                by (nonlinear_arith);
        }
        r = r + 1;
    }
    proof {
        assert(packed.take(height as int * bpr as int) =~= packed);
    }
    out
}

/// Two raised to a small exponent is at most 128.
proof fn lemma_pow2t_le_128(e: int)
    requires
        e <= 7,
    ensures
        pow2t(e) <= 128,
    decreases e,
{
    reveal_with_fuel(pow2t, 9);
    if e > 0 {
        lemma_pow2t_le_128(e - 1);
    }
}

/// What loading a whole pbm file buffer yields: the parsed header's
/// dimensions and the decoded samples, or the header's error, or
/// `WrongNetpbmType` if the buffer is some other netpbm format.
pub open spec fn load_model(s: Seq<u8>) -> Result<ImageModel, NetpbmError> {
    match parse_header(s) {
        Result::Err(e) => Result::Err(e),
        Result::Ok(h) => {
            if h.image_type != tools::ImageType::PBM {
                Result::Err(NetpbmError::WrongNetpbmType(tools::ImageType::PBM))
            } else {
                let tail = s.subrange(h.data_start, s.len() as int);
                Result::Ok(
                    ImageModel {
                        width: h.width,
                        height: h.height,
                        image_type: ImageType::BLACKANDWHITE,
                        depth: 1,
                        word_size: word_size_of(h.depth),
                        data: if h.mode == Mode::ASCII {
                            pbm_samples(tail)
                        } else {
                            unpack_bits(tail, h.width)
                        },
                    },
                )
            }
        },
    }
}

/// Loads a pbm image from a whole file buffer, in either ASCII or binary
/// format, exactly as [`load_model`] says.
pub fn load(dat: &Vec<u8>) -> (r: Result<Image, NetpbmError>)
    requires
        dat.len() >= 2,
    ensures
        match r {
            Result::Ok(img) => load_model(dat@) matches Result::Ok(m) && img@ == m,
            Result::Err(e) => load_model(dat@) == Result::Err::<ImageModel, NetpbmError>(e),
        },
{
    let header = match get_header(dat) {
        Result::Ok(h) => h,
        Result::Err(e) => {
            return Result::Err(e);
        },
    };
    // check the magic number.
    if header.image_type != tools::ImageType::PBM {
        return Result::Err(NetpbmError::WrongNetpbmType(tools::ImageType::PBM));
    }
    proof {
        lemma_parse_header_data_start(dat@);
    }
    let tail: &[u8] = &dat[header.dat_start..dat.len()];
    let data = match header.mode {
        Mode::ASCII => load_ascii(tail),
        Mode::BINARY => load_binary(tail, header.width),
    };
    Result::Ok(
        Image {
            width: header.width,
            height: header.height,
            image_type: ImageType::BLACKANDWHITE,
            depth: 1,
            word_size: match header.depth {
                crate::BitDepth::EIGHT => crate::WordSize::EIGHT,
                crate::BitDepth::SIXTEEN => crate::WordSize::SIXTEEN,
            },
            data: data,
        },
    )
}

} // verus!
