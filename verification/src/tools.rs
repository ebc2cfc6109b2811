//! The header tokenizer: a small state machine that walks the bytes after
//! the two magic-number bytes and extracts width, height, the optional
//! maximum sample value, and the offset at which pixel data begins.
//!
//! The machine is written twice: once as the spec functions [`scan_step`]
//! and [`scan`], which are the authoritative statement of what a header
//! means, and once as the executable [`get_header`], which is proved to
//! return exactly what [`parse_header`] says.

use vstd::prelude::*;

use crate::BitDepth;
use crate::Mode;
use crate::NetpbmError;

verus! {

/// The three netpbm formats, as the header classifier tells them apart.
#[derive(PartialEq, Eq, Structural, Debug, Clone, Copy)]
pub enum ImageType {
    PBM,
    PGM,
    PPM,
}

/// A parsed netpbm header.
#[derive(Debug, Clone, Copy)]
pub struct ImageHeader {
    pub width: u32,
    pub height: u32,
    /// Index of the first pixel byte in the source buffer: one past the
    /// whitespace byte that terminated the header.
    pub dat_start: usize,
    pub image_type: ImageType,
    pub depth: BitDepth,
    pub mode: Mode,
}

/// Whitespace in a netpbm header: blank, TAB, CR or LF.
pub open spec fn is_whitespace_byte(b: u8) -> bool {
    b == 9 || b == 10 || b == 13 || b == 32
}

/// An ascii decimal digit.
pub open spec fn is_digit_byte(b: u8) -> bool {
    47 < b && b < 58
}

/// Finds if the character is a whitespace.
///
/// White spaces are blanks, TABs, CRs, and LFs.
pub fn is_whitespace(inpt: u8) -> (r: bool)
    ensures
        r == is_whitespace_byte(inpt),
{
    inpt == 9 || inpt == 10 || inpt == 13 || inpt == 32
}

/// Finds if the character is a number.
pub fn is_number(inpt: u8) -> (r: bool)
    ensures
        r == is_digit_byte(inpt),
{
    inpt > 47 && inpt < 58
}

/// One decimal digit appended to an accumulator, modulo 2^32: header fields
/// accumulate left to right in a 32-bit register, wrapping on overflow.
pub open spec fn accum_u32(v: int, d: int) -> int {
    (v * 10 + d) % 0x1_0000_0000
}

/// The tokenizer's state between two header bytes.
#[verifier::ext_equal]
pub struct ScanState {
    /// Which numeric field digits currently land in: -1 before the first
    /// separator, then 0 = width, 1 = height, 2 = maximum value. Every
    /// whitespace byte outside a comment advances it.
    pub field_index: int,
    /// Inside a `#` comment, which only a LF ends.
    pub in_comment: bool,
    pub width: int,
    pub height: int,
    pub maxval: int,
}

/// The state the scan begins in, just after the magic number.
pub open spec fn init_scan_state() -> ScanState {
    ScanState { field_index: -1, in_comment: false, width: 0, height: 0, maxval: 0 }
}

/// What one header byte does to the tokenizer.
pub enum ScanStep {
    /// The byte was consumed; scanning goes on in the new state.
    Next(ScanState),
    /// The byte was the whitespace separator after the last required field;
    /// the header ends here and the next byte is pixel data.
    Stop,
    /// The byte is not allowed where it stands.
    Fail(NetpbmError),
}

/// How many numeric fields a format's header carries: width and height for
/// a bitmap; width, height and maximum value for a graymap or pixmap.
pub open spec fn field_count(t: ImageType) -> int {
    match t {
        ImageType::PBM => 2,
        ImageType::PGM => 3,
        ImageType::PPM => 3,
    }
}

/// The header tokenizer's transition function, for a format with `fields`
/// numeric fields.
pub open spec fn scan_step(fields: int, st: ScanState, b: u8) -> ScanStep {
    if st.in_comment {
        if b == 10 {
            ScanStep::Next(ScanState { in_comment: false, ..st })
        } else {
            ScanStep::Next(st)
        }
    } else if b == 35 {
        ScanStep::Next(ScanState { in_comment: true, ..st })
    } else if is_digit_byte(b) {
        if st.field_index == 0 {
            ScanStep::Next(ScanState { width: accum_u32(st.width, b - 48), ..st })
        } else if st.field_index == 1 {
            ScanStep::Next(ScanState { height: accum_u32(st.height, b - 48), ..st })
        } else if st.field_index == 2 && fields == 3 {
            ScanStep::Next(ScanState { maxval: accum_u32(st.maxval, b - 48), ..st })
        } else {
            ScanStep::Fail(NetpbmError::HeaderOverrun)
        }
    } else if is_whitespace_byte(b) {
        if st.field_index + 1 >= fields {
            ScanStep::Stop
        } else {
            ScanStep::Next(ScanState { field_index: st.field_index + 1, ..st })
        }
    } else {
        ScanStep::Fail(NetpbmError::UnexpectedHeaderCharacter(b))
    }
}

/// How a run of the tokenizer over a buffer ends.
#[verifier::ext_equal]
pub enum ScanOutcome {
    /// The buffer ran out before the header's terminating separator; the
    /// fields hold whatever had accumulated.
    Ran(ScanState),
    /// The terminating separator stood at index `end - 1`; pixel data
    /// begins at `end`.
    Stopped(ScanState, int),
    /// A byte was rejected.
    Failed(NetpbmError),
}

/// Runs the tokenizer from state `st` over `s[i..]`.
pub open spec fn scan(fields: int, st: ScanState, s: Seq<u8>, i: int) -> ScanOutcome
    decreases s.len() - i,
{
    if i >= s.len() {
        ScanOutcome::Ran(st)
    } else {
        match scan_step(fields, st, s[i]) {
            ScanStep::Next(st2) => scan(fields, st2, s, i + 1),
            ScanStep::Stop => ScanOutcome::Stopped(st, i + 1),
            ScanStep::Fail(e) => ScanOutcome::Failed(e),
        }
    }
}

/// The format a magic digit selects, if any: `P1`/`P4` are bitmaps,
/// `P2`/`P5` graymaps, `P3`/`P6` pixmaps.
pub open spec fn magic_type(d: u8) -> Option<ImageType> {
    if d == 49 || d == 52 {
        Option::Some(ImageType::PBM)
    } else if d == 50 || d == 53 {
        Option::Some(ImageType::PGM)
    } else if d == 51 || d == 54 {
        Option::Some(ImageType::PPM)
    } else {
        Option::None
    }
}

/// Magic digits 4 to 6 select the binary encoding; 1 to 3 the ascii one.
pub open spec fn magic_mode(d: u8) -> Mode {
    if 51 < d && d < 55 {
        Mode::BINARY
    } else {
        Mode::ASCII
    }
}

/// A maximum value above 255 needs two bytes per sample.
pub open spec fn depth_of_maxval(m: int) -> BitDepth {
    if m > 255 {
        BitDepth::SIXTEEN
    } else {
        BitDepth::EIGHT
    }
}

/// The mathematical content of a parsed header.
#[verifier::ext_equal]
pub struct HeaderModel {
    pub width: int,
    pub height: int,
    pub maxval: int,
    pub data_start: int,
    pub image_type: ImageType,
    pub mode: Mode,
    pub depth: BitDepth,
}

/// The header a finished scan yields: `data_start` is one past the last
/// byte the scan consumed.
pub open spec fn make_header(t: ImageType, d: u8, st: ScanState, data_start: int) -> HeaderModel {
    HeaderModel {
        width: st.width,
        height: st.height,
        maxval: st.maxval,
        data_start: data_start,
        image_type: t,
        mode: magic_mode(d),
        depth: depth_of_maxval(st.maxval),
    }
}

/// What parsing a whole buffer's header yields: the authoritative
/// specification that [`get_header`] is proved against.
///
/// A buffer whose first byte is not `P` or whose magic digit lies outside
/// `1`..`7` is not a netpbm file at all; digit `7` is netpbm-like but names
/// no supported format. Otherwise the tokenizer runs from index 2; if it
/// consumes the whole buffer without meeting the final separator, pixel
/// data is taken to begin at the buffer's end.
pub open spec fn parse_header(s: Seq<u8>) -> Result<HeaderModel, NetpbmError> {
    if s.len() < 2 || s[0] != 80 || s[1] < 49 || s[1] > 55 {
        Result::Err(NetpbmError::NotNetpbmFile)
    } else {
        match magic_type(s[1]) {
            Option::None => Result::Err(NetpbmError::UnsupportedNetpbmType),
            Option::Some(t) => match scan(field_count(t), init_scan_state(), s, 2) {
                ScanOutcome::Ran(st) => Result::Ok(make_header(t, s[1], st, s.len() as int)),
                ScanOutcome::Stopped(st, end) => Result::Ok(make_header(t, s[1], st, end)),
                ScanOutcome::Failed(e) => Result::Err(e),
            },
        }
    }
}

/// The executable header agrees with the model field by field.
pub open spec fn header_matches(h: ImageHeader, m: HeaderModel) -> bool {
    &&& h.width == m.width
    &&& h.height == m.height
    &&& h.dat_start == m.data_start
    &&& h.image_type == m.image_type
    &&& h.depth == m.depth
    &&& h.mode == m.mode
}

/// Wherever the scan ends, it ends within the buffer and past its start.
pub proof fn lemma_scan_end_bounds(fields: int, st: ScanState, s: Seq<u8>, i: int)
    requires
        0 <= i,
        scan(fields, st, s, i) is Stopped,
    ensures
        i < scan(fields, st, s, i)->Stopped_1 <= s.len(),
    decreases s.len() - i,
{
    if i < s.len() {
        match scan_step(fields, st, s[i]) {
            ScanStep::Next(st2) => lemma_scan_end_bounds(fields, st2, s, i + 1),
            ScanStep::Stop => {},
            ScanStep::Fail(_) => {},
        }
    }
}

/// A parsed header's data offset lies between the magic number and the
/// buffer's end, so slicing the pixel bytes at it is always in bounds.
pub proof fn lemma_parse_header_data_start(s: Seq<u8>)
    requires
        parse_header(s) is Ok,
    ensures
        2 <= parse_header(s)->Ok_0.data_start <= s.len(),
{
    let t = magic_type(s[1])->Some_0;
    if scan(field_count(t), init_scan_state(), s, 2) is Stopped {
        lemma_scan_end_bounds(field_count(t), init_scan_state(), s, 2);
    }
}

/// A scan that consumes a whole prefix without terminating goes on into
/// whatever follows the prefix.
proof fn lemma_scan_prefix_ran(fields: int, st: ScanState, a: Seq<u8>, b: Seq<u8>, i: int)
    requires
        0 <= i <= a.len(),
        scan(fields, st, a, i) matches ScanOutcome::Ran(st2),
    ensures
        scan(fields, st, a + b, i) == scan(
            fields,
            scan(fields, st, a, i)->Ran_0,
            a + b,
            a.len() as int,
        ),
    decreases a.len() - i,
{
    if i == a.len() {
    } else {
        assert((a + b)[i] == a[i]);
        match scan_step(fields, st, a[i]) {
            ScanStep::Next(st2) => {
                lemma_scan_prefix_ran(fields, st2, a, b, i + 1);
            },
            ScanStep::Stop => {},
            ScanStep::Fail(_) => {},
        }
    }
}

/// Scanning the suffix of a concatenation is scanning the suffix alone,
/// with any stop position shifted by the prefix's length.
proof fn lemma_scan_shift(fields: int, st: ScanState, a: Seq<u8>, b: Seq<u8>, i: int)
    requires
        0 <= i,
    ensures
        match scan(fields, st, b, i) {
            ScanOutcome::Ran(st2) => scan(fields, st, a + b, a.len() + i) == ScanOutcome::Ran(st2),
            ScanOutcome::Stopped(st2, e) => scan(fields, st, a + b, a.len() + i)
                == ScanOutcome::Stopped(st2, a.len() + e),
            ScanOutcome::Failed(e) => scan(fields, st, a + b, a.len() + i) == ScanOutcome::Failed(
                e,
            ),
        },
    decreases b.len() - i,
{
    if i >= b.len() {
    } else {
        assert((a + b)[a.len() + i] == b[i]);
        match scan_step(fields, st, b[i]) {
            ScanStep::Next(st2) => {
                lemma_scan_shift(fields, st2, a, b, i + 1);
            },
            ScanStep::Stop => {},
            ScanStep::Fail(_) => {},
        }
    }
}

/// Inside a comment, every byte up to the newline is ignored.
proof fn lemma_scan_in_comment(fields: int, st: ScanState, s: Seq<u8>, i: int, j: int)
    requires
        0 <= i <= j <= s.len(),
        st.in_comment,
        forall|k: int| i <= k < j ==> #[trigger] s[k] != 10,
    ensures
        scan(fields, st, s, i) == scan(fields, st, s, j),
    decreases j - i,
{
    if i < j {
        assert(scan_step(fields, st, s[i]) == ScanStep::Next(st));
        lemma_scan_in_comment(fields, st, s, i + 1, j);
    }
}

/// A whole comment — `#`, its text, and the newline that ends it — leaves
/// the tokenizer exactly where it was: the newline is absorbed as the
/// comment's terminator and counts as no field separator.
proof fn lemma_scan_comment(fields: int, st: ScanState, s: Seq<u8>, i: int, j: int)
    requires
        0 <= i < j <= s.len(),
        !st.in_comment,
        s[i] == 35,
        s[j - 1] == 10,
        forall|k: int| i < k < j - 1 ==> #[trigger] s[k] != 10,
    ensures
        scan(fields, st, s, i) == scan(fields, st, s, j),
{
    let stc = ScanState { in_comment: true, ..st };
    assert(scan_step(fields, st, s[i]) == ScanStep::Next(stc));
    lemma_scan_in_comment(fields, stc, s, i + 1, j - 1);
    assert(scan_step(fields, stc, s[j - 1]) == ScanStep::Next(
        ScanState { in_comment: false, ..stc },
    ));
    assert(ScanState { in_comment: false, ..stc } =~= st);
}

/// Header comment skipping: a comment inserted anywhere in the header —
/// before, between, or inside field boundaries, that is, at any point the
/// tokenizer reaches outside another comment and before the header's end —
/// changes nothing that is parsed. Width, height, maximum value, format,
/// mode and depth stay the same, the data offset moves by exactly the
/// comment's length, and the bytes from the data offset on are the same.
///
/// `pre` is the buffer up to the insertion point (at least the magic
/// number), `text` the comment's text (anything but a newline), and `suf`
/// the rest of the buffer; the comment inserted is `#`, `text`, and its
/// terminating newline.
pub proof fn lemma_header_comment_skipping(pre: Seq<u8>, text: Seq<u8>, suf: Seq<u8>)
    requires
        pre.len() >= 2,
        pre[0] == 80,
        49 <= pre[1] <= 55,
        magic_type(pre[1]) is Some,
        scan(
            field_count(magic_type(pre[1])->Some_0),
            init_scan_state(),
            pre,
            2,
        ) matches ScanOutcome::Ran(st) && !st.in_comment,
        forall|k: int| 0 <= k < text.len() ==> #[trigger] text[k] != 10,
    ensures
        ({
            let c = seq![35u8] + text + seq![10u8];
            let p1 = parse_header(pre + suf);
            let p2 = parse_header(pre + c + suf);
            &&& p1 is Ok <==> p2 is Ok
            &&& (p1 matches Result::Ok(h1) ==> p2 matches Result::Ok(h2) && h2.width == h1.width
                && h2.height == h1.height && h2.maxval == h1.maxval && h2.image_type
                == h1.image_type && h2.mode == h1.mode && h2.depth == h1.depth && h2.data_start
                == h1.data_start + c.len() && (pre + suf).skip(h1.data_start) == (pre + c
                + suf).skip(h2.data_start))
            &&& (p1 matches Result::Err(e1) ==> p2 == Result::Err::<HeaderModel, NetpbmError>(e1))
        }),
{
    let c = seq![35u8] + text + seq![10u8];
    let t = magic_type(pre[1])->Some_0;
    let fc = field_count(t);
    let st0 = init_scan_state();
    let st = scan(fc, st0, pre, 2)->Ran_0;
    let s1 = pre + suf;
    let s2 = pre + c + suf;
    assert(s1[0] == 80 && s1[1] == pre[1]);
    assert(s2 =~= pre + (c + suf));
    assert(s2[0] == 80 && s2[1] == pre[1]) by {
        assert((pre + (c + suf))[0] == pre[0]);
        assert((pre + (c + suf))[1] == pre[1]);
    }

    // the first buffer: the scan runs through `pre`, then through `suf`
    lemma_scan_prefix_ran(fc, st0, pre, suf, 2);
    lemma_scan_shift(fc, st, pre, suf, 0);

    // the second buffer: the scan runs through `pre`, skips the comment
    // without touching the state, then runs through `suf`
    lemma_scan_prefix_ran(fc, st0, pre, c + suf, 2);
    assert(scan(fc, st0, s2, 2) == scan(fc, st, s2, pre.len() as int));
    let pl = pre.len() as int;
    let cl = c.len() as int;
    assert(s2[pl] == 35 && s2[pl + cl - 1] == 10) by {
        assert(c[0] == 35);
        assert(c[cl - 1] == 10);
        assert(s2[pl] == c[0]);
        assert(s2[pl + cl - 1] == c[cl - 1]);
    }
    assert forall|k: int| pl < k < pl + cl - 1 implies #[trigger] s2[k] != 10 by {
        assert(s2[k] == c[k - pl]);
        assert(c[k - pl] == text[k - pl - 1]);
    }
    lemma_scan_comment(fc, st, s2, pl, pl + cl);
    assert(s2 =~= (pre + c) + suf);
    lemma_scan_shift(fc, st, pre + c, suf, 0);
    assert(scan(fc, st, s2, pl + cl) == scan(fc, st, (pre + c) + suf, (pre + c).len() as int));

    // both parses now follow the one scan of `suf` from the shared state
    match scan(fc, st, suf, 0) {
        ScanOutcome::Ran(st2) => {
            assert((pre + suf).skip(s1.len() as int) =~= (pre + c + suf).skip(s2.len() as int));
        },
        ScanOutcome::Stopped(st2, e) => {
            lemma_scan_end_bounds(fc, st, suf, 0);
            assert((pre + suf).skip(pl + e) =~= suf.skip(e));
            assert((pre + c + suf).skip(pl + cl + e) =~= suf.skip(e));
        },
        ScanOutcome::Failed(_) => {},
    }
}

/// One digit folded into a 32-bit accumulator, exactly as [`accum_u32`]
/// says.
fn accum_exec(v: u32, d: u8) -> (r: u32)
    requires
        is_digit_byte(d),
    ensures
        r == accum_u32(v as int, d - 48),
{
    (((v as u64) * 10 + (d - 48) as u64) % 0x1_0000_0000) as u32
}

/// Reads the header from an input data stream.
///
/// Parses the input data to try to get the image size, file type, and bit
/// depth. The file formats contain a magic number, height and width,
/// optional comments, and bit depth depending on the file. These are
/// seperated by whitespace aside from comments, which are only ended with a
/// newline.
///
/// The result is exactly what [`parse_header`] says: the same header on
/// success and the same error otherwise.
#[verifier::loop_isolation(false)]
pub fn get_header(dat: &Vec<u8>) -> (r: Result<ImageHeader, NetpbmError>)
    requires
        dat.len() >= 2,
    ensures
        match r {
            Result::Ok(h) => parse_header(dat@) matches Result::Ok(m) && header_matches(h, m),
            Result::Err(e) => parse_header(dat@) == Result::Err::<HeaderModel, NetpbmError>(e),
        },
{
    // Test that the magic number is valid.
    if dat[0] != 80 || dat[1] < 49 || dat[1] > 55 {
        return Result::Err(NetpbmError::NotNetpbmFile);
    }

    // What file format does the magic number say we have.
    let magic = dat[1];
    let image_type: ImageType = if magic == 49 || magic == 52 {
        ImageType::PBM
    } else if magic == 50 || magic == 53 {
        ImageType::PGM
    } else if magic == 51 || magic == 54 {
        ImageType::PPM
    } else {
        return Result::Err(NetpbmError::UnsupportedNetpbmType);
    };

    // Does the magic number say we're binary or ascii.
    let image_mode = if magic > 51 && magic < 55 {
        Mode::BINARY
    } else {
        Mode::ASCII
    };

    let fields: i32 = match image_type {
        ImageType::PBM => 2,
        ImageType::PGM => 3,
        ImageType::PPM => 3,
    };

    // The data values we'll be storing.
    let mut width: u32 = 0;
    let mut height: u32 = 0;
    let mut bit_size: u32 = 0;

    // Values we'll use to keep track of where in the header we are.
    let mut header_part: i32 = -1;
    let mut skip = false;
    let mut data_start: usize = dat.len();
    let mut stopped = false;
    let mut i: usize = 2;

    while i < dat.len() && !stopped
        invariant
            2 <= i <= dat.len(),
            -1 <= header_part <= fields,
            !stopped ==> data_start == dat.len(),
            !stopped ==> scan(
                fields as int,
                ScanState {
                    field_index: header_part as int,
                    in_comment: skip,
                    width: width as int,
                    height: height as int,
                    maxval: bit_size as int,
                },
                dat@,
                i as int,
            ) == scan(fields as int, init_scan_state(), dat@, 2),
            stopped ==> scan(fields as int, init_scan_state(), dat@, 2) == ScanOutcome::Stopped(
                ScanState {
                    field_index: header_part as int,
                    in_comment: skip,
                    width: width as int,
                    height: height as int,
                    maxval: bit_size as int,
                },
                data_start as int,
            ),
        decreases dat.len() - i + (if stopped { 0int } else { 1int }),
    {
        let b = dat[i];
        if skip && b == 10 {  // comments end only at a LF (newline)
            skip = false;
        } else if skip {
            // still inside a comment: the byte is ignored
        } else if b == 35 {  // start of comments
            skip = true;
        } else if b > 47 && b < 58 {  // all data we want to save should be numeric
            if header_part == 0 {
                width = accum_exec(width, b);
            } else if header_part == 1 {
                height = accum_exec(height, b);
            } else if header_part == 2 && fields == 3 {
                bit_size = accum_exec(bit_size, b);
            } else {
                return Result::Err(NetpbmError::HeaderOverrun);
            }
        } else if b == 9 || b == 10 || b == 13 || b == 32 {
            // whitespace triggers a new part of the header
            if header_part + 1 >= fields {
                // we've finished reading the header
                data_start = i + 1;
                stopped = true;
            } else {
                header_part = header_part + 1;
            }
        } else {
            // a non-numeric, non-whitespace character outside of a comment
            return Result::Err(NetpbmError::UnexpectedHeaderCharacter(b));
        }
        if !stopped {
            i = i + 1;
        }
    }

    proof {
        let st = ScanState {
            field_index: header_part as int,
            in_comment: skip,
            width: width as int,
            height: height as int,
            maxval: bit_size as int,
        };
        if !stopped {
            assert(i == dat.len());
            assert(scan(fields as int, st, dat@, i as int) == ScanOutcome::Ran(st));
            assert(scan(fields as int, init_scan_state(), dat@, 2) == ScanOutcome::Ran(st));
        }
        assert(parse_header(dat@) == Result::Ok::<HeaderModel, NetpbmError>(
            make_header(image_type, magic, st, data_start as int),
        ));
    }

    let bits = if bit_size > 255 {
        BitDepth::SIXTEEN
    } else {
        BitDepth::EIGHT
    };

    Result::Ok(ImageHeader {
        width: width,
        height: height,
        dat_start: data_start,
        image_type: image_type,
        depth: bits,
        mode: image_mode,
    })
}

} // verus!
