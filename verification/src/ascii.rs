//! The ascii number codec: unsigned samples rendered as minimal decimal
//! tokens separated by single spaces, one image row per text line, with a
//! 70-character budget of token characters per line; and the reverse
//! parse of a run of digit/whitespace bytes back into raw sample bytes.

use vstd::prelude::*;

use crate::BitDepth;
use crate::NetpbmError;
use crate::tools::is_digit_byte;

verus! {

// ------------------------------------------------------------------
// Decimal rendering
// ------------------------------------------------------------------

/// The minimal decimal rendering of `n` (no sign, no leading zeros) as
/// ascii bytes.
pub open spec fn dec_digits(n: int) -> Seq<u8>
    decreases n,
{
    if n < 10 {
        seq![(48 + n) as u8]
    } else {
        dec_digits(n / 10) + seq![(48 + n % 10) as u8]
    }
}

/// Every byte of a decimal rendering is an ascii digit, and there is at
/// least one of them.
pub proof fn lemma_dec_digits_are_digits(n: int)
    requires
        0 <= n,
    ensures
        dec_digits(n).len() >= 1,
        forall|k: int| 0 <= k < dec_digits(n).len() ==> is_digit_byte(#[trigger] dec_digits(n)[k]),
    decreases n,
{
    if n >= 10 {
        lemma_dec_digits_are_digits(n / 10);
        assert forall|k: int| 0 <= k < dec_digits(n).len() implies is_digit_byte(
            #[trigger] dec_digits(n)[k],
        ) by {
            if k < dec_digits(n / 10).len() {
                assert(dec_digits(n)[k] == dec_digits(n / 10)[k]);
            }
        }
    }
}

/// How long a decimal rendering can be, by magnitude of the value.
pub proof fn lemma_dec_digits_len(n: int)
    requires
        0 <= n < 100000,
    ensures
        1 <= dec_digits(n).len(),
        n < 10 ==> dec_digits(n).len() <= 1,
        n < 100 ==> dec_digits(n).len() <= 2,
        n < 1000 ==> dec_digits(n).len() <= 3,
        n < 10000 ==> dec_digits(n).len() <= 4,
        dec_digits(n).len() <= 5,
    decreases n,
{
    if n >= 10 {
        lemma_dec_digits_len(n / 10);
    }
}

/// The character for one decimal digit.
pub open spec fn digit_char(d: int) -> char {
    if d == 0 {
        '0'
    } else if d == 1 {
        '1'
    } else if d == 2 {
        '2'
    } else if d == 3 {
        '3'
    } else if d == 4 {
        '4'
    } else if d == 5 {
        '5'
    } else if d == 6 {
        '6'
    } else if d == 7 {
        '7'
    } else if d == 8 {
        '8'
    } else {
        '9'
    }
}

/// The minimal decimal rendering of `n` as characters.
pub open spec fn dec_chars(n: int) -> Seq<char>
    decreases n,
{
    if n < 10 {
        seq![digit_char(n)]
    } else {
        dec_chars(n / 10) + seq![digit_char(n % 10)]
    }
}

/// Appends the minimal decimal rendering of `n` to a string.
pub fn append_decimal(s: &mut String, n: u32)
    ensures
        final(s)@ == old(s)@ + dec_chars(n as int),
    decreases n,
{
    if n >= 10 {
        append_decimal(s, n / 10);
    }
    let d = n % 10;
    let ds: &str = if d == 0 {
        proof {
            reveal_strlit("0");
        }
        "0"
    } else if d == 1 {
        proof {
            reveal_strlit("1");
        }
        "1"
    } else if d == 2 {
        proof {
            reveal_strlit("2");
        }
        "2"
    } else if d == 3 {
        proof {
            reveal_strlit("3");
        }
        "3"
    } else if d == 4 {
        proof {
            reveal_strlit("4");
        }
        "4"
    } else if d == 5 {
        proof {
            reveal_strlit("5");
        }
        "5"
    } else if d == 6 {
        proof {
            reveal_strlit("6");
        }
        "6"
    } else if d == 7 {
        proof {
            reveal_strlit("7");
        }
        "7"
    } else if d == 8 {
        proof {
            reveal_strlit("8");
        }
        "8"
    } else {
        proof {
            reveal_strlit("9");
        }
        "9"
    };
    proof {
        assert(ds@ =~= seq![digit_char(d as int)]);
    }
    s.append(ds);
    proof {
        if n < 10 {
            assert(old(s)@ + dec_chars(n as int) =~= old(s)@ + ds@);
        } else {
            assert(old(s)@ + dec_chars(n as int) =~= (old(s)@ + dec_chars(n as int / 10)) + ds@);
        }
    }
}

// ------------------------------------------------------------------
// Digit accumulation
// ------------------------------------------------------------------

/// One decimal digit appended to an accumulator that wraps at `m`:
/// the decoders accumulate in fixed-width registers.
pub open spec fn accum_mod(v: int, d: int, m: int) -> int {
    (v * 10 + d) % m
}

/// A run of digit bytes folded left to right into an accumulator that
/// wraps at `m`.
pub open spec fn fold_digits_mod(v: int, ds: Seq<u8>, m: int) -> int
    decreases ds.len(),
{
    if ds.len() == 0 {
        v
    } else {
        fold_digits_mod(accum_mod(v, ds[0] - 48, m), ds.skip(1), m)
    }
}

/// Folding distributes over concatenation of digit runs.
pub proof fn lemma_fold_digits_append(v: int, a: Seq<u8>, b: Seq<u8>, m: int)
    ensures
        fold_digits_mod(v, a + b, m) == fold_digits_mod(fold_digits_mod(v, a, m), b, m),
    decreases a.len(),
{
    if a.len() == 0 {
        assert(a + b =~= b);
    } else {
        assert((a + b).skip(1) =~= a.skip(1) + b);
        lemma_fold_digits_append(accum_mod(v, a[0] - 48, m), a.skip(1), b, m);
    }
}

/// Folding the decimal rendering of `n` from zero gives `n` back, as long
/// as the accumulator is wide enough for it.
pub proof fn lemma_fold_dec_digits(n: int, m: int)
    requires
        0 <= n < m,
        10 <= m,
    ensures
        fold_digits_mod(0, dec_digits(n), m) == n,
    decreases n,
{
    if n < 10 {
        let d = dec_digits(n);
        assert(d == seq![(48 + n) as u8]);
        assert(d[0] - 48 == n);
        assert(d.skip(1) =~= Seq::<u8>::empty());
        assert(fold_digits_mod(0, d, m) == fold_digits_mod(accum_mod(0, n, m), d.skip(1), m));
        assert(fold_digits_mod(accum_mod(0, n, m), Seq::<u8>::empty(), m) == accum_mod(0, n, m));
        vstd::arithmetic::div_mod::lemma_small_mod(n as nat, m as nat);
        assert(accum_mod(0, n, m) == n);
    } else {
        lemma_fold_dec_digits(n / 10, m);
        lemma_fold_digits_append(0, dec_digits(n / 10), seq![(48 + n % 10) as u8], m);
        let d = seq![(48 + n % 10) as u8];
        assert(d[0] - 48 == n % 10);
        assert(d.skip(1) =~= Seq::<u8>::empty());
        assert(fold_digits_mod(n / 10, d, m) == fold_digits_mod(
            accum_mod(n / 10, n % 10, m),
            d.skip(1),
            m,
        ));
        assert(fold_digits_mod(accum_mod(n / 10, n % 10, m), Seq::<u8>::empty(), m) == accum_mod(
            n / 10,
            n % 10,
            m,
        ));
        assert((n / 10) * 10 + n % 10 == n);
        vstd::arithmetic::div_mod::lemma_small_mod(n as nat, m as nat);
        assert(accum_mod(n / 10, n % 10, m) == n);
    }
}

/// Renders a 32-bit value as its minimal decimal digit string.
pub fn u32_digits(n: u32) -> (r: Vec<u8>)
    ensures
        r@ == dec_digits(n as int),
{
    let mut tmp: Vec<u8> = Vec::new();
    let mut v: u32 = n;
    tmp.push(48 + (v % 10) as u8);
    v = v / 10;
    while v > 0
        invariant
            v == 0 ==> dec_digits(n as int) == tmp@.reverse(),
            v > 0 ==> dec_digits(n as int) == dec_digits(v as int) + tmp@.reverse(),
        decreases v,
    {
        let ghost pre = tmp@;
        tmp.push(48 + (v % 10) as u8);
        proof {
            assert(tmp@.reverse() =~= seq![(48 + (v as int) % 10) as u8] + pre.reverse());
        }
        v = v / 10;
    }
    let mut r: Vec<u8> = Vec::new();
    let mut k: usize = tmp.len();
    while k > 0
        invariant
            k <= tmp.len(),
            r@.len() == tmp@.len() - k,
            forall|i: int| 0 <= i < r@.len() ==> r@[i] == tmp@[tmp@.len() - 1 - i],
        decreases k,
    {
        k = k - 1;
        r.push(tmp[k]);
    }
    proof {
        assert(r@ =~= tmp@.reverse());
    }
    r
}

// ------------------------------------------------------------------
// Decoding ascii samples
// ------------------------------------------------------------------

/// The raw bytes one flushed accumulator value contributes: its low byte
/// for eight-bit samples, its high byte then its low byte for sixteen-bit
/// ones.
pub open spec fn flush_sample(num: int, depth: BitDepth) -> Seq<u8> {
    match depth {
        BitDepth::EIGHT => seq![(num % 256) as u8],
        BitDepth::SIXTEEN => seq![((num / 256) % 256) as u8, (num % 256) as u8],
    }
}

/// The sample decoder's result from a mid-scan state: `num` is the value
/// accumulated so far (in a 16-bit register) and `in_tok` says whether the
/// byte just before `s` was a digit.
///
/// A digit extends the accumulator; any other byte flushes it, digits or
/// no digits before it. A token still open when the input ends is flushed
/// too, so no trailing sample is lost.
pub open spec fn ascii_samples_st(s: Seq<u8>, num: int, in_tok: bool, depth: BitDepth) -> Seq<u8>
    decreases s.len(),
{
    if s.len() == 0 {
        if in_tok {
            flush_sample(num, depth)
        } else {
            Seq::<u8>::empty()
        }
    } else if is_digit_byte(s[0]) {
        ascii_samples_st(s.skip(1), accum_mod(num, s[0] - 48, 0x1_0000), true, depth)
    } else {
        flush_sample(num, depth) + ascii_samples_st(s.skip(1), 0, false, depth)
    }
}

/// The samples a run of ascii tokens decodes to.
pub open spec fn ascii_samples(s: Seq<u8>, depth: BitDepth) -> Seq<u8> {
    ascii_samples_st(s, 0, false, depth)
}

/// Consuming an all-digit prefix just folds it into the accumulator.
pub proof fn lemma_samples_digit_prefix(
    ds: Seq<u8>,
    b: Seq<u8>,
    num: int,
    in_tok: bool,
    depth: BitDepth,
)
    requires
        forall|k: int| 0 <= k < ds.len() ==> is_digit_byte(#[trigger] ds[k]),
    ensures
        ascii_samples_st(ds + b, num, in_tok, depth) == ascii_samples_st(
            b,
            fold_digits_mod(num, ds, 0x1_0000),
            in_tok || ds.len() > 0,
            depth,
        ),
    decreases ds.len(),
{
    if ds.len() == 0 {
        assert(ds + b =~= b);
    } else {
        assert((ds + b).skip(1) =~= ds.skip(1) + b);
        lemma_samples_digit_prefix(
            ds.skip(1),
            b,
            accum_mod(num, ds[0] - 48, 0x1_0000),
            true,
            depth,
        );
    }
}

/// A separator flushes the open token and resets the scan state.
pub proof fn lemma_samples_separator(sep: u8, b: Seq<u8>, num: int, in_tok: bool, depth: BitDepth)
    requires
        !is_digit_byte(sep),
    ensures
        ascii_samples_st(seq![sep] + b, num, in_tok, depth) == flush_sample(num, depth)
            + ascii_samples_st(b, 0, false, depth),
{
    assert((seq![sep] + b).skip(1) =~= b);
}

/// One flushed sample appended to the output buffer.
fn push_sample(vals: &mut Vec<u8>, num: u16, depth: BitDepth)
    ensures
        final(vals)@ == old(vals)@ + flush_sample(num as int, depth),
{
    match depth {
        BitDepth::EIGHT => {
            vals.push((num % 256) as u8);
        },
        BitDepth::SIXTEEN => {
            vals.push((num / 256) as u8);  // most significant byte first.
            vals.push((num % 256) as u8);  // least significant byte second.
        },
    }
}

/// Decodes a run of ascii decimal tokens into raw sample bytes: digits
/// accumulate left to right in a 16-bit register, and every non-digit byte
/// flushes the register as one byte (eight-bit) or two big-endian bytes
/// (sixteen-bit). A token that the end of input leaves open is flushed as
/// well.
pub fn decode_samples(inpt: &[u8], depth: BitDepth) -> (r: Vec<u8>)
    ensures
        r@ == ascii_samples(inpt@, depth),
{
    let mut vals: Vec<u8> = Vec::new();
    let mut num: u16 = 0;
    let mut in_tok = false;
    let mut idx: usize = 0;
    proof {
        assert(inpt@.skip(0) =~= inpt@);
        assert(Seq::<u8>::empty() + ascii_samples(inpt@, depth) =~= ascii_samples(inpt@, depth));
    }
    while idx < inpt.len()
        invariant
            idx <= inpt.len(),
            vals@ + ascii_samples_st(inpt@.skip(idx as int), num as int, in_tok, depth)
                == ascii_samples(inpt@, depth),
        decreases inpt.len() - idx,
    {
        let x = inpt[idx];
        proof {
            assert(inpt@.skip(idx as int)[0] == inpt@[idx as int]);
            assert(inpt@.skip(idx as int).skip(1) =~= inpt@.skip(idx as int + 1));
        }
        if x > 47 && x < 58 {
            num = (((num as u32) * 10 + (x - 48) as u32) % 0x1_0000) as u16;
            in_tok = true;
        } else {
            push_sample(&mut vals, num, depth);
            num = 0;
            in_tok = false;
        }
        idx = idx + 1;
    }
    proof {
        assert(inpt@.skip(inpt@.len() as int) =~= Seq::<u8>::empty());
    }
    if in_tok {
        push_sample(&mut vals, num, depth);
    }
    vals
}

// ------------------------------------------------------------------
// Encoding ascii samples
// ------------------------------------------------------------------

/// The value of token `idx` of the sample buffer: the byte itself for
/// eight-bit samples, two consecutive bytes big-endian for sixteen-bit.
pub open spec fn sample_value(data: Seq<u8>, idx: int, depth: BitDepth) -> int {
    match depth {
        BitDepth::EIGHT => data[idx] as int,
        BitDepth::SIXTEEN => data[2 * idx] * 256 + data[2 * idx + 1],
    }
}

/// Bytes each sample occupies in the raw buffer.
pub open spec fn sample_width(depth: BitDepth) -> int {
    match depth {
        BitDepth::EIGHT => 1,
        BitDepth::SIXTEEN => 2,
    }
}

/// The encoder's output from token `j` of row `r` on, with `counter`
/// token characters already on the current line.
///
/// Every token is followed by exactly one separator: a space within the
/// row, the row's single newline after its last token. A row with no
/// tokens is just a newline. A token whose digits would push the line's
/// token-character count past 70 fails the whole encode with
/// `LineTooWide`, and nothing is returned.
pub open spec fn encode_rows_from(
    data: Seq<u8>,
    tpr: int,
    rows: int,
    depth: BitDepth,
    r: int,
    j: int,
    counter: int,
) -> Result<Seq<u8>, NetpbmError>
    decreases rows - r, tpr - j,
{
    if r >= rows {
        Result::Ok(Seq::<u8>::empty())
    } else if j >= tpr {
        match encode_rows_from(data, tpr, rows, depth, r + 1, 0, 0) {
            Result::Ok(rest) => Result::Ok(seq![10u8] + rest),
            Result::Err(e) => Result::Err(e),
        }
    } else {
        let ds = dec_digits(sample_value(data, r * tpr + j, depth));
        if counter + ds.len() > 70 {
            Result::Err(NetpbmError::LineTooWide)
        } else if j == tpr - 1 {
            match encode_rows_from(data, tpr, rows, depth, r + 1, 0, 0) {
                Result::Ok(rest) => Result::Ok(ds + seq![10u8] + rest),
                Result::Err(e) => Result::Err(e),
            }
        } else {
            match encode_rows_from(data, tpr, rows, depth, r, j + 1, counter + ds.len()) {
                Result::Ok(rest) => Result::Ok(ds + seq![32u8] + rest),
                Result::Err(e) => Result::Err(e),
            }
        }
    }
}

/// The encoder's whole output: `tpr` tokens per row, `rows` rows.
pub open spec fn encode_rows(data: Seq<u8>, tpr: int, rows: int, depth: BitDepth) -> Result<
    Seq<u8>,
    NetpbmError,
> {
    encode_rows_from(data, tpr, rows, depth, 0, 0, 0)
}

/// Inside an `r` by `c` grid, a cell's flat index is inside the grid.
pub proof fn lemma_grid_index(r: int, j: int, rows: int, cols: int)
    requires
        0 <= r < rows,
        0 <= j < cols,
    ensures
        0 <= r * cols + j < rows * cols,
{
    assert(r * cols + j < rows * cols) by (nonlinear_arith)
        requires
            0 <= r < rows,
            0 <= j < cols,
    ;
    assert(0 <= r * cols + j) by (nonlinear_arith)
        requires
            0 <= r,
            0 <= j,
            0 < cols,
    ;
}

/// Decoding an encoded grid gives the sample bytes back: from token `j` of
/// row `r` on, the decoder recovers exactly the raw suffix of the buffer.
///
/// The one family of grids left out is a row of zero tokens above at least
/// one row: its encoding is a bare newline per row, and each of those
/// newlines flushes an empty accumulator into a spurious zero sample.
pub proof fn lemma_decode_encoded_rows(
    data: Seq<u8>,
    tpr: int,
    rows: int,
    depth: BitDepth,
    r: int,
    j: int,
    counter: int,
    body: Seq<u8>,
)
    requires
        data.len() == rows * tpr * sample_width(depth),
        0 <= r <= rows,
        0 <= j,
        r == rows ==> j == 0,
        r < rows ==> 1 <= tpr && j < tpr,
        encode_rows_from(data, tpr, rows, depth, r, j, counter) == Result::Ok::<
            Seq<u8>,
            NetpbmError,
        >(body),
    ensures
        ascii_samples_st(body, 0, false, depth) == data.subrange(
            (r * tpr + j) * sample_width(depth),
            data.len() as int,
        ),
    decreases rows - r, tpr - j,
{
    let sw = sample_width(depth);
    if r == rows {
        assert(body =~= Seq::<u8>::empty());
        assert((r * tpr + j) * sw == data.len() as int) by (nonlinear_arith)
            requires
                j == 0,
                data.len() == rows * tpr * sw,
                r == rows,
        ;
        assert(ascii_samples_st(body, 0, false, depth) =~= data.subrange(
            (r * tpr + j) * sw,
            data.len() as int,
        ));
    } else {
        lemma_grid_index(r, j, rows, tpr);
        let pos = r * tpr + j;
        assert(pos * sw + sw <= data.len() && 0 <= pos * sw) by (nonlinear_arith)
            requires
                0 <= pos < rows * tpr,
                data.len() == rows * tpr * sw,
                1 <= sw,
        ;
        let v = sample_value(data, pos, depth);
        let ds = dec_digits(v);
        if depth is SIXTEEN {
            assert(v == data[2 * pos] * 256 + data[2 * pos + 1]);
        }
        assert(0 <= v < 0x1_0000);
        lemma_dec_digits_are_digits(v);
        lemma_fold_dec_digits(v, 0x1_0000);
        vstd::arithmetic::div_mod::lemma_fundamental_div_mod_converse(
            v,
            256,
            v / 256,
            v % 256,
        );
        if depth is SIXTEEN {
            vstd::arithmetic::div_mod::lemma_fundamental_div_mod_converse(
                v,
                256,
                data[2 * pos] as int,
                data[2 * pos + 1] as int,
            );
        }
        let sep: u8 = if j == tpr - 1 {
            10
        } else {
            32
        };
        let (r2, j2, c2) = if j == tpr - 1 {
            (r + 1, 0int, 0int)
        } else {
            (r, j + 1, counter + ds.len() as int)
        };
        let rest = encode_rows_from(data, tpr, rows, depth, r2, j2, c2)->Ok_0;
        assert(body == ds + seq![sep] + rest);
        assert(body =~= ds + (seq![sep] + rest));
        lemma_samples_digit_prefix(ds, seq![sep] + rest, 0, false, depth);
        lemma_samples_separator(sep, rest, v, true, depth);
        lemma_decode_encoded_rows(data, tpr, rows, depth, r2, j2, c2, rest);
        assert(r2 * tpr + j2 == pos + 1) by (nonlinear_arith)
            requires
                (r2 == r + 1 && j2 == 0 && j == tpr - 1 && pos == r * tpr + j) || (r2 == r && j2
                    == j + 1 && pos == r * tpr + j),
        ;
        assert(ascii_samples_st(body, 0, false, depth) =~= data.subrange(
            pos * sw,
            data.len() as int,
        )) by {
            assert(ascii_samples_st(body, 0, false, depth) == flush_sample(v, depth)
                + data.subrange((pos + 1) * sw, data.len() as int));
            assert((pos + 1) * sw == pos * sw + sw) by (nonlinear_arith);
        }
    }
}

/// Encodes a row-major grid of samples as ascii tokens, exactly as
/// [`encode_rows`] says: `tpr` tokens per row, `rows` rows, each token and
/// its following separator in turn, or the error `encode_rows` gives.
pub fn encode_samples(data: &[u8], tpr: usize, rows: usize, depth: BitDepth) -> (r: Result<
    Vec<u8>,
    NetpbmError,
>)
    requires
        data@.len() == rows * tpr * sample_width(depth),
    ensures
        match r {
            Result::Ok(v) => encode_rows(data@, tpr as int, rows as int, depth) == Result::Ok::<
                Seq<u8>,
                NetpbmError,
            >(v@),
            Result::Err(e) => encode_rows(data@, tpr as int, rows as int, depth) == Result::Err::<
                Seq<u8>,
                NetpbmError,
            >(e),
        },
{
    let ghost total = encode_rows(data@, tpr as int, rows as int, depth);
    let dlen: usize = data.len();
    let mut out: Vec<u8> = Vec::new();
    let mut r: usize = 0;
    while r < rows
        invariant
            r <= rows,
            dlen == data@.len(),
            data@.len() == rows * tpr * sample_width(depth),
            total == encode_rows(data@, tpr as int, rows as int, depth),
            total == match encode_rows_from(data@, tpr as int, rows as int, depth, r as int, 0, 0) {
                Result::Ok(rest) => Result::Ok::<Seq<u8>, NetpbmError>(out@ + rest),
                Result::Err(e) => Result::Err(e),
            },
        decreases rows - r,
    {
        if tpr == 0 {
            let ghost pre = out@;
            out.push(10);
            proof {
                assert forall|rest: Seq<u8>| out@ + rest =~= pre + (seq![10u8] + rest) by {}
            }
        } else {
            let mut j: usize = 0;
            let mut counter: usize = 0;
            while j < tpr
                invariant
                    j <= tpr,
                    0 < tpr,
                    r < rows,
                    counter <= 70,
                    dlen == data@.len(),
                    data@.len() == rows * tpr * sample_width(depth),
                    total == encode_rows(data@, tpr as int, rows as int, depth),
                    j < tpr ==> total == match encode_rows_from(
                        data@,
                        tpr as int,
                        rows as int,
                        depth,
                        r as int,
                        j as int,
                        counter as int,
                    ) {
                        Result::Ok(rest) => Result::Ok::<Seq<u8>, NetpbmError>(out@ + rest),
                        Result::Err(e) => Result::Err(e),
                    },
                    j == tpr ==> total == match encode_rows_from(
                        data@,
                        tpr as int,
                        rows as int,
                        depth,
                        r as int + 1,
                        0,
                        0,
                    ) {
                        Result::Ok(rest) => Result::Ok::<Seq<u8>, NetpbmError>(out@ + rest),
                        Result::Err(e) => Result::Err(e),
                    },
                decreases tpr - j,
            {
                proof {
                    lemma_grid_index(r as int, j as int, rows as int, tpr as int);
                    let ghost w = sample_width(depth);
                    assert((rows as int) * (tpr as int) <= (rows as int) * (tpr as int) * w)
                        by (nonlinear_arith)
                        requires
                            1 <= w,
                            0 <= (rows as int) * (tpr as int),
                    ;
                }
                let pos = r * tpr + j;
                let val: u16 = match depth {
                    BitDepth::EIGHT => data[pos] as u16,
                    BitDepth::SIXTEEN => {
                        let ind = pos * 2;
                        (data[ind] as u16) * 256 + data[ind + 1] as u16
                    },
                };
                proof {
                    assert(val == sample_value(data@, pos as int, depth));
                    lemma_dec_digits_len(val as int);
                }
                let mut ds = u32_digits(val as u32);
                let ghost pre = out@;
                let ghost dsv = ds@;
                if counter + ds.len() > 70 {
                    return Result::Err(NetpbmError::LineTooWide);
                }
                counter = counter + ds.len();
                out.append(&mut ds);
                if j == tpr - 1 {
                    out.push(10);
                    proof {
                        assert(out@ =~= pre + (dsv + seq![10u8]));
                        assert forall|rest: Seq<u8>| out@ + rest =~= pre + ((dsv + seq![10u8])
                            + rest) by {}
                    }
                } else {
                    out.push(32);
                    proof {
                        assert(out@ =~= pre + (dsv + seq![32u8]));
                        assert forall|rest: Seq<u8>| out@ + rest =~= pre + ((dsv + seq![32u8])
                            + rest) by {}
                    }
                }
                j = j + 1;
            }
        }
        r = r + 1;
    }
    proof {
        assert(out@ + Seq::<u8>::empty() =~= out@);
    }
    Result::Ok(out)
}

// ------------------------------------------------------------------
// Header text
// ------------------------------------------------------------------

/// The textual header an encoder writes: `P`, the magic digit, a newline,
/// then width and height as decimal tokens separated by one space and
/// terminated by one newline.
pub open spec fn header_bytes(magic: u8, width: int, height: int) -> Seq<u8> {
    seq![80u8, magic, 10u8] + dec_digits(width) + seq![32u8] + dec_digits(height) + seq![10u8]
}

/// The maximum-value line a graymap or pixmap encoder writes: `255` or
/// `65535` per sample depth, with its newline.
pub open spec fn maxval_bytes(depth: BitDepth) -> Seq<u8> {
    match depth {
        BitDepth::EIGHT => seq![50u8, 53u8, 53u8, 10u8],
        BitDepth::SIXTEEN => seq![54u8, 53u8, 53u8, 51u8, 53u8, 10u8],
    }
}

/// Appends the textual header to the output buffer.
pub fn write_header(out: &mut Vec<u8>, magic: u8, width: u32, height: u32)
    ensures
        final(out)@ == old(out)@ + header_bytes(magic, width as int, height as int),
{
    out.push(80);
    out.push(magic);
    out.push(10);
    let mut wd = u32_digits(width);
    out.append(&mut wd);
    out.push(32);
    let mut hd = u32_digits(height);
    out.append(&mut hd);
    out.push(10);
    proof {
        assert(out@ =~= old(out)@ + header_bytes(magic, width as int, height as int));
    }
}

/// Appends the maximum-value line to the output buffer.
pub fn write_maxval(out: &mut Vec<u8>, depth: BitDepth)
    ensures
        final(out)@ == old(out)@ + maxval_bytes(depth),
{
    match depth {
        BitDepth::EIGHT => {
            out.push(50);
            out.push(53);
            out.push(53);
            out.push(10);
        },
        BitDepth::SIXTEEN => {
            out.push(54);
            out.push(53);
            out.push(53);
            out.push(51);
            out.push(53);
            out.push(10);
        },
    }
    proof {
        assert(out@ =~= old(out)@ + maxval_bytes(depth));
    }
}

} // verus!
