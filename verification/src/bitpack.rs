//! The bit packer for binary bitmaps: one bit per sample, packed MSB-first
//! eight to a byte, each row padded to a byte boundary with don't-care
//! zero bits; and the reverse unpacking, which drops the padding again.

use vstd::prelude::*;

verus! {

/// Two to the power `e`, for the small exponents byte packing needs.
pub open spec fn pow2t(e: int) -> int
    decreases e,
{
    if e <= 0 {
        1
    } else {
        2 * pow2t(e - 1)
    }
}

/// Every power of two is positive.
pub proof fn lemma_pow2t_pos(e: int)
    ensures
        pow2t(e) >= 1,
    decreases e,
{
    if e > 0 {
        lemma_pow2t_pos(e - 1);
    }
}

/// Powers of two multiply by adding exponents.
pub proof fn lemma_pow2t_add(a: int, b: int)
    requires
        0 <= a,
        0 <= b,
    ensures
        pow2t(a + b) == pow2t(a) * pow2t(b),
    decreases a,
{
    if a > 0 {
        lemma_pow2t_add(a - 1, b);
        assert(2 * (pow2t(a - 1) * pow2t(b)) == (2 * pow2t(a - 1)) * pow2t(b))
            by (nonlinear_arith);
    }
}

/// A sample's bit: zero stays zero, anything else is written as one.
pub open spec fn bit_of_sample(v: u8) -> int {
    if v == 0 {
        0
    } else {
        1
    }
}

/// The first `n` samples from `start`, packed MSB-first into the low `n`
/// bits of an accumulator.
pub open spec fn pack_acc(data: Seq<u8>, start: int, n: int) -> int
    decreases n,
{
    if n <= 0 {
        0
    } else {
        pack_acc(data, start, n - 1) * 2 + bit_of_sample(data[start + n - 1])
    }
}

/// An `n`-bit accumulator holds less than 2^n.
pub proof fn lemma_pack_acc_bound(data: Seq<u8>, start: int, n: int)
    requires
        0 <= n,
    ensures
        0 <= pack_acc(data, start, n) < pow2t(n),
    decreases n,
{
    if n > 0 {
        lemma_pack_acc_bound(data, start, n - 1);
    }
}

/// Splitting an accumulator: the first `p` bits shifted up, plus the
/// remaining `n - p` bits packed on their own.
pub proof fn lemma_pack_acc_split(data: Seq<u8>, start: int, p: int, n: int)
    requires
        0 <= p <= n,
    ensures
        pack_acc(data, start, n) == pack_acc(data, start, p) * pow2t(n - p) + pack_acc(
            data,
            start + p,
            n - p,
        ),
    decreases n - p,
{
    if n == p {
    } else {
        lemma_pack_acc_split(data, start, p, n - 1);
        let a = pack_acc(data, start, p);
        let t = pack_acc(data, start + p, n - 1 - p);
        let b = bit_of_sample(data[start + n - 1]);
        assert(pack_acc(data, start, n) == (a * pow2t(n - 1 - p) + t) * 2 + b);
        assert((a * pow2t(n - 1 - p) + t) * 2 + b == a * (2 * pow2t(n - 1 - p)) + (t * 2 + b))
            by (nonlinear_arith)
        ;
        assert(2 * pow2t(n - 1 - p) == pow2t(n - p));
        assert(pack_acc(data, start + p, n - p) == t * 2 + b);
    }
}

/// The mask that picks bit `j` of a byte, MSB first.
pub open spec fn bitmask(j: int) -> int {
    if j == 0 {
        128
    } else if j == 1 {
        64
    } else if j == 2 {
        32
    } else if j == 3 {
        16
    } else if j == 4 {
        8
    } else if j == 5 {
        4
    } else if j == 6 {
        2
    } else {
        1
    }
}

/// Bit `j` of byte `x`, MSB first: 0 or 1.
pub open spec fn bit_at(x: u8, j: int) -> u8 {
    ((x as int) / bitmask(j) % 2) as u8
}

/// The mask for bit `j` is the power of two for its place value.
pub proof fn lemma_bitmask_pow2t(j: int)
    requires
        0 <= j <= 7,
    ensures
        bitmask(j) == pow2t(7 - j),
{
    assert(pow2t(0) == 1);
    assert(pow2t(1) == 2);
    assert(pow2t(2) == 4);
    assert(pow2t(3) == 8);
    assert(pow2t(4) == 16);
    assert(pow2t(5) == 32);
    assert(pow2t(6) == 64);
    assert(pow2t(7) == 128);
}

/// Bytes one packed row occupies.
pub open spec fn bytes_per_row(width: int) -> int {
    (width + 7) / 8
}

/// Don't-care bits at the end of each packed row.
pub open spec fn pad_bits(width: int) -> int {
    (8 - width % 8) % 8
}

/// How many samples land in byte `k` of a row: eight, or what is left of
/// the row for its final byte.
pub open spec fn row_bits(width: int, k: int) -> int {
    if width - 8 * k >= 8 {
        8
    } else {
        width - 8 * k
    }
}

/// Byte `k` of packed row `r`: its samples packed MSB-first, shifted up
/// past the padding positions.
pub open spec fn row_byte(data: Seq<u8>, width: int, r: int, k: int) -> u8 {
    (pack_acc(data, r * width + 8 * k, row_bits(width, k)) * pow2t(8 - row_bits(width, k))) as u8
}

/// A whole image packed row by row: `height` rows of `bytes_per_row`
/// bytes each.
pub open spec fn pack_bits(data: Seq<u8>, width: int, height: int) -> Seq<u8> {
    Seq::new(
        (height * bytes_per_row(width)) as nat,
        |m: int| row_byte(data, width, m / bytes_per_row(width), m % bytes_per_row(width)),
    )
}

/// How many bits of a byte the unpacker keeps, given the running bit index
/// `ind` (the count of bits up to and including the current byte within
/// its row): all eight while the row goes on, all but the padding in the
/// row's final byte.
pub open spec fn keep_count(width: int, ind: int) -> int {
    if ind < width {
        8
    } else {
        8 - pad_bits(width)
    }
}

/// The first `cnt` bits of byte `x`, MSB first.
pub open spec fn byte_bits(x: u8, cnt: int) -> Seq<u8> {
    Seq::new(cnt as nat, |j: int| bit_at(x, j))
}

/// The samples the unpacker emits from byte `i` on, with running bit
/// index `ind` (reset to 8 at each row start, grown by 8 per byte).
pub open spec fn unpack_from(s: Seq<u8>, width: int, i: int, ind: int) -> Seq<u8>
    decreases s.len() - i,
{
    if i >= s.len() {
        Seq::<u8>::empty()
    } else {
        byte_bits(s[i], keep_count(width, ind)) + unpack_from(
            s,
            width,
            i + 1,
            if ind >= width {
                8
            } else {
                ind + 8
            },
        )
    }
}

/// The samples a whole packed buffer unpacks to.
pub open spec fn unpack_bits(s: Seq<u8>, width: int) -> Seq<u8> {
    unpack_from(s, width, 0, 8)
}

/// Extracting bit `j` from a packed byte gives sample `j` back.
pub proof fn lemma_row_byte_extract(data: Seq<u8>, start: int, n: int, j: int)
    requires
        0 <= j < n <= 8,
    ensures
        bit_at((pack_acc(data, start, n) * pow2t(8 - n)) as u8, j) == bit_of_sample(
            data[start + j],
        ),
{
    let acc = pack_acc(data, start, n);
    let x = acc * pow2t(8 - n);
    lemma_pack_acc_bound(data, start, n);
    lemma_pow2t_pos(8 - n);
    assert(pow2t(n) * pow2t(8 - n) == pow2t(8)) by {
        lemma_pow2t_add(n, 8 - n);
    }
    assert(pow2t(8) == 256) by {
        reveal_with_fuel(pow2t, 9);
    }
    assert(0 <= x < 256) by (nonlinear_arith)
        requires
            0 <= acc < pow2t(n),
            x == acc * pow2t(8 - n),
            pow2t(n) * pow2t(8 - n) == pow2t(8),
            pow2t(8) == 256,
            pow2t(8 - n) >= 1,
    ;
    lemma_pack_acc_split(data, start, j + 1, n);
    let a = pack_acc(data, start, j + 1);
    let t = pack_acc(data, start + j + 1, n - 1 - j);
    assert(acc == a * pow2t(n - 1 - j) + t);
    lemma_pack_acc_bound(data, start + j + 1, n - 1 - j);
    lemma_pack_acc_bound(data, start, j + 1);
    lemma_pow2t_add(n - 1 - j, 8 - n);
    assert(x == a * pow2t(7 - j) + t * pow2t(8 - n)) by (nonlinear_arith)
        requires
            x == (a * pow2t(n - 1 - j) + t) * pow2t(8 - n),
            pow2t(n - 1 - j) * pow2t(8 - n) == pow2t(7 - j),
    ;
    assert(0 <= t * pow2t(8 - n) < pow2t(7 - j)) by (nonlinear_arith)
        requires
            0 <= t < pow2t(n - 1 - j),
            pow2t(8 - n) >= 1,
            pow2t(n - 1 - j) * pow2t(8 - n) == pow2t(7 - j),
    ;
    vstd::arithmetic::div_mod::lemma_fundamental_div_mod_converse(
        x,
        pow2t(7 - j),
        a,
        t * pow2t(8 - n),
    );
    lemma_bitmask_pow2t(j);
    assert((x as u8) as int / bitmask(j) == a);
    assert(a == pack_acc(data, start, j) * 2 + bit_of_sample(data[start + j]));
    assert(a % 2 == bit_of_sample(data[start + j]));
}

/// In the final byte of a row, the bits kept by the unpacker are exactly
/// the bits the packer had samples for.
proof fn lemma_last_byte_counts(width: int)
    requires
        1 <= width,
    ensures
        8 * (bytes_per_row(width) - 1) < width <= 8 * bytes_per_row(width),
        8 - pad_bits(width) == width - 8 * (bytes_per_row(width) - 1),
        1 <= width - 8 * (bytes_per_row(width) - 1) <= 8,
{
    let q = width / 8;
    let c = width % 8;
    assert(width == 8 * q + c);
    if c == 0 {
        assert(bytes_per_row(width) == q);
    } else {
        assert(bytes_per_row(width) == q + 1);
    }
}

/// Unpacking a packed image from byte `k` of row `r` on recovers exactly
/// the remaining samples.
proof fn lemma_unpack_pack_from(data: Seq<u8>, width: int, height: int, r: int, k: int)
    requires
        data.len() == width * height,
        forall|i: int| 0 <= i < data.len() ==> data[i] < 2,
        1 <= width,
        0 <= r <= height,
        0 <= k,
        r < height ==> k < bytes_per_row(width),
        r == height ==> k == 0,
    ensures
        unpack_from(
            pack_bits(data, width, height),
            width,
            r * bytes_per_row(width) + k,
            8 * k + 8,
        ) == data.subrange(r * width + 8 * k, data.len() as int),
    decreases height - r, bytes_per_row(width) - k,
{
    let bpr = bytes_per_row(width);
    let p = pack_bits(data, width, height);
    let m = r * bpr + k;
    lemma_last_byte_counts(width);
    if r == height {
        assert(m >= p.len()) by (nonlinear_arith)
            requires
                m == height * bpr + k && k == 0 && p.len() == height * bpr,
        ;
        assert(r * width + 8 * k == data.len()) by (nonlinear_arith)
            requires
                r == height && k == 0 && data.len() == width * height,
        ;
        assert(unpack_from(p, width, m, 8 * k + 8) =~= data.subrange(
            r * width + 8 * k,
            data.len() as int,
        ));
    } else {
        crate::ascii::lemma_grid_index(r, k, height, bpr);
        assert(m / bpr == r && m % bpr == k) by {
            vstd::arithmetic::div_mod::lemma_fundamental_div_mod_converse(m, bpr, r, k);
        }
        assert(p[m] == row_byte(data, width, r, k));
        let start = r * width + 8 * k;
        let n = row_bits(width, k);
        let ind = 8 * k + 8;
        assert(start + n <= (r + 1) * width && 0 <= start && (r + 1) * width <= data.len())
            by (nonlinear_arith)
            requires
                0 <= r < height,
                0 <= k,
                start == r * width + 8 * k,
                n <= width - 8 * k,
                data.len() == width * height,
                1 <= width,
                n <= 8,
        ;
        // which bits of this byte the unpacker keeps
        if k < bpr - 1 {
            assert(8 * (k + 1) <= 8 * (bpr - 1));
            assert(ind < width);
            assert(n == 8);
        } else {
            assert(k == bpr - 1);
            assert(ind >= width);
            assert(keep_count(width, ind) == n);
        }
        assert(keep_count(width, ind) == n);
        // the kept bits are the samples
        assert forall|j: int| 0 <= j < n implies byte_bits(p[m], n)[j] == data[start + j] by {
            lemma_row_byte_extract(data, start, n, j);
        }
        // the rest of the buffer unpacks to the rest of the samples
        let m2 = m + 1;
        let ind2: int = if ind >= width {
            8
        } else {
            ind + 8
        };
        let (r2, k2) = if k == bpr - 1 {
            (r + 1, 0int)
        } else {
            (r, k + 1)
        };
        assert(m2 == r2 * bpr + k2) by (nonlinear_arith)
            requires
                m2 == r * bpr + k + 1 && ((r2 == r + 1 && k2 == 0 && k == bpr - 1) || (r2 == r && k2
                    == k + 1)),
        ;
        if k == bpr - 1 {
            assert(ind2 == 8 * k2 + 8);
            assert(start + n == r2 * width + 8 * k2) by (nonlinear_arith)
                requires
                    start == r * width + 8 * k,
                    n == width - 8 * k,
                    r2 == r + 1,
                    k2 == 0,
            ;
        } else {
            assert(ind2 == 8 * k2 + 8);
            assert(start + n == r2 * width + 8 * k2);
        }
        lemma_unpack_pack_from(data, width, height, r2, k2);
        assert(unpack_from(p, width, m, ind) =~= data.subrange(start, data.len() as int));
    }
}

/// Packing an image of zero-or-one samples and unpacking it again gives
/// the samples back unchanged: every padding branch of the packer is
/// undone by the unpacker.
pub proof fn lemma_unpack_pack(data: Seq<u8>, width: int, height: int)
    requires
        data.len() == width * height,
        forall|i: int| 0 <= i < data.len() ==> data[i] < 2,
        0 <= width,
        0 <= height,
    ensures
        unpack_bits(pack_bits(data, width, height), width) == data,
{
    if width == 0 {
        assert(data.len() == 0) by (nonlinear_arith)
            requires
                data.len() == width * height && width == 0,
        ;
        assert(bytes_per_row(0) == 0);
        assert(pack_bits(data, 0, height).len() == 0) by (nonlinear_arith)
            requires
                pack_bits(data, 0, height).len() == height * bytes_per_row(0) && bytes_per_row(0)
                    == 0,
        ;
        assert(unpack_bits(pack_bits(data, width, height), width) =~= data);
    } else {
        lemma_unpack_pack_from(data, width, height, 0, 0);
        assert(data.subrange(0, data.len() as int) =~= data);
    }
}

} // verus!
