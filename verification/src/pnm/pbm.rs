//! Bitmap pixel loaders: the ascii form keeps every `0` or `1` byte and
//! skips everything else; the binary form undoes the MSB-first bit
//! packing, dropping each row's padding bits.

use vstd::prelude::*;

use crate::bitpack::bit_at;
use crate::bitpack::bitmask;
use crate::bitpack::byte_bits;
use crate::bitpack::keep_count;
use crate::bitpack::pad_bits;
use crate::bitpack::unpack_bits;
use crate::bitpack::unpack_from;

verus! {

/// The samples an ascii bitmap body decodes to: each `0` byte is a zero
/// sample, each `1` byte a one sample, and every other byte is skipped.
pub open spec fn pbm_samples(s: Seq<u8>) -> Seq<u8>
    decreases s.len(),
{
    if s.len() == 0 {
        Seq::<u8>::empty()
    } else {
        (if s[0] == 48 {
            seq![0u8]
        } else if s[0] == 49 {
            seq![1u8]
        } else {
            Seq::<u8>::empty()
        }) + pbm_samples(s.skip(1))
    }
}

/// Load image data stored in ASCII format.
pub fn load_ascii(inpt: &[u8]) -> (r: Vec<u8>)
    ensures
        r@ == pbm_samples(inpt@),
{
    let mut vals: Vec<u8> = Vec::new();
    let mut i: usize = 0;
    proof {
        assert(inpt@.skip(0) =~= inpt@);
        assert(Seq::<u8>::empty() + pbm_samples(inpt@) =~= pbm_samples(inpt@));
    }
    while i < inpt.len()
        invariant
            i <= inpt.len(),
            vals@ + pbm_samples(inpt@.skip(i as int)) == pbm_samples(inpt@),
        decreases inpt.len() - i,
    {
        proof {
            assert(inpt@.skip(i as int)[0] == inpt@[i as int]);
            assert(inpt@.skip(i as int).skip(1) =~= inpt@.skip(i as int + 1));
        }
        let x = inpt[i];
        if x == 48 {
            vals.push(0);
        } else if x == 49 {
            vals.push(1);
        }
        i = i + 1;
    }
    proof {
        assert(inpt@.skip(inpt@.len() as int) =~= Seq::<u8>::empty());
        assert(vals@ + Seq::<u8>::empty() =~= vals@);
    }
    vals
}

/// The mask that picks bit `j` of a byte, MSB first.
fn mask_of(j: usize) -> (r: u8)
    requires
        j < 8,
    ensures
        r as int == bitmask(j as int),
{
    if j == 0 {
        128
    } else if j == 1 {
        64
    } else if j == 2 {
        32
    } else if j == 3 {
        16
    } else if j == 4 {
        8
    } else if j == 5 {
        4
    } else if j == 6 {
        2
    } else {
        1
    }
}

/// Load image data stored in binary format.
///
/// Returns exactly [`unpack_bits`] of the buffer: eight samples per byte,
/// MSB first, except that a row's final byte contributes only the bits
/// before the padding.
pub fn load_binary(inpt: &[u8], width: u32) -> (r: Vec<u8>)
    ensures
        r@ == unpack_bits(inpt@, width as int),
{
    let mut vals: Vec<u8> = Vec::new();
    // Keep track of what index we're on, counted in bits.
    let mut ind: u64 = 8;
    // How much padding (if any) exists on bytes at the end of a row.
    let padding: u32 = (8 - (width % 8)) % 8;
    let mut i: usize = 0;
    proof {
        assert(padding == pad_bits(width as int));
    }
    while i < inpt.len()
        invariant
            i <= inpt.len(),
            8 <= ind <= width as u64 + 8,
            padding == pad_bits(width as int),
            vals@ + unpack_from(inpt@, width as int, i as int, ind as int) == unpack_bits(
                inpt@,
                width as int,
            ),
        decreases inpt.len() - i,
    {
        let x = inpt[i];
        let ghost cnt = keep_count(width as int, ind as int);
        let ghost base = vals@;
        let mut j: usize = 0;
        while j < 8
            invariant
                j <= 8,
                0 <= cnt <= 8,
                cnt == keep_count(width as int, ind as int),
                padding == pad_bits(width as int),
                vals@ == base + byte_bits(x, if (j as int) <= cnt {
                    j as int
                } else {
                    cnt
                }),
            decreases 8 - j,
        {
            let mv = 8 - j;
            let v: u8 = (x / mask_of(j)) % 2;
            proof {
                assert(v == bit_at(x, j as int));
            }
            if ind < width as u64 || mv > padding as usize {
                let ghost prev = vals@;
                vals.push(v);
                proof {
                    assert((j as int) < cnt);
                    assert(vals@ =~= base + byte_bits(x, j as int + 1));
                }
            } else {
                proof {
                    assert((j as int) >= cnt);
                }
            }
            j = j + 1;
        }
        proof {
            assert(byte_bits(x, cnt) =~= byte_bits(x, if 8int <= cnt {
                8int
            } else {
                cnt
            }));
            assert(inpt@.skip(i as int)[0] == inpt@[i as int]);
        }
        if ind >= width as u64 {
            ind = 8;
        } else {
            ind = ind + 8;
        }
        i = i + 1;
    }
    proof {
        assert(vals@ + Seq::<u8>::empty() =~= vals@);
    }
    vals
}

} // verus!
