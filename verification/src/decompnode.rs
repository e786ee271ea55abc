//! One entry of the decompression table, and the packed 9-byte on-wire
//! row format that yields a pair of entries.
//!
//! A row packs two entries `{color, next}`: `color` is a big-endian 16-bit
//! value, and the two 9-bit `next` indices are split over the bytes at
//! offsets 3, 4 and 8 (the bytes at offsets 2 and 7 are reserved).

use vstd::prelude::*;

use crate::stream::be16;

verus! {

/// One branch of a decompression-table row: a color to accumulate and the
/// index of the next row, with `0` as the terminal sentinel.
#[derive(Clone, Copy, Debug, PartialEq, Eq, Structural)]
pub struct DecompNode {
    pub color: u16,
    pub next: usize,
}

/// The first entry packed in the 9-byte row `b`.
pub open spec fn unpack_entry_a(b: Seq<u8>) -> DecompNode {
    DecompNode {
        color: be16(b, 0) as u16,
        next: ((b[3] % 32) * 16 + b[4] / 16) as usize,
    }
}

/// The second entry packed in the 9-byte row `b`.
pub open spec fn unpack_entry_b(b: Seq<u8>) -> DecompNode {
    DecompNode {
        color: be16(b, 5) as u16,
        next: ((b[8] % 32) * 16 + b[4] % 16) as usize,
    }
}

/// Both `next` indices of a packed row are 9-bit values.
pub proof fn lemma_unpacked_next_in_range(b: Seq<u8>)
    ensures
        unpack_entry_a(b).next < 512,
        unpack_entry_b(b).next < 512,
{
}

/// The packed 9-byte form of a row with the given entries, reserved bytes
/// written as zero.
pub open spec fn pack_row(color_a: u16, next_a: usize, color_b: u16, next_b: usize) -> Seq<u8> {
    seq![
        (color_a / 0x100) as u8,
        (color_a % 0x100) as u8,
        0u8,
        (next_a / 16) as u8,
        ((next_a % 16) * 16 + next_b % 16) as u8,
        (color_b / 0x100) as u8,
        (color_b % 0x100) as u8,
        0u8,
        (next_b / 16) as u8,
    ]
}

/// Packing a row and unpacking it again is the identity on both
/// `(color, next)` pairs, for any `next` indices in range.
pub proof fn lemma_pack_unpack_roundtrip(color_a: u16, next_a: usize, color_b: u16, next_b: usize)
    requires
        next_a < 512,
        next_b < 512,
    ensures
        unpack_entry_a(pack_row(color_a, next_a, color_b, next_b)) == (DecompNode {
            color: color_a,
            next: next_a,
        }),
        unpack_entry_b(pack_row(color_a, next_a, color_b, next_b)) == (DecompNode {
            color: color_b,
            next: next_b,
        }),
{
    let na = next_a as int;
    let nb = next_b as int;
    assert(((na % 16) * 16 + nb % 16) / 16 == na % 16) by (nonlinear_arith)
        requires 0 <= na && 0 <= nb;
    assert(((na % 16) * 16 + nb % 16) % 16 == nb % 16) by (nonlinear_arith)
        requires 0 <= na && 0 <= nb;
    assert((na / 16) * 16 + na % 16 == na) by (nonlinear_arith)
        requires 0 <= na;
    assert((nb / 16) * 16 + nb % 16 == nb) by (nonlinear_arith)
        requires 0 <= nb;
    let ca = color_a as int;
    let cb = color_b as int;
    assert((ca / 0x100) * 0x100 + ca % 0x100 == ca) by (nonlinear_arith)
        requires 0 <= ca;
    assert((cb / 0x100) * 0x100 + cb % 0x100 == cb) by (nonlinear_arith)
        requires 0 <= cb;
}

impl DecompNode {
    /// Decode one packed 9-byte row into its two entries.
    pub fn read_from(buf: &[u8]) -> (r: [DecompNode; 2])
        requires
            buf@.len() == 9,
        ensures
            r@[0] == unpack_entry_a(buf@),
            r@[1] == unpack_entry_b(buf@),
    {
        let color_a = (buf[0] as u16) * 0x100 + buf[1] as u16;
        let a = buf[3];
        let ab = buf[4];
        let color_b = (buf[5] as u16) * 0x100 + buf[6] as u16;
        let b = buf[8];

        proof {
            assert(a & 0x1f == a % 32) by (bit_vector);
            assert(ab >> 4 == ab / 16) by (bit_vector);
            assert(ab & 0xf == ab % 16) by (bit_vector);
            assert(b & 0x1f == b % 32) by (bit_vector);
        }

        [
            DecompNode {
                color: color_a,
                next: ((a & 0x1f) as usize) * 16 + (ab >> 4) as usize,
            },
            DecompNode {
                color: color_b,
                next: ((b & 0x1f) as usize) * 16 + (ab & 0xf) as usize,
            },
        ]
    }
}

} // verus!
