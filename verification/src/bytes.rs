//! Fixed-width unsigned integers read out of a byte image, in either byte order.

use vstd::prelude::*;

verus! {

/// The unsigned value of the `w` bytes of `d` that start at `o`, least significant first.
pub open spec fn uint_le(d: Seq<u8>, o: int, w: nat) -> nat
    decreases w,
{
    if w == 0 {
        0
    } else {
        d[o] as nat + 256 * uint_le(d, o + 1, (w - 1) as nat)
    }
}

/// The unsigned value of the `w` bytes of `d` that start at `o`, most significant first.
pub open spec fn uint_be(d: Seq<u8>, o: int, w: nat) -> nat
    decreases w,
{
    if w == 0 {
        0
    } else {
        uint_be(d, o, (w - 1) as nat) * 256 + d[o + w - 1] as nat
    }
}

/// The unsigned value of the `w` bytes of `d` at `o`, in the byte order that `le` selects.
pub open spec fn uint_at(d: Seq<u8>, o: int, w: nat, le: bool) -> nat {
    if le {
        uint_le(d, o, w)
    } else {
        uint_be(d, o, w)
    }
}

/// Two bytes at `o`, least significant first.
pub open spec fn le16(d: Seq<u8>, o: int) -> int {
    d[o] + d[o + 1] * 256
}

/// Two bytes at `o`, most significant first.
pub open spec fn be16(d: Seq<u8>, o: int) -> int {
    d[o] * 256 + d[o + 1]
}

/// Four bytes at `o`, least significant first.
pub open spec fn le32(d: Seq<u8>, o: int) -> int {
    le16(d, o) + le16(d, o + 2) * 0x10000
}

/// Four bytes at `o`, most significant first.
pub open spec fn be32(d: Seq<u8>, o: int) -> int {
    be16(d, o) * 0x10000 + be16(d, o + 2)
}

/// Eight bytes at `o`, least significant first.
pub open spec fn le64(d: Seq<u8>, o: int) -> int {
    le32(d, o) + le32(d, o + 4) * 0x1_0000_0000
}

/// Eight bytes at `o`, most significant first.
pub open spec fn be64(d: Seq<u8>, o: int) -> int {
    be32(d, o) * 0x1_0000_0000 + be32(d, o + 4)
}

/// The integers read in either byte order are the usual positional values of their bytes.
pub proof fn lemma_uint_closed_forms(d: Seq<u8>, o: int)
    ensures
        uint_le(d, o, 2) == le16(d, o),
        uint_be(d, o, 2) == be16(d, o),
        uint_le(d, o, 4) == le32(d, o),
        uint_be(d, o, 4) == be32(d, o),
        uint_le(d, o, 8) == le64(d, o),
        uint_be(d, o, 8) == be64(d, o),
{
    reveal_with_fuel(uint_le, 9);
    reveal_with_fuel(uint_be, 9);
}

/// Integers read from 2, 4 or 8 bytes fit in 16, 32 or 64 bits.
pub proof fn lemma_uint_bounds(d: Seq<u8>, o: int)
    ensures
        uint_le(d, o, 2) < 0x1_0000,
        uint_be(d, o, 2) < 0x1_0000,
        uint_le(d, o, 4) < 0x1_0000_0000,
        uint_be(d, o, 4) < 0x1_0000_0000,
        uint_le(d, o, 8) < 0x1_0000_0000_0000_0000,
        uint_be(d, o, 8) < 0x1_0000_0000_0000_0000,
{
    reveal_with_fuel(uint_le, 9);
    reveal_with_fuel(uint_be, 9);
}

/// Reads a 16-bit unsigned integer at `offset`; `le` selects little-endian order.
pub fn read_u16(data: &[u8], offset: usize, le: bool) -> (r: u16)
    requires
        offset + 2 <= data@.len(),
    ensures
        r == uint_at(data@, offset as int, 2, le),
        r == if le {
            le16(data@, offset as int)
        } else {
            be16(data@, offset as int)
        },
{
    proof {
        lemma_uint_closed_forms(data@, offset as int);
        reveal_with_fuel(uint_le, 3);
        reveal_with_fuel(uint_be, 3);
    }
    let b0 = data[offset] as u16;
    let b1 = data[offset + 1] as u16;
    if le {
        b1 * 256 + b0
    } else {
        b0 * 256 + b1
    }
}

/// Reads a 32-bit unsigned integer at `offset`; `le` selects little-endian order.
pub fn read_u32(data: &[u8], offset: usize, le: bool) -> (r: u32)
    requires
        offset + 4 <= data@.len(),
    ensures
        r == uint_at(data@, offset as int, 4, le),
        r == if le {
            le32(data@, offset as int)
        } else {
            be32(data@, offset as int)
        },
{
    proof {
        lemma_uint_closed_forms(data@, offset as int);
        reveal_with_fuel(uint_le, 5);
        reveal_with_fuel(uint_be, 5);
    }
    let b0 = data[offset] as u32;
    let b1 = data[offset + 1] as u32;
    let b2 = data[offset + 2] as u32;
    let b3 = data[offset + 3] as u32;
    if le {
        ((b3 * 256 + b2) * 256 + b1) * 256 + b0
    } else {
        ((b0 * 256 + b1) * 256 + b2) * 256 + b3
    }
}

/// Reads a 64-bit unsigned integer at `offset`; `le` selects little-endian order.
pub fn read_u64(data: &[u8], offset: usize, le: bool) -> (r: u64)
    requires
        offset + 8 <= data@.len(),
    ensures
        r == uint_at(data@, offset as int, 8, le),
        r == if le {
            le64(data@, offset as int)
        } else {
            be64(data@, offset as int)
        },
{
    proof {
        lemma_uint_closed_forms(data@, offset as int);
        reveal_with_fuel(uint_le, 9);
        reveal_with_fuel(uint_be, 9);
    }
    let b0 = data[offset] as u64;
    let b1 = data[offset + 1] as u64;
    let b2 = data[offset + 2] as u64;
    let b3 = data[offset + 3] as u64;
    let b4 = data[offset + 4] as u64;
    let b5 = data[offset + 5] as u64;
    let b6 = data[offset + 6] as u64;
    let b7 = data[offset + 7] as u64;
    if le {
        ((((((b7 * 256 + b6) * 256 + b5) * 256 + b4) * 256 + b3) * 256 + b2) * 256 + b1) * 256 + b0
    } else {
        ((((((b0 * 256 + b1) * 256 + b2) * 256 + b3) * 256 + b4) * 256 + b5) * 256 + b6) * 256 + b7
    }
}

} // verus!
