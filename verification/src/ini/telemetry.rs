//! The integer side of decoding a realtime (och) block: a channel's raw
//! value read little-endian at its offset, and a bit field of it. Scaling
//! and derived channels are floating point and happen elsewhere.

use vstd::prelude::*;
use super::model::{spec_signed, spec_size, DataType};

verus! {

/// The unsigned value of little-endian bytes.
pub open spec fn le_value(b: Seq<u8>) -> int
    decreases b.len(),
{
    if b.len() == 0 {
        0
    } else {
        b[0] + 256 * le_value(b.drop_first())
    }
}

/// The two's-complement reading of an unsigned value `u` of `size` bytes.
pub open spec fn signed_value(u: int, size: int) -> int {
    if size == 1 {
        if u >= 0x80 { u - 0x100 } else { u }
    } else if size == 2 {
        if u >= 0x8000 { u - 0x1_0000 } else { u }
    } else {
        if u >= 0x8000_0000 { u - 0x1_0000_0000 } else { u }
    }
}

/// The raw value of a `ty` channel at `offset`: its bytes little-endian,
/// signed for the signed types; `None` when the block is too short.
pub open spec fn spec_read_raw(block: Seq<u8>, offset: int, ty: DataType) -> Option<int> {
    let size = spec_size(ty) as int;
    if offset + size > block.len() {
        None
    } else {
        let u = le_value(block.subrange(offset, offset + size));
        Some(if spec_signed(ty) { signed_value(u, size) } else { u })
    }
}

pub fn read_raw(block: &[u8], offset: usize, ty: DataType) -> (r: Option<i64>)
    requires
        offset <= usize::MAX - 4,
    ensures
        match spec_read_raw(block@, offset as int, ty) {
            Some(v) => r == Some(v as i64),
            None => r is None,
        },
{
    let size = ty.size() as usize;
    if offset + size > block.len() {
        return None;
    }
    let ghost b = block@.subrange(offset as int, offset + size);
    let b0 = block[offset] as u64;
    let u: u64 = if size == 1 {
        assert(b.drop_first().len() == 0);
        b0
    } else if size == 2 {
        let b1 = block[offset + 1] as u64;
        assert(b.drop_first().drop_first().len() == 0);
        assert(b.drop_first()[0] == b1);
        b0 + 256 * b1
    } else {
        let b1 = block[offset + 1] as u64;
        let b2 = block[offset + 2] as u64;
        let b3 = block[offset + 3] as u64;
        let ghost c = b.drop_first();
        let ghost d = c.drop_first();
        let ghost e = d.drop_first();
        assert(e.drop_first().len() == 0);
        assert(c[0] == b1 && d[0] == b2 && e[0] == b3);
        b0 + 256 * (b1 + 256 * (b2 + 256 * b3))
    };
    proof {
        assert(b[0] == b0);
        reveal_with_fuel(le_value, 5);
        assert(u as int == le_value(b));
        assert(u < 0x1_0000_0000);
    }
    if ty.signed() {
        let v: i64 = if size == 1 {
            if u >= 0x80 { u as i64 - 0x100 } else { u as i64 }
        } else if size == 2 {
            if u >= 0x8000 { u as i64 - 0x1_0000 } else { u as i64 }
        } else {
            if u >= 0x8000_0000 { u as i64 - 0x1_0000_0000 } else { u as i64 }
        };
        Some(v)
    } else {
        Some(u as i64)
    }
}

/// Bits `lo..=hi` of `raw`, shifted down.
pub open spec fn spec_bit_field(raw: u64, lo: u8, hi: u8) -> u64 {
    (raw >> lo) & (((1u64 << ((hi - lo + 1) as u64)) - 1) as u64)
}

/// A bits channel's value from its raw value.
pub fn bit_field(raw: u64, lo: u8, hi: u8) -> (v: u64)
    requires
        lo <= hi < 63,
    ensures
        v == spec_bit_field(raw, lo, hi),
{
    let width = hi - lo + 1;
    assert(1u64 << (width as u64) >= 1) by (bit_vector)
        requires width < 64;
    let mask = (1u64 << width) - 1;
    (raw >> lo) & mask
}

} // verus!

verus! {

/// What a channel's raw value is, from its bytes: the little-endian
/// number for the unsigned types (one byte for `ASCII`), and for the
/// signed types the value in the type's two's-complement range that is
/// congruent to that number modulo 2 to the type's width.
pub proof fn lemma_read_raw_values(block: Seq<u8>, offset: int, ty: DataType)
    requires
        0 <= offset,
        offset + spec_size(ty) <= block.len(),
    ensures
        spec_read_raw(block, offset, ty) matches Some(r) && {
            let b0 = block[offset] as int;
            let u16v = b0 + 256 * block[offset + 1];
            let u32v = b0 + 256 * block[offset + 1] + 0x1_0000 * block[offset + 2] + 0x100_0000 * block[offset + 3];
            match ty {
                DataType::U08 | DataType::Ascii => r == b0,
                DataType::S08 => -0x80 <= r < 0x80 && (r - b0) % 0x100 == 0,
                DataType::U16 => r == u16v,
                DataType::S16 => -0x8000 <= r < 0x8000 && (r - u16v) % 0x1_0000 == 0,
                DataType::U32 => r == u32v,
                DataType::S32 => -0x8000_0000 <= r < 0x8000_0000 && (r - u32v) % 0x1_0000_0000 == 0,
            }
        },
{
    let size = spec_size(ty) as int;
    let b = block.subrange(offset, offset + size);
    reveal_with_fuel(le_value, 5);
    assert(b[0] == block[offset]);
    if size >= 2 {
        assert(b.drop_first()[0] == block[offset + 1]);
    }
    if size == 4 {
        assert(b.drop_first().drop_first()[0] == block[offset + 2]);
        assert(b.drop_first().drop_first().drop_first()[0] == block[offset + 3]);
        assert(b.drop_first().drop_first().drop_first().drop_first().len() == 0);
    } else if size == 2 {
        assert(b.drop_first().drop_first().len() == 0);
    } else {
        assert(b.drop_first().len() == 0);
    }
}

/// A bit field holds bits `lo..=hi` of the raw value: bit `k` of the
/// field is bit `lo + k` of the raw value, and the field has no bit at or
/// above its width.
pub proof fn lemma_bit_field_bits(raw: u64, lo: u8, hi: u8, k: u64)
    requires
        lo <= hi < 63,
        k < 64,
    ensures
        k <= (hi - lo) as u64 ==> (spec_bit_field(raw, lo, hi) >> k) & 1 == (raw >> (lo as u64 + k)) & 1,
        k > (hi - lo) as u64 ==> (spec_bit_field(raw, lo, hi) >> k) & 1 == 0,
{
    let w: u64 = (hi - lo + 1) as u64;
    let l: u64 = lo as u64;
    let f = spec_bit_field(raw, lo, hi);
    assert(f == (raw >> l) & (((1u64 << w) - 1) as u64));
    assert(k < w ==> (((raw >> l) & (((1u64 << w) - 1) as u64)) >> k) & 1 == (raw >> (l + k)) & 1) by (bit_vector)
        requires
            1 <= w < 64,
            l + w < 64,
            k < 64;
    assert(k >= w ==> (((raw >> l) & (((1u64 << w) - 1) as u64)) >> k) & 1 == 0) by (bit_vector)
        requires
            1 <= w < 64,
            k < 64;
}

} // verus!
