//! Word-aligned byte patching.
//!
//! Traced-process memory is read and written one machine word at a time;
//! planting or removing a breakpoint changes a single byte inside such a
//! word. This module holds the address alignment and the byte splice as
//! pure functions on plain values; the actual peeks and pokes into the
//! other process stay with the caller.

use vstd::prelude::*;
use vstd::arithmetic::div_mod::lemma_fundamental_div_mod;
use vstd::arithmetic::div_mod::lemma_mod_multiples_basic;

verus! {

/// Rounds an address down to the start of its eight-byte word.
pub fn align_addr_to_word(addr: usize) -> (r: usize)
    ensures
        r == addr - addr % 8,
        r <= addr,
        addr - r < 8,
        r % 8 == 0,
{
    proof {
        lemma_fundamental_div_mod(addr as int, 8);
        lemma_mod_multiples_basic(addr as int / 8, 8);
    }
    addr - addr % 8
}

/// Byte `k` of a little-endian machine word.
pub open spec fn byte_of(word: u64, k: u64) -> u64 {
    (word >> (8 * k)) & 0xff
}

/// Replaces byte `byte_offset` of `word` with `val`, returning the new
/// word and the byte that was there: every other byte is untouched.
pub fn splice_byte(word: u64, byte_offset: u64, val: u8) -> (r: (u64, u8))
    requires
        byte_offset < 8,
    ensures
        r.1 as u64 == byte_of(word, byte_offset),
        byte_of(r.0, byte_offset) == val as u64,
        forall|k: u64| k < 8 && k != byte_offset ==> byte_of(r.0, k) == byte_of(word, k),
{
    let shift = 8 * byte_offset;
    let orig = (word >> shift) & 0xff;
    let masked = word & !(0xffu64 << shift);
    let updated = masked | ((val as u64) << shift);
    proof {
        let v = val as u64;
        assert((word >> (8 * byte_offset)) & 0xff < 256) by (bit_vector);
        assert((((word & !(0xffu64 << (8 * byte_offset))) | (v << (8 * byte_offset))) >> (8
            * byte_offset)) & 0xff == v) by (bit_vector)
            requires
                byte_offset < 8,
                v < 256,
        ;
        assert forall|k: u64| k < 8 && k != byte_offset implies byte_of(updated, k) == byte_of(
            word,
            k,
        ) by {
            assert((((word & !(0xffu64 << (8 * byte_offset))) | (v << (8 * byte_offset))) >> (8
                * k)) & 0xff == (word >> (8 * k)) & 0xff) by (bit_vector)
                requires
                    k < 8,
                    byte_offset < 8,
                    k != byte_offset,
                    v < 256,
            ;
        }
    }
    (updated, orig as u8)
}

} // verus!
