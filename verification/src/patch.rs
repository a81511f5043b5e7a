//! Byte-exact word patching for software breakpoints.
//!
//! A breakpoint is installed by overwriting the first byte of an
//! instruction with a one-byte trap opcode, and removed by writing the
//! saved original byte back.  The tracing surface of the operating system
//! only reads and writes whole machine words, so both operations go
//! through the same word-level edit: read the word containing the
//! address, replace exactly one byte of it, and write the word back.
//! This module holds that edit and proves it byte-exact: the chosen byte
//! takes the new value and every neighboring byte is preserved.

use vstd::prelude::*;

verus! {

/// The one-byte trap opcode used to implement software breakpoints.
pub const TRAP_OPCODE: u8 = 0xcc;

/// Byte `i` (little-endian position, `0 <= i < 8`) of a machine word.
pub open spec fn word_byte(word: u64, i: int) -> u8 {
    ((word >> ((8 * i) as u64)) & 0xff) as u8
}

/// `word` with byte `i` replaced by `val` and all other bytes unchanged.
pub open spec fn word_with_byte(word: u64, i: int, val: u8) -> u64 {
    (word & !(0xffu64 << ((8 * i) as u64))) | ((val as u64) << ((8 * i) as u64))
}

/// Rounds an address down to the start of the machine word containing it.
pub fn align_addr_to_word(addr: usize) -> (r: usize)
    ensures
        r == addr - (addr % 8),
{
    proof {
        assert(addr & !7 == addr - (addr % 8)) by (bit_vector);
    }
    addr & !7
}

/// Replaces the byte of `word` addressed by `addr` with `val`, returning
/// the updated word together with the byte previously stored there.
///
/// This is the single mechanism behind both installing a trap
/// (`val == TRAP_OPCODE`) and restoring an original instruction byte.
pub fn write_byte_in_word(addr: usize, word: u64, val: u8) -> (r: (u64, u8))
    ensures
        r.0 == word_with_byte(word, (addr % 8) as int, val),
        r.1 == word_byte(word, (addr % 8) as int),
{
    let aligned = align_addr_to_word(addr);
    let byte_offset = addr - aligned;
    assert(byte_offset == addr % 8);
    let shift: u64 = 8 * (byte_offset as u64);
    let orig = ((word >> shift) & 0xff) as u8;
    let masked = word & !(0xffu64 << shift);
    let updated = masked | ((val as u64) << shift);
    (updated, orig)
}

/// Law: patching is byte-exact.  Replacing byte `i` of a word stores
/// exactly `val` at position `i`, and every other byte position of the
/// word reads back bit-identical to what it held before.
pub proof fn lemma_patch_byte_exact(word: u64, i: int, val: u8)
    requires
        0 <= i < 8,
    ensures
        word_byte(word_with_byte(word, i, val), i) == val,
        forall|j: int|
            0 <= j < 8 && j != i ==> word_byte(word_with_byte(word, i, val), j) == word_byte(
                word,
                j,
            ),
{
    let s = (8 * i) as u64;
    assert((((word & !(0xffu64 << s)) | ((val as u64) << s)) >> s) & 0xff == val as u64)
        by (bit_vector)
        requires
            s < 64 && s % 8 == 0,
    ;
    assert forall|j: int| 0 <= j < 8 && j != i implies word_byte(word_with_byte(word, i, val), j)
        == word_byte(word, j) by {
        let t = (8 * j) as u64;
        assert((((word & !(0xffu64 << s)) | ((val as u64) << s)) >> t) & 0xff == (word >> t) & 0xff)
            by (bit_vector)
            requires
                s < 64 && s % 8 == 0 && t < 64 && t % 8 == 0 && s != t,
        ;
    }
}

} // verus!
