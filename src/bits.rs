//! Bit-level view of monochrome bitmaps: bit `k` of a byte counts from the most significant bit.
use vstd::prelude::*;

verus! {

/// Whether bit `k` of `byte` is set, where bit 0 is the most significant one.
pub open spec fn bit_of(byte: u8, k: u8) -> bool {
    byte & (0x80u8 >> k) != 0
}

/// Bit `i` of a byte stream read most-significant-bit first.
pub open spec fn bit_at(data: Seq<u8>, i: int) -> bool {
    bit_of(data[i / 8], (i % 8) as u8)
}

/// The byte whose bit `k` is `f(k)`, for `k` in `0..8`.
pub open spec fn byte_from_bits(f: spec_fn(u8) -> bool) -> u8 {
    (if f(0) { 0x80u8 } else { 0u8 }) | (if f(1) { 0x40u8 } else { 0u8 }) | (if f(2) {
        0x20u8
    } else {
        0u8
    }) | (if f(3) { 0x10u8 } else { 0u8 }) | (if f(4) { 0x08u8 } else { 0u8 }) | (if f(5) {
        0x04u8
    } else {
        0u8
    }) | (if f(6) { 0x02u8 } else { 0u8 }) | (if f(7) { 0x01u8 } else { 0u8 })
}

/// Number of bytes in one byte-aligned row of `width` pixels.
pub open spec fn row_bytes(width: nat) -> nat {
    (width + 7) as nat / 8
}

/// Length of a byte-aligned bitmap of `height` rows of `width` pixels.
pub open spec fn aligned_len(height: nat, width: nat) -> nat {
    height * row_bytes(width)
}

/// Length of a packed bitmap: `height * width` bits rounded up to whole bytes.
pub open spec fn packed_len(height: nat, width: nat) -> nat {
    (height * width + 7) as nat / 8
}

/// The bits of `byte_from_bits(f)` are the values of `f`.
pub proof fn lemma_byte_from_bits(f: spec_fn(u8) -> bool)
    ensures
        forall|k: u8| k < 8 ==> #[trigger] bit_of(byte_from_bits(f), k) == f(k),
{
    let (b0, b1, b2, b3) = (f(0), f(1), f(2), f(3));
    let (b4, b5, b6, b7) = (f(4), f(5), f(6), f(7));
    let x = byte_from_bits(f);
    assert forall|k: u8| k < 8 implies #[trigger] bit_of(x, k) == f(k) by {
        assert(x & (0x80u8 >> k) != 0 <==> (k == 0 && b0) || (k == 1 && b1) || (k == 2 && b2) || (
        k == 3 && b3) || (k == 4 && b4) || (k == 5 && b5) || (k == 6 && b6) || (k == 7 && b7))
            by (bit_vector)
            requires
                k < 8,
                x == (if b0 { 0x80u8 } else { 0u8 }) | (if b1 { 0x40u8 } else { 0u8 }) | (if b2 {
                    0x20u8
                } else {
                    0u8
                }) | (if b3 { 0x10u8 } else { 0u8 }) | (if b4 { 0x08u8 } else { 0u8 }) | (if b5 {
                    0x04u8
                } else {
                    0u8
                }) | (if b6 { 0x02u8 } else { 0u8 }) | (if b7 { 0x01u8 } else { 0u8 }),
        ;
    }
}

/// A byte is determined by its eight bits.
pub proof fn lemma_bits_determine_byte(x: u8, y: u8)
    requires
        forall|k: u8| k < 8 ==> bit_of(x, k) == bit_of(y, k),
    ensures
        x == y,
{
    assert(bit_of(x, 0) == bit_of(y, 0));
    assert(bit_of(x, 1) == bit_of(y, 1));
    assert(bit_of(x, 2) == bit_of(y, 2));
    assert(bit_of(x, 3) == bit_of(y, 3));
    assert(bit_of(x, 4) == bit_of(y, 4));
    assert(bit_of(x, 5) == bit_of(y, 5));
    assert(bit_of(x, 6) == bit_of(y, 6));
    assert(bit_of(x, 7) == bit_of(y, 7));
    assert(x == y) by (bit_vector)
        requires
            (x & (0x80u8 >> 0u8) != 0) == (y & (0x80u8 >> 0u8) != 0),
            (x & (0x80u8 >> 1u8) != 0) == (y & (0x80u8 >> 1u8) != 0),
            (x & (0x80u8 >> 2u8) != 0) == (y & (0x80u8 >> 2u8) != 0),
            (x & (0x80u8 >> 3u8) != 0) == (y & (0x80u8 >> 3u8) != 0),
            (x & (0x80u8 >> 4u8) != 0) == (y & (0x80u8 >> 4u8) != 0),
            (x & (0x80u8 >> 5u8) != 0) == (y & (0x80u8 >> 5u8) != 0),
            (x & (0x80u8 >> 6u8) != 0) == (y & (0x80u8 >> 6u8) != 0),
            (x & (0x80u8 >> 7u8) != 0) == (y & (0x80u8 >> 7u8) != 0),
    ;
}

/// Position `j` of row `r` in rows of `s` items lies at `r * s + j`, and no further than the end
/// of `h` such rows.
pub proof fn lemma_row_index(r: int, j: int, s: int, h: int)
    requires
        0 <= r < h,
        0 <= j < s,
    ensures
        (r * s + j) / s == r,
        (r * s + j) % s == j,
        0 <= r * s + j < h * s,
{
    vstd::arithmetic::div_mod::lemma_fundamental_div_mod_converse(r * s + j, s, r, j);
    assert(0 <= r * s + j < h * s) by (nonlinear_arith)
        requires
            0 <= r < h,
            0 <= j < s,
    ;
}

/// An index below `h * s` splits into a row below `h` and a position below `s`.
pub proof fn lemma_split_index(i: int, s: int, h: int)
    requires
        0 <= i < h * s,
        h >= 0,
        s >= 0,
    ensures
        s > 0,
        0 <= i / s < h,
        0 <= i % s < s,
        i == (i / s) * s + i % s,
{
    assert(s > 0) by (nonlinear_arith)
        requires
            0 <= i < h * s,
            h >= 0,
            s >= 0,
    ;
    vstd::arithmetic::div_mod::lemma_fundamental_div_mod(i, s);
    vstd::arithmetic::div_mod::lemma_mod_pos_bound(i, s);
    vstd::arithmetic::mul::lemma_mul_is_commutative(s, i / s);
    assert(0 <= i / s < h) by (nonlinear_arith)
        requires
            0 <= i < h * s,
            s > 0,
            i == s * (i / s) + i % s,
            0 <= i % s < s,
    ;
}

/// Reads bit `k` of `byte`.
pub fn get_bit(byte: u8, k: u8) -> (r: bool)
    requires
        k < 8,
    ensures
        r == bit_of(byte, k),
{
    byte & (0x80u8 >> k) != 0
}

/// Sets bit `k` of `byte`, leaving the others as they are.
pub fn set_bit(byte: u8, k: u8) -> (r: u8)
    requires
        k < 8,
    ensures
        forall|j: u8| j < 8 ==> #[trigger] bit_of(r, j) == (j == k || bit_of(byte, j)),
{
    let r = byte | (0x80u8 >> k);
    assert(forall|j: u8|
        j < 8 ==> ((r & (0x80u8 >> j) != 0) == (j == k || byte & (0x80u8 >> j) != 0)))
        by (bit_vector)
        requires
            k < 8,
            r == byte | (0x80u8 >> k),
    ;
    r
}

/// Number of bytes in one byte-aligned row of `width` pixels.
pub fn row_bytes_of(width: u32) -> (r: u64)
    ensures
        r == row_bytes(width as nat),
{
    (width as u64 + 7) / 8
}

} // verus!
