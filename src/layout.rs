//! Conversions between the byte-aligned bitmap layout, where every row starts on a new byte,
//! and the packed layout, where rows follow each other bit by bit.
use crate::bits::{
    aligned_len, bit_at, bit_of, byte_from_bits, get_bit, lemma_bits_determine_byte,
    lemma_byte_from_bits, lemma_row_index, lemma_split_index, packed_len, row_bytes, set_bit,
};
use crate::glyph::aligned_pixel;
use vstd::prelude::*;

verus! {

/// Bit `k` of byte `t` of the byte-aligned form of a packed bitmap: the pixel it stands for if
/// it lies within the row, a clear padding bit otherwise.
pub open spec fn aligned_bit_from_packed(packed: Seq<u8>, width: nat, t: int, k: u8) -> bool {
    let c = 8 * (t % row_bytes(width) as int) + k;
    c < width && bit_at(packed, (t / row_bytes(width) as int) * width + c)
}

/// The byte-aligned form of a packed bitmap of `height` rows of `width` pixels.
pub open spec fn aligned_from_packed(packed: Seq<u8>, height: nat, width: nat) -> Seq<u8> {
    Seq::new(
        aligned_len(height, width),
        |t: int| byte_from_bits(|k: u8| aligned_bit_from_packed(packed, width, t, k)),
    )
}

/// Bit `k` of byte `t` of the packed form of a byte-aligned bitmap: pixel number `8 * t + k`
/// in reading order, or a clear bit past the last pixel.
pub open spec fn packed_bit_from_aligned(
    aligned: Seq<u8>,
    height: nat,
    width: nat,
    t: int,
    k: u8,
) -> bool {
    let i = 8 * t + k;
    i < height * width && aligned_pixel(aligned, width, i / width as int, i % width as int)
}

/// The packed form of a byte-aligned bitmap of `height` rows of `width` pixels.
pub open spec fn packed_from_aligned(aligned: Seq<u8>, height: nat, width: nat) -> Seq<u8> {
    Seq::new(
        packed_len(height, width),
        |t: int| byte_from_bits(|k: u8| packed_bit_from_aligned(aligned, height, width, t, k)),
    )
}

/// Byte `t` of the byte-aligned form of `data`.
fn aligned_byte_from_packed(data: &[u8], height: u16, width: u16, t: u64) -> (b: u8)
    requires
        data@.len() >= packed_len(height as nat, width as nat),
        t < aligned_len(height as nat, width as nat),
    ensures
        b == aligned_from_packed(data@, height as nat, width as nat)[t as int],
{
    let ghost f = |k: u8| aligned_bit_from_packed(data@, width as nat, t as int, k);
    let row = (width as u64 + 7) / 8;
    proof {
        lemma_split_index(t as int, row as int, height as int);
    }
    let r = t / row;
    let j = t % row;
    let mut byte: u8 = 0;
    let mut k: u8 = 0;
    assert(forall|x: u8| !bit_of(0u8, x)) by (bit_vector);
    while k < 8
        invariant
            k <= 8,
            row == row_bytes(width as nat),
            r == t / row,
            j == t % row,
            r < height,
            j < row <= 8192,
            data@.len() >= packed_len(height as nat, width as nat),
            forall|x: u8| #[trigger] f(x) == aligned_bit_from_packed(data@, width as nat, t as int, x),
            forall|x: u8| x < 8 ==> #[trigger] bit_of(byte, x) == (x < k && f(x)),
        decreases 8 - k,
    {
        let c = 8 * j + k as u64;
        let bit = if c < width as u64 {
            proof {
                lemma_row_index(r as int, c as int, width as int, height as int);
                assert(r * width <= 0xffff * 0xffff) by (nonlinear_arith)
                    requires
                        r < height <= 0xffff,
                        width <= 0xffff,
                ;
            }
            let i = r * width as u64 + c;
            get_bit(data[(i / 8) as usize], (i % 8) as u8)
        } else {
            false
        };
        assert(f(k) == bit);
        if bit {
            byte = set_bit(byte, k);
        }
        k = k + 1;
    }
    proof {
        lemma_byte_from_bits(f);
        lemma_bits_determine_byte(byte, byte_from_bits(f));
    }
    byte
}

/// Unpacks a bitmap whose rows follow each other with no padding into the byte-aligned layout:
/// each row of `width` bits is written most significant bit first and filled with zero bits up
/// to the next byte boundary.
pub fn packed_to_byte_aligned(data: &[u8], height: u16, width: u16) -> (r: Vec<u8>)
    requires
        data@.len() >= packed_len(height as nat, width as nat),
    ensures
        r@ == aligned_from_packed(data@, height as nat, width as nat),
{
    let row = (width as u64 + 7) / 8;
    assert(height * row <= 0xffff * 0xffff) by (nonlinear_arith)
        requires
            height <= 0xffff,
            row <= 0xffff,
    ;
    let total = height as u64 * row;
    let mut out: Vec<u8> = Vec::new();
    let mut t: u64 = 0;
    while t < total
        invariant
            total == aligned_len(height as nat, width as nat),
            t <= total,
            data@.len() >= packed_len(height as nat, width as nat),
            out@ == aligned_from_packed(data@, height as nat, width as nat).take(t as int),
        decreases total - t,
    {
        let b = aligned_byte_from_packed(data, height, width, t);
        out.push(b);
        t = t + 1;
        assert(out@ =~= aligned_from_packed(data@, height as nat, width as nat).take(t as int));
    }
    assert(out@ =~= aligned_from_packed(data@, height as nat, width as nat));
    out
}

/// Byte `t` of the packed form of `data`.
fn packed_byte_from_aligned(data: &[u8], height: u16, width: u16, t: u64) -> (b: u8)
    requires
        data@.len() == aligned_len(height as nat, width as nat),
        t < packed_len(height as nat, width as nat),
    ensures
        b == packed_from_aligned(data@, height as nat, width as nat)[t as int],
{
    let ghost f = |k: u8| packed_bit_from_aligned(data@, height as nat, width as nat, t as int, k);
    let row = (width as u64 + 7) / 8;
    assert(height * width <= 0xffff * 0xffff) by (nonlinear_arith)
        requires
            height <= 0xffff,
            width <= 0xffff,
    ;
    assert(height * row <= 0xffff * 0xffff) by (nonlinear_arith)
        requires
            height <= 0xffff,
            row <= 0xffff,
    ;
    let pixels = height as u64 * width as u64;
    let mut byte: u8 = 0;
    let mut k: u8 = 0;
    assert(forall|x: u8| !bit_of(0u8, x)) by (bit_vector);
    while k < 8
        invariant
            k <= 8,
            row == row_bytes(width as nat),
            pixels == height * width,
            height * row <= 0xffff * 0xffff,
            t < packed_len(height as nat, width as nat),
            data@.len() == aligned_len(height as nat, width as nat),
            forall|x: u8|
                #[trigger] f(x) == packed_bit_from_aligned(
                    data@,
                    height as nat,
                    width as nat,
                    t as int,
                    x,
                ),
            forall|x: u8| x < 8 ==> #[trigger] bit_of(byte, x) == (x < k && f(x)),
        decreases 8 - k,
    {
        let i = 8 * t + k as u64;
        let bit = if i < pixels {
            proof {
                lemma_split_index(i as int, width as int, height as int);
                lemma_row_index(
                    i as int / width as int,
                    (i as int % width as int) / 8,
                    row as int,
                    height as int,
                );
            }
            let r = i / width as u64;
            let c = i % width as u64;
            assert(c / 8 < row);
            assert(r * row + c / 8 < height * row);
            get_bit(data[(r * row + c / 8) as usize], (c % 8) as u8)
        } else {
            false
        };
        assert(f(k) == bit);
        if bit {
            byte = set_bit(byte, k);
        }
        k = k + 1;
    }
    proof {
        lemma_byte_from_bits(f);
        lemma_bits_determine_byte(byte, byte_from_bits(f));
    }
    byte
}

/// Packs a byte-aligned bitmap: the rows of `width` pixels are written one after the other with
/// no padding between them, and the last byte is filled with zero bits.
pub fn byte_aligned_to_packed(data: &[u8], height: u16, width: u16) -> (r: Vec<u8>)
    requires
        data@.len() == aligned_len(height as nat, width as nat),
    ensures
        r@ == packed_from_aligned(data@, height as nat, width as nat),
{
    assert(height * width <= 0xffff * 0xffff) by (nonlinear_arith)
        requires
            height <= 0xffff,
            width <= 0xffff,
    ;
    let total = (height as u64 * width as u64 + 7) / 8;
    let mut out: Vec<u8> = Vec::new();
    let mut t: u64 = 0;
    while t < total
        invariant
            total == packed_len(height as nat, width as nat),
            t <= total,
            data@.len() == aligned_len(height as nat, width as nat),
            out@ == packed_from_aligned(data@, height as nat, width as nat).take(t as int),
        decreases total - t,
    {
        let b = packed_byte_from_aligned(data, height, width, t);
        out.push(b);
        t = t + 1;
        assert(out@ =~= packed_from_aligned(data@, height as nat, width as nat).take(t as int));
    }
    assert(out@ =~= packed_from_aligned(data@, height as nat, width as nat));
    out
}

/// Unpacking a packed bitmap and packing it again gives back the same bytes, for every width,
/// provided the bits past the last pixel are clear.
pub proof fn lemma_packed_round_trip(packed: Seq<u8>, height: u16, width: u16)
    requires
        packed.len() == packed_len(height as nat, width as nat),
        forall|i: int| height * width <= i < 8 * packed.len() ==> !#[trigger] bit_at(packed, i),
    ensures
        packed_from_aligned(
            aligned_from_packed(packed, height as nat, width as nat),
            height as nat,
            width as nat,
        ) == packed,
{
    let (h, w) = (height as nat, width as nat);
    let s = row_bytes(w) as int;
    let a = aligned_from_packed(packed, h, w);
    let p = packed_from_aligned(a, h, w);
    assert forall|t: int| 0 <= t < packed.len() implies #[trigger] p[t] == packed[t] by {
        let f = |k: u8| packed_bit_from_aligned(a, h, w, t, k);
        assert forall|k: u8| k < 8 implies f(k) == #[trigger] bit_of(packed[t], k) by {
            let i = 8 * t + k;
            vstd::arithmetic::div_mod::lemma_fundamental_div_mod_converse(i, 8, t, k as int);
            if i < h * w {
                lemma_split_index(i, w as int, h as int);
                let r = i / w as int;
                let c = i % w as int;
                lemma_row_index(r, c / 8, s, h as int);
                let t2 = r * s + c / 8;
                let g = |x: u8| aligned_bit_from_packed(packed, w, t2, x);
                lemma_byte_from_bits(g);
                assert(bit_of(a[t2], (c % 8) as u8) == g((c % 8) as u8));
            } else {
                assert(!bit_at(packed, i));
            }
        }
        lemma_byte_from_bits(f);
        lemma_bits_determine_byte(p[t], packed[t]);
    }
    assert(p =~= packed);
}

/// Packing a byte-aligned bitmap and unpacking it again gives back the same bytes, for every
/// width, provided the bits right of the last column of each row are clear.
pub proof fn lemma_aligned_round_trip(aligned: Seq<u8>, height: u16, width: u16)
    requires
        aligned.len() == aligned_len(height as nat, width as nat),
        forall|r: int, c: int|
            0 <= r < height && width <= c < 8 * row_bytes(width as nat) ==> !#[trigger] aligned_pixel(
                aligned,
                width as nat,
                r,
                c,
            ),
    ensures
        aligned_from_packed(
            packed_from_aligned(aligned, height as nat, width as nat),
            height as nat,
            width as nat,
        ) == aligned,
{
    let (h, w) = (height as nat, width as nat);
    let s = row_bytes(w) as int;
    let p = packed_from_aligned(aligned, h, w);
    let b = aligned_from_packed(p, h, w);
    assert forall|t: int| 0 <= t < aligned.len() implies #[trigger] b[t] == aligned[t] by {
        let g = |k: u8| aligned_bit_from_packed(p, w, t, k);
        lemma_split_index(t, s, h as int);
        let r = t / s;
        let j = t % s;
        assert forall|k: u8| k < 8 implies g(k) == #[trigger] bit_of(aligned[t], k) by {
            let c = 8 * j + k;
            vstd::arithmetic::div_mod::lemma_fundamental_div_mod_converse(c, 8, j, k as int);
            if c < w {
                lemma_row_index(r, c, w as int, h as int);
                let i = r * w + c;
                let f = |x: u8| packed_bit_from_aligned(aligned, h, w, i / 8, x);
                lemma_byte_from_bits(f);
                vstd::arithmetic::div_mod::lemma_fundamental_div_mod(i, 8);
                assert(bit_of(p[i / 8], (i % 8) as u8) == f((i % 8) as u8));
            } else {
                assert(!aligned_pixel(aligned, w, r, c));
            }
        }
        lemma_byte_from_bits(g);
        lemma_bits_determine_byte(b[t], aligned[t]);
    }
    assert(b =~= aligned);
}

} // verus!
