use vstd::prelude::*;
use vstd::arithmetic::div_mod::lemma_mod_decreases;

use crate::color::ColorType;
use crate::color::color_type_code;

verus! {

/// Scanline data of an image while its filters are undone, with what the
/// filter predictors need to know about it.
pub struct Filtered {
    pub data: Vec<u8>,
    pub color_type: ColorType,
    pub scanline_len: u32,
    pub bit_depth: u8,
    pub ignore_0: bool,
}

/// Number of samples in one pixel of color type `t`.
pub open spec fn samples_per_pixel(t: ColorType) -> nat {
    match t {
        ColorType::IndexedColor | ColorType::Greyscale => 1,
        ColorType::Truecolor => 3,
        ColorType::GreyscaleAlpha => 2,
        ColorType::TruecolorAlpha => 4,
    }
}

/// Distance in bytes from a byte to the same byte of the pixel before it:
/// the number of samples, doubled at a bit depth of 16.
pub open spec fn pixel_distance(t: ColorType, bit_depth: u8) -> nat {
    samples_per_pixel(t) * (if bit_depth == 16 {
        2nat
    } else {
        1nat
    })
}

/// Byte `i` of `data`, or 0 where `data` has none.
pub open spec fn byte_or_zero(data: Seq<u8>, i: int) -> u8 {
    if 0 <= i < data.len() {
        data[i]
    } else {
        0
    }
}

/// |x|
pub open spec fn abs(x: int) -> int {
    if x < 0 {
        -x
    } else {
        x
    }
}

/// The Paeth predictor: of `a`, `b` and `c`, the one nearest to
/// `a + b - c`, ties going to `a`, then `b`.
pub open spec fn paeth_predictor(a: int, b: int, c: int) -> int {
    let p = a + b - c;
    let pa = abs(p - a);
    let pb = abs(p - b);
    let pc = abs(p - c);
    if pa <= pb && pa <= pc {
        a
    } else if pb <= pc {
        b
    } else {
        c
    }
}

impl Filtered {
    /// Byte `a`: the same byte of the pixel to the left. Positions are taken
    /// modulo 2^32; a byte at the start of a scanline has none, nor, when
    /// `ignore_0` is set, one whose left neighbour starts a scanline.
    pub open spec fn left_byte(&self, index: usize) -> u8 {
        let offset = pixel_distance(self.color_type, self.bit_depth);
        if (index as u32) % self.scanline_len < offset {
            0
        } else if ((index - offset) as u32) % self.scanline_len == 0 && self.ignore_0 {
            0
        } else {
            byte_or_zero(self.data@, index - offset)
        }
    }

    /// Byte `b`: the same byte of the scanline above.
    pub open spec fn up_byte(&self, index: usize) -> u8 {
        if (index as u32) >= self.scanline_len {
            byte_or_zero(self.data@, index - self.scanline_len)
        } else {
            0
        }
    }

    /// Byte `c`: byte `a` of the position in the scanline above.
    pub open spec fn up_left_byte(&self, index: usize) -> u8 {
        if (index as u32) > self.scanline_len {
            self.left_byte((index - self.scanline_len) as usize)
        } else {
            0
        }
    }

    /// Overwrites byte `index`.
    pub fn set(&mut self, index: usize, val: u8)
        requires
            index < old(self).data@.len(),
        ensures
            final(self).data@ == old(self).data@.update(index as int, val),
            final(self).color_type == old(self).color_type,
            final(self).scanline_len == old(self).scanline_len,
            final(self).bit_depth == old(self).bit_depth,
            final(self).ignore_0 == old(self).ignore_0,
    {
        self.data.set(index, val);
    }

    //Bytes
    //  |c|b|
    //  |a|x|
    //  x = current
    /// Byte `a` of position `index` (see `left_byte`).
    pub fn get_a(&self, index: usize) -> (r: u8)
        requires
            self.scanline_len > 0,
        ensures
            r == self.left_byte(index),
    {
        let offset: usize = match self.color_type {
            ColorType::IndexedColor | ColorType::Greyscale => 1,
            ColorType::Truecolor => 3,
            ColorType::GreyscaleAlpha => 2,
            ColorType::TruecolorAlpha => 4,
        } * if self.bit_depth == 16 {
            2
        } else {
            1
        };

        if index as u32 % self.scanline_len < offset as u32 {
            return 0;
        }
        proof {
            lemma_mod_decreases((index as u32) as nat, self.scanline_len as nat);
            assert((index as u32) as usize <= index) by (bit_vector);
        }

        let final_index = index - offset;

        if (final_index as u32) % self.scanline_len == 0 && self.ignore_0 {
            return 0;
        }

        if final_index < self.data.len() {
            self.data[final_index]
        } else {
            0
        }
    }

    /// Byte `b` of position `index` (see `up_byte`).
    pub fn get_b(&self, index: usize) -> (r: u8)
        ensures
            r == self.up_byte(index),
    {
        if index as u32 >= self.scanline_len {
            proof {
                assert((index as u32) as usize <= index) by (bit_vector);
            }
            let j = index - self.scanline_len as usize;
            if j < self.data.len() {
                self.data[j]
            } else {
                0
            }
        } else {
            0
        }
    }

    /// Byte `c` of position `index` (see `up_left_byte`).
    pub fn get_c(&self, index: usize) -> (r: u8)
        requires
            self.scanline_len > 0 || index as u32 == 0,
        ensures
            r == self.up_left_byte(index),
    {
        if index as u32 > self.scanline_len {
            proof {
                assert((index as u32) as usize <= index) by (bit_vector);
            }
            self.get_a(index - self.scanline_len as usize)
        } else {
            0
        }
    }

    /// The Paeth predictor of position `index` from its bytes `a`, `b`, `c`.
    pub fn paeth(&self, index: usize) -> (r: u8)
        requires
            self.scanline_len > 0,
        ensures
            r == paeth_predictor(
                self.left_byte(index) as int,
                self.up_byte(index) as int,
                self.up_left_byte(index) as int,
            ),
            r == self.left_byte(index) || r == self.up_byte(index) || r == self.up_left_byte(index),
    {
        let a = self.get_a(index) as i16;
        let b = self.get_b(index) as i16;
        let c = self.get_c(index) as i16;

        let p = a + b - c;
        let pa = abs_i16(p - a);
        let pb = abs_i16(p - b);
        let pc = abs_i16(p - c);

        if pa <= pb && pa <= pc {
            a as u8
        } else if pb <= pc {
            b as u8
        } else {
            c as u8
        }
    }
}

/// |x| for the small differences of the Paeth predictor.
fn abs_i16(x: i16) -> (r: i16)
    requires
        x > i16::MIN,
    ensures
        r == abs(x as int),
{
    if x < 0 {
        -x
    } else {
        x
    }
}


/// The Paeth predictor picks, of `a`, `b` and `c`, one nearest to
/// `p = a + b - c`; on a tie `a` wins, then `b`.
pub proof fn paeth_picks_nearest(a: int, b: int, c: int)
    ensures
        ({
            let p = a + b - c;
            let r = paeth_predictor(a, b, c);
            &&& r == a || r == b || r == c
            &&& abs(p - r) <= abs(p - a)
            &&& abs(p - r) <= abs(p - b)
            &&& abs(p - r) <= abs(p - c)
            &&& (abs(p - a) <= abs(p - b) && abs(p - a) <= abs(p - c) ==> r == a)
            &&& (r != a && abs(p - b) <= abs(p - c) ==> r == b)
        }),
{
}

/// The distance to the pixel before is the size of one pixel: one sample for
/// an indexed image (code bit 1), else one sample, three with color (code
/// bit 2), plus one with alpha (code bit 4); two bytes a sample at depth 16.
pub proof fn pixel_distance_is_pixel_size(t: ColorType, bit_depth: u8)
    ensures
        ({
            let code = color_type_code(t);
            let samples = if code % 2 == 1 {
                1int
            } else {
                (if (code / 2) % 2 == 1 {
                    3int
                } else {
                    1int
                }) + (if (code / 4) % 2 == 1 {
                    1int
                } else {
                    0int
                })
            };
            pixel_distance(t, bit_depth) == samples * (if bit_depth == 16 {
                2int
            } else {
                1int
            })
        }),
{
}

proof fn lemma_row_col(row: nat, col: nat, sl: nat)
    requires
        col < sl,
    ensures
        (row * sl + col) % sl == col,
        row > 0 ==> row * sl + col >= sl && (row * sl + col) - sl == (row - 1) * sl + col,
        row == 0 ==> row * sl + col == col,
{
    vstd::arithmetic::div_mod::lemma_fundamental_div_mod_converse(
        (row * sl + col) as int,
        sl as int,
        row as int,
        col as int,
    );
    assert(row > 0 ==> row * sl + col >= sl && (row * sl + col) - sl == (row - 1) * sl + col)
        by (nonlinear_arith);
    assert(row == 0 ==> row * sl + col == col) by (nonlinear_arith);
}

/// Byte `a` of column `col` in scanline `row` is the same byte of the pixel
/// before in that scanline; it is 0 in the first pixel of a scanline, and also
/// in the second when `ignore_0` is set.
pub proof fn left_byte_is_previous_pixel(f: Filtered, row: nat, col: nat)
    requires
        f.scanline_len > 0,
        col < f.scanline_len,
        row * f.scanline_len + col <= u32::MAX,
    ensures
        ({
            let i = row * f.scanline_len + col;
            let d = pixel_distance(f.color_type, f.bit_depth);
            &&& (col < d ==> f.left_byte(i as usize) == 0)
            &&& (col == d && f.ignore_0 ==> f.left_byte(i as usize) == 0)
            &&& (col >= d && !(col == d && f.ignore_0) && i - d < f.data@.len() ==> f.left_byte(
                i as usize,
            ) == f.data@[i - d])
        }),
{
    let sl = f.scanline_len as nat;
    let d = pixel_distance(f.color_type, f.bit_depth);
    lemma_row_col(row, col, sl);
    let i = row * sl + col;
    assert((i as usize) as u32 == i);
    if col >= d {
        lemma_row_col(row, (col - d) as nat, sl);
        assert(i - d == row * sl + (col - d));
        assert(((i - d) as u32) == i - d);
    }
}

/// Byte `b` of column `col` in scanline `row` is the byte in the same column of
/// the scanline above, and 0 in the first scanline.
pub proof fn up_byte_is_scanline_above(f: Filtered, row: nat, col: nat)
    requires
        col < f.scanline_len,
        row * f.scanline_len + col <= u32::MAX,
    ensures
        ({
            let sl = f.scanline_len as nat;
            let i = row * sl + col;
            &&& (row == 0 ==> f.up_byte(i as usize) == 0)
            &&& (row > 0 && (row - 1) * sl + col < f.data@.len() ==> f.up_byte(i as usize)
                == f.data@[(row - 1) * sl + col])
        }),
{
    let sl = f.scanline_len as nat;
    lemma_row_col(row, col, sl);
    let i = row * sl + col;
    assert((i as usize) as u32 == i);
}

/// Byte `c` of column `col` in scanline `row` is byte `a` of the same column in
/// the scanline above, and 0 in the first scanline.
pub proof fn up_left_byte_is_left_of_above(f: Filtered, row: nat, col: nat)
    requires
        f.scanline_len > 0,
        col < f.scanline_len,
        row * f.scanline_len + col <= u32::MAX,
    ensures
        ({
            let sl = f.scanline_len as nat;
            let i = row * sl + col;
            &&& (row == 0 ==> f.up_left_byte(i as usize) == 0)
            &&& (row > 0 ==> f.up_left_byte(i as usize) == f.left_byte(
                ((row - 1) * sl + col) as usize,
            ))
        }),
{
    let sl = f.scanline_len as nat;
    lemma_row_col(row, col, sl);
    let i = row * sl + col;
    assert((i as usize) as u32 == i);
    vstd::arithmetic::div_mod::lemma_small_mod(0, sl);
}
} // verus!
