use vstd::prelude::*;
use vstd::slice::slice_subrange;

verus! {

/// The color type of a PNG image, as the image header gives it.
#[derive(Debug, Clone, Copy, PartialEq, Eq, Structural)]
pub enum ColorType {
    Greyscale,
    Truecolor,
    IndexedColor,
    GreyscaleAlpha,
    TruecolorAlpha,
}

/// The code of each color type in the image header.
pub open spec fn color_type_code(t: ColorType) -> u8 {
    match t {
        ColorType::Greyscale => 0,
        ColorType::Truecolor => 2,
        ColorType::IndexedColor => 3,
        ColorType::GreyscaleAlpha => 4,
        ColorType::TruecolorAlpha => 6,
    }
}

/// `t` is the code of a color type.
pub open spec fn is_color_type_code(t: u8) -> bool {
    t == 0 || t == 2 || t == 3 || t == 4 || t == 6
}

/// The color type with header code `t`; no other code is a color type.
pub fn to_color_type(t: u8) -> (r: ColorType)
    requires
        is_color_type_code(t),
    ensures
        color_type_code(r) == t,
{
    match t {
        0 => ColorType::Greyscale,
        2 => ColorType::Truecolor,
        3 => ColorType::IndexedColor,
        4 => ColorType::GreyscaleAlpha,
        _ => ColorType::TruecolorAlpha,
    }
}

/// The bit depths that PNG allows for each color type.
pub open spec fn allowed_bit_depths(t: ColorType) -> Seq<u8> {
    match t {
        ColorType::Greyscale => seq![1u8, 2, 4, 8, 16],
        ColorType::IndexedColor => seq![1u8, 2, 4, 8],
        ColorType::Truecolor | ColorType::GreyscaleAlpha | ColorType::TruecolorAlpha => seq![
            8u8,
            16,
        ],
    }
}

/// Whether `depth` is an allowed bit depth for color type `t`.
pub fn validate_bit_depth(t: ColorType, depth: u8) -> (r: bool)
    ensures
        r == allowed_bit_depths(t).contains(depth),
{
    let valid: Vec<u8> = match t {
        ColorType::Greyscale => vec![1, 2, 4, 8, 16],
        ColorType::IndexedColor => vec![1, 2, 4, 8],
        ColorType::Truecolor | ColorType::GreyscaleAlpha | ColorType::TruecolorAlpha => vec![8, 16],
    };
    assert(valid@ == allowed_bit_depths(t));

    let mut i: usize = 0;
    while i < valid.len()
        invariant
            i <= valid@.len(),
            valid@ == allowed_bit_depths(t),
            forall|j: int| 0 <= j < i ==> valid@[j] != depth,
        decreases valid@.len() - i,
    {
        if valid[i] == depth {
            return true;
        }
        i += 1;
    }
    false
}

/// Transparency values of the palette entries (the tRNS chunk of an
/// indexed-color image).
pub struct TrnsPallete {
    inner: Vec<u8>,
}

impl View for TrnsPallete {
    type V = Seq<u8>;

    closed spec fn view(&self) -> Seq<u8> {
        self.inner@
    }
}

impl TrnsPallete {
    /// A table holding `data`.
    pub fn new(data: Vec<u8>) -> (r: Self)
        ensures
            r@ == data@,
    {
        Self { inner: data }
    }

    /// The transparency of palette entry `index`; entries that the table does
    /// not reach are opaque (255). The table length is compared as a byte, that
    /// is modulo 256.
    pub fn get(&self, index: u8) -> (r: u8)
        ensures
            r == (if index >= self@.len() % 256 {
                255u8
            } else {
                self@[index as int]
            }),
    {
        let len_byte = (self.inner.len() % 256) as u8;
        if index >= len_byte {
            255
        } else {
            self.inner[index as usize]
        }
    }
}

/// Palette entries, three bytes (red, green, blue) each.
pub struct Pallete {
    inner: Vec<u8>,
}

impl View for Pallete {
    type V = Seq<u8>;

    closed spec fn view(&self) -> Seq<u8> {
        self.inner@
    }
}

impl Pallete {
    /// A palette without entries.
    pub fn empty() -> (r: Self)
        ensures
            r@ == Seq::<u8>::empty(),
    {
        Self { inner: Vec::new() }
    }

    /// A palette holding `data`.
    pub fn new(data: Vec<u8>) -> (r: Self)
        ensures
            r@ == data@,
    {
        Self { inner: data }
    }

    /// The three bytes of palette entry `index`.
    pub fn get(&self, index: u8) -> (r: &[u8])
        requires
            3 * index + 3 <= self@.len(),
        ensures
            r@ == self@.subrange(3 * index, 3 * index + 3),
    {
        let index = index as usize * 3;

        slice_subrange(self.inner.as_slice(), index, index + 3)
    }
}

///Merges 2 u8 to create a u16
pub fn to_u16(a: u8, b: u8) -> (r: u16)
    ensures
        r == a + 256 * b,
        r & 0xff == a,
        r >> 8 == b,
{
    let r: u16 = (a as u16) | ((b as u16) << 8);
    assert(((a as u16) | ((b as u16) << 8)) == a + 256 * b) by (bit_vector);
    assert(((a as u16) | ((b as u16) << 8)) & 0xff == a) by (bit_vector);
    assert(((a as u16) | ((b as u16) << 8)) >> 8 == b) by (bit_vector);
    r
}


/// PNG's bit depth rules: a depth is a power of two up to 16; an indexed
/// image (code 3) has at most 8 bits, and the types with color or alpha
/// (codes 2, 4, 6) at least 8; greyscale (code 0) allows every depth.
pub proof fn allowed_bit_depths_follow_png_rules(t: ColorType, depth: u8)
    ensures
        allowed_bit_depths(t).contains(depth) <==> {
            &&& (depth == 1 || depth == 2 || depth == 4 || depth == 8 || depth == 16)
            &&& (color_type_code(t) == 3 ==> depth <= 8)
            &&& (color_type_code(t) == 2 || color_type_code(t) == 4 || color_type_code(t) == 6
                ==> depth >= 8)
        },
{
    let s = allowed_bit_depths(t);
    if exists|i: int| 0 <= i < s.len() && s[i] == depth {
        let i = choose|i: int| 0 <= i < s.len() && s[i] == depth;
        assert(0 <= i < s.len());
    }
    if depth == 1 || depth == 2 || depth == 4 || depth == 8 || depth == 16 {
        match t {
            ColorType::Greyscale => {
                assert(s[0] == 1 && s[1] == 2 && s[2] == 4 && s[3] == 8 && s[4] == 16);
            },
            ColorType::IndexedColor => {
                assert(s[0] == 1 && s[1] == 2 && s[2] == 4 && s[3] == 8);
            },
            _ => {
                assert(s[0] == 8 && s[1] == 16);
            },
        }
    }
}

/// The header code of a color type is made of flag bits: 1 for a palette,
/// 2 for color, 4 for alpha; different color types have different codes.
pub proof fn color_type_code_flags(t: ColorType, u: ColorType)
    ensures
        (color_type_code(t) % 2 == 1) <==> t == ColorType::IndexedColor,
        ((color_type_code(t) / 2) % 2 == 1) <==> (t == ColorType::Truecolor || t
            == ColorType::IndexedColor || t == ColorType::TruecolorAlpha),
        ((color_type_code(t) / 4) % 2 == 1) <==> (t == ColorType::GreyscaleAlpha || t
            == ColorType::TruecolorAlpha),
        color_type_code(t) == color_type_code(u) ==> t == u,
{
}
} // verus!
